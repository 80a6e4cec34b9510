//! The error kinds of the disassembly pipeline.
use vstd::prelude::*;

verus! {

/// Why building a disassembler, initialising its context or decoding an
/// instruction failed.
#[derive(Clone, Copy, Debug, PartialEq, Eq, Structural)]
pub enum DisasmError {
    /// The architecture identifier names no known architecture.
    UnknownArchitecture,
    /// The architecture's declarative description could not be compiled.
    SpecCompileError,
    /// A processor specification names a context field the model lacks.
    UnknownContextField,
    /// No decode-table entry matches the bytes under the current context.
    DecodeError,
    /// Fewer bytes were supplied than the matched encoding needs.
    TruncatedInput,
    /// The instruction's semantic template is missing or malformed.
    LiftError,
    /// The instruction could not be rendered as text.
    RenderError,
}

} // verus!
