//! Decode-lift-classify core of a machine-code disassembler.
//!
//! The library models one instruction's lifted semantics as a block of
//! micro-ops over storage locations, classifies which named registers the
//! block reads and writes, tracks the bit-packed decode context, and
//! assembles the per-instruction result record. The instruction-set
//! decoder, text renderer and semantic lifter are collaborators whose
//! results are handed to [`Disassembler::decode`] as plain values.

mod arch;
mod classify;
mod context;
mod disasm;
mod error;
mod ir;

pub use arch::{field_index, field_index_from, is_register, ArchModel, ContextField, NamedRegister};
pub use classify::{
    add_new, classify, dedup, input_refs, input_registers, is_register_set,
    lemma_classify_repeat_stable, lemma_dedup_contains, lemma_dedup_no_duplicates,
    lemma_memory_flags, lemma_read_written_register_in_both, lemma_usage_is_register_sets,
    operand_var, output_refs, output_registers, reads_memory, register_ref, writes_memory,
    RegisterUsage,
};
pub use context::{
    all_fields_known, apply_assignments, field_value, get_field, initialize, lemma_disjoint_field_kept,
    lemma_field_read_back,
    low_mask, set_field, with_field, ContextAssignment,
};
pub use disasm::{
    context_after, decode_failure, lemma_context_kept_without_mode_change, DecodeFault,
    DecodeOutcome, Decoded, Disassembler, Insn, Instruction,
};
pub use error::DisasmError;
pub use ir::{MicroOp, Op, Value, VarNode};
