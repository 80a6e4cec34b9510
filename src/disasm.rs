//! The disassembler core: the decode context that persists across calls,
//! and the assembly of one instruction's result record from what the
//! decoder, renderer and lifter produced.
use vstd::prelude::*;
use crate::arch::ArchModel;
use crate::classify::{classify, input_registers, output_registers, reads_memory, writes_memory};
use crate::context::{apply_assignments, initialize, ContextAssignment};
use crate::error::DisasmError;
use crate::ir::{MicroOp, VarNode};

verus! {

/// Why the instruction decoder produced no instruction.
#[derive(Clone, Copy, Debug, PartialEq, Eq, Structural)]
pub enum DecodeFault {
    /// No decode-table entry matches the bytes.
    NoMatch,
    /// The matched encoding needs more bytes than were supplied.
    Truncated,
}

/// What the instruction decoder reports for a successful match: the number
/// of bytes consumed and the decode context it leaves for the next call.
#[derive(Clone, Copy, Debug, PartialEq, Eq, Structural)]
pub struct Decoded {
    pub length: u64,
    pub context: u64,
}

/// The results of the decoder, renderer and lifter for one instruction.
/// `text` and `lifted` are `None` where rendering or lifting failed, or
/// was not attempted because decoding had failed.
#[derive(Debug)]
pub struct DecodeOutcome {
    pub decoded: Result<Decoded, DecodeFault>,
    pub text: Option<String>,
    pub lifted: Option<Vec<MicroOp>>,
}

/// A decoded instruction: its address, the number of bytes it occupies and
/// a copy of those bytes.
#[derive(Clone, Debug)]
pub struct Instruction {
    pub address: u64,
    pub length: u64,
    pub bytes: Vec<u8>,
}

/// The result record of one decoded instruction: its text, the named
/// registers its semantics read and write, the instruction, its micro-ops,
/// and whether they load from or store to memory.
#[derive(Clone, Debug)]
pub struct Insn {
    pub string: String,
    pub inputs: Vec<VarNode>,
    pub outputs: Vec<VarNode>,
    pub insn: Instruction,
    pub pcode: Vec<MicroOp>,
    pub load: bool,
    pub store: bool,
}

/// The error, if any, with which a decoder report ends a decode call on
/// `supplied` bytes. A report of zero bytes or of more bytes than were
/// supplied is no instruction.
pub open spec fn decode_failure(decoded: Result<Decoded, DecodeFault>, supplied: int) -> Option<
    DisasmError,
> {
    match decoded {
        Err(DecodeFault::NoMatch) => Some(DisasmError::DecodeError),
        Err(DecodeFault::Truncated) => Some(DisasmError::TruncatedInput),
        Ok(d) => if d.length == 0 {
            Some(DisasmError::DecodeError)
        } else if d.length > supplied {
            Some(DisasmError::TruncatedInput)
        } else {
            None
        },
    }
}

/// The decode context after a decode call that started from `ctx`: the
/// decoder's where it matched an instruction, `ctx` otherwise.
pub open spec fn context_after(ctx: u64, decoded: Result<Decoded, DecodeFault>, supplied: int) -> u64 {
    if decode_failure(decoded, supplied) is None {
        decoded->Ok_0.context
    } else {
        ctx
    }
}

impl Insn {
    /// This record is the one assembled for `ops` and `text`, decoded at
    /// `address` from the first `length` of `bytes`, against the catalog
    /// `model`.
    pub open spec fn assembled_from(
        &self,
        model: ArchModel,
        address: u64,
        bytes: Seq<u8>,
        length: u64,
        text: Seq<char>,
        ops: Seq<MicroOp>,
    ) -> bool {
        &&& self.string@ == text
        &&& self.inputs@ == input_registers(model.named_registers@, ops)
        &&& self.outputs@ == output_registers(model.named_registers@, ops)
        &&& self.insn.address == address
        &&& self.insn.length == length
        &&& self.insn.bytes@ == bytes.subrange(0, length as int)
        &&& self.pcode@ == ops
        &&& self.load == reads_memory(ops)
        &&& self.store == writes_memory(ops)
    }

    /// The address just past this instruction, where decoding of the next
    /// one starts; `None` where it does not fit in 64 bits.
    pub fn next_address(&self) -> (r: Option<u64>)
        ensures
            self.insn.address + self.insn.length <= u64::MAX ==> r == Some(
                (self.insn.address + self.insn.length) as u64,
            ),
            self.insn.address + self.insn.length > u64::MAX ==> r is None,
    {
        self.insn.address.checked_add(self.insn.length)
    }
}

/// Without a mode change (the decoder hands back the context it was given),
/// a decode call leaves the context as it found it, so the call that
/// decodes the remaining bytes starts from the state a linear scan would
/// reach; a failed decode never changes the context.
pub proof fn lemma_context_kept_without_mode_change(
    ctx: u64,
    decoded: Result<Decoded, DecodeFault>,
    supplied: int,
)
    requires
        decoded matches Ok(d) ==> d.context == ctx,
    ensures
        context_after(ctx, decoded, supplied) == ctx,
{
}

/// The first `len` bytes of `bytes`.
fn copy_prefix(bytes: &[u8], len: usize) -> (r: Vec<u8>)
    requires
        len <= bytes@.len(),
    ensures
        r@ == bytes@.subrange(0, len as int),
{
    let mut out: Vec<u8> = Vec::new();
    let mut i: usize = 0;
    while i < len
        invariant
            i <= len,
            len <= bytes@.len(),
            out@ == bytes@.subrange(0, i as int),
        decreases len - i,
    {
        out.push(bytes[i]);
        assert(out@ =~= bytes@.subrange(0, i + 1));
        i += 1;
    }
    out
}

/// A disassembler for one architecture: the architecture model and the
/// decode context, which persists from one decode call to the next.
#[derive(Clone, Debug)]
pub struct Disassembler {
    model: ArchModel,
    context: u64,
}

impl Disassembler {
    /// The architecture model this disassembler decodes against.
    pub closed spec fn arch_model(&self) -> ArchModel {
        self.model
    }

    /// The decode context the next decode call starts from.
    pub closed spec fn decode_context(&self) -> u64 {
        self.context
    }

    /// A disassembler over `model` whose decoding starts in the model's
    /// default context.
    pub fn new(model: ArchModel, default_context: u64) -> (r: Disassembler)
        ensures
            r.arch_model() == model,
            r.decode_context() == default_context,
    {
        Disassembler { model, context: default_context }
    }

    /// The current decode context.
    pub fn context(&self) -> (r: u64)
        ensures
            r == self.decode_context(),
    {
        self.context
    }

    /// The architecture model.
    pub fn model(&self) -> (r: &ArchModel)
        ensures
            *r == self.arch_model(),
    {
        &self.model
    }

    /// Replaces the decode context with the one a processor specification
    /// describes (see [`initialize`]). Fails, leaving the context as it
    /// was, where an assignment names a field that the model lacks.
    pub fn init_context(&mut self, assignments: &Vec<ContextAssignment>) -> (r: Result<(), DisasmError>)
        requires
            old(self).arch_model().wf(),
        ensures
            final(self).arch_model() == old(self).arch_model(),
            match apply_assignments(old(self).arch_model().context_fields@, assignments@, 0) {
                Some(c) => r == Ok::<(), DisasmError>(()) && final(self).decode_context() == c,
                None => r == Err::<(), DisasmError>(DisasmError::UnknownContextField)
                    && final(self).decode_context() == old(self).decode_context(),
            },
    {
        match initialize(&self.model, assignments) {
            Ok(c) => {
                self.context = c;
                Ok(())
            },
            Err(e) => Err(e),
        }
    }

    /// Completes the decoding of one instruction at `base_addr` from
    /// `bytes`, given what the decoder, renderer and lifter produced for
    /// them under the current context. The first failure wins: a decode
    /// failure, then a render failure, then a lift failure. On a match the
    /// context becomes the one the decoder left; the result holds the
    /// text, the consumed bytes, the micro-ops and their classification.
    pub fn decode(&mut self, base_addr: u64, bytes: &[u8], outcome: DecodeOutcome) -> (r: Result<
        Insn,
        DisasmError,
    >)
        ensures
            final(self).arch_model() == old(self).arch_model(),
            final(self).decode_context() == context_after(
                old(self).decode_context(),
                outcome.decoded,
                bytes@.len() as int,
            ),
            match decode_failure(outcome.decoded, bytes@.len() as int) {
                Some(e) => r == Err::<Insn, DisasmError>(e),
                None => match (outcome.text, outcome.lifted) {
                    (None, _) => r == Err::<Insn, DisasmError>(DisasmError::RenderError),
                    (Some(_), None) => r == Err::<Insn, DisasmError>(DisasmError::LiftError),
                    (Some(t), Some(ops)) => r matches Ok(insn) && insn.assembled_from(
                        old(self).arch_model(),
                        base_addr,
                        bytes@,
                        outcome.decoded->Ok_0.length,
                        t@,
                        ops@,
                    ),
                },
            },
            r matches Ok(insn) ==> 0 < insn.insn.length <= bytes@.len(),
    {
        let d = match outcome.decoded {
            Err(DecodeFault::NoMatch) => {
                return Err(DisasmError::DecodeError);
            },
            Err(DecodeFault::Truncated) => {
                return Err(DisasmError::TruncatedInput);
            },
            Ok(d) => d,
        };
        if d.length == 0 {
            return Err(DisasmError::DecodeError);
        }
        if d.length > bytes.len() as u64 {
            return Err(DisasmError::TruncatedInput);
        }
        self.context = d.context;
        let DecodeOutcome { decoded: _, text, lifted } = outcome;
        let string = match text {
            None => {
                return Err(DisasmError::RenderError);
            },
            Some(t) => t,
        };
        let pcode = match lifted {
            None => {
                return Err(DisasmError::LiftError);
            },
            Some(ops) => ops,
        };
        let usage = classify(&self.model, &pcode);
        let insn = Instruction {
            address: base_addr,
            length: d.length,
            bytes: copy_prefix(bytes, d.length as usize),
        };
        Ok(
            Insn {
                string,
                inputs: usage.inputs,
                outputs: usage.outputs,
                insn,
                pcode,
                load: usage.load,
                store: usage.store,
            },
        )
    }
}

} // verus!
