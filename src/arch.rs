//! The architecture model as the core reads it: the named-register catalog
//! and the layout of the decode-context fields.
use vstd::prelude::*;
use crate::ir::VarNode;

verus! {

/// A catalog entry: a register's name and the storage location that
/// denotes it.
#[derive(Clone, Debug)]
pub struct NamedRegister {
    pub name: String,
    pub var: VarNode,
}

/// A named bit-range of the decode context: `width` bits starting at bit
/// `offset`.
#[derive(Clone, Debug)]
pub struct ContextField {
    pub name: String,
    pub offset: u32,
    pub width: u32,
}

impl ContextField {
    /// The field fits in a 64-bit context word and is at least one bit wide.
    pub open spec fn wf(&self) -> bool {
        1 <= self.width && self.offset + self.width <= 64
    }
}

/// The parts of a compiled architecture description that decoding,
/// context initialisation and register classification consult.
#[derive(Clone, Debug)]
pub struct ArchModel {
    pub named_registers: Vec<NamedRegister>,
    pub context_fields: Vec<ContextField>,
}

/// Whether `v` is the exact descriptor of some catalog entry.
pub open spec fn is_register(regs: Seq<NamedRegister>, v: VarNode) -> bool {
    exists|i: int| 0 <= i < regs.len() && #[trigger] regs[i].var == v
}

/// The index of the first context field named `name`, looking from `i` on.
pub open spec fn field_index_from(fields: Seq<ContextField>, name: Seq<char>, i: int) -> Option<int>
    decreases fields.len() - i,
{
    if i < 0 || i >= fields.len() {
        None
    } else if fields[i].name@ == name {
        Some(i)
    } else {
        field_index_from(fields, name, i + 1)
    }
}

/// The index of the first context field named `name`, if there is one.
pub open spec fn field_index(fields: Seq<ContextField>, name: Seq<char>) -> Option<int> {
    field_index_from(fields, name, 0)
}

impl ArchModel {
    /// Every context field fits in the context word.
    pub open spec fn wf(&self) -> bool {
        forall|i: int| 0 <= i < self.context_fields@.len() ==> #[trigger] self.context_fields@[i].wf()
    }

    /// Builds a model from its register catalog and context-field layout.
    pub fn new(named_registers: Vec<NamedRegister>, context_fields: Vec<ContextField>) -> (r:
        ArchModel)
        ensures
            r.named_registers@ == named_registers@,
            r.context_fields@ == context_fields@,
    {
        ArchModel { named_registers, context_fields }
    }

    /// Whether `v` is exactly the descriptor of a named register.
    pub fn is_named_register(&self, v: VarNode) -> (r: bool)
        ensures
            r == is_register(self.named_registers@, v),
    {
        let n = self.named_registers.len();
        let mut i: usize = 0;
        while i < n
            invariant
                n == self.named_registers@.len(),
                i <= n,
                forall|j: int| 0 <= j < i ==> self.named_registers@[j].var != v,
            decreases n - i,
        {
            if self.named_registers[i].var == v {
                return true;
            }
            i += 1;
        }
        false
    }

    /// The index of the first context field called `name`, or `None` where
    /// the model has no such field.
    pub fn context_field(&self, name: &String) -> (r: Option<usize>)
        ensures
            r matches Some(i) ==> field_index(self.context_fields@, name@) == Some(i as int) && i
                < self.context_fields@.len() && self.context_fields@[i as int].name@ == name@,
            r is None ==> field_index(self.context_fields@, name@) is None,
    {
        let n = self.context_fields.len();
        let mut i: usize = 0;
        while i < n
            invariant
                n == self.context_fields@.len(),
                i <= n,
                field_index(self.context_fields@, name@) == field_index_from(
                    self.context_fields@,
                    name@,
                    i as int,
                ),
            decreases n - i,
        {
            if self.context_fields[i].name == *name {
                return Some(i);
            }
            i += 1;
        }
        None
    }
}

} // verus!
