//! Register-usage classification of a lifted block.
use vstd::prelude::*;
use crate::arch::{is_register, ArchModel, NamedRegister};
use crate::ir::{MicroOp, Value, VarNode};

verus! {

/// The location that an input operand refers to, if it is not a constant.
pub open spec fn operand_var(v: Option<Value>) -> Option<VarNode> {
    match v {
        Some(Value::Var(x)) => Some(x),
        _ => None,
    }
}

/// The location `v` as a one-element sequence where it is a named
/// register, and the empty sequence otherwise.
pub open spec fn register_ref(regs: Seq<NamedRegister>, v: Option<VarNode>) -> Seq<VarNode> {
    match v {
        Some(x) => if is_register(regs, x) {
            seq![x]
        } else {
            Seq::empty()
        },
        None => Seq::empty(),
    }
}

/// Every named-register reference made by an input operand of `ops`, in
/// order, repeats included.
pub open spec fn input_refs(regs: Seq<NamedRegister>, ops: Seq<MicroOp>) -> Seq<VarNode>
    decreases ops.len(),
{
    if ops.len() == 0 {
        Seq::empty()
    } else {
        input_refs(regs, ops.drop_last()) + register_ref(regs, operand_var(ops.last().first))
            + register_ref(regs, operand_var(ops.last().second))
    }
}

/// Every named-register reference made by an output of `ops`, in order,
/// repeats included.
pub open spec fn output_refs(regs: Seq<NamedRegister>, ops: Seq<MicroOp>) -> Seq<VarNode>
    decreases ops.len(),
{
    if ops.len() == 0 {
        Seq::empty()
    } else {
        output_refs(regs, ops.drop_last()) + register_ref(regs, ops.last().output)
    }
}

/// `d` with `x` appended unless it is already there.
pub open spec fn add_new(d: Seq<VarNode>, x: VarNode) -> Seq<VarNode> {
    if d.contains(x) {
        d
    } else {
        d.push(x)
    }
}

/// The distinct elements of `s`, in the order of their first occurrence.
pub open spec fn dedup(s: Seq<VarNode>) -> Seq<VarNode>
    decreases s.len(),
{
    if s.len() == 0 {
        s
    } else {
        add_new(dedup(s.drop_last()), s.last())
    }
}

/// The named registers that `ops` reads, each once, in order of first use.
pub open spec fn input_registers(regs: Seq<NamedRegister>, ops: Seq<MicroOp>) -> Seq<VarNode> {
    dedup(input_refs(regs, ops))
}

/// The named registers that `ops` writes, each once, in order of first use.
pub open spec fn output_registers(regs: Seq<NamedRegister>, ops: Seq<MicroOp>) -> Seq<VarNode> {
    dedup(output_refs(regs, ops))
}

/// Whether some micro-op of `ops` is a load.
pub open spec fn reads_memory(ops: Seq<MicroOp>) -> bool {
    exists|i: int| 0 <= i < ops.len() && (#[trigger] ops[i]).op is Load
}

/// Whether some micro-op of `ops` is a store.
pub open spec fn writes_memory(ops: Seq<MicroOp>) -> bool {
    exists|i: int| 0 <= i < ops.len() && (#[trigger] ops[i]).op is Store
}

/// What a lifted block does with architectural state: the named registers
/// it reads and writes, and whether it loads from or stores to memory.
#[derive(Clone, Debug)]
pub struct RegisterUsage {
    pub inputs: Vec<VarNode>,
    pub outputs: Vec<VarNode>,
    pub load: bool,
    pub store: bool,
}

impl RegisterUsage {
    /// This record is the classification of `ops` against the catalog `regs`.
    pub open spec fn describes(&self, regs: Seq<NamedRegister>, ops: Seq<MicroOp>) -> bool {
        &&& self.inputs@ == input_registers(regs, ops)
        &&& self.outputs@ == output_registers(regs, ops)
        &&& self.load == reads_memory(ops)
        &&& self.store == writes_memory(ops)
    }
}

/// Extending by at most one element extends the distinct elements by that
/// element when it is new.
proof fn lemma_dedup_extend(s: Seq<VarNode>, t: Seq<VarNode>)
    requires
        t.len() <= 1,
    ensures
        dedup(s + t) == if t.len() == 0 {
            dedup(s)
        } else {
            add_new(dedup(s), t[0])
        },
{
    if t.len() == 0 {
        assert(s + t =~= s);
    } else {
        assert((s + t).drop_last() =~= s);
        assert((s + t).last() == t[0]);
    }
}

/// The distinct elements of `s` are exactly the elements of `s`.
pub proof fn lemma_dedup_contains(s: Seq<VarNode>, x: VarNode)
    ensures
        dedup(s).contains(x) <==> s.contains(x),
    decreases s.len(),
{
    if s.len() > 0 {
        let p = s.drop_last();
        lemma_dedup_contains(p, x);
        assert(s =~= p.push(s.last()));
        let d = dedup(p);
        if !d.contains(s.last()) {
            if d.push(s.last()).contains(x) && x != s.last() {
                let k = choose|k: int| 0 <= k < d.push(s.last()).len() && d.push(s.last())[k] == x;
                assert(d[k] == x);
            }
            if d.contains(x) {
                let k = choose|k: int| 0 <= k < d.len() && d[k] == x;
                assert(d.push(s.last())[k] == x);
            }
            assert(d.push(s.last())[d.len() as int] == s.last());
        }
        if s.contains(x) && x != s.last() {
            let k = choose|k: int| 0 <= k < s.len() && s[k] == x;
            assert(p[k] == x);
        }
        if p.contains(x) {
            let k = choose|k: int| 0 <= k < p.len() && p[k] == x;
            assert(s[k] == x);
        }
        assert(s[s.len() - 1] == s.last());
    }
}

/// The distinct elements of `s` hold no element twice.
pub proof fn lemma_dedup_no_duplicates(s: Seq<VarNode>)
    ensures
        dedup(s).no_duplicates(),
    decreases s.len(),
{
    if s.len() > 0 {
        lemma_dedup_no_duplicates(s.drop_last());
        let d = dedup(s.drop_last());
        if !d.contains(s.last()) {
            let e = d.push(s.last());
            assert forall|i: int, j: int| 0 <= i < e.len() && 0 <= j < e.len() && i != j implies e[i]
                != e[j] by {
                if i < d.len() && j < d.len() {
                    assert(e[i] == d[i] && e[j] == d[j]);
                } else if i < d.len() {
                    assert(e[i] == d[i]);
                } else if j < d.len() {
                    assert(e[j] == d[j]);
                }
            }
        }
    }
}

/// Appending elements that already occur leaves the distinct elements as
/// they were.
proof fn lemma_dedup_absorb(s: Seq<VarNode>, t: Seq<VarNode>)
    requires
        forall|k: int| 0 <= k < t.len() ==> s.contains(#[trigger] t[k]),
    ensures
        dedup(s + t) == dedup(s),
    decreases t.len(),
{
    if t.len() == 0 {
        assert(s + t =~= s);
    } else {
        let u = t.drop_last();
        assert((s + t).drop_last() =~= s + u);
        assert((s + t).last() == t[t.len() - 1]);
        assert forall|k: int| 0 <= k < u.len() implies s.contains(#[trigger] u[k]) by {
            assert(u[k] == t[k]);
        }
        lemma_dedup_absorb(s, u);
        lemma_dedup_contains(s, t[t.len() - 1]);
    }
}

/// Register references of a concatenation are those of the parts, in order.
proof fn lemma_refs_concat(regs: Seq<NamedRegister>, a: Seq<MicroOp>, b: Seq<MicroOp>)
    ensures
        input_refs(regs, a + b) == input_refs(regs, a) + input_refs(regs, b),
        output_refs(regs, a + b) == output_refs(regs, a) + output_refs(regs, b),
    decreases b.len(),
{
    if b.len() == 0 {
        assert(a + b =~= a);
        assert(input_refs(regs, a) + input_refs(regs, b) =~= input_refs(regs, a));
        assert(output_refs(regs, a) + output_refs(regs, b) =~= output_refs(regs, a));
    } else {
        lemma_refs_concat(regs, a, b.drop_last());
        assert((a + b).drop_last() =~= a + b.drop_last());
        assert((a + b).last() == b.last());
        let x = register_ref(regs, operand_var(b.last().first));
        let y = register_ref(regs, operand_var(b.last().second));
        let z = register_ref(regs, b.last().output);
        let ia = input_refs(regs, a);
        let ib = input_refs(regs, b.drop_last());
        assert(ia + ib + x + y =~= ia + (ib + x + y));
        let oa = output_refs(regs, a);
        let ob = output_refs(regs, b.drop_last());
        assert(oa + ob + z =~= oa + (ob + z));
    }
}

/// A register read by micro-op `i` occurs among the input references.
proof fn lemma_input_ref_at(regs: Seq<NamedRegister>, ops: Seq<MicroOp>, i: int, v: VarNode)
    requires
        0 <= i < ops.len(),
        is_register(regs, v),
        operand_var(ops[i].first) == Some(v) || operand_var(ops[i].second) == Some(v),
    ensures
        input_refs(regs, ops).contains(v),
    decreases ops.len(),
{
    let p = ops.drop_last();
    let x = register_ref(regs, operand_var(ops.last().first));
    let y = register_ref(regs, operand_var(ops.last().second));
    let r = input_refs(regs, p);
    if i == ops.len() - 1 {
        if operand_var(ops[i].first) == Some(v) {
            assert((r + x + y)[r.len() as int] == v);
        } else {
            assert((r + x + y)[(r.len() + x.len()) as int] == v);
        }
    } else {
        assert(p[i] == ops[i]);
        lemma_input_ref_at(regs, p, i, v);
        let k = choose|k: int| 0 <= k < r.len() && r[k] == v;
        assert((r + x + y)[k] == v);
    }
}

/// A register written by micro-op `j` occurs among the output references.
proof fn lemma_output_ref_at(regs: Seq<NamedRegister>, ops: Seq<MicroOp>, j: int, v: VarNode)
    requires
        0 <= j < ops.len(),
        is_register(regs, v),
        ops[j].output == Some(v),
    ensures
        output_refs(regs, ops).contains(v),
    decreases ops.len(),
{
    let p = ops.drop_last();
    let z = register_ref(regs, ops.last().output);
    let r = output_refs(regs, p);
    if j == ops.len() - 1 {
        assert((r + z)[r.len() as int] == v);
    } else {
        assert(p[j] == ops[j]);
        lemma_output_ref_at(regs, p, j, v);
        let k = choose|k: int| 0 <= k < r.len() && r[k] == v;
        assert((r + z)[k] == v);
    }
}

/// Every reference collected from `ops` is to a named register.
proof fn lemma_refs_are_registers(regs: Seq<NamedRegister>, ops: Seq<MicroOp>)
    ensures
        forall|k: int|
            0 <= k < input_refs(regs, ops).len() ==> is_register(
                regs,
                #[trigger] input_refs(regs, ops)[k],
            ),
        forall|k: int|
            0 <= k < output_refs(regs, ops).len() ==> is_register(
                regs,
                #[trigger] output_refs(regs, ops)[k],
            ),
    decreases ops.len(),
{
    if ops.len() > 0 {
        let p = ops.drop_last();
        lemma_refs_are_registers(regs, p);
        let r = input_refs(regs, p);
        let x = register_ref(regs, operand_var(ops.last().first));
        let y = register_ref(regs, operand_var(ops.last().second));
        assert forall|k: int| 0 <= k < (r + x + y).len() implies is_register(
            regs,
            #[trigger] (r + x + y)[k],
        ) by {
            if k < r.len() {
                assert((r + x + y)[k] == r[k]);
            } else if k < r.len() + x.len() {
                assert((r + x + y)[k] == x[k - r.len()]);
            } else {
                assert((r + x + y)[k] == y[k - r.len() - x.len()]);
            }
        }
        let o = output_refs(regs, p);
        let z = register_ref(regs, ops.last().output);
        assert forall|k: int| 0 <= k < (o + z).len() implies is_register(
            regs,
            #[trigger] (o + z)[k],
        ) by {
            if k < o.len() {
                assert((o + z)[k] == o[k]);
            } else {
                assert((o + z)[k] == z[k - o.len()]);
            }
        }
    }
}

/// A register-set contents is a set of distinct named registers.
pub open spec fn is_register_set(regs: Seq<NamedRegister>, s: Seq<VarNode>) -> bool {
    &&& s.no_duplicates()
    &&& forall|k: int| 0 <= k < s.len() ==> is_register(regs, #[trigger] s[k])
}

/// The classified inputs and outputs hold each named register at most once,
/// and nothing that is not a named register.
pub proof fn lemma_usage_is_register_sets(regs: Seq<NamedRegister>, ops: Seq<MicroOp>)
    ensures
        is_register_set(regs, input_registers(regs, ops)),
        is_register_set(regs, output_registers(regs, ops)),
{
    lemma_refs_are_registers(regs, ops);
    lemma_dedup_no_duplicates(input_refs(regs, ops));
    lemma_dedup_no_duplicates(output_refs(regs, ops));
    let ins = input_registers(regs, ops);
    let outs = output_registers(regs, ops);
    assert forall|k: int| 0 <= k < ins.len() implies is_register(regs, #[trigger] ins[k]) by {
        assert(ins.contains(ins[k]));
        lemma_dedup_contains(input_refs(regs, ops), ins[k]);
    }
    assert forall|k: int| 0 <= k < outs.len() implies is_register(regs, #[trigger] outs[k]) by {
        assert(outs.contains(outs[k]));
        lemma_dedup_contains(output_refs(regs, ops), outs[k]);
    }
}

/// Classification depends on the catalog and the block alone, and
/// repeating the block's micro-ops changes neither register set nor either
/// flag: references already seen collapse into the existing entries.
pub proof fn lemma_classify_repeat_stable(regs: Seq<NamedRegister>, ops: Seq<MicroOp>)
    ensures
        input_registers(regs, ops + ops) == input_registers(regs, ops),
        output_registers(regs, ops + ops) == output_registers(regs, ops),
        reads_memory(ops + ops) == reads_memory(ops),
        writes_memory(ops + ops) == writes_memory(ops),
{
    lemma_refs_concat(regs, ops, ops);
    let i = input_refs(regs, ops);
    let o = output_refs(regs, ops);
    assert forall|k: int| 0 <= k < i.len() implies i.contains(#[trigger] i[k]) by {}
    assert forall|k: int| 0 <= k < o.len() implies o.contains(#[trigger] o[k]) by {}
    lemma_dedup_absorb(i, i);
    lemma_dedup_absorb(o, o);
    let d = ops + ops;
    if reads_memory(d) {
        let k = choose|k: int| 0 <= k < d.len() && (#[trigger] d[k]).op is Load;
        if k < ops.len() {
            assert(d[k] == ops[k]);
        } else {
            assert(d[k] == ops[k - ops.len()]);
        }
    }
    if reads_memory(ops) {
        let k = choose|k: int| 0 <= k < ops.len() && (#[trigger] ops[k]).op is Load;
        assert(d[k] == ops[k]);
    }
    if writes_memory(d) {
        let k = choose|k: int| 0 <= k < d.len() && (#[trigger] d[k]).op is Store;
        if k < ops.len() {
            assert(d[k] == ops[k]);
        } else {
            assert(d[k] == ops[k - ops.len()]);
        }
    }
    if writes_memory(ops) {
        let k = choose|k: int| 0 <= k < ops.len() && (#[trigger] ops[k]).op is Store;
        assert(d[k] == ops[k]);
    }
}

/// The load flag is raised exactly when some micro-op is a load, and the
/// store flag exactly when some micro-op is a store.
pub proof fn lemma_memory_flags(ops: Seq<MicroOp>, i: int)
    requires
        0 <= i < ops.len(),
    ensures
        ops[i].op is Load ==> reads_memory(ops),
        ops[i].op is Store ==> writes_memory(ops),
        (forall|k: int| 0 <= k < ops.len() ==> !(#[trigger] ops[k].op is Load)) ==> !reads_memory(
            ops,
        ),
        (forall|k: int| 0 <= k < ops.len() ==> !(#[trigger] ops[k].op is Store)) ==> !writes_memory(
            ops,
        ),
{
}

/// A named register that one micro-op of the block reads and one (the same
/// or another) writes is in both the input set and the output set.
pub proof fn lemma_read_written_register_in_both(
    regs: Seq<NamedRegister>,
    ops: Seq<MicroOp>,
    v: VarNode,
    i: int,
    j: int,
)
    requires
        0 <= i < ops.len(),
        0 <= j < ops.len(),
        is_register(regs, v),
        ops[i].first == Some(Value::Var(v)) || ops[i].second == Some(Value::Var(v)),
        ops[j].output == Some(v),
    ensures
        input_registers(regs, ops).contains(v),
        output_registers(regs, ops).contains(v),
{
    lemma_input_ref_at(regs, ops, i, v);
    lemma_output_ref_at(regs, ops, j, v);
    lemma_dedup_contains(input_refs(regs, ops), v);
    lemma_dedup_contains(output_refs(regs, ops), v);
}

/// Appends `x` to `set` unless it is already there.
fn push_unique(set: &mut Vec<VarNode>, x: VarNode)
    ensures
        final(set)@ == add_new(old(set)@, x),
{
    let n = set.len();
    let mut i: usize = 0;
    while i < n
        invariant
            n == set@.len(),
            set@ == old(set)@,
            i <= n,
            forall|k: int| 0 <= k < i ==> set@[k] != x,
        decreases n - i,
    {
        if set[i] == x {
            assert(set@[i as int] == x);
            return;
        }
        i += 1;
    }
    set.push(x);
}

/// Adds `v` to `set` where it is a named register of `model`.
fn note_register(
    model: &ArchModel,
    set: &mut Vec<VarNode>,
    v: Option<VarNode>,
    Ghost(seen): Ghost<Seq<VarNode>>,
)
    requires
        old(set)@ == dedup(seen),
    ensures
        final(set)@ == dedup(seen + register_ref(model.named_registers@, v)),
{
    proof {
        lemma_dedup_extend(seen, register_ref(model.named_registers@, v));
    }
    match v {
        Some(x) => {
            if model.is_named_register(x) {
                push_unique(set, x);
            }
        },
        None => {},
    }
}

/// The location an input operand refers to, if it is not a constant.
fn operand_location(v: Option<Value>) -> (r: Option<VarNode>)
    ensures
        r == operand_var(v),
{
    match v {
        Some(Value::Var(x)) => Some(x),
        _ => None,
    }
}

/// Classifies a lifted block: the named registers of `model` that its
/// micro-ops read and write, each once in order of first use, and whether
/// any of them loads from or stores to memory.
pub fn classify(model: &ArchModel, ops: &Vec<MicroOp>) -> (r: RegisterUsage)
    ensures
        r.describes(model.named_registers@, ops@),
        is_register_set(model.named_registers@, r.inputs@),
        is_register_set(model.named_registers@, r.outputs@),
{
    let ghost regs = model.named_registers@;
    let mut inputs: Vec<VarNode> = Vec::new();
    let mut outputs: Vec<VarNode> = Vec::new();
    let mut load = false;
    let mut store = false;
    let n = ops.len();
    let mut i: usize = 0;
    while i < n
        invariant
            n == ops@.len(),
            i <= n,
            regs == model.named_registers@,
            inputs@ == input_registers(regs, ops@.subrange(0, i as int)),
            outputs@ == output_registers(regs, ops@.subrange(0, i as int)),
            load == reads_memory(ops@.subrange(0, i as int)),
            store == writes_memory(ops@.subrange(0, i as int)),
        decreases n - i,
    {
        let op = ops[i];
        let ghost pre = ops@.subrange(0, i as int);
        let ghost next = ops@.subrange(0, i + 1);
        assert(next.drop_last() =~= pre);
        assert(next.last() == op);
        if op.is_load() {
            load = true;
        }
        if op.is_store() {
            store = true;
        }
        let ghost seen = input_refs(regs, pre);
        note_register(model, &mut inputs, operand_location(op.first), Ghost(seen));
        let ghost seen1 = seen + register_ref(regs, operand_var(op.first));
        note_register(model, &mut inputs, operand_location(op.second), Ghost(seen1));
        note_register(model, &mut outputs, op.output, Ghost(output_refs(regs, pre)));
        proof {
            if reads_memory(next) {
                let k = choose|k: int| 0 <= k < next.len() && (#[trigger] next[k]).op is Load;
                if k < i {
                    assert(next[k] == pre[k]);
                }
            }
            if reads_memory(pre) {
                let k = choose|k: int| 0 <= k < pre.len() && (#[trigger] pre[k]).op is Load;
                assert(next[k] == pre[k]);
            }
            if op.op is Load {
                assert(next[i as int] == op);
            }
            if writes_memory(next) {
                let k = choose|k: int| 0 <= k < next.len() && (#[trigger] next[k]).op is Store;
                if k < i {
                    assert(next[k] == pre[k]);
                }
            }
            if writes_memory(pre) {
                let k = choose|k: int| 0 <= k < pre.len() && (#[trigger] pre[k]).op is Store;
                assert(next[k] == pre[k]);
            }
            if op.op is Store {
                assert(next[i as int] == op);
            }
        }
        i += 1;
    }
    assert(ops@.subrange(0, n as int) =~= ops@);
    proof {
        lemma_usage_is_register_sets(regs, ops@);
    }
    RegisterUsage { inputs, outputs, load, store }
}

} // verus!
