use icicle_disasm::{classify, ArchModel, MicroOp, NamedRegister, Op, Value, VarNode};

const REG: u16 = 1;
const TMP: u16 = 2;
const RAM: u16 = 3;

fn reg(offset: u64, size: u16) -> VarNode {
    VarNode { space: REG, offset, size }
}

fn named(name: &str, var: VarNode) -> NamedRegister {
    NamedRegister { name: name.to_string(), var }
}

fn model() -> ArchModel {
    ArchModel::new(
        vec![
            named("RAX", reg(0x0, 8)),
            named("EAX", reg(0x0, 4)),
            named("RSP", reg(0x20, 8)),
            named("RBP", reg(0x28, 8)),
            named("RIP", reg(0x288, 8)),
            named("CF", reg(0x200, 1)),
            named("ZF", reg(0x206, 1)),
        ],
        vec![],
    )
}

fn var(v: VarNode) -> Option<Value> {
    Some(Value::Var(v))
}

fn konst(c: u64, size: u16) -> Option<Value> {
    Some(Value::Const(c, size))
}

fn add_eax_1() -> Vec<MicroOp> {
    let eax = reg(0x0, 4);
    vec![
        MicroOp::new(Op::IntCarry, var(eax), konst(1, 4), Some(reg(0x200, 1))),
        MicroOp::new(Op::IntAdd, var(eax), konst(1, 4), Some(eax)),
        MicroOp::new(Op::ZeroExtend, var(eax), None, Some(reg(0x0, 8))),
        MicroOp::new(Op::IntEqual, var(eax), konst(0, 4), Some(reg(0x206, 1))),
    ]
}

#[test]
fn add_reads_and_writes_accumulator() {
    let m = model();
    let u = classify(&m, &add_eax_1());
    assert_eq!(u.inputs, vec![reg(0x0, 4)]);
    assert_eq!(u.outputs, vec![reg(0x200, 1), reg(0x0, 4), reg(0x0, 8), reg(0x206, 1)]);
    assert!(!u.load);
    assert!(!u.store);
}

#[test]
fn classify_twice_gives_same_result() {
    let m = model();
    let ops = add_eax_1();
    let a = classify(&m, &ops);
    let b = classify(&m, &ops);
    assert_eq!(a.inputs, b.inputs);
    assert_eq!(a.outputs, b.outputs);
    assert_eq!(a.load, b.load);
    assert_eq!(a.store, b.store);
}

#[test]
fn repeated_block_classifies_same() {
    let m = model();
    let ops = add_eax_1();
    let mut twice = ops.clone();
    twice.extend(ops.iter().copied());
    let a = classify(&m, &ops);
    let b = classify(&m, &twice);
    assert_eq!(a.inputs, b.inputs);
    assert_eq!(a.outputs, b.outputs);
    assert_eq!(a.load, b.load);
    assert_eq!(a.store, b.store);
}

#[test]
fn load_sets_only_load_flag() {
    let m = model();
    let rsp = reg(0x20, 8);
    let ops = vec![MicroOp::new(Op::Load(RAM), var(rsp), None, Some(reg(0x288, 8)))];
    let u = classify(&m, &ops);
    assert!(u.load);
    assert!(!u.store);
}

#[test]
fn store_sets_only_store_flag() {
    let m = model();
    let ops = vec![MicroOp::new(Op::Store(RAM), var(reg(0x20, 8)), var(reg(0x28, 8)), None)];
    let u = classify(&m, &ops);
    assert!(u.store);
    assert!(!u.load);
    assert_eq!(u.inputs, vec![reg(0x20, 8), reg(0x28, 8)]);
    assert!(u.outputs.is_empty());
}

#[test]
fn block_with_load_and_store_sets_both() {
    let m = model();
    let t = VarNode { space: TMP, offset: 0x10, size: 8 };
    let ops = vec![
        MicroOp::new(Op::Load(RAM), var(reg(0x20, 8)), None, Some(t)),
        MicroOp::new(Op::Store(RAM), var(reg(0x28, 8)), var(t), None),
    ];
    let u = classify(&m, &ops);
    assert!(u.load);
    assert!(u.store);
}

#[test]
fn empty_block_classifies_to_nothing() {
    let m = model();
    let u = classify(&m, &vec![]);
    assert!(u.inputs.is_empty());
    assert!(u.outputs.is_empty());
    assert!(!u.load);
    assert!(!u.store);
}

#[test]
fn temporaries_and_memory_are_not_registers() {
    let m = model();
    let t = VarNode { space: TMP, offset: 0x80, size: 8 };
    let mem = VarNode { space: RAM, offset: 0x1000, size: 8 };
    let ops = vec![
        MicroOp::new(Op::Copy, var(mem), None, Some(t)),
        MicroOp::new(Op::IntAdd, var(t), konst(8, 8), Some(t)),
    ];
    let u = classify(&m, &ops);
    assert!(u.inputs.is_empty());
    assert!(u.outputs.is_empty());
}

#[test]
fn sub_register_width_is_not_matched() {
    let m = model();
    let ax = reg(0x0, 2);
    let ops = vec![MicroOp::new(Op::IntAdd, var(ax), konst(1, 2), Some(ax))];
    let u = classify(&m, &ops);
    assert!(u.inputs.is_empty());
    assert!(u.outputs.is_empty());
}

#[test]
fn register_in_both_roles_appears_in_both_sets() {
    let m = model();
    let rsp = reg(0x20, 8);
    let ops = vec![MicroOp::new(Op::IntSub, var(rsp), konst(8, 8), Some(rsp))];
    let u = classify(&m, &ops);
    assert!(u.inputs.contains(&rsp));
    assert!(u.outputs.contains(&rsp));
}

#[test]
fn repeated_reads_collapse_to_one_entry() {
    let m = model();
    let rbp = reg(0x28, 8);
    let rsp = reg(0x20, 8);
    let ops = vec![
        MicroOp::new(Op::IntAdd, var(rbp), var(rbp), Some(rsp)),
        MicroOp::new(Op::Copy, var(rsp), None, Some(rsp)),
        MicroOp::new(Op::IntXor, var(rbp), var(rsp), Some(rbp)),
    ];
    let u = classify(&m, &ops);
    assert_eq!(u.inputs, vec![rbp, rsp]);
    assert_eq!(u.outputs, vec![rsp, rbp]);
}

#[test]
fn duplicate_catalog_entries_give_one_entry() {
    let rsp = reg(0x20, 8);
    let m = ArchModel::new(vec![named("RSP", rsp), named("SP_ALIAS", rsp)], vec![]);
    let ops = vec![MicroOp::new(Op::IntSub, var(rsp), konst(8, 8), Some(rsp))];
    let u = classify(&m, &ops);
    assert_eq!(u.inputs, vec![rsp]);
    assert_eq!(u.outputs, vec![rsp]);
}

#[test]
fn constant_operand_matching_a_register_offset_is_ignored() {
    let m = model();
    let ops = vec![MicroOp::new(Op::Copy, konst(0x20, 8), None, Some(reg(0x28, 8)))];
    let u = classify(&m, &ops);
    assert!(u.inputs.is_empty());
    assert_eq!(u.outputs, vec![reg(0x28, 8)]);
}

#[test]
fn micro_op_flag_queries() {
    let l = MicroOp::new(Op::Load(RAM), None, None, None);
    let s = MicroOp::new(Op::Store(RAM), None, None, None);
    let c = MicroOp::new(Op::Copy, None, None, None);
    assert!(l.is_load() && !l.is_store());
    assert!(s.is_store() && !s.is_load());
    assert!(!c.is_load() && !c.is_store());
}

#[test]
fn catalog_membership_is_exact() {
    let m = model();
    assert!(m.is_named_register(reg(0x20, 8)));
    assert!(!m.is_named_register(reg(0x20, 4)));
    assert!(!m.is_named_register(VarNode { space: RAM, offset: 0x20, size: 8 }));
}
