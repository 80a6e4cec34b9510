use icicle_disasm::{
    get_field, initialize, set_field, ArchModel, ContextAssignment, ContextField, DisasmError,
    Disassembler,
};

fn field(name: &str, offset: u32, width: u32) -> ContextField {
    ContextField { name: name.to_string(), offset, width }
}

fn model() -> ArchModel {
    ArchModel::new(
        vec![],
        vec![field("addrsize", 0, 2), field("opsize", 2, 2), field("longMode", 8, 1), field("all", 0, 64)],
    )
}

fn assign(name: &str, value: u64) -> ContextAssignment {
    ContextAssignment { field: name.to_string(), value }
}

#[test]
fn set_field_writes_only_its_bits() {
    let f = field("opsize", 2, 2);
    assert_eq!(set_field(0, &f, 1), 0b0100);
    assert_eq!(set_field(0xff, &f, 0), 0xf3);
    assert_eq!(set_field(0, &f, 7), 0b1100);
}

#[test]
fn set_field_full_width() {
    let f = field("all", 0, 64);
    assert_eq!(set_field(0x1234, &f, u64::MAX), u64::MAX);
    assert_eq!(get_field(0xdead_beef, &f), 0xdead_beef);
}

#[test]
fn set_field_top_bit() {
    let f = field("top", 63, 1);
    assert_eq!(set_field(0, &f, 1), 1u64 << 63);
    assert_eq!(get_field(u64::MAX, &f), 1);
}

#[test]
fn get_field_reads_its_bits() {
    let f = field("opsize", 2, 2);
    assert_eq!(get_field(0b1110, &f), 0b11);
    assert_eq!(get_field(set_field(0x5a5a, &f, 2), &f), 2);
}

#[test]
fn initialize_applies_assignments_in_order() {
    let m = model();
    let r = initialize(&m, &vec![assign("addrsize", 2), assign("opsize", 1), assign("longMode", 1)]);
    assert_eq!(r, Ok(2 | (1 << 2) | (1 << 8)));
}

#[test]
fn initialize_last_write_wins() {
    let m = model();
    let r = initialize(&m, &vec![assign("opsize", 3), assign("opsize", 1)]);
    assert_eq!(r, Ok(1 << 2));
}

#[test]
fn initialize_empty_is_zero() {
    let m = model();
    assert_eq!(initialize(&m, &vec![]), Ok(0));
}

#[test]
fn initialize_unknown_field_fails() {
    let m = model();
    let r = initialize(&m, &vec![assign("opsize", 1), assign("bogus", 1)]);
    assert_eq!(r, Err(DisasmError::UnknownContextField));
}

#[test]
fn init_context_replaces_default() {
    let mut d = Disassembler::new(model(), 0xffff);
    assert_eq!(d.context(), 0xffff);
    assert_eq!(d.init_context(&vec![assign("longMode", 1)]), Ok(()));
    assert_eq!(d.context(), 1 << 8);
}

#[test]
fn init_context_failure_keeps_context() {
    let mut d = Disassembler::new(model(), 0x77);
    assert_eq!(d.init_context(&vec![assign("nope", 1)]), Err(DisasmError::UnknownContextField));
    assert_eq!(d.context(), 0x77);
}

#[test]
fn context_field_lookup_finds_first() {
    let m = ArchModel::new(vec![], vec![field("a", 0, 1), field("b", 1, 1), field("b", 2, 1)]);
    assert_eq!(m.context_field(&"b".to_string()), Some(1));
    assert_eq!(m.context_field(&"c".to_string()), None);
}

#[test]
fn writing_one_field_keeps_disjoint_field() {
    let addrsize = field("addrsize", 0, 2);
    let opsize = field("opsize", 2, 2);
    let ctx = set_field(0, &addrsize, 3);
    let ctx = set_field(ctx, &opsize, 2);
    assert_eq!(get_field(ctx, &addrsize), 3);
    assert_eq!(get_field(ctx, &opsize), 2);
}
