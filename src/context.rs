//! The decode context: a 64-bit word partitioned into named bit-fields.
use vstd::prelude::*;
use crate::arch::{field_index, ArchModel, ContextField};
use crate::error::DisasmError;

verus! {

/// The `width` lowest bits set.
pub open spec fn low_mask(width: u64) -> u64 {
    if width >= 64 {
        0xffff_ffff_ffff_ffffu64
    } else {
        ((1u64 << width) - 1) as u64
    }
}

/// `ctx` with bits `offset .. offset + width` replaced by the low `width`
/// bits of `value`.
pub open spec fn with_field(ctx: u64, offset: u64, width: u64, value: u64) -> u64 {
    (ctx & !(low_mask(width) << offset)) | ((value & low_mask(width)) << offset)
}

/// The value held in bits `offset .. offset + width` of `ctx`.
pub open spec fn field_value(ctx: u64, offset: u64, width: u64) -> u64 {
    (ctx >> offset) & low_mask(width)
}

/// One assignment of a processor specification: a context field by name
/// and the value it starts with.
#[derive(Clone, Debug)]
pub struct ContextAssignment {
    pub field: String,
    pub value: u64,
}

/// The context word after applying `assigns` in order to `ctx`, or `None`
/// where one of them names a field that `fields` lacks.
pub open spec fn apply_assignments(
    fields: Seq<ContextField>,
    assigns: Seq<ContextAssignment>,
    ctx: u64,
) -> Option<u64>
    decreases assigns.len(),
{
    if assigns.len() == 0 {
        Some(ctx)
    } else {
        match apply_assignments(fields, assigns.drop_last(), ctx) {
            None => None,
            Some(c) => match field_index(fields, assigns.last().field@) {
                None => None,
                Some(k) => Some(
                    with_field(
                        c,
                        fields[k].offset as u64,
                        fields[k].width as u64,
                        assigns.last().value,
                    ),
                ),
            },
        }
    }
}

/// Whether every assignment names a field of `fields`.
pub open spec fn all_fields_known(fields: Seq<ContextField>, assigns: Seq<ContextAssignment>) -> bool {
    forall|k: int| 0 <= k < assigns.len() ==> (#[trigger] field_index(fields, assigns[k].field@)) is Some
}

/// Applying assignments fails exactly when one of them names an unknown field.
proof fn lemma_apply_fails_iff_unknown(
    fields: Seq<ContextField>,
    assigns: Seq<ContextAssignment>,
    ctx: u64,
)
    ensures
        apply_assignments(fields, assigns, ctx) is Some <==> all_fields_known(fields, assigns),
    decreases assigns.len(),
{
    if assigns.len() > 0 {
        let p = assigns.drop_last();
        lemma_apply_fails_iff_unknown(fields, p, ctx);
        if all_fields_known(fields, assigns) {
            assert forall|k: int| 0 <= k < p.len() implies (#[trigger] field_index(
                fields,
                p[k].field@,
            )) is Some by {
                assert(p[k] == assigns[k]);
            }
            assert(field_index(fields, assigns[assigns.len() - 1].field@) is Some);
        }
        if apply_assignments(fields, assigns, ctx) is Some {
            assert forall|k: int| 0 <= k < assigns.len() implies (#[trigger] field_index(
                fields,
                assigns[k].field@,
            )) is Some by {
                if k < p.len() {
                    assert(p[k] == assigns[k]);
                }
            }
        }
    }
}

/// Writing a field and reading it back gives the written value cut to the
/// field's width.
pub proof fn lemma_field_read_back(ctx: u64, offset: u64, width: u64, value: u64)
    requires
        1 <= width,
        offset + width <= 64,
    ensures
        field_value(with_field(ctx, offset, width, value), offset, width) == value & low_mask(
            width,
        ),
{
    if width >= 64 {
        assert(offset == 0);
        assert(field_value(with_field(ctx, 0, 64, value), 0, 64) == value
            & 0xffff_ffff_ffff_ffffu64) by (bit_vector);
    } else {
        assert(field_value(with_field(ctx, offset, width, value), offset, width) == value & (((1u64
            << width) - 1) as u64)) by (bit_vector)
            requires
                1 <= width < 64,
                offset + width <= 64,
        ;
    }
}

/// Writing a field leaves the value of every disjoint field as it was.
pub proof fn lemma_disjoint_field_kept(
    ctx: u64,
    offset: u64,
    width: u64,
    value: u64,
    other_offset: u64,
    other_width: u64,
)
    requires
        1 <= width,
        offset + width <= 64,
        1 <= other_width,
        other_offset + other_width <= 64,
        offset + width <= other_offset || other_offset + other_width <= offset,
    ensures
        field_value(with_field(ctx, offset, width, value), other_offset, other_width)
            == field_value(ctx, other_offset, other_width),
{
    assert(width < 64 && other_width < 64);
    assert(field_value(with_field(ctx, offset, width, value), other_offset, other_width)
        == field_value(ctx, other_offset, other_width)) by (bit_vector)
        requires
            1 <= width < 64,
            offset + width <= 64,
            1 <= other_width < 64,
            other_offset + other_width <= 64,
            offset + width <= other_offset || other_offset + other_width <= offset,
    ;
}

/// The mask of the `width` lowest bits.
fn low_mask_of(width: u32) -> (r: u64)
    requires
        1 <= width <= 64,
    ensures
        r == low_mask(width as u64),
{
    if width >= 64 {
        0xffff_ffff_ffff_ffffu64
    } else {
        let w = width as u64;
        assert(1u64 << w >= 1) by (bit_vector)
            requires
                w < 64,
        ;
        (1u64 << w) - 1
    }
}

/// `ctx` with `field` set to the low bits of `value`; the other bits stay.
pub fn set_field(ctx: u64, field: &ContextField, value: u64) -> (r: u64)
    requires
        field.wf(),
    ensures
        r == with_field(ctx, field.offset as u64, field.width as u64, value),
{
    let mask = low_mask_of(field.width);
    let off = field.offset as u64;
    (ctx & !(mask << off)) | ((value & mask) << off)
}

/// The value that `ctx` holds in `field`.
pub fn get_field(ctx: u64, field: &ContextField) -> (r: u64)
    requires
        field.wf(),
    ensures
        r == field_value(ctx, field.offset as u64, field.width as u64),
{
    let mask = low_mask_of(field.width);
    (ctx >> (field.offset as u64)) & mask
}

/// The starting context that a processor specification describes: a zero
/// word with each assignment written, in order, into its field (a later
/// write to the same field wins). Fails where an assignment names a field
/// that the model lacks.
pub fn initialize(model: &ArchModel, assignments: &Vec<ContextAssignment>) -> (r: Result<
    u64,
    DisasmError,
>)
    requires
        model.wf(),
    ensures
        match apply_assignments(model.context_fields@, assignments@, 0) {
            Some(c) => r == Ok::<u64, DisasmError>(c),
            None => r == Err::<u64, DisasmError>(DisasmError::UnknownContextField),
        },
        r is Ok <==> all_fields_known(model.context_fields@, assignments@),
{
    proof {
        lemma_apply_fails_iff_unknown(model.context_fields@, assignments@, 0);
    }
    let mut ctx: u64 = 0;
    let n = assignments.len();
    let mut i: usize = 0;
    while i < n
        invariant
            n == assignments@.len(),
            i <= n,
            model.wf(),
            apply_assignments(model.context_fields@, assignments@.subrange(0, i as int), 0) == Some(
                ctx,
            ),
        decreases n - i,
    {
        let ghost next = assignments@.subrange(0, i + 1);
        assert(next.drop_last() =~= assignments@.subrange(0, i as int));
        let a = &assignments[i];
        match model.context_field(&a.field) {
            None => {
                proof {
                    lemma_apply_prefix_fails(model.context_fields@, assignments@, i as int + 1);
                }
                return Err(DisasmError::UnknownContextField);
            },
            Some(k) => {
                ctx = set_field(ctx, &model.context_fields[k], a.value);
            },
        }
        i += 1;
    }
    assert(assignments@.subrange(0, n as int) =~= assignments@);
    Ok(ctx)
}

/// Once a prefix of the assignments fails, all of them fail.
proof fn lemma_apply_prefix_fails(
    fields: Seq<ContextField>,
    assigns: Seq<ContextAssignment>,
    len: int,
)
    requires
        0 <= len <= assigns.len(),
        apply_assignments(fields, assigns.subrange(0, len), 0) is None,
    ensures
        apply_assignments(fields, assigns, 0) is None,
    decreases assigns.len() - len,
{
    if len < assigns.len() {
        let next = assigns.subrange(0, len + 1);
        assert(next.drop_last() =~= assigns.subrange(0, len));
        lemma_apply_prefix_fails(fields, assigns, len + 1);
    } else {
        assert(assigns.subrange(0, len) =~= assigns);
    }
}

} // verus!
