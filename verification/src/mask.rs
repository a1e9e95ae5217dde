//! Masks over rows, and the rows that a filtered dictionary selects.
use vortex_mask::Mask;
use vstd::prelude::*;

verus! {

#[verifier::external_type_specification]
#[verifier::external_body]
pub struct ExMask(vortex_mask::Mask);

/// The bits of a mask, one for each row.
pub uninterp spec fn mask_bits(mask: Mask) -> Seq<bool>;

/// Row `i` has a code, and the value that it picks is true: not false, and not null.
pub open spec fn selects(values: Seq<Option<bool>>, codes: Seq<Option<u64>>, i: int) -> bool {
    match codes[i] {
        Some(code) => values[code as int] == Some(true),
        None => false,
    }
}

/// What is left of a mask with bits `mask` once a filter has run on a dictionary: the rows
/// that the mask includes and that have a code whose value is true.
pub open spec fn filtered(
    mask: Seq<bool>,
    values: Seq<Option<bool>>,
    codes: Seq<Option<u64>>,
) -> Seq<bool> {
    Seq::new(codes.len(), |i: int| mask[i] && selects(values, codes, i))
}

/// The bits of a mask that includes all of `len` rows.
pub open spec fn all_true(len: nat) -> Seq<bool> {
    Seq::new(len, |i: int| true)
}

/// The positions of the rows that a mask with bits `mask` includes, in ascending order.
pub open spec fn included(mask: Seq<bool>) -> Seq<int>
    decreases mask.len(),
{
    if mask.len() == 0 {
        seq![]
    } else if mask.last() {
        included(mask.drop_last()).push(mask.len() - 1)
    } else {
        included(mask.drop_last())
    }
}

/// The number of rows that a mask with bits `mask` includes.
pub open spec fn true_count(mask: Seq<bool>) -> nat
    decreases mask.len(),
{
    if mask.len() == 0 {
        0
    } else {
        true_count(mask.drop_last()) + if mask.last() {
            1nat
        } else {
            0nat
        }
    }
}

/// Those of `rows` that a mask with bits `mask` includes, in their order.
pub open spec fn picked<T>(rows: Seq<T>, mask: Seq<bool>) -> Seq<T> {
    Seq::new(included(mask).len(), |k: int| rows[included(mask)[k]])
}

/// The positions of the rows that a mask includes ascend, are as many as its true bits, and
/// are those of its true bits.
pub proof fn law_included_positions(mask: Seq<bool>)
    ensures
        included(mask).len() == true_count(mask),
        forall|k: int|
            0 <= k < included(mask).len() ==> 0 <= #[trigger] included(mask)[k] < mask.len()
                && mask[included(mask)[k]],
        forall|j: int, k: int|
            0 <= j < k < included(mask).len() ==> #[trigger] included(mask)[j]
                < #[trigger] included(mask)[k],
        forall|i: int|
            0 <= i < mask.len() && #[trigger] mask[i] ==> included(mask).contains(i),
    decreases mask.len(),
{
    if mask.len() > 0 {
        let init = mask.drop_last();
        law_included_positions(init);
        assert forall|i: int| 0 <= i < mask.len() && #[trigger] mask[i] implies included(
            mask,
        ).contains(i) by {
            if i < init.len() {
                assert(init[i]);
                let k = included(init).index_of(i);
                assert(included(mask)[k] == i);
            } else {
                assert(included(mask).last() == i);
            }
        }
    }
}

/// A filter leaves a row just where the mask includes it, it has a code, and the value that the
/// code picks is true: not false, and not null. It speaks of as many rows as there are codes.
pub proof fn law_filter_leaves_rows_with_true_values(
    mask: Seq<bool>,
    values: Seq<Option<bool>>,
    codes: Seq<Option<u64>>,
)
    ensures
        filtered(mask, values, codes).len() == codes.len(),
        forall|i: int|
            0 <= i < codes.len() ==> (#[trigger] filtered(mask, values, codes)[i] <==> mask[i] && (
            codes[i] matches Some(code) && values[code as int] == Some(true))),
        forall|i: int|
            0 <= i < codes.len() ==> (#[trigger] selects(values, codes, i) <==> (
            codes[i] matches Some(code) && values[code as int] == Some(true))),
{
}

/// [`Mask::len`]: the number of rows that a mask covers.
#[verifier::external_body]
pub(crate) fn mask_len(mask: &Mask) -> (r: usize)
    ensures
        r == mask_bits(*mask).len(),
{
    mask.len()
}

/// `Mask::from_iter` over `bool`s: the mask whose bits are those of `bits`, in their order.
#[verifier::external_body]
pub(crate) fn mask_from_bits(bits: Vec<bool>) -> (r: Mask)
    ensures
        mask_bits(r) == bits@,
{
    Mask::from_iter(bits)
}

/// `bitand` of a [`Mask`] with another one: the rows that both masks include. It panics where
/// the lengths differ.
#[verifier::external_body]
pub(crate) fn mask_and(left: Mask, right: &Mask) -> (r: Mask)
    requires
        mask_bits(left).len() == mask_bits(*right).len(),
    ensures
        mask_bits(r) == Seq::new(
            mask_bits(left).len(),
            |i: int| mask_bits(left)[i] && mask_bits(*right)[i],
        ),
{
    std::ops::BitAnd::bitand(left, right)
}

/// The rows that the codes and the result of a filter on the values select: those that have
/// a code whose value is true.
pub fn dict_mask(values: &Vec<Option<bool>>, codes: &Vec<Option<u64>>) -> (r: Mask)
    requires
        crate::semantics::codes_in_bounds(codes@, values@.len()),
    ensures
        mask_bits(r) == Seq::new(codes@.len(), |i: int| selects(values@, codes@, i)),
{
    let count: usize = values.len();
    let mut bits: Vec<bool> = Vec::new();
    let mut i: usize = 0;
    while i < codes.len()
        invariant
            crate::semantics::codes_in_bounds(codes@, values@.len()),
            count == values@.len(),
            i <= codes.len(),
            bits@ == Seq::new(i as nat, |k: int| selects(values@, codes@, k)),
        decreases codes.len() - i,
    {
        assert(codes@[i as int] matches Some(code) ==> code < count);
        let bit = match codes[i] {
            Some(code) => match values[code as usize] {
                Some(value) => value,
                None => false,
            },
            None => false,
        };
        assert(bit == selects(values@, codes@, i as int));
        bits.push(bit);
        i += 1;
    }
    mask_from_bits(bits)
}

/// The rows that are left of `mask` once a filter has run on a dictionary: those that `mask`
/// includes and that have a code whose value is true.
pub fn filter_rows(mask: Mask, values: &Vec<Option<bool>>, codes: &Vec<Option<u64>>) -> (r: Mask)
    requires
        mask_bits(mask).len() == codes@.len(),
        crate::semantics::codes_in_bounds(codes@, values@.len()),
    ensures
        mask_bits(r) == filtered(mask_bits(mask), values@, codes@),
{
    let selected = dict_mask(values, codes);
    let r = mask_and(mask, &selected);
    assert(mask_bits(r) =~= filtered(mask_bits(mask), values@, codes@));
    r
}

/// The rows that are left of `mask` once a filter has run on a dictionary, or `None` where the
/// mask and the codes cover different numbers of rows, or some code picks no value.
pub fn try_filter_rows(
    mask: Mask,
    values: &Vec<Option<bool>>,
    codes: &Vec<Option<u64>>,
) -> (r: Option<Mask>)
    ensures
        r is Some <==> mask_bits(mask).len() == codes@.len()
            && crate::semantics::codes_in_bounds(codes@, values@.len()),
        r matches Some(left) ==> mask_bits(left) == filtered(mask_bits(mask), values@, codes@),
{
    if mask_len(&mask) != codes.len() {
        return None;
    }
    let mut i: usize = 0;
    while i < codes.len()
        invariant
            i <= codes.len(),
            forall|k: int|
                0 <= k < i ==> (#[trigger] codes@[k] matches Some(code) ==> code < values@.len()),
        decreases codes.len() - i,
    {
        if let Some(code) = codes[i] {
            if code >= values.len() as u64 {
                assert(codes@[i as int] == Some(code));
                return None;
            }
        }
        i += 1;
    }
    Some(filter_rows(mask, values, codes))
}

} // verus!
