//! The rows of a range: where the readers of values and codes give just the rows that they are
//! asked for, a projection and a filter over a range give the rows of that range of the column.
use std::ops::Range;

use vstd::prelude::*;

use crate::expr::{ExprModel, Expression};
use crate::reader::{
    AllTrue, DictArray, DictReader, FilterPlan, ProjectionPlan, ReadRequest,
};
use crate::rows::{Arrays, Handles, Projection};
use crate::semantics::Semantics;

verus! {

/// A read of `reader` gives the rows that it asks for: the results of its expression on just the
/// rows of its range of `stored`, if it does not fail. Nothing is said of a read of rows that
/// are not there, or with a mask over another number of rows.
pub open spec fn reads_rows<V, R, F, G: FnOnce(&R, ReadRequest<AllTrue>) -> F>(
    sem: Semantics<V>,
    rows: spec_fn(F) -> Option<Seq<V>>,
    stored: Seq<V>,
    reader: R,
    read: G,
) -> bool {
    forall|request: ReadRequest<AllTrue>, array: F| #[trigger]
        call_ensures(read, (&reader, request), array) && request.rows.start <= request.rows.end
            <= stored.len() && request.mask.len == request.rows.end - request.rows.start ==> (rows(
            array,
        ) matches Some(given) ==> sem.try_eval_all(
            request.expr@,
            stored.subrange(request.rows.start as int, request.rows.end as int),
        ) == Some(given))
}

/// A read of `reader` gives the codes that it asks for: of the rows of its range of `stored`,
/// those that its mask includes. Nothing is said of a read of rows that are not there, with a
/// mask over another number of rows, or of anything but the codes as they are.
pub open spec fn reads_codes<R, M, C, E, H: FnOnce(&R, ReadRequest<M>) -> Result<C, E>>(
    bits: spec_fn(M) -> Seq<bool>,
    codes: spec_fn(C) -> Seq<Option<u64>>,
    stored: Seq<Option<u64>>,
    reader: R,
    read: H,
) -> bool {
    forall|request: ReadRequest<M>, given: C| #[trigger]
        call_ensures(read, (&reader, request), Ok(given)) && request.expr is Root
            && request.rows.start <= request.rows.end <= stored.len() && bits(request.mask).len()
            == request.rows.end - request.rows.start ==> codes(given) == crate::mask::picked(
            stored.subrange(request.rows.start as int, request.rows.end as int),
            bits(request.mask),
        )
}

/// A mask that includes all rows picks all rows.
proof fn lemma_all_rows_are_picked<T>(rows: Seq<T>)
    ensures
        crate::mask::picked(rows, crate::mask::all_true(rows.len())) == rows,
{
    lemma_all_rows_are_included(rows.len());
    assert(crate::mask::picked(rows, crate::mask::all_true(rows.len())) =~= rows);
}

/// A mask that includes all rows includes each in its place.
proof fn lemma_all_rows_are_included(len: nat)
    ensures
        crate::mask::included(crate::mask::all_true(len)) == Seq::new(len, |i: int| i),
    decreases len,
{
    let mask = crate::mask::all_true(len);
    if len > 0 {
        let fewer = (len - 1) as nat;
        lemma_all_rows_are_included(fewer);
        assert(mask.drop_last() =~= crate::mask::all_true(fewer));
    }
    assert(crate::mask::included(mask) =~= Seq::new(len, |i: int| i));
}

/// Where reads give the rows that they ask for, and there are as many values as the layout says,
/// the values that a reader asks for are the values.
pub proof fn law_values_asked_for_are_the_values<
    V,
    D,
    R,
    F: Clone,
    G: FnOnce(&R, ReadRequest<AllTrue>) -> F,
>(handles: Handles<V, F>, reader: DictReader<D, R, F>, read: G)
    requires
        reader.wf(),
        reader.layout().values_row_count == handles.values.len(),
        reads_rows(handles.sem, handles.rows, handles.values, reader.values_reader(), read),
    ensures
        handles.reads(reader, read),
{
    crate::reader::law_all_values_are_asked_for(reader);
    let request = reader.values_request();
    assert(handles.values.subrange(0, handles.values.len() as int) =~= handles.values);
    assert forall|array: F| #[trigger] reader.reads_values(read, array) implies handles.stands_for(
        array,
        ExprModel::Root,
    ) by {
        assert(call_ensures(read, (&reader.values_reader(), request), array));
    }
}

/// All values are read: where reads give the rows that they ask for, a reader that keeps nothing
/// yet gives an array with as many rows as the layout says there are values, each in its place,
/// so that every code below that number picks the value it stands for. That holds of the values
/// to be kept and of the values as they are read.
pub proof fn law_all_values_are_there<
    V,
    D,
    R,
    F: Clone,
    G: FnOnce(&R, ReadRequest<AllTrue>) -> F,
    S: FnOnce(F) -> F,
>(
    sem: Semantics<V>,
    rows: spec_fn(F) -> Option<Seq<V>>,
    stored: Seq<V>,
    before: DictReader<D, R, F>,
    after: DictReader<D, R, F>,
    read: G,
    share: S,
    array: F,
)
    requires
        before.wf(),
        before.kept_values() is None,
        before.layout().values_row_count == stored.len(),
        reads_rows(sem, rows, stored, before.values_reader(), read),
        forall|raw: F, shared: F| #[trigger]
            call_ensures(share, (raw,), shared) ==> rows(shared) == rows(raw),
        forall|handle: F, clone: F| #[trigger]
            cloned(handle, clone) ==> rows(clone) == rows(handle),
        DictReader::values_step(before, after, read, share, array) || before.finds_values(
            read,
            array,
        ),
    ensures
        rows(array) matches Some(given) ==> {
            &&& given.len() == before.layout().values_row_count
            &&& forall|code: u64|
                code < before.layout().values_row_count ==> given[code as int]
                    == #[trigger] stored[code as int]
        },
{
    let handles = Handles { sem, rows, values: stored };
    law_values_asked_for_are_the_values(handles, before, read);
    crate::rows::lemma_root_rows(sem, stored);
    if before.finds_values(read, array) {
        assert(handles.stands_for(array, ExprModel::Root));
    } else {
        let raw = choose|raw: F|
            #![trigger before.reads_values(read, raw)]
            before.reads_values(read, raw) && call_ensures(share, (raw,), after.kept_values()->0);
        assert(handles.stands_for(raw, ExprModel::Root));
        assert(rows(array) == rows(raw));
    }
}

/// A projection over a range gives the rows of that range of the column that its mask includes:
/// row `k` is the result of the expression on row `a + p` of the column, where the range begins
/// at `a` and `p` is the position of the `k`th row that the mask includes. A row of the column
/// is the value that its code picks, and null where it has none.
pub proof fn law_projection_of_a_range<
    V,
    D,
    R,
    F: Clone,
    M,
    C,
    T,
    E,
    H: FnOnce(&R, ReadRequest<M>) -> Result<C, E>,
    G: FnOnce(&R, ReadRequest<AllTrue>) -> F,
    A: FnOnce(F, Expression) -> F,
    S: FnOnce(F) -> F,
    O: FnOnce(DictArray<T>) -> Result<T, E>,
    B: FnOnce(T, Expression) -> Result<T, E>,
>(
    handles: Handles<V, F>,
    stored_codes: Seq<Option<u64>>,
    bits: spec_fn(M) -> Seq<bool>,
    codes: spec_fn(C) -> Seq<Option<u64>>,
    before: DictReader<D, R, F>,
    after: DictReader<D, R, F>,
    row_range: Range<u64>,
    e: ExprModel,
    mask: M,
    read_codes: H,
    read: G,
    apply: A,
    share: S,
    plan: ProjectionPlan<F, C>,
    arrays: Arrays<V, T>,
    values_array: T,
    codes_array: T,
    optimize: O,
    apply_outer: B,
    result: T,
)
    requires
        // the column
        handles.sem.keeps_promises(),
        before.wf(),
        before.layout().values_row_count == handles.values.len(),
        forall|i: int|
            0 <= i < stored_codes.len() && #[trigger] stored_codes[i] is Some
                ==> stored_codes[i]->0 < handles.values.len(),
        row_range.start <= row_range.end <= stored_codes.len(),
        bits(mask).len() == row_range.end - row_range.start,
        // the functions that are handed in
        reads_rows(handles.sem, handles.rows, handles.values, before.values_reader(), read),
        reads_codes(bits, codes, stored_codes, before.codes_reader(), read_codes),
        handles.clones_alike(),
        handles.applies(apply),
        handles.shares(share),
        handles.keeps_right(before),
        // the projection is begun
        call_ensures(
            read_codes,
            (&before.codes_reader(), crate::reader::codes_request(row_range, mask)),
            Ok(plan.codes),
        ),
        Expression::option_model(plan.tail.outer) == e.split().0,
        match e.split().1 {
            Some(inner) => DictReader::eval_step(
                before,
                after,
                inner,
                read,
                apply,
                share,
                plan.values,
            ),
            None => DictReader::values_step(before, after, read, share, plan.values),
        },
        // and ended
        arrays.sem == handles.sem,
        (handles.rows)(plan.values) == Some((arrays.rows)(values_array)),
        codes(plan.codes) == (arrays.codes)(codes_array),
        arrays.optimizes(optimize),
        arrays.applies(apply_outer),
        plan.tail.finishes(values_array, codes_array, optimize, apply_outer, Ok(result)),
    ensures
        (arrays.rows)(result).len() == crate::mask::true_count(bits(mask)),
        forall|k: int|
            0 <= k < (arrays.rows)(result).len() ==> handles.sem.eval(
                e,
                match stored_codes[row_range.start + crate::mask::included(bits(mask))[k]] {
                    Some(code) => handles.values[code as int],
                    None => handles.sem.null,
                },
            ) == Some(#[trigger] (arrays.rows)(result)[k]),
{
    let sem = handles.sem;
    let range = stored_codes.subrange(row_range.start as int, row_range.end as int);
    let request = crate::reader::codes_request(row_range, mask);
    crate::reader::law_rows_asked_for_are_asked_for(row_range, mask);
    assert(codes(plan.codes) == crate::mask::picked(range, bits(mask)));
    law_values_asked_for_are_the_values(handles, before, read);
    match e.split().1 {
        Some(inner) => crate::rows::law_eval_step_keeps_right(
            handles,
            before,
            after,
            inner,
            read,
            apply,
            share,
            plan.values,
        ),
        None => crate::rows::law_values_step_keeps_right(
            handles,
            before,
            after,
            read,
            share,
            plan.values,
        ),
    }
    let projection = Projection {
        tail: plan.tail,
        values: values_array,
        codes: codes_array,
        optimize,
        apply: apply_outer,
        result,
    };
    crate::mask::law_included_positions(bits(mask));
    assert(arrays.ends(e, handles.values, projection));
    crate::rows::law_projected_rows(arrays, e, handles.values, projection);
    let rows = sem.decode(handles.values, (arrays.codes)(codes_array));
    assert forall|k: int| 0 <= k < (arrays.rows)(result).len() implies sem.eval(
        e,
        match stored_codes[row_range.start + crate::mask::included(bits(mask))[k]] {
            Some(code) => handles.values[code as int],
            None => sem.null,
        },
    ) == Some(#[trigger] (arrays.rows)(result)[k]) by {
        assert(sem.eval(e, rows[k]) is Some);
        assert((arrays.codes)(codes_array)[k] == stored_codes[row_range.start
            + crate::mask::included(bits(mask))[k]]);
    }
}

/// A filter over a range leaves rows of that range of the column: row `k` is left just where the
/// mask includes it, row `a + k` of the column has a code, where the range begins at `a`, and
/// the expression is true on the value that the code picks.
pub proof fn law_filter_of_a_range<
    V,
    D,
    R,
    F: Clone,
    C,
    E,
    H: FnOnce(&R, ReadRequest<AllTrue>) -> Result<C, E>,
    G: FnOnce(&R, ReadRequest<AllTrue>) -> F,
    A: FnOnce(F, Expression) -> F,
    S: FnOnce(F) -> F,
>(
    handles: Handles<V, F>,
    truth: spec_fn(V) -> Option<bool>,
    stored_codes: Seq<Option<u64>>,
    codes: spec_fn(C) -> Seq<Option<u64>>,
    before: DictReader<D, R, F>,
    after: DictReader<D, R, F>,
    row_range: Range<u64>,
    e: ExprModel,
    mask: Seq<bool>,
    read_codes: H,
    read: G,
    apply: A,
    share: S,
    plan: FilterPlan<F, C>,
    bools: Seq<Option<bool>>,
    left: Seq<bool>,
)
    requires
        // the column
        before.wf(),
        before.layout().values_row_count == handles.values.len(),
        forall|i: int|
            0 <= i < stored_codes.len() && #[trigger] stored_codes[i] is Some
                ==> stored_codes[i]->0 < handles.values.len(),
        row_range.start <= row_range.end <= stored_codes.len(),
        mask.len() == row_range.end - row_range.start,
        // the functions that are handed in
        reads_rows(handles.sem, handles.rows, handles.values, before.values_reader(), read),
        reads_codes(
            |all: AllTrue| crate::mask::all_true(all.len as nat),
            codes,
            stored_codes,
            before.codes_reader(),
            read_codes,
        ),
        handles.clones_alike(),
        handles.applies(apply),
        handles.shares(share),
        handles.keeps_right(before),
        // the filter is begun
        plan.len == mask.len(),
        call_ensures(
            read_codes,
            (
                &before.codes_reader(),
                crate::reader::codes_request(row_range, (AllTrue { len: plan.len })),
            ),
            Ok(plan.codes),
        ),
        DictReader::eval_step(before, after, e, read, apply, share, plan.values),
        // and ended
        (handles.rows)(plan.values) is Some,
        bools.len() == (handles.rows)(plan.values)->0.len(),
        forall|k: int|
            0 <= k < bools.len() ==> #[trigger] bools[k] == truth(
                (handles.rows)(plan.values)->0[k],
            ),
        left == crate::mask::filtered(mask, bools, codes(plan.codes)),
    ensures
        left.len() == row_range.end - row_range.start,
        forall|k: int|
            0 <= k < left.len() ==> (#[trigger] left[k] <==> {
                &&& mask[k]
                &&& stored_codes[row_range.start + k] matches Some(code)
                &&& handles.sem.eval(e, handles.values[code as int]) matches Some(outcome)
                &&& truth(outcome) == Some(true)
            }),
{
    let sem = handles.sem;
    let all = AllTrue { len: plan.len };
    let range = stored_codes.subrange(row_range.start as int, row_range.end as int);
    crate::reader::law_rows_asked_for_are_asked_for(row_range, all);
    lemma_all_rows_are_picked(range);
    assert(codes(plan.codes) == range);
    law_values_asked_for_are_the_values(handles, before, read);
    crate::rows::law_eval_step_keeps_right(
        handles,
        before,
        after,
        e,
        read,
        apply,
        share,
        plan.values,
    );
    crate::mask::law_filter_leaves_rows_with_true_values(mask, bools, range);
    assert forall|k: int| 0 <= k < left.len() implies (#[trigger] left[k] <==> {
        &&& mask[k]
        &&& stored_codes[row_range.start + k] matches Some(code)
        &&& sem.eval(e, handles.values[code as int]) matches Some(outcome)
        &&& truth(outcome) == Some(true)
    }) by {
        assert(range[k] == stored_codes[row_range.start + k]);
        if let Some(code) = range[k] {
            assert(sem.eval(e, handles.values[code as int]) is Some);
            assert(bools[code as int] == truth((handles.rows)(plan.values)->0[code as int]));
        }
    }
}

} // verus!
