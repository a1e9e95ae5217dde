//! The rows that a reader gives: where the functions that are handed to it read and evaluate
//! what they are asked to, what it keeps is right, a projection and a filter give the rows
//! that the expression gives on the column, and a mask takes just its own rows of those.
use vstd::prelude::*;

use crate::expr::{ExprModel, Expression};
use crate::reader::{AllTrue, DictArray, DictReader, ProjectionTail, ReadRequest};
use crate::semantics::Semantics;

verus! {

/// What the handles of a reader stand for: `rows` tells which rows one comes to hold, or
/// `None` where its computation fails.
#[verifier::reject_recursive_types(V)]
#[verifier::reject_recursive_types(F)]
pub struct Handles<V, F> {
    pub sem: Semantics<V>,
    pub rows: spec_fn(F) -> Option<Seq<V>>,
    /// The values of the dictionary.
    pub values: Seq<V>,
}

impl<V, F: Clone> Handles<V, F> {
    /// If `handle` comes to hold rows, they are the results of `e` on the values.
    pub open spec fn stands_for(self, handle: F, e: ExprModel) -> bool {
        (self.rows)(handle) matches Some(rows) ==> self.sem.try_eval_all(e, self.values) == Some(
            rows,
        )
    }

    /// A clone of a handle stands for what the handle stands for.
    pub open spec fn clones_alike(self) -> bool {
        forall|handle: F, clone: F| #[trigger]
            cloned(handle, clone) ==> (self.rows)(clone) == (self.rows)(handle)
    }

    /// Reading the values of `reader` gives the values, if it does not fail.
    pub open spec fn reads<D, R, G: FnOnce(&R, ReadRequest<AllTrue>) -> F>(
        self,
        reader: DictReader<D, R, F>,
        read: G,
    ) -> bool {
        forall|array: F| #[trigger]
            reader.reads_values(read, array) ==> self.stands_for(array, ExprModel::Root)
    }

    /// Applying an expression gives its results, if it does not fail.
    pub open spec fn applies<A: FnOnce(F, Expression) -> F>(self, apply: A) -> bool {
        forall|array: F, expr: Expression, applied: F| #[trigger]
            call_ensures(apply, (array, expr), applied) ==> ((self.rows)(applied) matches Some(
                results,
            ) ==> {
                &&& (self.rows)(array) is Some
                &&& self.sem.try_eval_all(expr@, (self.rows)(array)->0) == Some(results)
            })
    }

    /// Making an array shareable does not change its rows.
    pub open spec fn shares<S: FnOnce(F) -> F>(self, share: S) -> bool {
        forall|array: F, shared: F| #[trigger]
            call_ensures(share, (array,), shared) ==> (self.rows)(shared) == (self.rows)(array)
    }

    /// What `reader` keeps is right: the values are the values, and for each expression the
    /// result is that of the expression on the values.
    pub open spec fn keeps_right<D, R>(self, reader: DictReader<D, R, F>) -> bool {
        &&& reader.kept_values() matches Some(kept) ==> self.stands_for(kept, ExprModel::Root)
        &&& forall|e: ExprModel| #[trigger]
            reader.kept_evals().dom().contains(e) ==> self.stands_for(reader.kept_evals()[e], e)
    }
}

/// The column itself evaluates to its rows.
pub(crate) proof fn lemma_root_rows<V>(sem: Semantics<V>, rows: Seq<V>)
    ensures
        sem.try_eval_all(ExprModel::Root, rows) == Some(rows),
{
    assert(sem.eval_all(ExprModel::Root, rows) =~= rows);
}

/// A reader that keeps nothing keeps nothing wrong.
pub proof fn law_new_reader_keeps_right<V, D, R, F: Clone>(
    handles: Handles<V, F>,
    reader: DictReader<D, R, F>,
)
    requires
        reader.kept_values() is None,
        reader.kept_evals() == Map::<ExprModel, F>::empty(),
    ensures
        handles.keeps_right(reader),
{
}

/// Asking for all values gives the values, and leaves what is kept right.
pub proof fn law_values_step_keeps_right<
    V,
    D,
    R,
    F: Clone,
    G: FnOnce(&R, ReadRequest<AllTrue>) -> F,
    S: FnOnce(F) -> F,
>(
    handles: Handles<V, F>,
    before: DictReader<D, R, F>,
    after: DictReader<D, R, F>,
    read: G,
    share: S,
    array: F,
)
    requires
        handles.clones_alike(),
        handles.reads(before, read),
        handles.shares(share),
        handles.keeps_right(before),
        DictReader::values_step(before, after, read, share, array),
    ensures
        handles.keeps_right(after),
        handles.stands_for(array, ExprModel::Root),
{
}

/// Asking for an expression gives its results on the values, and leaves what is kept right.
pub proof fn law_eval_step_keeps_right<
    V,
    D,
    R,
    F: Clone,
    G: FnOnce(&R, ReadRequest<AllTrue>) -> F,
    A: FnOnce(F, Expression) -> F,
    S: FnOnce(F) -> F,
>(
    handles: Handles<V, F>,
    before: DictReader<D, R, F>,
    after: DictReader<D, R, F>,
    e: ExprModel,
    read: G,
    apply: A,
    share: S,
    result: F,
)
    requires
        handles.clones_alike(),
        handles.reads(before, read),
        handles.applies(apply),
        handles.shares(share),
        handles.keeps_right(before),
        DictReader::eval_step(before, after, e, read, apply, share, result),
    ensures
        handles.keeps_right(after),
        handles.stands_for(result, e),
{
    let kept = after.kept_evals()[e];
    if !before.kept_evals().dom().contains(e) {
        let (array, expr, applied) = choose|array: F, expr: Expression, applied: F|
            #![trigger call_ensures(apply, (array, expr), applied)]
            expr@ == e && before.finds_values(read, array) && call_ensures(
                apply,
                (array, expr),
                applied,
            ) && call_ensures(share, (applied,), kept);
        lemma_root_rows(handles.sem, handles.values);
        assert(handles.stands_for(array, ExprModel::Root));
        assert(handles.stands_for(kept, e));
    }
}

/// The values are the same rows in the same order, whether they are asked for as they are read
/// or to be kept: in either order, and whatever else is asked of the reader in between.
pub proof fn law_uncanonical_values_are_the_values<
    V,
    D,
    R,
    F: Clone,
    G: FnOnce(&R, ReadRequest<AllTrue>) -> F,
    U: FnOnce(&R, ReadRequest<AllTrue>) -> F,
    S: FnOnce(F) -> F,
>(
    handles: Handles<V, F>,
    before: DictReader<D, R, F>,
    after: DictReader<D, R, F>,
    read: G,
    share: S,
    array: F,
    at: DictReader<D, R, F>,
    read_uncanonical: U,
    uncanonical: F,
)
    requires
        handles.clones_alike(),
        handles.shares(share),
        handles.reads(before, read),
        handles.keeps_right(before),
        DictReader::values_step(before, after, read, share, array),
        handles.reads(at, read_uncanonical),
        handles.keeps_right(at),
        at.finds_values(read_uncanonical, uncanonical),
        (handles.rows)(array) is Some,
        (handles.rows)(uncanonical) is Some,
    ensures
        (handles.rows)(uncanonical) == (handles.rows)(array),
{
    law_values_step_keeps_right(handles, before, after, read, share, array);
    assert(handles.stands_for(uncanonical, ExprModel::Root));
}

/// Evaluating the column itself on the values gives the values: the same rows in the same
/// order as asking for all values, in either order, and whatever else is asked of the reader
/// in between.
pub proof fn law_column_on_values_is_the_values<
    V,
    D,
    R,
    F: Clone,
    G: FnOnce(&R, ReadRequest<AllTrue>) -> F,
    S: FnOnce(F) -> F,
    H: FnOnce(&R, ReadRequest<AllTrue>) -> F,
    A: FnOnce(F, Expression) -> F,
    Z: FnOnce(F) -> F,
>(
    handles: Handles<V, F>,
    before: DictReader<D, R, F>,
    after: DictReader<D, R, F>,
    read: G,
    share: S,
    array: F,
    eval_before: DictReader<D, R, F>,
    eval_after: DictReader<D, R, F>,
    eval_read: H,
    apply: A,
    eval_share: Z,
    result: F,
)
    requires
        handles.clones_alike(),
        handles.shares(share),
        handles.reads(before, read),
        handles.keeps_right(before),
        DictReader::values_step(before, after, read, share, array),
        handles.shares(eval_share),
        handles.applies(apply),
        handles.reads(eval_before, eval_read),
        handles.keeps_right(eval_before),
        DictReader::eval_step(
            eval_before,
            eval_after,
            ExprModel::Root,
            eval_read,
            apply,
            eval_share,
            result,
        ),
        (handles.rows)(array) is Some,
        (handles.rows)(result) is Some,
    ensures
        (handles.rows)(result) == (handles.rows)(array),
{
    law_values_step_keeps_right(handles, before, after, read, share, array);
    law_eval_step_keeps_right(
        handles,
        eval_before,
        eval_after,
        ExprModel::Root,
        eval_read,
        apply,
        eval_share,
        result,
    );
}

/// What the arrays of a finished read hold: rows, or codes.
#[verifier::reject_recursive_types(V)]
#[verifier::reject_recursive_types(T)]
pub struct Arrays<V, T> {
    pub sem: Semantics<V>,
    pub rows: spec_fn(T) -> Seq<V>,
    pub codes: spec_fn(T) -> Seq<Option<u64>>,
}

impl<V, T> Arrays<V, T> {
    /// Optimising a dictionary array leaves the rows that it stands for.
    pub open spec fn optimizes<E, O: FnOnce(DictArray<T>) -> Result<T, E>>(
        self,
        optimize: O,
    ) -> bool {
        forall|dict: DictArray<T>, array: T| #[trigger]
            call_ensures(optimize, (dict,), Ok(array)) ==> (self.rows)(array) == self.sem.decode(
                (self.rows)(dict.values),
                (self.codes)(dict.codes),
            )
    }

    /// Applying an expression gives its results.
    pub open spec fn applies<E, A: FnOnce(T, Expression) -> Result<T, E>>(
        self,
        apply: A,
    ) -> bool {
        forall|array: T, expr: Expression, applied: T| #[trigger]
            call_ensures(apply, (array, expr), Ok(applied)) ==> self.sem.try_eval_all(
                expr@,
                (self.rows)(array),
            ) == Some((self.rows)(applied))
    }
}

/// The end of a projection: what was left to do, what it was done with, and what it led to.
pub struct Projection<T, O, A> {
    pub tail: ProjectionTail,
    pub values: T,
    pub codes: T,
    pub optimize: O,
    pub apply: A,
    pub result: T,
}

impl<V, T> Arrays<V, T> {
    /// A projection of `e` on a column with the values `column` ended without failure: the
    /// values had come to hold the results of the inner part, every code picks one of them, and
    /// the outer part was what was left to do.
    pub open spec fn ends<
        E,
        O: FnOnce(DictArray<T>) -> Result<T, E>,
        A: FnOnce(T, Expression) -> Result<T, E>,
    >(self, e: ExprModel, column: Seq<V>, projection: Projection<T, O, A>) -> bool {
        &&& crate::semantics::codes_in_bounds((self.codes)(projection.codes), column.len())
        &&& Expression::option_model(projection.tail.outer) == e.split().0
        &&& self.sem.try_eval_all(ExprModel::or_root(e.split().1), column) == Some(
            (self.rows)(projection.values),
        )
        &&& self.optimizes(projection.optimize)
        &&& self.applies(projection.apply)
        &&& projection.tail.finishes(
            projection.values,
            projection.codes,
            projection.optimize,
            projection.apply,
            Ok(projection.result),
        )
    }
}

/// A projection gives the rows that the expression gives on the rows of the column.
pub proof fn law_projected_rows<
    V,
    T,
    E,
    O: FnOnce(DictArray<T>) -> Result<T, E>,
    A: FnOnce(T, Expression) -> Result<T, E>,
>(arrays: Arrays<V, T>, e: ExprModel, column: Seq<V>, projection: Projection<T, O, A>)
    requires
        arrays.sem.keeps_promises(),
        arrays.ends(e, column, projection),
    ensures
        arrays.sem.try_eval_all(
            e,
            arrays.sem.decode(column, (arrays.codes)(projection.codes)),
        ) == Some((arrays.rows)(projection.result)),
{
    let sem = arrays.sem;
    let Projection { tail, values, codes, optimize, apply, result } = projection;
    let picks = (arrays.codes)(codes);
    let outer = ExprModel::or_root(e.split().0);
    let mapped = sem.eval_all(ExprModel::or_root(e.split().1), column);
    let array = choose|array: T| #[trigger]
        call_ensures(optimize, (tail.dict_array(values, codes),), Ok::<T, E>(array))
            && match tail.outer {
            Some(outer) => call_ensures(apply, (array, outer), Ok::<T, E>(result)),
            None => result == array,
        };
    let between = sem.decode(mapped, picks);
    assert((arrays.rows)(array) == between);
    lemma_root_rows(sem, between);
    assert(sem.try_eval_all(outer, between) == Some((arrays.rows)(result)));
    let rows = sem.decode(column, picks);
    assert forall|i: int| 0 <= i < rows.len() implies sem.eval(e, #[trigger] rows[i]) == sem.eval(
        outer,
        between[i],
    ) by {
        crate::semantics::law_projection(sem, e, column, picks, i);
    }
    assert forall|i: int| 0 <= i < rows.len() implies sem.eval(e, #[trigger] rows[i]) is Some by {
        assert(sem.eval(outer, between[i]) is Some);
    }
    assert(sem.eval_all(e, rows) =~= sem.eval_all(outer, between));
}

/// A projection under a mask gives just those rows of the projection under no mask that the
/// mask includes, in their order, where the codes that it reads are those of the rows that the
/// mask includes.
pub proof fn law_masked_projection<
    V,
    T,
    E,
    O: FnOnce(DictArray<T>) -> Result<T, E>,
    A: FnOnce(T, Expression) -> Result<T, E>,
    P: FnOnce(DictArray<T>) -> Result<T, E>,
    B: FnOnce(T, Expression) -> Result<T, E>,
>(
    arrays: Arrays<V, T>,
    e: ExprModel,
    column: Seq<V>,
    mask: Seq<bool>,
    full: Projection<T, O, A>,
    part: Projection<T, P, B>,
)
    requires
        arrays.sem.keeps_promises(),
        arrays.ends(e, column, full),
        arrays.ends(e, column, part),
        mask.len() == (arrays.codes)(full.codes).len(),
        (arrays.codes)(part.codes) == crate::mask::picked((arrays.codes)(full.codes), mask),
    ensures
        (arrays.rows)(full.result).len() == mask.len(),
        (arrays.rows)(part.result) == crate::mask::picked((arrays.rows)(full.result), mask),
        (arrays.rows)(part.result).len() == crate::mask::true_count(mask),
{
    law_projected_rows(arrays, e, column, full);
    law_projected_rows(arrays, e, column, part);
    crate::mask::law_included_positions(mask);
    let all = arrays.sem.decode(column, (arrays.codes)(full.codes));
    let some = arrays.sem.decode(column, (arrays.codes)(part.codes));
    assert(some =~= crate::mask::picked(all, mask));
    assert((arrays.rows)(part.result) =~= crate::mask::picked((arrays.rows)(full.result), mask));
}

/// The truth of each of `results`: true, false, or null.
pub open spec fn truths<V>(
    truth: spec_fn(V) -> Option<bool>,
    results: Seq<V>,
) -> Seq<Option<bool>> {
    Seq::new(results.len(), |k: int| truth(results[k]))
}

/// A filter gives the rows of its mask on which the expression holds: where the values have
/// come to hold the results of the expression, row `i` is left just where the mask includes
/// it, it has a code, and the expression holds on it.
pub proof fn law_filtered_rows<V>(
    sem: Semantics<V>,
    truth: spec_fn(V) -> Option<bool>,
    e: ExprModel,
    column: Seq<V>,
    codes: Seq<Option<u64>>,
    mask: Seq<bool>,
    results: Seq<V>,
    i: int,
)
    requires
        crate::semantics::codes_in_bounds(codes, column.len()),
        sem.try_eval_all(e, column) == Some(results),
        0 <= i < codes.len(),
        mask.len() == codes.len(),
    ensures
        crate::mask::filtered(mask, truths(truth, results), codes)[i] == {
            &&& mask[i]
            &&& codes[i] is Some
            &&& crate::semantics::holds_on(sem, truth, e, sem.decode(column, codes)[i])
        },
{
    assert(truths(truth, results) =~= Seq::new(
        column.len(),
        |k: int| truth(sem.eval(e, column[k])->0),
    ));
    crate::semantics::law_filter(sem, e, truth, column, codes, i);
}

/// A filter under a mask gives the rows that both the mask and the filter under no mask
/// include.
pub proof fn law_masked_filter<V>(
    sem: Semantics<V>,
    truth: spec_fn(V) -> Option<bool>,
    e: ExprModel,
    column: Seq<V>,
    codes: Seq<Option<u64>>,
    mask: Seq<bool>,
    masked_results: Seq<V>,
    results: Seq<V>,
)
    requires
        sem.try_eval_all(e, column) == Some(masked_results),
        sem.try_eval_all(e, column) == Some(results),
        mask.len() == codes.len(),
    ensures
        ({
            let all = crate::mask::filtered(
                crate::mask::all_true(codes.len()),
                truths(truth, results),
                codes,
            );
            crate::mask::filtered(mask, truths(truth, masked_results), codes) == Seq::new(
                mask.len(),
                |i: int| mask[i] && all[i],
            )
        }),
{
    let all = crate::mask::filtered(
        crate::mask::all_true(codes.len()),
        truths(truth, results),
        codes,
    );
    assert(crate::mask::filtered(mask, truths(truth, masked_results), codes) =~= Seq::new(
        mask.len(),
        |i: int| mask[i] && all[i],
    ));
}

/// A filter and a projection of the same expression on the same rows agree: where the
/// expression does not hold on null, the filter under no mask leaves just the rows on which
/// the projection is true.
pub proof fn law_filter_agrees_with_projection<
    V,
    T,
    E,
    O: FnOnce(DictArray<T>) -> Result<T, E>,
    A: FnOnce(T, Expression) -> Result<T, E>,
>(
    arrays: Arrays<V, T>,
    truth: spec_fn(V) -> Option<bool>,
    e: ExprModel,
    column: Seq<V>,
    projection: Projection<T, O, A>,
    results: Seq<V>,
)
    requires
        arrays.sem.keeps_promises(),
        arrays.ends(e, column, projection),
        arrays.sem.try_eval_all(e, column) == Some(results),
        !crate::semantics::holds_on(arrays.sem, truth, e, arrays.sem.null),
    ensures
        ({
            let codes = (arrays.codes)(projection.codes);
            let left = crate::mask::filtered(
                crate::mask::all_true(codes.len()),
                truths(truth, results),
                codes,
            );
            let projected = (arrays.rows)(projection.result);
            &&& left.len() == projected.len()
            &&& forall|k: int|
                0 <= k < left.len() ==> (#[trigger] left[k] <==> truth(projected[k]) == Some(true))
        }),
{
    let sem = arrays.sem;
    let codes = (arrays.codes)(projection.codes);
    let mask = crate::mask::all_true(codes.len());
    let left = crate::mask::filtered(mask, truths(truth, results), codes);
    let projected = (arrays.rows)(projection.result);
    law_projected_rows(arrays, e, column, projection);
    assert forall|k: int| 0 <= k < left.len() implies (#[trigger] left[k] <==> truth(projected[k])
        == Some(true)) by {
        law_filtered_rows(sem, truth, e, column, codes, mask, results, k);
        let row = sem.decode(column, codes)[k];
        assert(sem.eval(e, row) == Some(projected[k]));
    }
}

} // verus!
