//! What expressions compute, row by row, and why running a part of one on the values of a
//! dictionary gives the rows that running all of it on the rows would give.
use vstd::prelude::*;

use crate::expr::{ExprModel, FnModel};

verus! {

/// A meaning for scalar functions over values of type `V`.
#[verifier::reject_recursive_types(V)]
pub struct Semantics<V> {
    /// What a function makes of its arguments, or `None` where it fails.
    pub call: spec_fn(FnModel, Seq<V>) -> Option<V>,
    /// The null value.
    pub null: V,
}

impl<V> Semantics<V> {
    /// The functions keep what their properties promise: one that is not fallible does not
    /// fail, and one that is not null-sensitive makes null of a null argument.
    pub open spec fn keeps_promises(self) -> bool {
        forall|f: FnModel, args: Seq<V>| #[trigger]
            (self.call)(f, args) matches result && {
                &&& !f.fallible ==> result is Some
                &&& !f.null_sensitive && args.contains(self.null) && result is Some ==> result
                    == Some(self.null)
            }
    }

    /// The result of `e` on a row that holds `row`, or `None` where it fails.
    pub open spec fn eval(self, e: ExprModel, row: V) -> Option<V>
        decreases e,
    {
        match e {
            ExprModel::Root => Some(row),
            ExprModel::Call { function, children } => {
                if forall|i: int|
                    0 <= i < children.len() ==> self.eval(#[trigger] children[i], row) is Some {
                    (self.call)(function, self.eval_each(children, row))
                } else {
                    None
                }
            },
        }
    }

    /// The results of each of `es` on a row that holds `row`, where it does not fail.
    pub open spec fn eval_each(self, es: Seq<ExprModel>, row: V) -> Seq<V>
        decreases es,
    {
        Seq::new(
            es.len(),
            |i: int|
                if 0 <= i < es.len() {
                    self.eval(es[i], row)->0
                } else {
                    row
                },
        )
    }

    /// The rows of a dictionary column: each code picks a value, and a missing code is null.
    pub open spec fn decode(self, values: Seq<V>, codes: Seq<Option<u64>>) -> Seq<V> {
        Seq::new(
            codes.len(),
            |i: int|
                match codes[i] {
                    Some(code) => values[code as int],
                    None => self.null,
                },
        )
    }

    /// Running the inner part of `e` on the values, picking by the codes, and running the
    /// outer part on the rows gives on row `i` what all of `e` gives on that row of the
    /// column, be it a result or a failure.
    pub open spec fn projects(
        self,
        e: ExprModel,
        values: Seq<V>,
        codes: Seq<Option<u64>>,
        i: int,
    ) -> bool {
        let (outer, inner) = e.split();
        let mapped = self.eval_all(ExprModel::or_root(inner), values);
        self.eval(ExprModel::or_root(outer), self.decode(mapped, codes)[i]) == self.eval(
            e,
            self.decode(values, codes)[i],
        )
    }

    /// The results of `e` on each of `rows`, or `None` where it fails on some.
    pub open spec fn try_eval_all(self, e: ExprModel, rows: Seq<V>) -> Option<Seq<V>> {
        if forall|i: int| 0 <= i < rows.len() ==> self.eval(e, #[trigger] rows[i]) is Some {
            Some(self.eval_all(e, rows))
        } else {
            None
        }
    }

    /// The results of `e` on each of `rows`, where it does not fail.
    pub open spec fn eval_all(self, e: ExprModel, rows: Seq<V>) -> Seq<V> {
        Seq::new(rows.len(), |i: int| self.eval(e, rows[i])->0)
    }
}

/// Every code picks a value that is there.
pub open spec fn codes_in_bounds(codes: Seq<Option<u64>>, count: nat) -> bool {
    forall|i: int| 0 <= i < codes.len() ==> (#[trigger] codes[i] matches Some(code) ==> code < count)
}

/// An expression in which nothing is fallible does not fail.
pub proof fn law_infallible_expressions_succeed<V>(sem: Semantics<V>, e: ExprModel, row: V)
    requires
        sem.keeps_promises(),
        !e.has_fallible(),
    ensures
        sem.eval(e, row) is Some,
    decreases e,
{
    if let ExprModel::Call { function, children } = e {
        assert forall|i: int| 0 <= i < children.len() implies sem.eval(
            #[trigger] children[i],
            row,
        ) is Some by {
            assert(!children[i].has_fallible());
            law_infallible_expressions_succeed(sem, children[i], row);
        }
    }
}

/// An expression about the column in which nothing is null-sensitive makes null of null,
/// where it does not fail.
pub proof fn law_insensitive_expressions_hand_nulls_on<V>(sem: Semantics<V>, e: ExprModel)
    requires
        sem.keeps_promises(),
        e.refers_to_root(),
        !e.has_null_sensitive(),
        sem.eval(e, sem.null) is Some,
    ensures
        sem.eval(e, sem.null) == Some(sem.null),
    decreases e,
{
    if let ExprModel::Call { function, children } = e {
        let i = choose|i: int| 0 <= i < children.len() && (#[trigger] children[i]).refers_to_root();
        assert(!children[i].has_null_sensitive());
        assert(sem.eval(children[i], sem.null) is Some);
        law_insensitive_expressions_hand_nulls_on(sem, children[i]);
        let args = sem.eval_each(children, sem.null);
        assert(args[i] == sem.null);
        assert(args.contains(sem.null));
    }
}

/// Running an expression with `inner` in place of the column is running `inner` first and
/// the expression on what it gives.
pub proof fn law_substitution_is_composition<V>(
    sem: Semantics<V>,
    outer: ExprModel,
    inner: ExprModel,
    row: V,
)
    requires
        sem.eval(inner, row) is Some,
    ensures
        sem.eval(outer.substitute(inner), row) == sem.eval(outer, sem.eval(inner, row)->0),
    decreases outer,
{
    if let ExprModel::Call { function, children } = outer {
        let between = sem.eval(inner, row)->0;
        let joined = outer.substitute(inner)->children;
        assert forall|i: int| 0 <= i < children.len() implies sem.eval(
            #[trigger] joined[i],
            row,
        ) == sem.eval(children[i], between) by {
            law_substitution_is_composition(sem, children[i], inner, row);
        }
        if forall|i: int|
            0 <= i < children.len() ==> sem.eval(#[trigger] children[i], between) is Some {
            assert forall|i: int| 0 <= i < joined.len() implies sem.eval(
                #[trigger] joined[i],
                row,
            ) is Some by {
                assert(sem.eval(children[i], between) is Some);
            }
            assert(sem.eval_each(joined, row) =~= sem.eval_each(children, between));
        } else {
            let i = choose|i: int|
                0 <= i < children.len() && sem.eval(#[trigger] children[i], between) is None;
            assert(sem.eval(joined[i], row) is None);
        }
    }
}

/// The inner part of a split never fails on a value, and makes null of null, so that it may
/// run on all values of a dictionary ahead of the rows.
pub proof fn law_inner_part_is_safe_on_values<V>(sem: Semantics<V>, e: ExprModel, value: V)
    requires
        sem.keeps_promises(),
    ensures
        e.split().1 matches Some(inner) ==> {
            &&& sem.eval(inner, value) is Some
            &&& sem.eval(inner, sem.null) == Some(sem.null)
        },
{
    if let Some(inner) = e.split().1 {
        crate::pushdown::law_inner_part_is_pushable(e);
        law_infallible_expressions_succeed(sem, inner, value);
        law_infallible_expressions_succeed(sem, inner, sem.null);
        law_insensitive_expressions_hand_nulls_on(sem, inner);
    }
}

/// An expression can be projected by its parts: on every row of every column that gives what
/// the whole expression gives.
pub proof fn law_projection<V>(
    sem: Semantics<V>,
    e: ExprModel,
    values: Seq<V>,
    codes: Seq<Option<u64>>,
    i: int,
)
    requires
        sem.keeps_promises(),
        codes_in_bounds(codes, values.len()),
        0 <= i < codes.len(),
    ensures
        sem.projects(e, values, codes, i),
{
    let (outer, inner) = e.split();
    let o = ExprModel::or_root(outer);
    let p = ExprModel::or_root(inner);
    let row = sem.decode(values, codes)[i];
    crate::pushdown::law_parts_rejoin(e);
    law_inner_part_is_safe_on_values(sem, e, row);
    law_substitution_is_composition(sem, o, p, row);
}

/// `e` gives a true result on a row that holds `row`.
pub open spec fn holds_on<V>(
    sem: Semantics<V>,
    truth: spec_fn(V) -> Option<bool>,
    e: ExprModel,
    row: V,
) -> bool {
    sem.eval(e, row) matches Some(result) && truth(result) == Some(true)
}

/// Filtering a dictionary column: where running the whole expression on the values does not
/// fail, picking its results by the codes selects the rows on which the expression holds. The
/// one exception is a row without a code on which the expression would hold: it is left out.
pub proof fn law_filter<V>(
    sem: Semantics<V>,
    e: ExprModel,
    truth: spec_fn(V) -> Option<bool>,
    values: Seq<V>,
    codes: Seq<Option<u64>>,
    i: int,
)
    requires
        codes_in_bounds(codes, values.len()),
        forall|k: int| 0 <= k < values.len() ==> sem.eval(e, #[trigger] values[k]) is Some,
        0 <= i < codes.len(),
    ensures
        ({
            let results = Seq::new(values.len(), |k: int| truth(sem.eval(e, values[k])->0));
            crate::mask::selects(results, codes, i) == (holds_on(
                sem,
                truth,
                e,
                sem.decode(values, codes)[i],
            ) && codes[i] is Some)
        }),
{
    if let Some(code) = codes[i] {
        assert(sem.eval(e, values[code as int]) is Some);
    }
}

/// What evaluating is: the column gives what the row holds, a call gives what its function
/// makes of the results of its children, and where a child fails the call fails.
pub proof fn law_evaluation<V>(
    sem: Semantics<V>,
    function: FnModel,
    children: Seq<ExprModel>,
    row: V,
    args: Seq<V>,
)
    ensures
        sem.eval(ExprModel::Root, row) == Some(row),
        args.len() == children.len() && (forall|i: int|
            0 <= i < children.len() ==> sem.eval(#[trigger] children[i], row) == Some(args[i]))
            ==> sem.eval(ExprModel::Call { function, children }, row) == (sem.call)(
            function,
            args,
        ),
        (exists|i: int| 0 <= i < children.len() && sem.eval(#[trigger] children[i], row) is None)
            ==> sem.eval(ExprModel::Call { function, children }, row) is None,
{
    let e = ExprModel::Call { function, children };
    assert(e->children == children);
    if args.len() == children.len() && (forall|i: int|
        0 <= i < children.len() ==> sem.eval(#[trigger] children[i], row) == Some(args[i])) {
        assert(sem.eval_each(children, row) =~= args);
    }
}

/// The rows of a dictionary column: there is one for each code, which is the value that the code
/// picks, and null where the code is missing.
pub proof fn law_decoded_rows<V>(sem: Semantics<V>, values: Seq<V>, codes: Seq<Option<u64>>)
    ensures
        sem.decode(values, codes).len() == codes.len(),
        forall|i: int|
            0 <= i < codes.len() ==> (#[trigger] sem.decode(values, codes)[i]) == (
            match codes[i] {
                Some(code) => values[code as int],
                None => sem.null,
            }),
{
}

/// Codes are in bounds just where each code that is there is below the number of values.
pub proof fn law_codes_in_bounds(codes: Seq<Option<u64>>, count: nat)
    ensures
        codes_in_bounds(codes, count) <==> forall|i: int|
            0 <= i < codes.len() && #[trigger] codes[i] is Some ==> codes[i]->0 < count,
{
}

} // verus!
