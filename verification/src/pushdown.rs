//! Splitting an expression into the part that runs on the dictionary's values and the
//! part that runs on the rows.
use vstd::prelude::*;

use crate::expr::{
    contains_fallible, contains_null_sensitive, references_root, ExprModel, Expression,
};
use crate::key::expression_key;

verus! {

impl ExprModel {
    /// This expression may run on the values of the dictionary, ahead of everything around it:
    /// it takes work away, it is about the column, it cannot fail, and it hands nulls on.
    pub open spec fn pushable(self) -> bool {
        &&& self matches ExprModel::Call { function, .. } && function.negative_cost
        &&& self.refers_to_root()
        &&& !self.has_fallible()
        &&& !self.has_null_sensitive()
    }

    /// The topmost pushable parts of this expression, from left to right.
    pub open spec fn pushed(self) -> Seq<ExprModel>
        decreases self,
    {
        if self.pushable() {
            seq![self]
        } else {
            match self {
                ExprModel::Root => seq![],
                ExprModel::Call { function, children } => Self::pushed_of_all(children),
            }
        }
    }

    /// The topmost pushable parts of each of `es`, one after the other.
    pub open spec fn pushed_of_all(es: Seq<ExprModel>) -> Seq<ExprModel>
        decreases es,
    {
        if es.len() == 0 {
            seq![]
        } else {
            Self::pushed_of_all(es.drop_last()) + es.last().pushed()
        }
    }

    /// This expression with the column in place of each of its topmost pushable parts.
    pub open spec fn remainder(self) -> ExprModel
        decreases self,
    {
        if self.pushable() {
            ExprModel::Root
        } else {
            match self {
                ExprModel::Root => ExprModel::Root,
                ExprModel::Call { function, children } => ExprModel::Call {
                    function,
                    children: Seq::new(
                        children.len(),
                        |i: int|
                            if 0 <= i < children.len() {
                                children[i].remainder()
                            } else {
                                ExprModel::Root
                            },
                    ),
                },
            }
        }
    }

    /// What this expression splits into. Where one inner part can stand for everything that
    /// is cut out, that is the remainder, unless nothing is left of it but the column, and the
    /// inner part. Elsewhere the expression stays whole and nothing is pushed.
    pub open spec fn split(self) -> (Option<ExprModel>, Option<ExprModel>) {
        if self.splits_exactly() {
            (
                if self.remainder() is Root {
                    None
                } else {
                    Some(self.remainder())
                },
                Self::last_of(self.pushed()),
            )
        } else {
            (Some(self), None)
        }
    }

    /// The column occurs in this expression outside its topmost pushable parts.
    pub open spec fn keeps_root(self) -> bool
        decreases self,
    {
        !self.pushable() && match self {
            ExprModel::Root => true,
            ExprModel::Call { function, children } => exists|i: int|
                0 <= i < children.len() && (#[trigger] children[i]).keeps_root(),
        }
    }

    /// One inner part can stand for everything that was cut out of this expression: either
    /// nothing was, or all that was cut out is the same and no column is left beside it.
    pub open spec fn splits_exactly(self) -> bool {
        ||| self.pushed().len() == 0
        ||| {
            &&& !self.keeps_root()
            &&& forall|p: ExprModel| #[trigger]
                self.pushed().contains(p) ==> p == self.pushed().last()
        }
    }

    /// An optional part, where a missing part stands for the column.
    pub open spec fn or_root(part: Option<ExprModel>) -> ExprModel {
        match part {
            Some(e) => e,
            None => ExprModel::Root,
        }
    }

    /// The last of `parts`, if there is one.
    pub open spec fn last_of(parts: Seq<ExprModel>) -> Option<ExprModel> {
        if parts.len() == 0 {
            None
        } else {
            Some(parts.last())
        }
    }
}

/// What is cut out of a list of expressions is what is cut out of its members.
proof fn lemma_pushed_of_all(es: Seq<ExprModel>, p: ExprModel)
    ensures
        ExprModel::pushed_of_all(es).contains(p) <==> exists|i: int|
            0 <= i < es.len() && (#[trigger] es[i]).pushed().contains(p),
    decreases es.len(),
{
    if es.len() > 0 {
        let init = es.drop_last();
        let before = ExprModel::pushed_of_all(init);
        let here = es.last().pushed();
        lemma_pushed_of_all(init, p);
        if (before + here).contains(p) {
            let k = (before + here).index_of(p);
            if k < before.len() {
                assert(before[k] == p);
                let i = choose|i: int|
                    0 <= i < init.len() && (#[trigger] init[i]).pushed().contains(p);
                assert(es[i].pushed().contains(p));
            } else {
                assert(here[k - before.len()] == p);
                assert(es[es.len() - 1].pushed().contains(p));
            }
        }
        if exists|i: int| 0 <= i < es.len() && (#[trigger] es[i]).pushed().contains(p) {
            let i = choose|i: int| 0 <= i < es.len() && (#[trigger] es[i]).pushed().contains(p);
            if i < init.len() {
                assert(init[i].pushed().contains(p));
                let k = before.index_of(p);
                assert((before + here)[k] == p);
            } else {
                let k = here.index_of(p);
                assert((before + here)[before.len() + k] == p);
            }
        }
    }
}

/// Every part that is cut out is pushable and stems from the expression.
proof fn lemma_pushed_parts(e: ExprModel, p: ExprModel)
    requires
        e.pushed().contains(p),
    ensures
        p.pushable(),
        p.occurs_in(e),
    decreases e,
{
    if !e.pushable() {
        if let ExprModel::Call { function, children } = e {
            lemma_pushed_of_all(children, p);
            let i = choose|i: int|
                0 <= i < children.len() && (#[trigger] children[i]).pushed().contains(p);
            lemma_pushed_parts(children[i], p);
        }
    }
}

/// Putting `x` back wherever the column stands in the remainder gives the expression again
/// just where every part that was cut out is `x`, and a column that was there all along is.
proof fn lemma_substitute_remainder(e: ExprModel, x: ExprModel)
    ensures
        e.remainder().substitute(x) == e <==> {
            &&& forall|p: ExprModel| #[trigger] e.pushed().contains(p) ==> p == x
            &&& e.keeps_root() ==> x is Root
        },
    decreases e,
{
    if e.pushable() {
        assert(e.pushed()[0] == e);
        assert(e.pushed().contains(e));
    } else if let ExprModel::Call { function, children } = e {
        let joined = e.remainder().substitute(x);
        assert forall|i: int| 0 <= i < children.len() implies joined->children[i]
            == (#[trigger] children[i]).remainder().substitute(x) by {}
        if joined == e {
            assert forall|p: ExprModel| #[trigger] e.pushed().contains(p) implies p == x by {
                lemma_pushed_of_all(children, p);
                let i = choose|i: int|
                    0 <= i < children.len() && (#[trigger] children[i]).pushed().contains(p);
                assert(joined->children[i] == children[i]);
                lemma_substitute_remainder(children[i], x);
            }
            if e.keeps_root() {
                let i = choose|i: int|
                    0 <= i < children.len() && (#[trigger] children[i]).keeps_root();
                assert(joined->children[i] == children[i]);
                lemma_substitute_remainder(children[i], x);
            }
        }
        if (forall|p: ExprModel| #[trigger] e.pushed().contains(p) ==> p == x) && (e.keeps_root()
            ==> x is Root) {
            assert forall|i: int| 0 <= i < children.len() implies joined->children[i]
                == #[trigger] children[i] by {
                assert forall|p: ExprModel| #[trigger] children[i].pushed().contains(p) implies p
                    == x by {
                    lemma_pushed_of_all(children, p);
                    assert(e.pushed().contains(p));
                }
                lemma_substitute_remainder(children[i], x);
            }
            assert(joined->children =~= children);
        }
    }
}

/// Cutting out pushable parts changes none of the facts that pushing goes by.
proof fn lemma_remainder_facts(e: ExprModel)
    ensures
        e.remainder().refers_to_root() == e.refers_to_root(),
        e.remainder().has_fallible() == e.has_fallible(),
        e.remainder().has_null_sensitive() == e.has_null_sensitive(),
        !e.remainder().pushable(),
    decreases e,
{
    if !e.pushable() {
        if let ExprModel::Call { function, children } = e {
            let rest = e.remainder()->children;
            assert forall|i: int| 0 <= i < children.len() implies {
                &&& (#[trigger] rest[i]).refers_to_root() == children[i].refers_to_root()
                &&& rest[i].has_fallible() == children[i].has_fallible()
                &&& rest[i].has_null_sensitive() == children[i].has_null_sensitive()
            } by {
                lemma_remainder_facts(children[i]);
            }
            if e.refers_to_root() {
                let i = choose|i: int|
                    0 <= i < children.len() && (#[trigger] children[i]).refers_to_root();
                assert(rest[i].refers_to_root());
            }
            if e.has_fallible() && !function.fallible {
                let i = choose|i: int|
                    0 <= i < children.len() && (#[trigger] children[i]).has_fallible();
                assert(rest[i].has_fallible());
            }
            if e.has_null_sensitive() && !function.null_sensitive {
                let i = choose|i: int|
                    0 <= i < children.len() && (#[trigger] children[i]).has_null_sensitive();
                assert(rest[i].has_null_sensitive());
            }
        }
    }
}

/// Nothing can be cut out of a remainder.
proof fn lemma_remainder_is_settled(e: ExprModel)
    ensures
        e.remainder().pushed() == Seq::<ExprModel>::empty(),
    decreases e,
{
    lemma_remainder_facts(e);
    let r = e.remainder();
    if !e.pushable() {
        if let ExprModel::Call { function, children } = e {
            assert forall|p: ExprModel| !(#[trigger] r.pushed().contains(p)) by {
                lemma_pushed_of_all(r->children, p);
                if r.pushed().contains(p) {
                    let i = choose|i: int|
                        0 <= i < r->children.len() && (#[trigger] r->children[i]).pushed().contains(
                            p,
                        );
                    lemma_remainder_is_settled(children[i]);
                }
            }
            if r.pushed().len() > 0 {
                assert(r.pushed().contains(r.pushed()[0]));
            }
        }
    }
}

/// An expression that nothing is cut out of is its own remainder.
proof fn lemma_nothing_pushed(e: ExprModel)
    requires
        e.pushed().len() == 0,
    ensures
        e.remainder() == e,
{
    lemma_substitute_remainder(e, ExprModel::Root);
    lemma_substitute_root(e.remainder());
}

/// Putting the column in place of itself changes nothing.
proof fn lemma_substitute_root(e: ExprModel)
    ensures
        e.substitute(ExprModel::Root) == e,
    decreases e,
{
    if let ExprModel::Call { function, children } = e {
        assert forall|i: int| 0 <= i < children.len() implies (
        #[trigger] children[i]).substitute(ExprModel::Root) == children[i] by {
            lemma_substitute_root(children[i]);
        }
        assert(e.substitute(ExprModel::Root)->children =~= children);
    }
}

/// An expression is about the column where one of its parts is.
proof fn lemma_part_refers_to_root(p: ExprModel, e: ExprModel)
    requires
        p.occurs_in(e),
        p.refers_to_root(),
    ensures
        e.refers_to_root(),
    decreases e,
{
    if p != e {
        if let ExprModel::Call { function, children } = e {
            let i = choose|i: int|
                0 <= i < children.len() && p.occurs_in(#[trigger] children[i]);
            lemma_part_refers_to_root(p, children[i]);
            assert(children[i].refers_to_root());
        }
    }
}

/// Something is cut out of an expression in which something pushable occurs.
proof fn lemma_pushable_part_is_found(p: ExprModel, e: ExprModel)
    requires
        p.occurs_in(e),
        p.pushable(),
    ensures
        e.pushed().len() > 0,
    decreases e,
{
    if !e.pushable() {
        if let ExprModel::Call { function, children } = e {
            let i = choose|i: int|
                0 <= i < children.len() && p.occurs_in(#[trigger] children[i]);
            lemma_pushable_part_is_found(p, children[i]);
            let q = children[i].pushed()[0];
            assert(children[i].pushed().contains(q));
            lemma_pushed_of_all(children, q);
        }
    }
}

/// Only a part of the expression is ever pushed, and only one that has a negative cost, is
/// about the column, cannot fail and is not null-sensitive.
pub proof fn law_inner_part_is_pushable(e: ExprModel)
    ensures
        e.split().1 matches Some(inner) ==> inner.pushable() && inner.occurs_in(e),
{
    if e.pushed().len() > 0 {
        lemma_pushed_parts(e, e.pushed().last());
    }
}

/// Putting the last part that was cut out back wherever the column stands in the remainder
/// gives the expression again just where that part can stand for all that was cut out. It
/// cannot where two different parts were cut out, or where the column also stands by itself.
proof fn lemma_cut_parts_rejoin(e: ExprModel)
    ensures
        e.remainder().substitute(ExprModel::or_root(ExprModel::last_of(e.pushed()))) == e
            <==> e.splits_exactly(),
{
    let last = ExprModel::or_root(ExprModel::last_of(e.pushed()));
    lemma_substitute_remainder(e, last);
    if e.pushed().len() > 0 {
        lemma_pushed_parts(e, last);
        assert(e.pushed().contains(last));
    }
}

/// Whatever can be pushed is: there is an inner part just where some pushable expression
/// occurs in the expression and one inner part can stand for all that is cut out.
pub proof fn law_pushes_where_possible(e: ExprModel)
    ensures
        e.split().1 is Some <==> e.splits_exactly() && exists|p: ExprModel| #[trigger]
            p.occurs_in(e) && p.pushable(),
{
    if e.pushed().len() > 0 {
        lemma_pushed_parts(e, e.pushed().last());
    }
    if exists|p: ExprModel| #[trigger] p.occurs_in(e) && p.pushable() {
        let p = choose|p: ExprModel| #[trigger] p.occurs_in(e) && p.pushable();
        lemma_pushable_part_is_found(p, e);
    }
}

/// An expression that is pushable as a whole leaves no outer part, and the only other one
/// that leaves none is the column, of which nothing is pushed.
pub proof fn law_no_outer_part(e: ExprModel)
    ensures
        e.split().0 is None <==> e.pushable() || e is Root,
        e.pushable() ==> e.split() == (None::<ExprModel>, Some(e)),
        e is Root ==> e.split() == (None::<ExprModel>, None::<ExprModel>),
{
    if e.pushable() {
        assert(e.pushed().last() == e);
    }
}

/// Where nothing is pushed, the outer part is the whole expression, unless that is the
/// column.
pub proof fn law_no_inner_part(e: ExprModel)
    requires
        e.split().1 is None,
    ensures
        ExprModel::or_root(e.split().0) == e,
{
    if e.pushed().len() == 0 {
        lemma_nothing_pushed(e);
    }
}

/// An expression that does not mention the column is left as it is.
pub proof fn law_constants_stay(e: ExprModel)
    requires
        !e.refers_to_root(),
    ensures
        e.split() == (Some(e), None::<ExprModel>),
{
    if e.pushed().len() > 0 {
        let p = e.pushed().last();
        lemma_pushed_parts(e, p);
        lemma_part_refers_to_root(p, e);
    }
    lemma_nothing_pushed(e);
}

/// Splitting the outer part again pushes nothing more and leaves it as it is.
pub proof fn law_splitting_twice(e: ExprModel)
    ensures
        e.split().0 matches Some(outer) ==> outer.split() == (Some(outer), None::<ExprModel>),
{
    lemma_remainder_is_settled(e);
    lemma_nothing_pushed(e.remainder());
}

/// The parts make up the expression: putting the inner part back wherever the column stands
/// in the outer part gives the expression again.
pub proof fn law_parts_rejoin(e: ExprModel)
    ensures
        ExprModel::or_root(e.split().0).substitute(ExprModel::or_root(e.split().1)) == e,
{
    lemma_cut_parts_rejoin(e);
    lemma_substitute_root(e);
}

/// What may be pushed: a call of a function with a negative cost, in which the column occurs
/// and in which no call of a fallible or null-sensitive function occurs.
pub proof fn law_what_is_pushable(e: ExprModel)
    ensures
        e.pushable() <==> {
            &&& e is Call
            &&& e->function.negative_cost
            &&& ExprModel::Root.occurs_in(e)
            &&& forall|p: ExprModel| #[trigger]
                p.occurs_in(e) && p is Call ==> !p->function.fallible
                    && !p->function.null_sensitive
        },
{
    crate::expr::law_column_anywhere(e);
    crate::expr::law_fallible_anywhere(e);
    crate::expr::law_null_sensitive_anywhere(e);
}

/// The inner part of a split is a call of a function with a negative cost, in which the column
/// occurs and nothing fallible or null-sensitive does.
pub proof fn law_inner_part_has_a_negative_cost(e: ExprModel)
    ensures
        e.split().1 matches Some(inner) ==> {
            &&& inner.occurs_in(e)
            &&& inner is Call
            &&& inner->function.negative_cost
            &&& ExprModel::Root.occurs_in(inner)
            &&& forall|p: ExprModel| #[trigger]
                p.occurs_in(inner) && p is Call ==> !p->function.fallible
                    && !p->function.null_sensitive
        },
{
    law_inner_part_is_pushable(e);
    if let Some(inner) = e.split().1 {
        law_what_is_pushable(inner);
    }
}

/// An expression in which no function has a negative cost is not split: nothing is pushed, and
/// the outer part is all of it, unless it is the column.
pub proof fn law_without_a_negative_cost_nothing_is_pushed(e: ExprModel)
    requires
        forall|p: ExprModel| #[trigger]
            p.occurs_in(e) && p is Call ==> !p->function.negative_cost,
    ensures
        e.split() == (if e is Root {
            (None::<ExprModel>, None::<ExprModel>)
        } else {
            (Some(e), None::<ExprModel>)
        }),
{
    law_inner_part_has_a_negative_cost(e);
    law_no_inner_part(e);
    law_no_outer_part(e);
    law_what_is_pushable(e);
    assert(e.occurs_in(e));
}

/// Putting a part that is about the column, cannot fail and is not null-sensitive in place of
/// the column changes none of the facts that pushing goes by.
proof fn lemma_substitute_facts(outer: ExprModel, inner: ExprModel)
    requires
        inner.refers_to_root(),
        !inner.has_fallible(),
        !inner.has_null_sensitive(),
    ensures
        outer.substitute(inner).refers_to_root() == outer.refers_to_root(),
        outer.substitute(inner).has_fallible() == outer.has_fallible(),
        outer.substitute(inner).has_null_sensitive() == outer.has_null_sensitive(),
    decreases outer,
{
    if let ExprModel::Call { function, children } = outer {
        let joined = outer.substitute(inner)->children;
        assert forall|i: int| 0 <= i < children.len() implies {
            &&& (#[trigger] joined[i]).refers_to_root() == children[i].refers_to_root()
            &&& joined[i].has_fallible() == children[i].has_fallible()
            &&& joined[i].has_null_sensitive() == children[i].has_null_sensitive()
        } by {
            lemma_substitute_facts(children[i], inner);
        }
        if outer.refers_to_root() {
            let i = choose|i: int|
                0 <= i < children.len() && (#[trigger] children[i]).refers_to_root();
            assert(joined[i].refers_to_root());
        }
        if outer.has_fallible() && !function.fallible {
            let i = choose|i: int|
                0 <= i < children.len() && (#[trigger] children[i]).has_fallible();
            assert(joined[i].has_fallible());
        }
        if outer.has_null_sensitive() && !function.null_sensitive {
            let i = choose|i: int|
                0 <= i < children.len() && (#[trigger] children[i]).has_null_sensitive();
            assert(joined[i].has_null_sensitive());
        }
    }
}

/// Where nothing in `outer` is pushable, what is cut out of `outer` with `inner` in place of the
/// column is `inner`, and `outer` is what remains.
proof fn lemma_cut_of_substituted(outer: ExprModel, inner: ExprModel)
    requires
        inner.pushable(),
        forall|q: ExprModel| #[trigger] q.occurs_in(outer) ==> !q.pushable(),
    ensures
        outer.substitute(inner).remainder() == outer,
        forall|p: ExprModel| #[trigger]
            outer.substitute(inner).pushed().contains(p) ==> p == inner,
        outer.substitute(inner).pushed().len() > 0 <==> outer.refers_to_root(),
        !outer.substitute(inner).keeps_root(),
    decreases outer,
{
    let e = outer.substitute(inner);
    if let ExprModel::Call { function, children } = outer {
        let joined = e->children;
        assert(outer.occurs_in(outer));
        lemma_substitute_facts(outer, inner);
        assert(!e.pushable());
        assert forall|i: int| 0 <= i < children.len() implies {
            &&& (#[trigger] joined[i]).remainder() == children[i]
            &&& !joined[i].keeps_root()
            &&& joined[i].pushed().len() > 0 <==> children[i].refers_to_root()
            &&& forall|p: ExprModel| #[trigger] joined[i].pushed().contains(p) ==> p == inner
        } by {
            assert forall|q: ExprModel| #[trigger]
                q.occurs_in(children[i]) implies !q.pushable() by {
                assert(q.occurs_in(outer));
            }
            lemma_cut_of_substituted(children[i], inner);
        }
        assert(e.remainder()->children =~= children);
        assert forall|p: ExprModel| #[trigger] e.pushed().contains(p) implies p == inner by {
            lemma_pushed_of_all(joined, p);
        }
        if outer.refers_to_root() {
            let i = choose|i: int|
                0 <= i < children.len() && (#[trigger] children[i]).refers_to_root();
            let p = joined[i].pushed()[0];
            assert(joined[i].pushed().contains(p));
            lemma_pushed_of_all(joined, p);
            assert(e.pushed().contains(p));
        }
        if e.pushed().len() > 0 {
            let p = e.pushed()[0];
            assert(e.pushed().contains(p));
            lemma_pushed_of_all(joined, p);
            let i = choose|i: int|
                0 <= i < joined.len() && (#[trigger] joined[i]).pushed().contains(p);
            assert(joined[i].pushed().len() > 0);
            assert(children[i].refers_to_root());
        }
    }
}

/// There is only one way to split: where an expression is an outer part with an inner part in
/// place of the column, the inner part may be pushed, and nothing in the outer part may be,
/// these two are what it splits into.
pub proof fn law_only_one_split(e: ExprModel, outer: ExprModel, inner: ExprModel)
    requires
        e == outer.substitute(inner),
        inner.pushable(),
        ExprModel::Root.occurs_in(outer),
        forall|q: ExprModel| #[trigger] q.occurs_in(outer) ==> !q.pushable(),
    ensures
        e.split().1 == Some(inner),
        e.split().0 == (if outer is Root {
            None::<ExprModel>
        } else {
            Some(outer)
        }),
{
    crate::expr::law_column_anywhere(outer);
    lemma_cut_of_substituted(outer, inner);
    assert(e.pushed().contains(e.pushed().last()));
}

/// What a split gives, for every expression. Where there is an inner part, the expression is the
/// outer part with the inner part in place of the column, the column occurs in the outer part,
/// and nothing in it may be pushed. Where there is none, the expression stays as it is, and no
/// two parts like that make it up.
pub proof fn law_split_finds_the_parts(e: ExprModel)
    ensures
        match e.split() {
            (Some(outer), Some(inner)) => {
                &&& outer is Call
                &&& outer.substitute(inner) == e
                &&& inner.pushable()
                &&& ExprModel::Root.occurs_in(outer)
                &&& forall|q: ExprModel| #[trigger] q.occurs_in(outer) ==> !q.pushable()
            },
            (None, Some(inner)) => inner == e && e.pushable(),
            (Some(outer), None) => outer == e && e is Call,
            (None, None) => e is Root,
        },
        e.split().1 is None ==> forall|outer: ExprModel, inner: ExprModel|
            e == #[trigger] outer.substitute(inner) && inner.pushable()
                && ExprModel::Root.occurs_in(outer) ==> exists|q: ExprModel| #[trigger]
                q.occurs_in(outer) && q.pushable(),
{
    law_parts_rejoin(e);
    law_inner_part_is_pushable(e);
    law_no_outer_part(e);
    if let Some(inner) = e.split().1 {
        lemma_part_refers_to_root(inner, e);
        lemma_remainder_facts(e);
        lemma_remainder_is_settled(e);
        crate::expr::law_column_anywhere(e.remainder());
        assert forall|q: ExprModel| #[trigger] q.occurs_in(e.remainder()) implies !q.pushable() by {
            if q.pushable() {
                lemma_pushable_part_is_found(q, e.remainder());
            }
        }
    } else {
        law_no_inner_part(e);
        assert forall|outer: ExprModel, inner: ExprModel|
            e == #[trigger] outer.substitute(inner) && inner.pushable()
                && ExprModel::Root.occurs_in(outer) implies exists|q: ExprModel| #[trigger]
            q.occurs_in(outer) && q.pushable() by {
            if forall|q: ExprModel| #[trigger] q.occurs_in(outer) ==> !q.pushable() {
                law_only_one_split(e, outer, inner);
            }
        }
    }
}

/// Whether `expr` may run on the values of the dictionary.
pub fn is_pushable(expr: &Expression) -> (r: bool)
    ensures
        r == expr@.pushable(),
{
    match expr {
        Expression::Root => false,
        Expression::Call { function, children } => {
            function.negative_cost && references_root(expr) && !contains_fallible(expr)
                && !contains_null_sensitive(expr)
        },
    }
}

/// Hands back what is left of `expr` once its topmost pushable parts are cut out, and leaves
/// the last of those in `inner`.
fn cut_pushable(expr: &Expression, inner: &mut Option<Expression>) -> (r: Expression)
    ensures
        r@ == expr@.remainder(),
        Expression::option_model(*final(inner)) == (if expr@.pushed().len() == 0 {
            Expression::option_model(*old(inner))
        } else {
            ExprModel::last_of(expr@.pushed())
        }),
    decreases expr,
{
    if is_pushable(expr) {
        *inner = Some(expr.clone());
        return Expression::Root;
    }
    match expr {
        Expression::Root => Expression::Root,
        Expression::Call { function, children } => {
            let mut left: Vec<Expression> = Vec::new();
            let mut i: usize = 0;
            while i < children.len()
                invariant
                    *expr == (Expression::Call { function: *function, children: *children }),
                    !expr@.pushable(),
                    i <= children.len(),
                    left@.len() == i,
                    forall|j: int|
                        0 <= j < i ==> (#[trigger] left@[j])@ == expr@->children[j].remainder(),
                    Expression::option_model(*inner) == (if ExprModel::pushed_of_all(
                        expr@->children.take(i as int),
                    ).len() == 0 {
                        Expression::option_model(*old(inner))
                    } else {
                        ExprModel::last_of(ExprModel::pushed_of_all(expr@->children.take(i as int)))
                    }),
                decreases children.len() - i,
            {
                assert(expr@->children[i as int] == children@[i as int]@);
                let rest = cut_pushable(&children[i], inner);
                left.push(rest);
                assert(expr@->children.take(i + 1).drop_last() =~= expr@->children.take(i as int));
                i += 1;
            }
            assert(expr@->children.take(children.len() as int) =~= expr@->children);
            let r = Expression::Call { function: function.clone(), children: left };
            assert(r@->children =~= expr@.remainder()->children);
            r
        },
    }
}

/// `expr` with `replacement` wherever the column stands.
fn put_back(expr: &Expression, replacement: &Expression) -> (r: Expression)
    ensures
        r@ == expr@.substitute(replacement@),
    decreases expr,
{
    match expr {
        Expression::Root => replacement.clone(),
        Expression::Call { function, children } => {
            let mut joined: Vec<Expression> = Vec::new();
            let mut i: usize = 0;
            while i < children.len()
                invariant
                    *expr == (Expression::Call { function: *function, children: *children }),
                    i <= children.len(),
                    joined@.len() == i,
                    forall|j: int|
                        0 <= j < i ==> (#[trigger] joined@[j])@ == expr@->children[j].substitute(
                            replacement@,
                        ),
                decreases children.len() - i,
            {
                assert(expr@->children[i as int] == children@[i as int]@);
                let child = put_back(&children[i], replacement);
                joined.push(child);
                i += 1;
            }
            let r = Expression::Call { function: function.clone(), children: joined };
            assert(r@->children =~= expr@.substitute(replacement@)->children);
            r
        },
    }
}

/// Whether two expressions are the same, which their keys tell.
fn same_expression(a: &Expression, b: &Expression) -> (r: bool)
    ensures
        r == (a@ == b@),
{
    let left = expression_key(a);
    let right = expression_key(b);
    proof {
        crate::key::law_keys_tell_expressions_apart(a@, b@);
    }
    if left.len() != right.len() {
        return false;
    }
    let mut i: usize = 0;
    while i < left.len()
        invariant
            a@.key() == b@.key() <==> a@ == b@,
            left@ == a@.key(),
            right@ == b@.key(),
            left.len() == right.len(),
            i <= left.len(),
            forall|j: int| 0 <= j < i ==> left@[j] == right@[j],
        decreases left.len() - i,
    {
        if left[i] != right[i] {
            return false;
        }
        i += 1;
    }
    assert(left@ =~= right@);
    true
}

/// Splits an expression in two: the outer part, to be applied to the rows once the values
/// are canonical, and the inner part, to be applied to the values before that.
///
/// An inner part is only cut out where it has a negative cost, is about the column, cannot
/// fail and is not null-sensitive. With the inner part wherever the column stands in it, the
/// outer part is the expression again: where no inner part makes it so, because different
/// parts would have to be cut out or the column also stands by itself, nothing is pushed and
/// the outer part is the whole expression.
pub fn split_expression_for_pushdown(expr: Expression) -> (r: (
    Option<Expression>,
    Option<Expression>,
))
    ensures
        (Expression::option_model(r.0), Expression::option_model(r.1)) == expr@.split(),
{
    let mut inner: Option<Expression> = None;
    let outer = cut_pushable(&expr, &mut inner);
    let joined = match &inner {
        Some(part) => put_back(&outer, part),
        None => put_back(&outer, &Expression::Root),
    };
    proof {
        lemma_cut_parts_rejoin(expr@);
    }
    if !same_expression(&joined, &expr) {
        return (Some(expr), None);
    }
    match outer {
        Expression::Root => (None, inner),
        Expression::Call { .. } => (Some(outer), inner),
    }
}

} // verus!
