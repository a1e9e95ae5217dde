//! Expressions over a column, and the facts about them that the reader goes by.
use vstd::prelude::*;

verus! {

/// A scalar function as it stands in an expression, with what the reader has to know of it.
#[derive(Debug, PartialEq, Eq)]
pub struct ScalarFn {
    /// The name that tells this function from all others.
    pub id: String,
    /// The function's options in serialised form.
    pub options: Vec<u8>,
    /// Running the function leaves less work behind than it takes.
    pub negative_cost: bool,
    /// The function can fail on some inputs.
    pub fallible: bool,
    /// The function tells a null apart: it does not simply hand nulls on.
    pub null_sensitive: bool,
}

/// An expression over the column that is being read.
#[derive(Debug, PartialEq, Eq)]
pub enum Expression {
    /// The column itself.
    Root,
    /// A function applied to the results of other expressions.
    Call { function: ScalarFn, children: Vec<Expression> },
}

/// The mathematical value of a [`ScalarFn`].
pub struct FnModel {
    pub id: Seq<char>,
    pub options: Seq<u8>,
    pub negative_cost: bool,
    pub fallible: bool,
    pub null_sensitive: bool,
}

/// The mathematical value of an [`Expression`]: a finite tree.
pub enum ExprModel {
    Root,
    Call { function: FnModel, children: Seq<ExprModel> },
}

impl View for ScalarFn {
    type V = FnModel;

    open spec fn view(&self) -> FnModel {
        FnModel {
            id: self.id@,
            options: self.options@,
            negative_cost: self.negative_cost,
            fallible: self.fallible,
            null_sensitive: self.null_sensitive,
        }
    }
}

impl View for Expression {
    type V = ExprModel;

    open spec fn view(&self) -> ExprModel
        decreases self,
    {
        match self {
            Expression::Root => ExprModel::Root,
            Expression::Call { function, children } => ExprModel::Call {
                function: function@,
                children: Seq::new(
                    children@.len(),
                    |i: int|
                        if 0 <= i < children@.len() {
                            children@[i]@
                        } else {
                            ExprModel::Root
                        },
                ),
            },
        }
    }
}

impl ExprModel {
    /// The column occurs in this expression.
    pub open spec fn refers_to_root(self) -> bool
        decreases self,
    {
        match self {
            ExprModel::Root => true,
            ExprModel::Call { function, children } => exists|i: int|
                0 <= i < children.len() && (#[trigger] children[i]).refers_to_root(),
        }
    }

    /// Some function in this expression can fail.
    pub open spec fn has_fallible(self) -> bool
        decreases self,
    {
        match self {
            ExprModel::Root => false,
            ExprModel::Call { function, children } => function.fallible || exists|i: int|
                0 <= i < children.len() && (#[trigger] children[i]).has_fallible(),
        }
    }

    /// Some function in this expression is null-sensitive.
    pub open spec fn has_null_sensitive(self) -> bool
        decreases self,
    {
        match self {
            ExprModel::Root => false,
            ExprModel::Call { function, children } => function.null_sensitive || exists|i: int|
                0 <= i < children.len() && (#[trigger] children[i]).has_null_sensitive(),
        }
    }

    /// This expression is `whole`, or occurs somewhere below it.
    pub open spec fn occurs_in(self, whole: ExprModel) -> bool
        decreases whole,
    {
        self == whole || match whole {
            ExprModel::Root => false,
            ExprModel::Call { function, children } => exists|i: int|
                0 <= i < children.len() && self.occurs_in(#[trigger] children[i]),
        }
    }

    /// This expression with `replacement` in place of every occurrence of the column.
    pub open spec fn substitute(self, replacement: ExprModel) -> ExprModel
        decreases self,
    {
        match self {
            ExprModel::Root => replacement,
            ExprModel::Call { function, children } => ExprModel::Call {
                function,
                children: Seq::new(
                    children.len(),
                    |i: int|
                        if 0 <= i < children.len() {
                            children[i].substitute(replacement)
                        } else {
                            ExprModel::Root
                        },
                ),
            },
        }
    }
}

impl ScalarFn {
    /// A function of the given name, options and properties.
    pub fn new(
        id: String,
        options: Vec<u8>,
        negative_cost: bool,
        fallible: bool,
        null_sensitive: bool,
    ) -> (r: ScalarFn)
        ensures
            r@ == (FnModel { id: id@, options: options@, negative_cost, fallible, null_sensitive }),
    {
        ScalarFn { id, options, negative_cost, fallible, null_sensitive }
    }

    fn copied(&self) -> (r: ScalarFn)
        ensures
            r@ == self@,
    {
        let mut options: Vec<u8> = Vec::new();
        let mut i: usize = 0;
        while i < self.options.len()
            invariant
                i <= self.options.len(),
                options@ == self.options@.take(i as int),
            decreases self.options.len() - i,
        {
            options.push(self.options[i]);
            i += 1;
        }
        assert(options@ =~= self.options@);
        ScalarFn {
            id: self.id.clone(),
            options,
            negative_cost: self.negative_cost,
            fallible: self.fallible,
            null_sensitive: self.null_sensitive,
        }
    }
}

impl Clone for ScalarFn {
    fn clone(&self) -> (r: ScalarFn)
        ensures
            r@ == self@,
    {
        self.copied()
    }
}

impl Expression {
    /// The value of an optional expression.
    pub open spec fn option_model(e: Option<Expression>) -> Option<ExprModel> {
        match e {
            Some(e) => Some(e@),
            None => None,
        }
    }

    /// The values of a list of expressions.
    pub open spec fn models(es: Seq<Expression>) -> Seq<ExprModel> {
        Seq::new(es.len(), |i: int| es[i]@)
    }

    /// `function` applied to `children`.
    pub fn call(function: ScalarFn, children: Vec<Expression>) -> (r: Expression)
        ensures
            r@ == (ExprModel::Call { function: function@, children: Self::models(children@) }),
    {
        let r = Expression::Call { function, children };
        assert(r@->children =~= Self::models(children@));
        r
    }

    fn copied(&self) -> (r: Expression)
        ensures
            r@ == self@,
        decreases self,
    {
        match self {
            Expression::Root => Expression::Root,
            Expression::Call { function, children } => {
                let mut copies: Vec<Expression> = Vec::new();
                let mut i: usize = 0;
                while i < children.len()
                    invariant
                        *self == (Expression::Call { function: *function, children: *children }),
                        i <= children.len(),
                        copies@.len() == i,
                        forall|j: int|
                            0 <= j < i ==> (#[trigger] copies@[j])@ == children@[j]@,
                    decreases children.len() - i,
                {
                    assert(self@->children[i as int] == children@[i as int]@);
                    let copy = Self::copied(&children[i]);
                    copies.push(copy);
                    i += 1;
                }
                let r = Expression::Call { function: function.copied(), children: copies };
                assert(r@->children =~= self@->children);
                r
            },
        }
    }
}

impl Clone for Expression {
    fn clone(&self) -> (r: Expression)
        ensures
            r@ == self@,
    {
        self.copied()
    }
}

/// Whether the column occurs in `expr`.
pub fn references_root(expr: &Expression) -> (r: bool)
    ensures
        r == expr@.refers_to_root(),
    decreases expr,
{
    match expr {
        Expression::Root => true,
        Expression::Call { function, children } => {
            let mut i: usize = 0;
            while i < children.len()
                invariant
                    *expr == (Expression::Call { function: *function, children: *children }),
                    i <= children.len(),
                    forall|j: int| 0 <= j < i ==> !(#[trigger] expr@->children[j]).refers_to_root(),
                decreases children.len() - i,
            {
                assert(expr@->children[i as int] == children@[i as int]@);
                if references_root(&children[i]) {
                    assert(expr@->children[i as int].refers_to_root());
                    return true;
                }
                i += 1;
            }
            false
        },
    }
}

/// Whether some function in `expr` can fail.
pub fn contains_fallible(expr: &Expression) -> (r: bool)
    ensures
        r == expr@.has_fallible(),
    decreases expr,
{
    match expr {
        Expression::Root => false,
        Expression::Call { function, children } => {
            if function.fallible {
                return true;
            }
            let mut i: usize = 0;
            while i < children.len()
                invariant
                    *expr == (Expression::Call { function: *function, children: *children }),
                    !function.fallible,
                    i <= children.len(),
                    forall|j: int| 0 <= j < i ==> !(#[trigger] expr@->children[j]).has_fallible(),
                decreases children.len() - i,
            {
                assert(expr@->children[i as int] == children@[i as int]@);
                if contains_fallible(&children[i]) {
                    assert(expr@->children[i as int].has_fallible());
                    return true;
                }
                i += 1;
            }
            false
        },
    }
}

/// Whether some function in `expr` is null-sensitive.
pub fn contains_null_sensitive(expr: &Expression) -> (r: bool)
    ensures
        r == expr@.has_null_sensitive(),
    decreases expr,
{
    match expr {
        Expression::Root => false,
        Expression::Call { function, children } => {
            if function.null_sensitive {
                return true;
            }
            let mut i: usize = 0;
            while i < children.len()
                invariant
                    *expr == (Expression::Call { function: *function, children: *children }),
                    !function.null_sensitive,
                    i <= children.len(),
                    forall|j: int|
                        0 <= j < i ==> !(#[trigger] expr@->children[j]).has_null_sensitive(),
                decreases children.len() - i,
            {
                assert(expr@->children[i as int] == children@[i as int]@);
                if contains_null_sensitive(&children[i]) {
                    assert(expr@->children[i as int].has_null_sensitive());
                    return true;
                }
                i += 1;
            }
            false
        },
    }
}

/// The value of an expression carries everything that the expression holds: the name, the
/// options and the three properties of each function, and each child in its place.
pub proof fn law_models_carry_everything(function: ScalarFn, children: Vec<Expression>)
    ensures
        Expression::Root@ is Root,
        ({
            let call = Expression::Call { function, children };
            &&& call@ is Call
            &&& call@->function.id == function.id@
            &&& call@->function.options == function.options@
            &&& call@->function.negative_cost == function.negative_cost
            &&& call@->function.fallible == function.fallible
            &&& call@->function.null_sensitive == function.null_sensitive
            &&& call@->children.len() == children@.len()
            &&& forall|i: int|
                0 <= i < children@.len() ==> (#[trigger] call@->children[i]) == children@[i]@
            &&& Expression::option_model(Some(call)) == Some(call@)
        }),
        Expression::option_model(None) is None,
        Expression::models(children@).len() == children@.len(),
        forall|i: int|
            0 <= i < children@.len() ==> (#[trigger] Expression::models(children@)[i])
                == children@[i]@,
{
}

/// What occurs in an expression: in the column only the column, and in a call the call itself
/// and what occurs in one of its children.
pub proof fn law_what_occurs(p: ExprModel, function: FnModel, children: Seq<ExprModel>)
    ensures
        p.occurs_in(ExprModel::Root) <==> p is Root,
        p.occurs_in(ExprModel::Call { function, children }) <==> {
            ||| p == (ExprModel::Call { function, children })
            ||| exists|i: int| 0 <= i < children.len() && p.occurs_in(#[trigger] children[i])
        },
{
    let e = ExprModel::Call { function, children };
    assert(e->children == children);
    if p.occurs_in(e) && p != e {
        let i = choose|i: int|
            0 <= i < e->children.len() && p.occurs_in(#[trigger] e->children[i]);
        assert(p.occurs_in(children[i]));
    }
}

/// What occurs in a part of an expression occurs in the expression.
pub proof fn law_parts_of_parts_are_parts(p: ExprModel, part: ExprModel, e: ExprModel)
    requires
        p.occurs_in(part),
        part.occurs_in(e),
    ensures
        p.occurs_in(e),
    decreases e,
{
    if part != e {
        if let ExprModel::Call { function, children } = e {
            let i = choose|i: int|
                0 <= i < children.len() && part.occurs_in(#[trigger] children[i]);
            law_parts_of_parts_are_parts(p, part, children[i]);
        }
    }
}

/// An expression refers to the column just where the column occurs in it.
pub proof fn law_column_anywhere(e: ExprModel)
    ensures
        e.refers_to_root() <==> ExprModel::Root.occurs_in(e),
    decreases e,
{
    if let ExprModel::Call { function, children } = e {
        assert forall|i: int| 0 <= i < children.len() implies (
        #[trigger] children[i]).refers_to_root() == ExprModel::Root.occurs_in(children[i]) by {
            law_column_anywhere(children[i]);
        }
    }
}

/// An expression has something fallible just where a call of a fallible function occurs in it.
pub proof fn law_fallible_anywhere(e: ExprModel)
    ensures
        e.has_fallible() <==> exists|p: ExprModel| #[trigger]
            p.occurs_in(e) && p is Call && p->function.fallible,
    decreases e,
{
    if let ExprModel::Call { function, children } = e {
        assert(e.occurs_in(e));
        if e.has_fallible() && !function.fallible {
            let i = choose|i: int|
                0 <= i < children.len() && (#[trigger] children[i]).has_fallible();
            law_fallible_anywhere(children[i]);
            let p = choose|p: ExprModel| #[trigger]
                p.occurs_in(children[i]) && p is Call && p->function.fallible;
            assert(p.occurs_in(e));
        }
        assert forall|p: ExprModel| #[trigger]
            p.occurs_in(e) && p is Call && p->function.fallible implies e.has_fallible() by {
            if p != e {
                let i = choose|i: int|
                    0 <= i < children.len() && p.occurs_in(#[trigger] children[i]);
                law_fallible_anywhere(children[i]);
                assert(children[i].has_fallible());
            }
        }
    }
}

/// An expression has something null-sensitive just where a call of a null-sensitive function
/// occurs in it.
pub proof fn law_null_sensitive_anywhere(e: ExprModel)
    ensures
        e.has_null_sensitive() <==> exists|p: ExprModel| #[trigger]
            p.occurs_in(e) && p is Call && p->function.null_sensitive,
    decreases e,
{
    if let ExprModel::Call { function, children } = e {
        assert(e.occurs_in(e));
        if e.has_null_sensitive() && !function.null_sensitive {
            let i = choose|i: int|
                0 <= i < children.len() && (#[trigger] children[i]).has_null_sensitive();
            law_null_sensitive_anywhere(children[i]);
            let p = choose|p: ExprModel| #[trigger]
                p.occurs_in(children[i]) && p is Call && p->function.null_sensitive;
            assert(p.occurs_in(e));
        }
        assert forall|p: ExprModel| #[trigger]
            p.occurs_in(e) && p is Call
                && p->function.null_sensitive implies e.has_null_sensitive() by {
            if p != e {
                let i = choose|i: int|
                    0 <= i < children.len() && p.occurs_in(#[trigger] children[i]);
                law_null_sensitive_anywhere(children[i]);
                assert(children[i].has_null_sensitive());
            }
        }
    }
}

} // verus!
