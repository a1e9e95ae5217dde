//! The functions that expressions are most often built from.
use vstd::prelude::*;

use crate::dtype::DType;
use crate::expr::{ExprModel, Expression, FnModel, ScalarFn};

verus! {

/// The column itself.
pub fn root() -> (r: Expression)
    ensures
        r@ is Root,
{
    Expression::Root
}

/// Whether `expr` is the column itself.
pub fn is_root(expr: &Expression) -> (r: bool)
    ensures
        r == (expr@ is Root),
{
    match expr {
        Expression::Root => true,
        Expression::Call { .. } => false,
    }
}

/// A number that does not depend on the column. It costs nothing to run.
pub fn lit(value: u64) -> (r: Expression)
    ensures
        r@ == (ExprModel::Call {
            function: FnModel {
                id: "vortex.literal"@,
                options: vstd::bytes::spec_u64_to_le_bytes(value),
                negative_cost: true,
                fallible: false,
                null_sensitive: false,
            },
            children: Seq::empty(),
        }),
{
    let options = vstd::bytes::u64_to_le_bytes(value);
    let function = ScalarFn::new("vortex.literal".to_owned(), options, true, false, false);
    let r = Expression::call(function, Vec::new());
    assert(r@->children =~= Seq::<ExprModel>::empty());
    r
}

/// The number of bytes of each text of `child`. Texts are longer than numbers, so that
/// running it leaves less behind.
pub fn byte_length(child: Expression) -> (r: Expression)
    ensures
        r@ == (ExprModel::Call {
            function: FnModel {
                id: "vortex.byte_length"@,
                options: Seq::empty(),
                negative_cost: true,
                fallible: false,
                null_sensitive: false,
            },
            children: seq![child@],
        }),
{
    let function = ScalarFn::new("vortex.byte_length".to_owned(), Vec::new(), true, false, false);
    let r = Expression::call(function, vec![child]);
    assert(r@->children =~= seq![child@]);
    assert(r@->function.options =~= Seq::<u8>::empty());
    r
}

/// `child` as values of another type. It fails where a value does not fit, or where there is a
/// null and `dtype` has none.
pub fn cast(child: Expression, dtype: DType) -> (r: Expression)
    ensures
        r@ == (ExprModel::Call {
            function: FnModel {
                id: "vortex.cast"@,
                options: dtype.bytes(),
                negative_cost: false,
                fallible: true,
                null_sensitive: true,
            },
            children: seq![child@],
        }),
{
    let function = ScalarFn::new("vortex.cast".to_owned(), dtype.to_bytes(), false, true, true);
    let r = Expression::call(function, vec![child]);
    assert(r@->children =~= seq![child@]);
    r
}

/// Whether each text of `child` matches the pattern beside it.
pub fn like(child: Expression, pattern: Expression) -> (r: Expression)
    ensures
        r@ == (ExprModel::Call {
            function: FnModel {
                id: "vortex.like"@,
                options: Seq::empty(),
                negative_cost: false,
                fallible: true,
                null_sensitive: false,
            },
            children: seq![child@, pattern@],
        }),
{
    let function = ScalarFn::new("vortex.like".to_owned(), Vec::new(), false, true, false);
    let r = Expression::call(function, vec![child, pattern]);
    assert(r@->children =~= seq![child@, pattern@]);
    assert(r@->function.options =~= Seq::<u8>::empty());
    r
}

} // verus!
