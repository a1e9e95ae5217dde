use vortex_dict::dtype::{DType, Nullability, PType};
use vortex_dict::expr::{
    contains_fallible, contains_null_sensitive, references_root, Expression, ScalarFn,
};
use vortex_dict::functions::{byte_length, cast, is_root, like, lit, root};
use vortex_dict::pushdown::{is_pushable, split_expression_for_pushdown};

/// `expr` with `replacement` in place of every occurrence of the column.
fn substitute(expr: Expression, replacement: &Expression) -> Expression {
    if is_root(&expr) {
        return replacement.clone();
    }
    match expr {
        Expression::Root => unreachable!(),
        Expression::Call { function, children } => Expression::Call {
            function,
            children: children
                .into_iter()
                .map(|child| substitute(child, replacement))
                .collect(),
        },
    }
}

fn join_split_expr(initial: &Expression, outer: Option<Expression>, inner: Option<Expression>) {
    let outer_expr = outer.unwrap_or_else(root);
    let inner_expr = inner.unwrap_or_else(root);
    assert_eq!(&substitute(outer_expr, &inner_expr), initial);
}

fn call(
    id: &str,
    negative_cost: bool,
    fallible: bool,
    null_sensitive: bool,
    children: Vec<Expression>,
) -> Expression {
    Expression::call(
        ScalarFn::new(id.to_string(), vec![], negative_cost, fallible, null_sensitive),
        children,
    )
}

#[test]
fn split_expr_cast_root() {
    let (outer, inner) = split_expression_for_pushdown(root());
    assert_eq!(outer, None);
    assert_eq!(inner, None); // Applying root to array is useless work
}

#[test]
fn split_expr_partial_pushdown() {
    let dtype = DType::Primitive(PType::U64, Nullability::NonNullable);
    let expr = cast(byte_length(root()), dtype.clone());
    let (outer, inner) = split_expression_for_pushdown(expr.clone());
    // [0] = cast([1], dtype)
    // [1] = byte_length(root)
    assert_eq!(outer, Some(cast(root(), dtype)));
    assert_eq!(inner, Some(byte_length(root())));
    join_split_expr(&expr, outer, inner);
}

#[test]
fn split_expr_full_pushdown() {
    let expr = byte_length(root());
    let (outer, inner) = split_expression_for_pushdown(expr.clone());
    assert_eq!(outer, None);
    assert_eq!(inner, Some(byte_length(root())));
    join_split_expr(&expr, outer, inner);
}

#[test]
fn split_expr_no_pushdown() {
    // We can push down lit(), but it we replace
    // lit() with root(), the semantics change.
    let expr = like(root(), lit(1u64));
    let (outer, inner) = split_expression_for_pushdown(expr.clone());
    assert_eq!(outer, Some(expr.clone()));
    assert_eq!(inner, None);
    join_split_expr(&expr, outer, inner);
}

#[test]
fn a_constant_is_left_as_it_is() {
    let (outer, inner) = split_expression_for_pushdown(lit(7));
    assert_eq!(outer, Some(lit(7)));
    assert_eq!(inner, None);
}

#[test]
fn the_topmost_pushable_part_is_pushed() {
    let expr = like(byte_length(byte_length(root())), lit(1));
    let (outer, inner) = split_expression_for_pushdown(expr.clone());
    assert_eq!(outer, Some(like(root(), lit(1))));
    assert_eq!(inner, Some(byte_length(byte_length(root()))));
    join_split_expr(&expr, outer, inner);
}

#[test]
fn a_fallible_part_below_keeps_what_is_above_it() {
    let below = call("below", true, true, false, vec![byte_length(root())]);
    let expr = byte_length(below);
    assert!(contains_fallible(&expr));
    assert!(!contains_null_sensitive(&expr));
    assert!(!is_pushable(&expr));
    let (outer, inner) = split_expression_for_pushdown(expr.clone());
    assert_eq!(
        outer,
        Some(byte_length(call("below", true, true, false, vec![root()])))
    );
    assert_eq!(inner, Some(byte_length(root())));
    join_split_expr(&expr, outer, inner);
}

#[test]
fn a_null_sensitive_part_is_not_pushed() {
    let expr = call("is_null", true, false, true, vec![root()]);
    assert!(contains_null_sensitive(&expr));
    assert!(!contains_fallible(&expr));
    let (outer, inner) = split_expression_for_pushdown(expr.clone());
    assert_eq!(outer, Some(expr.clone()));
    assert_eq!(inner, None);
    join_split_expr(&expr, outer, inner);
}

#[test]
fn the_column_is_found_wherever_it_stands() {
    assert!(references_root(&root()));
    assert!(references_root(&like(lit(1), byte_length(root()))));
    assert!(!references_root(&like(lit(1), lit(2))));
}

#[test]
fn equal_parts_share_one_inner_part() {
    let expr = like(byte_length(root()), byte_length(root()));
    let (outer, inner) = split_expression_for_pushdown(expr.clone());
    assert_eq!(outer, Some(like(root(), root())));
    assert_eq!(inner, Some(byte_length(root())));
    join_split_expr(&expr, outer, inner);
}

#[test]
fn of_different_parts_nothing_is_pushed() {
    let other = call("other", true, false, false, vec![root()]);
    let expr = like(byte_length(root()), other);
    let (outer, inner) = split_expression_for_pushdown(expr.clone());
    assert_eq!(outer, Some(expr.clone()));
    assert_eq!(inner, None);
    join_split_expr(&expr, outer, inner);
}

#[test]
fn a_column_beside_a_pushable_part_keeps_the_expression_whole() {
    let expr = like(root(), byte_length(root()));
    let (outer, inner) = split_expression_for_pushdown(expr.clone());
    assert_eq!(outer, Some(expr.clone()));
    assert_eq!(inner, None);
    join_split_expr(&expr, outer, inner);
}

#[test]
fn a_pack_of_the_column_and_its_length_is_not_split() {
    let expr = Expression::call(
        ScalarFn::new("vortex.pack".to_string(), b"len,val".to_vec(), false, false, true),
        vec![byte_length(root()), root()],
    );
    let (outer, inner) = split_expression_for_pushdown(expr.clone());
    assert_eq!((outer, inner), (Some(expr), None));
}

#[test]
fn parts_that_differ_below_are_different_parts() {
    let expr = like(
        byte_length(root()),
        byte_length(call("trim", false, false, false, vec![root()])),
    );
    let (outer, inner) = split_expression_for_pushdown(expr.clone());
    assert_eq!((outer, inner), (Some(expr), None));
}

#[test]
fn an_expression_that_stays_whole_stays_whole_again() {
    let expr = like(root(), byte_length(root()));
    let (outer, _) = split_expression_for_pushdown(expr.clone());
    let (again, inner) = split_expression_for_pushdown(outer.unwrap());
    assert_eq!((again, inner), (Some(expr), None));
}

#[test]
fn splitting_the_outer_part_pushes_nothing() {
    let dtype = DType::Utf8(Nullability::Nullable);
    let expr = cast(like(byte_length(root()), lit(3)), dtype);
    let (outer, _) = split_expression_for_pushdown(expr);
    let outer = outer.unwrap();
    let (again, inner) = split_expression_for_pushdown(outer.clone());
    assert_eq!(again, Some(outer));
    assert_eq!(inner, None);
}

#[test]
fn types_are_told_apart_by_their_bytes() {
    let nullable = Nullability::Nullable;
    assert_eq!(DType::Bool(nullable).to_bytes(), vec![0, 0, 1]);
    assert_eq!(DType::Utf8(nullable).to_bytes(), vec![2, 0, 1]);
    assert_eq!(DType::Binary(nullable).to_bytes(), vec![3, 0, 1]);
    assert_eq!(
        DType::Primitive(PType::U64, Nullability::NonNullable).to_bytes(),
        vec![1, 3, 0]
    );
}

#[test]
fn literals_hold_their_value() {
    assert_ne!(lit(1), lit(2));
    match lit(258) {
        Expression::Call { function, children } => {
            assert_eq!(function.id, "vortex.literal");
            assert_eq!(function.options, vec![2, 1, 0, 0, 0, 0, 0, 0]);
            assert!(children.is_empty());
        }
        Expression::Root => panic!("a literal is not the column"),
    }
}
