use std::cell::RefCell;
use std::rc::Rc;

use vortex_dict::dtype::{DType, Nullability};
use vortex_dict::expr::{Expression, ScalarFn};
use vortex_dict::functions::{byte_length, like, lit, root};
use vortex_dict::mask::filter_rows;
use vortex_dict::reader::{
    AllTrue, DictArray, DictLayout, DictReader, OpenError, ReadRequest,
};
use vortex_mask::Mask;

/// A value of a row.
#[derive(Debug, Clone, PartialEq)]
enum Value {
    Null,
    Bool(bool),
    Number(u64),
    Text(String),
    Struct(Vec<(String, Value)>),
}

/// A column in memory, and how many reads were asked of it.
struct Column {
    rows: Vec<Value>,
    log: RefCell<Vec<(u64, u64, usize)>>,
}

type Handle = Rc<Vec<Value>>;
type Reader = DictReader<DType, Rc<Column>, Handle>;

fn text(value: &str) -> Value {
    Value::Text(value.to_string())
}

fn column(rows: Vec<Value>) -> Rc<Column> {
    Rc::new(Column { rows, log: RefCell::new(vec![]) })
}

fn read_all(column: &Rc<Column>, request: ReadRequest<AllTrue>) -> Handle {
    assert_eq!(request.expr, root());
    let rows = request.rows;
    column.log.borrow_mut().push((rows.start, rows.end, request.mask.len));
    Rc::new(column.rows[rows.start as usize..rows.end as usize].to_vec())
}

fn try_read(column: &Rc<Column>, request: ReadRequest<AllTrue>) -> Result<Handle, String> {
    Ok(read_all(column, request))
}

fn refuse<M>(_: &Rc<Column>, _: ReadRequest<M>) -> Result<Handle, String> {
    Err("no codes".to_string())
}

/// Names of the fields that a pack makes, in its options.
fn names(options: &[u8]) -> Vec<String> {
    String::from_utf8(options.to_vec())
        .unwrap()
        .split(',')
        .map(|name| name.to_string())
        .collect()
}

fn eval(expr: &Expression, row: &Value) -> Value {
    match expr {
        Expression::Root => row.clone(),
        Expression::Call { function, children } => {
            let args: Vec<Value> = children.iter().map(|child| eval(child, row)).collect();
            match function.id.as_str() {
                "vortex.literal" => {
                    let mut bytes = [0u8; 8];
                    bytes.copy_from_slice(&function.options);
                    Value::Number(u64::from_le_bytes(bytes))
                }
                "test.text" => {
                    Value::Text(String::from_utf8(function.options.clone()).unwrap())
                }
                "vortex.byte_length" => match &args[0] {
                    Value::Text(value) => Value::Number(value.len() as u64),
                    _ => Value::Null,
                },
                "vortex.is_not_null" => Value::Bool(args[0] != Value::Null),
                "vortex.is_null" => Value::Bool(args[0] == Value::Null),
                "vortex.binary" => {
                    if args.contains(&Value::Null) {
                        Value::Null
                    } else {
                        Value::Bool(args[0] == args[1])
                    }
                }
                "vortex.pack" => {
                    Value::Struct(names(&function.options).into_iter().zip(args).collect())
                }
                "test.pair" => Value::Struct(vec![
                    ("left".to_string(), args[0].clone()),
                    ("right".to_string(), args[1].clone()),
                ]),
                id => panic!("unknown function {id}"),
            }
        }
    }
}

fn apply(array: Handle, expr: Expression) -> Handle {
    Rc::new(array.iter().map(|row| eval(&expr, row)).collect())
}

fn share(array: Handle) -> Handle {
    array
}

fn never_read(_: &Rc<Column>, _: ReadRequest<AllTrue>) -> Handle {
    panic!("nothing is to be read")
}

fn never_apply(_: Handle, _: Expression) -> Handle {
    panic!("nothing is to be applied")
}

fn never_share(_: Handle) -> Handle {
    panic!("nothing is to be shared")
}

/// The rows that a dictionary array stands for.
fn decode(dict: DictArray<Handle>) -> Result<Handle, String> {
    let rows = dict.codes.iter().map(|code| match code {
        Value::Number(code) => dict.values[*code as usize].clone(),
        _ => Value::Null,
    });
    Ok(Rc::new(rows.collect()))
}

fn try_apply(array: Handle, expr: Expression) -> Result<Handle, String> {
    Ok(apply(array, expr))
}

fn call(id: &str, options: &str, null_sensitive: bool, children: Vec<Expression>) -> Expression {
    Expression::call(
        ScalarFn::new(
            id.to_string(),
            options.as_bytes().to_vec(),
            false,
            false,
            null_sensitive,
        ),
        children,
    )
}

fn pack(fields: Vec<(&str, Expression)>) -> Expression {
    let names: Vec<&str> = fields.iter().map(|(name, _)| *name).collect();
    let names = names.join(",");
    call(
        "vortex.pack",
        &names,
        true,
        fields.into_iter().map(|(_, field)| field).collect(),
    )
}

fn is_not_null(child: Expression) -> Expression {
    call("vortex.is_not_null", "", true, vec![child])
}

fn eq(left: Expression, right: Expression) -> Expression {
    call("vortex.binary", "=", false, vec![left, right])
}

fn lit_text(value: &str) -> Expression {
    call("test.text", value, false, vec![])
}

/// A dictionary of the rows: their distinct values, and a code for each row that is not null.
fn encode(rows: &[Value]) -> (Vec<Value>, Vec<Value>) {
    let mut values: Vec<Value> = vec![];
    let mut codes: Vec<Value> = vec![];
    for row in rows {
        if *row == Value::Null {
            codes.push(Value::Null);
            continue;
        }
        let code = match values.iter().position(|value| value == row) {
            Some(code) => code,
            None => {
                values.push(row.clone());
                values.len() - 1
            }
        };
        codes.push(Value::Number(code as u64));
    }
    (values, codes)
}

fn layout(rows: usize, values: usize) -> DictLayout<DType> {
    DictLayout {
        dtype: DType::Utf8(Nullability::Nullable),
        row_count: rows as u64,
        values_row_count: values as u64,
        all_values_referenced: true,
    }
}

fn open(rows: &[Value]) -> (Reader, Rc<Column>, Rc<Column>) {
    let (values, codes) = encode(rows);
    let layout = layout(codes.len(), values.len());
    let values = column(values);
    let codes = column(codes);
    let reader = DictReader::try_new(
        layout,
        "column".to_string(),
        |name| {
            assert_eq!(name, "column.values");
            Ok::<Rc<Column>, String>(Rc::clone(&values))
        },
        |name| {
            assert_eq!(name, "column.codes");
            Ok(Rc::clone(&codes))
        },
    );
    match reader {
        Ok(reader) => (reader, values, codes),
        Err(error) => panic!("could not open: {error:?}"),
    }
}

/// Projects all rows.
fn project(reader: &mut Reader, expr: &Expression) -> Vec<Value> {
    let count = reader.row_count();
    let plan = reader
        .projection_evaluation(
            &(0..count),
            expr,
            AllTrue { len: count as usize },
            try_read,
            read_all,
            apply,
            share,
        )
        .unwrap();
    let rows = plan
        .tail
        .finish(plan.values, plan.codes, decode, try_apply)
        .unwrap();
    rows.to_vec()
}

/// Projects the rows that `mask` includes.
fn project_masked(reader: &mut Reader, expr: &Expression, mask: &[bool]) -> Vec<Value> {
    let plan = reader
        .projection_evaluation(
            &(0..mask.len() as u64),
            expr,
            mask.to_vec(),
            |codes: &Rc<Column>, request: ReadRequest<Vec<bool>>| {
                let rows = codes.rows.iter().zip(request.mask);
                let kept: Vec<Value> = rows
                    .filter(|(_, keep)| *keep)
                    .map(|(code, _)| code.clone())
                    .collect();
                Ok::<Handle, String>(Rc::new(kept))
            },
            read_all,
            apply,
            share,
        )
        .unwrap();
    let rows = plan
        .tail
        .finish(plan.values, plan.codes, decode, try_apply)
        .unwrap();
    rows.to_vec()
}

/// Filters all rows of `mask`.
fn filter(reader: &mut Reader, expr: &Expression, mask: Mask) -> Vec<bool> {
    let plan = reader
        .filter_evaluation(
            &(0..mask.len() as u64),
            expr,
            mask.len(),
            try_read,
            read_all,
            apply,
            share,
        )
        .unwrap();
    assert_eq!(plan.len, mask.len());
    let values: Vec<Option<bool>> = plan
        .values
        .iter()
        .map(|value| match value {
            Value::Bool(value) => Some(*value),
            _ => None,
        })
        .collect();
    let codes: Vec<Option<u64>> = plan
        .codes
        .iter()
        .map(|code| match code {
            Value::Number(code) => Some(*code),
            _ => None,
        })
        .collect();
    let left = filter_rows(mask, &values, &codes);
    (0..left.len()).map(|i| left.value(i)).collect()
}

fn sample() -> Vec<Value> {
    vec![
        text("abc"),
        text("def"),
        Value::Null,
        text("abc"),
        text("def"),
        Value::Null,
        text("abc"),
        text("def"),
        Value::Null,
    ]
}

#[test]
fn reading_nested_packs_works() {
    let array = sample();
    let expression = pack(vec![("top", pack(vec![("one", root()), ("two", root())]))]);
    let (mut reader, _, _) = open(&array);
    let actual = project(&mut reader, &expression);
    let expected: Vec<Value> = array
        .into_iter()
        .map(|row| {
            Value::Struct(vec![(
                "top".to_string(),
                Value::Struct(vec![
                    ("one".to_string(), row.clone()),
                    ("two".to_string(), row),
                ]),
            )])
        })
        .collect();
    assert_eq!(expected.len(), 9);
    assert_eq!(actual, expected);
}

#[test]
fn reading_is_null_works() {
    let array = sample();
    let expression = is_not_null(root());
    let (mut reader, _, _) = open(&array);
    let actual = project(&mut reader, &expression);
    let expected: Vec<Value> = array
        .iter()
        .map(|row| Value::Bool(*row != Value::Null))
        .collect();
    assert_eq!(actual, expected);
}

#[test]
fn shortpathes_filtering_all_true_case() {
    let data = vec![text(""), Value::Null, text("")];
    let (mut reader, _, _) = open(&data);
    let expr = eq(root(), lit_text(""));
    let mask = filter(&mut reader, &expr, Mask::new_true(3));
    assert_eq!(mask, vec![true, false, true]);
}

#[test]
fn shortpathes_filtering_all_false_case() {
    let data = vec![text("x"), Value::Null, text("x")];
    let (mut reader, _, _) = open(&data);
    let expr = eq(root(), lit_text(""));
    let mask = filter(&mut reader, &expr, Mask::new_true(3));
    assert_eq!(mask, vec![false, false, false]);
}

#[test]
fn a_filter_stays_within_its_mask() {
    let data = vec![text("x"), text("x"), text("y")];
    let (mut reader, _, _) = open(&data);
    let expr = eq(root(), lit_text("x"));
    let mask = Mask::from_iter(vec![false, true, true]);
    assert_eq!(filter(&mut reader, &expr, mask), vec![false, true, false]);
}

#[test]
fn a_filter_leaves_rows_without_a_code_out() {
    let (mut reader, _, _) = open(&[text("x"), Value::Null]);
    let expr = call("vortex.is_null", "", true, vec![root()]);
    let mask = filter(&mut reader, &expr, Mask::new_true(2));
    assert_eq!(mask, vec![false, false]);
}

#[test]
fn a_pushed_projection_gives_the_rows_of_the_whole() {
    let array = sample();
    let expr = eq(byte_length(root()), lit(3));
    let (mut reader, values, codes) = open(&array);
    let expected: Vec<Value> = array.iter().map(|row| eval(&expr, row)).collect();
    assert_eq!(project(&mut reader, &expr), expected);
    assert_eq!(*values.log.borrow(), vec![(0, 2, 2)]);
    assert_eq!(*codes.log.borrow(), vec![(0, 9, 9)]);
}

#[test]
fn a_column_beside_a_pushable_part_is_read_as_it_is() {
    let (mut reader, _, _) = open(&[text("abcd"), Value::Null]);
    let expr = call("test.pair", "", true, vec![root(), byte_length(root())]);
    let pair = |left: Value, right: Value| {
        Value::Struct(vec![("left".to_string(), left), ("right".to_string(), right)])
    };
    assert_eq!(
        project(&mut reader, &expr),
        vec![
            pair(text("abcd"), Value::Number(4)),
            pair(Value::Null, Value::Null),
        ]
    );
}

#[test]
fn a_pack_of_the_column_and_its_length_gives_both() {
    let data = vec![text("ab"), text("cde"), text("ab")];
    let (mut reader, _, _) = open(&data);
    let expr = pack(vec![("len", byte_length(root())), ("val", root())]);
    let row = |len: u64, val: &str| {
        Value::Struct(vec![
            ("len".to_string(), Value::Number(len)),
            ("val".to_string(), text(val)),
        ])
    };
    assert_eq!(
        project(&mut reader, &expr),
        vec![row(2, "ab"), row(3, "cde"), row(2, "ab")]
    );
}

#[test]
fn a_masked_projection_gives_the_rows_of_the_mask() {
    let data = vec![text("ab"), text("cde"), Value::Null, text("ab"), text("f")];
    let mask = [true, false, true, true, false];
    for expr in [
        root(),
        byte_length(root()),
        eq(byte_length(root()), lit(2)),
        pack(vec![("len", byte_length(root())), ("val", root())]),
    ] {
        let (mut reader, _, _) = open(&data);
        let full = project(&mut reader, &expr);
        let part = project_masked(&mut reader, &expr, &mask);
        assert_eq!(full.len(), 5);
        assert_eq!(part, vec![full[0].clone(), full[2].clone(), full[3].clone()]);
    }
    let (mut reader, _, _) = open(&data);
    assert_eq!(
        project_masked(&mut reader, &byte_length(root()), &mask),
        vec![Value::Number(2), Value::Null, Value::Number(2)]
    );
}

#[test]
fn a_masked_filter_is_the_mask_and_the_filter() {
    let data = vec![text("x"), text("y"), Value::Null, text("x"), text("x")];
    let (mut reader, _, _) = open(&data);
    let expr = eq(root(), lit_text("x"));
    let full = filter(&mut reader, &expr, Mask::new_true(5));
    assert_eq!(full, vec![true, false, false, true, true]);
    let mask = vec![false, true, true, true, false];
    let masked = filter(&mut reader, &expr, Mask::from_iter(mask.clone()));
    assert_eq!(masked, vec![false, false, false, true, false]);
    let both: Vec<bool> = mask.iter().zip(&full).map(|(a, b)| *a && *b).collect();
    assert_eq!(masked, both);
}

#[test]
fn a_filter_leaves_the_rows_on_which_the_projection_is_true() {
    let data = vec![text("ab"), text("cde"), Value::Null, text("fg")];
    let (mut reader, _, _) = open(&data);
    let expr = eq(byte_length(root()), lit(2));
    let projected = project(&mut reader, &expr);
    assert_eq!(
        projected,
        vec![Value::Bool(true), Value::Bool(false), Value::Null, Value::Bool(true)]
    );
    let left = filter(&mut reader, &expr, Mask::new_true(4));
    let held: Vec<bool> = projected.iter().map(|row| *row == Value::Bool(true)).collect();
    assert_eq!(left, vec![true, false, false, true]);
    assert_eq!(left, held);
}

#[test]
fn values_are_the_same_kept_or_not() {
    let (mut reader, _, _) = open(&sample());
    let expected = vec![text("abc"), text("def")];
    let before = reader.values_array_uncanonical(read_all);
    let kept = reader.values_array(read_all, share);
    let after = reader.values_array_uncanonical(read_all);
    assert_eq!(*before, expected);
    assert_eq!(*kept, expected);
    assert_eq!(*after, expected);
}

#[test]
fn the_column_on_the_values_is_the_values() {
    let expected = vec![text("abc"), text("def")];
    let (mut reader, _, _) = open(&sample());
    let kept = reader.values_array(read_all, share);
    let evaluated = reader.values_eval(root(), read_all, apply, share);
    assert_eq!(*kept, expected);
    assert_eq!(*evaluated, expected);
    let (mut reader, _, _) = open(&sample());
    let evaluated = reader.values_eval(root(), read_all, apply, share);
    let kept = reader.values_array(read_all, share);
    assert_eq!(*evaluated, expected);
    assert_eq!(*kept, expected);
}

#[test]
fn all_values_are_read_once() {
    let (mut reader, values, _) = open(&sample());
    let first = reader.values_array(read_all, share);
    let second = reader.values_array(read_all, share);
    assert!(Rc::ptr_eq(&first, &second));
    assert_eq!(*first, vec![text("abc"), text("def")]);
    assert_eq!(values.log.borrow().len(), 1);
}

#[test]
fn nothing_is_called_for_values_that_are_kept() {
    let (mut reader, values, _) = open(&sample());
    let first = reader.values_array(read_all, share);
    let second = reader.values_array(never_read, never_share);
    let third = reader.values_array_uncanonical(never_read);
    assert!(Rc::ptr_eq(&first, &second));
    assert!(Rc::ptr_eq(&first, &third));
    assert_eq!(*values.log.borrow(), vec![(0, 2, 2)]);
}

#[test]
fn nothing_is_called_for_a_result_that_is_kept() {
    let (mut reader, values, _) = open(&sample());
    let expr = eq(byte_length(root()), lit(3));
    let first = reader.values_eval(expr.clone(), read_all, apply, share);
    let second = reader.values_eval(expr.clone(), never_read, never_apply, never_share);
    assert!(Rc::ptr_eq(&first, &second));
    let plan = reader
        .filter_evaluation(&(0..9), &expr, 9, try_read, never_read, never_apply, never_share)
        .unwrap();
    assert!(Rc::ptr_eq(&first, &plan.values));
    assert_eq!(*values.log.borrow(), vec![(0, 2, 2)]);
}

#[test]
fn an_expression_on_values_that_are_kept_reads_nothing() {
    let (mut reader, values, _) = open(&sample());
    reader.values_array(read_all, share);
    let result = reader.values_eval(byte_length(root()), never_read, apply, share);
    assert_eq!(*result, vec![Value::Number(3), Value::Number(3)]);
    assert_eq!(*values.log.borrow(), vec![(0, 2, 2)]);
}

#[test]
fn values_are_shared_before_they_are_kept() {
    let (mut reader, _, _) = open(&sample());
    let replaced: Handle = Rc::new(vec![text("shared")]);
    let kept = Rc::clone(&replaced);
    let array = reader.values_array(read_all, move |_| kept);
    assert!(Rc::ptr_eq(&array, &replaced));
    let again = reader.values_array_uncanonical(read_all);
    assert!(Rc::ptr_eq(&again, &replaced));
}

#[test]
fn values_that_are_not_shared_are_not_kept() {
    let (reader, values, _) = open(&sample());
    let first = reader.values_array_uncanonical(read_all);
    let second = reader.values_array_uncanonical(read_all);
    assert!(!Rc::ptr_eq(&first, &second));
    assert_eq!(first, second);
    assert_eq!(*values.log.borrow(), vec![(0, 2, 2), (0, 2, 2)]);
}

#[test]
fn an_expression_is_evaluated_once() {
    let (mut reader, values, _) = open(&sample());
    let first = reader.values_eval(byte_length(root()), read_all, apply, share);
    let other = reader.values_eval(is_not_null(root()), read_all, apply, share);
    let second = reader.values_eval(byte_length(root()), read_all, apply, share);
    assert!(Rc::ptr_eq(&first, &second));
    assert_eq!(*first, vec![Value::Number(3), Value::Number(3)]);
    assert_eq!(*other, vec![Value::Bool(true), Value::Bool(true)]);
    assert_eq!(values.log.borrow().len(), 2);
}

#[test]
fn expressions_that_differ_anywhere_are_kept_apart() {
    let (mut reader, _, _) = open(&sample());
    let exprs = vec![
        root(),
        lit(1),
        lit(2),
        eq(root(), lit(1)),
        eq(lit(1), root()),
        eq(eq(root(), root()), lit(1)),
        call("vortex.pack", "a", true, vec![root()]),
        call("vortex.pack", "b", true, vec![root()]),
        call("vortex.pack", "a", false, vec![root()]),
        call("vortex.pack", "", true, vec![]),
    ];
    let results: Vec<Handle> = exprs
        .iter()
        .map(|expr| reader.values_eval(expr.clone(), read_all, apply, share))
        .collect();
    for (i, expr) in exprs.iter().enumerate() {
        let again = reader.values_eval(expr.clone(), read_all, apply, share);
        for (j, result) in results.iter().enumerate() {
            assert_eq!(Rc::ptr_eq(&again, result), i == j);
        }
    }
}

#[test]
fn an_expression_runs_on_the_values_that_are_kept() {
    let (mut reader, values, _) = open(&sample());
    reader.values_array(read_all, share);
    reader.values_eval(byte_length(root()), read_all, apply, share);
    assert_eq!(values.log.borrow().len(), 1);
}

#[test]
fn a_filter_and_a_projection_share_what_is_evaluated() {
    let (mut reader, values, _) = open(&sample());
    let expr = byte_length(root());
    project(&mut reader, &expr);
    filter(&mut reader, &expr, Mask::new_true(9));
    assert_eq!(values.log.borrow().len(), 1);
}

#[test]
fn a_projection_whose_codes_cannot_be_read_changes_nothing() {
    let (mut reader, values, _) = open(&sample());
    let error = reader
        .projection_evaluation(
            &(0..9),
            &byte_length(root()),
            "rows",
            refuse::<&str>,
            never_read,
            never_apply,
            never_share,
        )
        .unwrap_err();
    assert_eq!(error.context, "While evaluating projection on codes");
    assert_eq!(error.source, "no codes");
    assert!(values.log.borrow().is_empty());
}

#[test]
fn a_filter_whose_codes_cannot_be_read_keeps_what_was_evaluated() {
    let (mut reader, values, _) = open(&sample());
    let expr = byte_length(root());
    let error = reader
        .filter_evaluation(&(0..9), &expr, 9, refuse::<AllTrue>, read_all, apply, share)
        .unwrap_err();
    assert_eq!(error, "no codes");
    assert_eq!(values.log.borrow().len(), 1);
    reader.values_eval(expr, read_all, apply, share);
    assert_eq!(values.log.borrow().len(), 1);
}

#[test]
fn a_projection_hands_its_mask_on() {
    let (mut reader, _, _) = open(&sample());
    let plan = reader
        .projection_evaluation(
            &(2..5),
            &root(),
            "rows",
            |codes: &Rc<Column>, request: ReadRequest<&str>| {
                assert_eq!(request.rows, 2..5);
                assert_eq!(request.expr, root());
                Ok::<(String, usize), String>((request.mask.to_string(), codes.rows.len()))
            },
            read_all,
            apply,
            share,
        )
        .unwrap();
    assert_eq!(plan.codes, ("rows".to_string(), 9));
    assert!(plan.tail.all_values_referenced);
    assert_eq!(plan.tail.outer, None);
}

#[test]
fn the_end_of_a_projection_fails_where_its_steps_do() {
    let (mut reader, _, _) = open(&sample());
    let expr = like(byte_length(root()), lit(1));
    let begin = |reader: &mut Reader| {
        reader
            .projection_evaluation(
                &(0..9),
                &expr,
                AllTrue { len: 9 },
                try_read,
                read_all,
                apply,
                share,
            )
            .unwrap()
    };
    let plan = begin(&mut reader);
    let error = plan
        .tail
        .finish(
            plan.values,
            plan.codes,
            |dict: DictArray<Handle>| {
                assert!(dict.all_values_referenced);
                Err("optimize".to_string())
            },
            |_, _| panic!("nothing is left to apply to"),
        )
        .unwrap_err();
    assert_eq!(error, "optimize");
    let plan = begin(&mut reader);
    let error = plan
        .tail
        .finish(plan.values, plan.codes, decode, |_, outer: Expression| {
            assert_eq!(outer, like(root(), lit(1)));
            Err("apply".to_string())
        })
        .unwrap_err();
    assert_eq!(error, "apply");
}

#[test]
fn without_an_outer_part_nothing_is_applied_in_the_end() {
    let (mut reader, _, _) = open(&[text("ab"), Value::Null]);
    let plan = reader
        .projection_evaluation(
            &(0..2),
            &byte_length(root()),
            AllTrue { len: 2 },
            try_read,
            read_all,
            apply,
            share,
        )
        .unwrap();
    assert_eq!(plan.tail.outer, None);
    let rows = plan
        .tail
        .finish(plan.values, plan.codes, decode, |_, _| panic!("there is no outer part"))
        .unwrap();
    assert_eq!(*rows, vec![Value::Number(2), Value::Null]);
}

#[test]
fn pruning_rules_nothing_out() {
    let (reader, _, _) = open(&sample());
    let mask = Mask::from_iter(vec![true, false, true]);
    let left = reader.pruning_evaluation(&(0..3), &root(), mask);
    let bits: Vec<bool> = (0..3).map(|i| left.value(i)).collect();
    assert_eq!(bits, vec![true, false, true]);
}

#[test]
fn splits_are_those_of_the_codes() {
    let (reader, _, codes) = open(&sample());
    let result = reader.register_splits(|child: &Rc<Column>| {
        assert!(Rc::ptr_eq(child, &codes));
        Err::<(), u8>(7)
    });
    assert_eq!(result, Err(7));
}

#[test]
fn a_reader_tells_what_it_reads() {
    let (reader, _, _) = open(&sample());
    assert_eq!(reader.name(), "column");
    assert_eq!(*reader.dtype(), DType::Utf8(Nullability::Nullable));
    assert_eq!(reader.row_count(), 9);
}

#[test]
fn values_that_cannot_be_opened_are_reported_first() {
    let result: Result<DictReader<DType, u8, u8>, OpenError<&str>> = DictReader::try_new(
        layout(1, 1),
        "a".to_string(),
        |_| Err("values"),
        |_| panic!("the codes are opened after the values"),
    );
    assert!(matches!(result, Err(OpenError::Values("values"))));
}

#[test]
fn codes_that_cannot_be_opened_are_reported() {
    let result: Result<DictReader<DType, u8, u8>, OpenError<&str>> = DictReader::try_new(
        layout(1, 1),
        "a".to_string(),
        |_| Ok(1),
        |_| Err("codes"),
    );
    assert!(matches!(result, Err(OpenError::Codes("codes"))));
}

#[test]
fn as_many_values_as_can_be_counted_are_taken() {
    let result: Result<DictReader<DType, u8, u8>, OpenError<&str>> = DictReader::try_new(
        layout(1, usize::MAX),
        "a".to_string(),
        |_| Ok(1),
        |_| Ok(2),
    );
    assert!(result.is_ok());
}
