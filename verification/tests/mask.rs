use vortex_dict::mask::{dict_mask, filter_rows, try_filter_rows};
use vortex_mask::Mask;

fn bits(mask: &Mask) -> Vec<bool> {
    (0..mask.len()).map(|i| mask.value(i)).collect()
}

#[test]
fn a_row_is_selected_where_its_value_is_true() {
    let values = vec![Some(true), Some(false), None];
    let codes = vec![Some(0), Some(1), Some(2), None, Some(0)];
    let mask = dict_mask(&values, &codes);
    assert_eq!(bits(&mask), vec![true, false, false, false, true]);
}

#[test]
fn filtered_rows_are_in_both_masks() {
    let values = vec![Some(true), Some(false)];
    let codes = vec![Some(0), Some(0), Some(1), None];
    let mask = Mask::from_iter(vec![true, false, true, true]);
    let left = filter_rows(mask, &values, &codes);
    assert_eq!(bits(&left), vec![true, false, false, false]);
}

#[test]
fn a_filter_under_a_full_mask_keeps_what_is_selected() {
    let values = vec![Some(false), Some(true)];
    let codes = vec![Some(0), Some(1), Some(1)];
    let left = filter_rows(Mask::new_true(3), &values, &codes);
    assert_eq!(bits(&left), vec![false, true, true]);
}

#[test]
fn a_filter_under_an_empty_mask_keeps_nothing() {
    let values = vec![Some(true)];
    let codes = vec![Some(0), Some(0)];
    let left = filter_rows(Mask::new_false(2), &values, &codes);
    assert_eq!(bits(&left), vec![false, false]);
}

#[test]
fn rows_that_do_not_fit_are_refused() {
    let values = vec![Some(true)];
    let fits = try_filter_rows(Mask::new_true(2), &values, &vec![Some(0), None]);
    assert_eq!(fits.map(|mask| bits(&mask)), Some(vec![true, false]));
    assert!(try_filter_rows(Mask::new_true(3), &values, &vec![Some(0), None]).is_none());
    assert!(try_filter_rows(Mask::new_true(2), &values, &vec![Some(0), Some(1)]).is_none());
}

#[test]
fn no_rows_are_no_rows() {
    let left = try_filter_rows(Mask::new_true(0), &vec![], &vec![]);
    assert_eq!(left.map(|mask| mask.len()), Some(0));
}
