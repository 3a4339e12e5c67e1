use hello_cargo::vectors::{even_filter, even_filter_by_ref, even_filter_inplace};

#[test]
fn even_filter_keeps_the_even_values_in_order() {
    assert_eq!(even_filter(vec![1, 2, 3, 4, 5]), vec![2, 4]);
    assert_eq!(even_filter(vec![]), Vec::<i32>::new());
    assert_eq!(even_filter(vec![1, 3, 5]), Vec::<i32>::new());
    assert_eq!(even_filter(vec![4, 2, 2, 0]), vec![4, 2, 2, 0]);
}

#[test]
fn negative_values_are_judged_like_positive_ones() {
    assert_eq!(
        even_filter(vec![-3, -2, -1, 0, i32::MIN, i32::MAX]),
        vec![-2, 0, i32::MIN]
    );
}

#[test]
fn even_filter_by_ref_leaves_the_input_alone() {
    let input = vec![1, 2, 3, 4, 5];
    assert_eq!(even_filter_by_ref(&input), vec![2, 4]);
    assert_eq!(input, vec![1, 2, 3, 4, 5]);
}

#[test]
fn even_filter_inplace_removes_the_odd_values() {
    let mut values = vec![1, 2, 3, 4, 5];
    even_filter_inplace(&mut values);
    assert_eq!(values, vec![2, 4]);
    let mut values = vec![2, 1, 1, 4, 6, 7, 8];
    even_filter_inplace(&mut values);
    assert_eq!(values, vec![2, 4, 6, 8]);
    let mut values: Vec<i32> = vec![];
    even_filter_inplace(&mut values);
    assert!(values.is_empty());
    let mut values = vec![-1, 3];
    even_filter_inplace(&mut values);
    assert!(values.is_empty());
}

#[test]
fn the_three_filters_agree() {
    let input = vec![10, -7, 0, 3, 3, 8, -4, 1];
    let mut in_place = input.clone();
    even_filter_inplace(&mut in_place);
    assert_eq!(even_filter_by_ref(&input), in_place);
    assert_eq!(even_filter(input), in_place);
}
