use backend::arithmetic::Arithmetic;
use backend::criteria::{CompareCriterion, Criterion, CriterionTrait, CrossCriterion};

fn ieee() -> Arithmetic<
    f64,
    impl Fn(&f64, &f64) -> f64,
    impl Fn(&f64, &f64) -> f64,
    impl Fn(&f64, &f64) -> f64,
    impl Fn(&f64, &f64) -> bool,
    impl Fn(i64) -> f64,
> {
    Arithmetic {
        add: |a: &f64, b: &f64| a + b,
        sub: |a: &f64, b: &f64| a - b,
        div: |a: &f64, b: &f64| a / b,
        less: |a: &f64, b: &f64| a < b,
        from_int: |n: i64| n as f64,
        largest: f64::MAX,
        infinity: f64::INFINITY,
    }
}

#[test]
fn test_compare_criterion_new() {
    let vec1 = vec![1.0, 2.0, 3.0, 3.5, 4.0];
    let vec2 = vec![3.0, 2.5, 1.0, 2.0, 5.0];
    let compare_criterion = CompareCriterion::new(&vec1, &vec2, &ieee());
    assert_eq!(compare_criterion.values, vec![false, false, true, true, false]);
}

#[test]
fn test_cross_criterion_new_from_true() {
    let compare_criterion = CompareCriterion { values: vec![false, false, true, true, false, true] };
    let cross_criterion = CrossCriterion::new_from(&Criterion::Compare(compare_criterion), true);
    assert_eq!(cross_criterion.values, vec![false, false, true, false, false, true]);
}

#[test]
fn test_cross_criterion_new_from_false() {
    let compare_criterion = CompareCriterion { values: vec![false, false, true, true, false, true] };
    let cross_criterion = CrossCriterion::new_from(&Criterion::Compare(compare_criterion), false);
    assert_eq!(cross_criterion.values, vec![false, false, false, false, true, false]);
}

#[test]
fn test_criterion_trait_for_cross() {
    let cross_criterion = CrossCriterion { values: vec![true, false, true, true, false] };
    assert_eq!(cross_criterion.get_values(), &vec![true, false, true, true, false]);
    assert!(!cross_criterion.is_empty());
}

#[test]
fn test_criterion_trait_for_compare() {
    let compare_criterion = CompareCriterion { values: vec![false, true, false] };
    assert_eq!(compare_criterion.get_values(), &vec![false, true, false]);
    assert!(!compare_criterion.is_empty());
}

#[test]
fn test_criterion_trait_for_criterion() {
    let criterion = Criterion::Cross(CrossCriterion { values: vec![true, false, true] });
    assert_eq!(criterion.get_values(), &vec![true, false, true]);
    assert!(!criterion.is_empty());

    let criterion = Criterion::Compare(CompareCriterion { values: vec![false, true, false] });
    assert_eq!(criterion.get_values(), &vec![false, true, false]);
    assert!(!criterion.is_empty());
}

#[test]
fn compare_is_false_where_the_second_series_has_ended() {
    let compare = CompareCriterion::new(&vec![5.0, 5.0, 5.0], &vec![1.0], &ieee());
    assert_eq!(compare.values, vec![true, false, false]);
}

#[test]
fn compare_is_as_long_as_the_first_series() {
    let compare = CompareCriterion::new(&vec![5.0], &vec![1.0, 9.0, 9.0], &ieee());
    assert_eq!(compare.values, vec![true]);
}

#[test]
fn compare_of_equal_numbers_is_false() {
    let compare = CompareCriterion::new(&vec![2.0, 3.0], &vec![2.0, 2.0], &ieee());
    assert_eq!(compare.values, vec![false, true]);
}

#[test]
fn cross_of_nothing_is_nothing() {
    let compare = Criterion::Compare(CompareCriterion { values: vec![] });
    let cross = CrossCriterion::new_from(&compare, true);
    assert!(cross.values.is_empty());
    assert!(cross.is_empty());
}

#[test]
fn cross_is_false_at_the_first_position() {
    let compare = Criterion::Compare(CompareCriterion { values: vec![true] });
    assert_eq!(CrossCriterion::new_from(&compare, true).values, vec![false]);
    assert_eq!(CrossCriterion::new_from(&compare, false).values, vec![false]);
}

#[test]
fn cross_marks_each_change_of_the_comparison_once() {
    let values = vec![true, false, false, true, true, false, true];
    let compare = Criterion::Compare(CompareCriterion { values: values.clone() });
    let up = CrossCriterion::new_from(&compare, true).values;
    let down = CrossCriterion::new_from(&compare, false).values;
    for i in 1..values.len() {
        assert_eq!(up[i], !values[i - 1] && values[i]);
        assert_eq!(down[i], values[i - 1] && !values[i]);
        assert_eq!(up[i] || down[i], values[i] != values[i - 1]);
        assert!(!(up[i] && down[i]));
    }
}

#[test]
fn cross_of_a_cross_is_derived_alike() {
    let cross = Criterion::Cross(CrossCriterion { values: vec![false, true, false] });
    assert_eq!(CrossCriterion::new_from(&cross, true).values, vec![false, true, false]);
    assert_eq!(CrossCriterion::new_from(&cross, false).values, vec![false, false, true]);
}
