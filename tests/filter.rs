use cfr_solver::filter::{filter, Clause, Filter, Primitive, RangeQuery};
use cfr_solver::games::{bottom_values, card_range, is, not, top_values, GoofspielAction};

fn cards(values: &[u32]) -> Vec<GoofspielAction> {
    values.iter().map(|v| GoofspielAction(*v)).collect()
}

#[test]
fn top_and_bottom_values() {
    let top = top_values();
    let bottom = bottom_values();
    assert!(top.accepts(&GoofspielAction(4)));
    assert!(top.accepts(&GoofspielAction(5)));
    assert!(!top.accepts(&GoofspielAction(3)));
    assert!(bottom.accepts(&GoofspielAction(3)));
    assert!(!bottom.accepts(&GoofspielAction(5)));
}

#[test]
fn card_range_is_inclusive() {
    let f = card_range(2..=4);
    assert_eq!(f.apply_on(&cards(&[1, 2, 3, 4, 5])), cards(&[2, 3, 4]));
}

#[test]
fn apply_on_combinators() {
    let list = cards(&[1, 2, 3, 4, 5, 6]);
    let and = card_range(1..=4).and(card_range(3..=6));
    assert_eq!(and.apply_on(&list), cards(&[3, 4]));
    let or = is(GoofspielAction(6)).or(is(GoofspielAction(1)));
    assert_eq!(or.apply_on(&list), cards(&[6, 1]));
    let both = card_range(1..=2).or(card_range(2..=3));
    assert_eq!(both.apply_on(&list), cards(&[1, 2, 2, 3]));
    let neg = not(card_range(2..=5));
    assert_eq!(neg.apply_on(&list), cards(&[1, 6]));
    assert_eq!(Filter::new(GoofspielAction(7)).apply_on(&list), cards(&[]));
}

#[test]
fn clause_holds_both_sides() {
    let c = Clause::new(Filter::new(GoofspielAction(1)), Filter::new(GoofspielAction(2)));
    assert!(c.left.accepts(&GoofspielAction(1)));
    assert!(c.right.accepts(&GoofspielAction(2)));
    assert!(!c.right.accepts(&GoofspielAction(1)));
}

#[test]
fn regex_filter_matches_text() {
    let f = Filter::regex("^ra(ise|ke)");
    let list = vec!["raise", "call", "rake", "fold"];
    assert_eq!(f.apply_on(&list), vec!["raise", "rake"]);
    assert!(!f.accepts(&"^ra(ise|ke)"));
}

#[test]
fn regex_filter_invalid_pattern_keeps_nothing() {
    let f = Filter::regex("(unclosed");
    assert!(!f.accepts(&"(unclosed"));
}

#[test]
fn regex_filter_ignores_values_without_text() {
    let f = Filter::regex(".*");
    assert!(!f.accepts(&GoofspielAction(1)));
}

#[test]
fn numbers_filter_by_range() {
    let f: Filter<u32> = Filter::range(10..=20).or(Filter::new(3));
    assert_eq!(f.apply_on(&vec![3, 9, 10, 20, 21]), vec![10, 20, 3]);
    let g: Filter<u32> = Filter::regex("1");
    assert!(!g.accepts(&1));
}

#[test]
fn filter_clone_is_equal() {
    let f = top_values().or(card_range(0..=1));
    let g = f.clone();
    let list = cards(&[0, 1, 2, 3, 4, 5]);
    assert_eq!(f.apply_on(&list), g.apply_on(&list));
}

#[test]
fn primitive_filter_keeps_order() {
    let list = cards(&[5, 1, 4, 2]);
    let kept = filter(&list, &Primitive::Range(RangeQuery { start: 2, end: 5 }));
    assert_eq!(kept, cards(&[5, 4, 2]));
    assert_eq!(filter(&list, &Primitive::Raw(GoofspielAction(1))), cards(&[1]));
}
