use cfr_solver::driver::{batch_sizes, legal_slots, split_iterations};
use cfr_solver::encoding::{to_binary, to_int, IntoHotEncoding};
use cfr_solver::games::KuhnPokerAction;

#[test]
fn split_spreads_remainder_first() {
    assert_eq!(split_iterations(1000, 3), vec![334, 333, 333]);
    assert_eq!(split_iterations(10, 4), vec![3, 3, 2, 2]);
    assert_eq!(split_iterations(2, 5), vec![1, 1, 0, 0, 0]);
    assert_eq!(split_iterations(1000, 16).iter().sum::<usize>(), 1000);
}

#[test]
fn batches_cover_every_iteration() {
    assert_eq!(batch_sizes(1500), vec![1000, 500]);
    assert_eq!(batch_sizes(2000), vec![1000, 1000]);
    assert_eq!(batch_sizes(999), vec![999]);
    assert!(batch_sizes(0).is_empty());
    let total: usize = batch_sizes(11_001)
        .into_iter()
        .map(|b| split_iterations(b, 3).iter().sum::<usize>())
        .sum();
    assert_eq!(total, 11_001);
}

#[test]
fn legal_slots_mark_indices() {
    let actions = vec![KuhnPokerAction::Bet, KuhnPokerAction::Check];
    let (mask, slots) = legal_slots(&actions, 7);
    assert_eq!(mask, vec![false, false, true, false, false, false, true]);
    assert_eq!(slots[6], Some(KuhnPokerAction::Bet));
    assert_eq!(slots[2], Some(KuhnPokerAction::Check));
    assert_eq!(slots[0], None);
}

#[test]
fn hot_encodings() {
    let e = 3u8.encoding();
    assert_eq!(e.len(), 30);
    assert!(e[3]);
    assert_eq!(e.iter().filter(|b| **b).count(), 1);
    let ints = to_int(vec![vec![true, false, true], vec![]]);
    assert_eq!(ints, vec![vec![1, 0, 1], vec![]]);
    assert_eq!(to_binary(ints), vec![5, 0]);
    assert_eq!(to_binary(vec![vec![0, 0, 0, 1], vec![1; 31]]), vec![8, i32::MAX]);
}
