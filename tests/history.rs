use cfr_solver::history::{History, MAX_ACTIONS};

fn pack(symbols: &[u8]) -> u64 {
    History(symbols.to_vec()).into_condensed()
}

#[test]
fn condense_known_sequence() {
    let key = pack(&[3, 0, 2, 1]);
    let r = MAX_ACTIONS;
    assert_eq!(key, r * r * r * r + 3 + 0 * r + 2 * r * r + 1 * r * r * r);
    assert_eq!(key, 1_608_080_003);
    assert_eq!(History::from_condensed(key).0, vec![3, 0, 2, 1]);
}

#[test]
fn condense_empty_history_is_one() {
    assert_eq!(pack(&[]), 1);
    assert!(History::from_condensed(1).0.is_empty());
    assert!(History::from_condensed(0).0.is_empty());
}

#[test]
fn condense_round_trip_pseudo_random() {
    let mut state: u64 = 0x2545_f491_4f6c_dd1d;
    for _ in 0..500 {
        state = state.wrapping_mul(6364136223846793005).wrapping_add(1442695040888963407);
        let len = (state >> 60) as usize % 9;
        let mut symbols = Vec::new();
        for _ in 0..len {
            state = state.wrapping_mul(6364136223846793005).wrapping_add(1442695040888963407);
            symbols.push(((state >> 33) % 200) as u8);
        }
        let key = pack(&symbols);
        assert_eq!(History::from_condensed(key).0, symbols);
    }
}

#[test]
fn condense_distinct_histories_distinct_keys() {
    assert_ne!(pack(&[1, 0]), pack(&[0, 1]));
    assert_ne!(pack(&[0]), pack(&[0, 0]));
}

#[test]
fn condense_symbols_past_radix_collide() {
    assert_eq!(pack(&[200, 0]), pack(&[0, 1]));
}

#[test]
fn checked_condensed_detects_overflow() {
    assert_eq!(History(vec![3, 0, 2, 1]).checked_condensed(), Some(1_608_080_003));
    assert_eq!(History(vec![199; 9]).checked_condensed(), None);
    assert!(History(vec![199; 8]).checked_condensed().is_some());
}
