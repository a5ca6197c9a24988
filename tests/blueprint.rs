use cfr_solver::blueprint::{BlueprintStrategy, Evaluator, FitFunction, FAIL_CUTOFF};
use cfr_solver::codec::{has_mass, compress_policy, decompress_policy, ARRAY_SIZE, PACKED_ENTRIES};
use cfr_solver::history::History;
use std::collections::BTreeMap;

fn quantize(policy: &[f32]) -> Vec<u16> {
    policy.iter().map(|p| (p * 999.0) as u16).collect()
}

fn key(symbols: &[u8]) -> u64 {
    History(symbols.to_vec()).into_condensed()
}

fn preflop_evaluator() -> Evaluator {
    Evaluator {
        preflop: vec![FitFunction::Exact, FitFunction::Exact, FitFunction::Difference],
        auction: vec![],
        flop_onwards: vec![],
    }
}

#[test]
fn decompress_compress() {
    let mut policy = vec![0.0f32; 40];
    policy[0] = 0.5;
    policy[1] = 0.5;
    policy[9] = 0.5;
    let compressed = compress_policy(&quantize(&policy));
    let decompressed: Vec<f32> = decompress_policy(&compressed).iter().map(|v| *v as f32 / 999.0).collect();
    assert!(policy[0] - decompressed[0] < 1e-3);
    assert!(policy[1] - decompressed[1] < 1e-3);
    assert!(policy[9] - decompressed[9] < 1e-3);
}

#[test]
fn compress_round_trip_within_one_quantum() {
    let mut state: u32 = 12345;
    let mut policy = Vec::new();
    for _ in 0..40 {
        state = state.wrapping_mul(1103515245).wrapping_add(12345);
        policy.push((state >> 8) as f32 / (1u32 << 24) as f32);
    }
    let unpacked = decompress_policy(&compress_policy(&quantize(&policy)));
    assert_eq!(unpacked.len(), PACKED_ENTRIES);
    for i in 0..40 {
        let back = unpacked[i] as f32 / 999.0;
        assert!((policy[i] - back).abs() <= 1.0 / 999.0 + 1e-6);
    }
    for i in 40..PACKED_ENTRIES {
        assert_eq!(unpacked[i], 0);
    }
}

#[test]
fn compress_packs_base_thousand_digits() {
    let words = compress_policy(&vec![1, 2, 3]);
    assert_eq!(words[0], 3_002_001);
    assert_eq!(words.len(), ARRAY_SIZE);
    let full: Vec<u16> = (0..84).map(|i| (i * 11) as u16).collect();
    assert_eq!(decompress_policy(&compress_policy(&full)), full);
    assert!(compress_policy(&vec![999; 12])[0] < u128::MAX);
}

#[test]
fn loss_and_bounds() {
    let target = History(vec![0, 5, 40]);
    let test = History(vec![0, 6, 43]);
    let fs = vec![FitFunction::Exact, FitFunction::Difference, FitFunction::Range(2, -2)];
    assert_eq!(Evaluator::loss(&target, &test, &fs), 4);
    let fs2 = vec![FitFunction::Exact, FitFunction::Exact];
    assert_eq!(Evaluator::loss(&target, &test, &fs2), FAIL_CUTOFF);
    assert_eq!(Evaluator::get_min_max(40, FitFunction::Range(5, -5)), (35, 45));
    assert_eq!(Evaluator::get_min_max(3, FitFunction::Range(5, -5)), (0, 8));
    assert_eq!(Evaluator::get_min_max(198, FitFunction::Range(5, -5)), (193, 200));
    assert_eq!(Evaluator::get_min_max(7, FitFunction::Exact), (7, 7));
    assert_eq!(Evaluator::get_min_max(7, FitFunction::Difference), (0, 200));
}

#[test]
fn nearest_fit_finds_neighbor() {
    let mut bp = BlueprintStrategy::new();
    let policy = vec![499u16, 499, 0, 0];
    bp.insert_policy(0, key(&[0, 5, 41]), &policy);
    bp.insert_policy(0, key(&[0, 5, 45]), &vec![999]);
    bp.insert_policy(0, key(&[0, 6, 40]), &vec![999]);
    let bp = bp.with_evaluator(preflop_evaluator());
    let query = key(&[0, 5, 40]);
    assert!(bp.get_exact_policy(0, query).is_none());
    let (found, loss, values) = bp.get_best_policy(0, query).expect("a neighbour");
    assert_eq!(found, key(&[0, 5, 41]));
    assert_eq!(loss, 1);
    assert_eq!(&values[..4], &policy[..]);
    assert!(bp.get_best_policy(1, query).is_none());
}

#[test]
fn nearest_fit_rejects_exact_mismatch() {
    let mut bp = BlueprintStrategy::new();
    bp.insert_policy(0, key(&[0, 6, 40]), &vec![999]);
    let bp = bp.with_evaluator(preflop_evaluator());
    assert!(bp.get_best_policy(0, key(&[0, 5, 40])).is_none());
    assert!(bp.get_best_policy(0, key(&[7, 5, 40])).is_none());
    assert!(bp.get_best_policy(0, 1).is_none());
}

#[test]
fn nearest_fit_prefers_lower_key_on_ties() {
    let mut map = BTreeMap::new();
    map.insert(key(&[0, 5, 39]), ());
    map.insert(key(&[0, 5, 41]), ());
    let e = preflop_evaluator();
    assert_eq!(e.get_best(&map, key(&[0, 5, 40])), Some((key(&[0, 5, 39]), 1)));
}

#[test]
fn exact_policy_and_entries() {
    let mut bp = BlueprintStrategy::new();
    bp.insert_policy(1, 77, &vec![10, 20, 30]);
    bp.insert_packed(1, 5, [0; ARRAY_SIZE]);
    let v = bp.get_exact_policy(1, 77).unwrap();
    assert_eq!(&v[..4], &[10, 20, 30, 0]);
    let entries = bp.entries(1);
    assert_eq!(entries.len(), 2);
    assert_eq!(entries[0].0, 5);
    assert_eq!(entries[1].0, 77);
    assert!(bp.entries(0).is_empty());
}

#[test]
fn test_model_can_give_fitting_suggestions() {
    let mut bp = BlueprintStrategy::new();
    let stored = key(&[0, 12, 1, 3, 40]);
    bp.insert_policy(0, stored, &vec![100, 200, 699]);
    bp.insert_policy(0, key(&[0, 12, 1, 3, 44]), &vec![999]);
    let bp = bp.with_evaluator(Evaluator {
        preflop: vec![
            FitFunction::Exact,
            FitFunction::Exact,
            FitFunction::Exact,
            FitFunction::Exact,
            FitFunction::Difference,
        ],
        auction: vec![],
        flop_onwards: vec![],
    });
    let (found, loss, best) = bp.get_best_policy(0, stored).unwrap();
    assert_eq!(found, stored);
    assert_eq!(loss, 0);
    assert_eq!(Some(best), bp.get_exact_policy(0, stored));
}

#[test]
fn all_zero_policy_has_no_mass() {
    assert!(!has_mass(&quantize(&[0.0, 0.0005, 0.0])));
    assert!(has_mass(&quantize(&[0.0, 0.002])));
    assert!(!has_mass(&vec![]));
}
