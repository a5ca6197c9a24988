use cfr_solver::filter::Filter;
use cfr_solver::games::{card_range, is, GoofspielAction, KuhnPokerAction};
use cfr_solver::mapper::{median_of_groups, Action, ActionMapper, GameMapper, HOT_ENCODING_SIZE, MAX_GAME_DEPTH};

fn cards(values: &[u32]) -> Vec<GoofspielAction> {
    values.iter().map(|v| GoofspielAction(*v)).collect()
}

fn low_high_mapper() -> ActionMapper<GoofspielAction> {
    let mut m = ActionMapper::new();
    m.add_filter(card_range(0..=3), GoofspielAction(1));
    m.add_filter(card_range(4..=9), GoofspielAction(6));
    m
}

#[test]
fn action_mapper_first_match() {
    let m = low_high_mapper();
    assert_eq!(m.num_groups(), 2);
    assert_eq!(m.map(GoofspielAction(2)), Some(GoofspielAction(1)));
    assert_eq!(m.map(GoofspielAction(7)), Some(GoofspielAction(6)));
    assert_eq!(m.map(GoofspielAction(12)), None);
    assert_eq!(m.to_index(GoofspielAction(5)), Some(1));
    assert_eq!(m.map_and_index(GoofspielAction(0)), Some((GoofspielAction(1), 0)));
    assert_eq!(m.map_and_index(GoofspielAction(10)), None);
}

#[test]
fn action_mapper_earlier_filter_wins() {
    let mut m = ActionMapper::new();
    m.add_filter(is(GoofspielAction(3)), GoofspielAction(30));
    m.add_filter(card_range(0..=5), GoofspielAction(0));
    assert_eq!(m.map_and_index(GoofspielAction(3)), Some((GoofspielAction(30), 0)));
    assert_eq!(m.map_and_index(GoofspielAction(4)), Some((GoofspielAction(0), 1)));
}

#[test]
fn game_mapper_passes_through_without_mapper() {
    let g: GameMapper<GoofspielAction> = GameMapper::new(None);
    assert_eq!(g.encoding_size(), HOT_ENCODING_SIZE);
    let actions = cards(&[5, 1, 3]);
    assert_eq!(g.map_actions(&actions, 0), Some(cards(&[1, 3, 5])));
    assert_eq!(g.map_action(GoofspielAction(9), 10), Some(GoofspielAction(9)));
    assert_eq!(g.map_and_index(GoofspielAction(9), 10, 4), Some((GoofspielAction(9), 4)));
}

#[test]
fn game_mapper_groups_by_index_and_takes_median() {
    let g: GameMapper<GoofspielAction> = GameMapper::new(Some(4));
    let actions = cards(&[1, 257, 513, 2, 258]);
    assert_eq!(g.map_actions(&actions, 3), Some(cards(&[257, 258])));
    let kuhn: GameMapper<KuhnPokerAction> = GameMapper::new(None);
    let moves = vec![KuhnPokerAction::Bet, KuhnPokerAction::Fold, KuhnPokerAction::Call];
    assert_eq!(
        kuhn.map_actions(&moves, 0),
        Some(vec![KuhnPokerAction::Fold, KuhnPokerAction::Call, KuhnPokerAction::Bet])
    );
}

#[test]
fn game_mapper_with_default_mapper() {
    let g = GameMapper::from_default(low_high_mapper(), None);
    assert_eq!(g.encoding_size(), 2);
    let actions = cards(&[0, 1, 2, 3, 4, 5]);
    assert_eq!(g.map_actions(&actions, 0), Some(cards(&[1, 6])));
    assert_eq!(g.map_actions(&cards(&[2, 11]), 0), None);
}

#[test]
fn game_mapper_update_depth_recomputes_width() {
    let mut g: GameMapper<GoofspielAction> = GameMapper::from_default(low_high_mapper(), None);
    g.update_depth(None, MAX_GAME_DEPTH - 1);
    assert_eq!(g.encoding_size(), HOT_ENCODING_SIZE);
    assert_eq!(g.map_action(GoofspielAction(8), MAX_GAME_DEPTH - 1), Some(GoofspielAction(8)));
    assert_eq!(g.map_action(GoofspielAction(8), 0), Some(GoofspielAction(6)));
    let mut h: GameMapper<GoofspielAction> = GameMapper::new(None);
    h.update_depth(Some(low_high_mapper()), 0);
    assert_eq!(h.encoding_size(), HOT_ENCODING_SIZE);
}

#[test]
fn median_of_even_group_takes_upper_middle() {
    let actions = cards(&[3, 259, 515, 771]);
    assert_eq!(median_of_groups(&actions), cards(&[515]));
}

#[test]
fn action_indices() {
    assert_eq!(GoofspielAction(300).index(), 44);
    assert_eq!(KuhnPokerAction::Deal(1).index(), 4);
    assert_eq!(KuhnPokerAction::Deal(9).index(), 255);
    assert_eq!(KuhnPokerAction::from_index(6), Some(KuhnPokerAction::Bet));
    assert_eq!(KuhnPokerAction::from_index(7), None);
    assert_eq!(<GoofspielAction as Action>::max_index(), 255);
    let f: Filter<KuhnPokerAction> = is(KuhnPokerAction::Deal(0));
    assert!(f.accepts(&KuhnPokerAction::Deal(0)));
    assert!(!f.accepts(&KuhnPokerAction::Deal(1)));
}

#[test]
fn test_default_behavior() {
    let game_mapper: GameMapper<GoofspielAction> = GameMapper::new(None);
    let distinct = cards(&[0, 1, 2, 3, 4]);
    let mapped = game_mapper.map_actions(&distinct, 0).unwrap();
    assert_eq!(mapped, distinct, "The mapped actions should be the same as the original actions");

    let mut actions = cards(&[0]);
    actions.extend(cards(&[1]));
    actions.extend(cards(&[2]));
    actions.extend(cards(&[3, 259, 515]));
    actions.extend(cards(&[4, 260, 516, 772]));
    let mapped = game_mapper.map_actions(&actions, 0).unwrap();
    assert_eq!(5, mapped.len(), "There should be 5 distinct action groups after mapping");
    assert_eq!(mapped, cards(&[0, 1, 2, 259, 516]));
}
