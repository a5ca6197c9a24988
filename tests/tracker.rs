use cfr_solver::games::KuhnPokerAction;
use cfr_solver::tracker::{BidResult, Feature, Information, Observation, ObservationTracker, Round};
use cfr_solver::visibility::{Visibility, VisibilityTracker};

#[test]
fn tracker_starts_empty() {
    let t = ObservationTracker::new();
    assert!(t.get_history(0).0.is_empty());
    assert!(t.get_history(1).0.is_empty());
}

#[test]
fn tracker_public_private_shared() {
    let mut t = ObservationTracker::new();
    t.observe(Observation::Private(Information::Action(KuhnPokerAction::Deal(2))), Some(0));
    t.observe(Observation::Public(Information::Action(KuhnPokerAction::Bet)), Some(0));
    t.observe(Observation::Shared(Information::Action(KuhnPokerAction::Call), vec![1]), Some(1));
    t.observe(Observation::<KuhnPokerAction>::Public(Information::Discard), Some(1));
    assert_eq!(t.get_history(0).0, vec![5, 6]);
    assert_eq!(t.get_history(1).0, vec![6, 1]);
}

#[test]
fn tracker_private_without_player_is_ignored() {
    let mut t = ObservationTracker::new();
    t.observe(Observation::Private(Information::Action(KuhnPokerAction::Check)), None);
    assert!(t.get_history(0).0.is_empty());
    assert!(t.get_history(1).0.is_empty());
}

#[test]
fn tracker_shared_counts_repeated_players() {
    let mut t = ObservationTracker::new();
    t.observe(Observation::Shared(Information::Action(KuhnPokerAction::Fold), vec![0, 0]), None);
    assert_eq!(t.get_history(0).0, vec![0, 0]);
    assert!(t.get_history(1).0.is_empty());
}

#[test]
fn tracker_features_replace_actions() {
    let mut t = ObservationTracker::new();
    t.observe_all(
        vec![
            Observation::Public(Information::Action(KuhnPokerAction::Check)),
            Observation::Private(Information::Features(vec![
                Feature::Order(Round::Flop),
                Feature::Ranks(12, 11),
                Feature::Suited(true),
                Feature::Auction(BidResult::Tie),
            ])),
        ],
        Some(1),
    );
    assert_eq!(t.get_history(0).0, vec![2]);
    assert_eq!(t.get_history(1).0, vec![2, 12 * 13 + 11, 1, 2]);
    t.observe(Observation::<KuhnPokerAction>::Public(Information::Features(vec![Feature::Pot(40)])), None);
    assert_eq!(t.get_history(0).0, vec![40]);
    assert_eq!(t.get_history(1).0, vec![40]);
}

#[test]
fn feature_indices() {
    assert_eq!(Feature::max_index(), 200);
    assert_eq!(Feature::Suited(false).index(), 0);
    assert_eq!(Feature::Ranks(3, 4).index(), 43);
    assert_eq!(Feature::EV(70).index(), 70);
    assert_eq!(Feature::EV(300).index(), 44);
    assert_eq!(Feature::Order(Round::River).index(), 4);
    assert_eq!(Feature::Auction(BidResult::Player(1)).index(), 1);
    assert_eq!(Feature::Stack(25).index(), 25);
    assert_eq!(Feature::Aggression(3).index(), 3);
}

#[test]
fn round_indices() {
    assert_eq!(Round::Turn.index(), 3);
    assert!(matches!(Round::from_index(1), Some(Round::Auction)));
    assert!(Round::from_index(5).is_none());
}

#[test]
fn feature_from_index_decodes_ranks() {
    assert!(matches!(Feature::from_index(43), Some(Feature::Ranks(3, 4))));
    assert_eq!(Feature::from_index(169).map(|f| f.index()), Some(169));
    assert!(Feature::from_index(170).is_none());
}

#[test]
fn visibility_tracker_records_actions() {
    let mut t: VisibilityTracker<KuhnPokerAction> = VisibilityTracker::new();
    t.observe(Visibility::Shared(KuhnPokerAction::Deal(0), vec![0]), None);
    t.observe(Visibility::Shared(KuhnPokerAction::Deal(2), vec![1]), None);
    t.observe(Visibility::Public(KuhnPokerAction::Check), Some(0));
    t.observe(Visibility::Private(KuhnPokerAction::Bet), Some(1));
    assert_eq!(t.get_history(0), vec![KuhnPokerAction::Deal(0), KuhnPokerAction::Check]);
    assert_eq!(
        t.get_history(1),
        vec![KuhnPokerAction::Deal(2), KuhnPokerAction::Check, KuhnPokerAction::Bet]
    );
}
