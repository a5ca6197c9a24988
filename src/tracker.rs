use vstd::prelude::*;
use crate::history::{ActionIndex, History};
use crate::filter::lemma_filter_step;
use crate::mapper::Action;

verus! {

/// Number of players who make decisions (chance is not one of them).
pub const NUM_REGULAR_PLAYERS: usize = 2;

/// A betting round of a poker-like game.
#[derive(Clone, Copy, Debug)]
pub enum Round {
    PreFlop,
    Auction,
    Flop,
    Turn,
    River,
}

impl Round {
    pub open spec fn spec_index(&self) -> usize {
        match self {
            Round::PreFlop => 0,
            Round::Auction => 1,
            Round::Flop => 2,
            Round::Turn => 3,
            Round::River => 4,
        }
    }

    /// The round's position in the game, from 0 (pre-flop) to 4 (river).
    pub fn index(&self) -> (r: usize)
        ensures
            r == self.spec_index(),
    {
        match self {
            Round::PreFlop => 0,
            Round::Auction => 1,
            Round::Flop => 2,
            Round::Turn => 3,
            Round::River => 4,
        }
    }

    /// The round at position `u`; `None` past the river.
    pub fn from_index(u: usize) -> (r: Option<Round>)
        ensures
            r is Some <==> u < 5,
            r matches Some(round) ==> round.spec_index() == u,
    {
        match u {
            0 => Some(Round::PreFlop),
            1 => Some(Round::Auction),
            2 => Some(Round::Flop),
            3 => Some(Round::Turn),
            4 => Some(Round::River),
            _ => None,
        }
    }
}

/// Outcome of an auction: the winning player, or a tie.
#[derive(Clone, Copy, Debug)]
pub enum BidResult {
    Player(u8),
    Tie,
}

/// A summary of what a player can observe in a poker-like game.
#[derive(Clone, Copy, Debug)]
pub enum Feature {
    /// Whether the hand is suited.
    Suited(bool),
    /// Hole card ranks, highest first.
    Ranks(usize, usize),
    /// Expected value of the hand as a percentage.
    EV(u16),
    /// Pot size as a percentage of a stack.
    Pot(u8),
    Order(Round),
    Auction(BidResult),
    /// Stack as a scaled percentage of the maximum.
    Stack(u8),
    Aggression(usize),
}

/// The symbol a feature contributes to a history; wide values keep their
/// low eight bits, as the conversion to `u8` does.
pub open spec fn feature_index(f: Feature) -> ActionIndex {
    match f {
        Feature::Suited(x) => if x {
            1
        } else {
            0
        },
        Feature::Ranks(x, y) => (((x % 256) * 13 + y % 256) % 256) as u8,
        Feature::EV(x) => (x % 256) as u8,
        Feature::Pot(x) => x,
        Feature::Order(round) => round.spec_index() as u8,
        Feature::Auction(result) => match result {
            BidResult::Player(p) => p,
            BidResult::Tie => 2,
        },
        Feature::Stack(x) => x,
        Feature::Aggression(x) => (x % 256) as u8,
    }
}

impl Feature {
    /// Bound on the symbols features are meant to take.
    pub fn max_index() -> (r: usize)
        ensures
            r == 200,
    {
        200
    }

    /// The rank pair that index `index` stands for: `13 * high + low`;
    /// `None` past the last pair.
    pub fn from_index(index: ActionIndex) -> (r: Option<Feature>)
        ensures
            r is Some <==> index <= 169,
            r matches Some(f) ==> f == Feature::Ranks((index / 13) as usize, (index % 13) as usize)
                && feature_index(f) == index,
    {
        if index <= 169 {
            let f = Feature::Ranks((index / 13) as usize, (index % 13) as usize);
            proof {
                let x = (index / 13) as int;
                let y = (index % 13) as int;
                assert(x * 13 + y == index as int) by (nonlinear_arith)
                    requires
                        x == index as int / 13,
                        y == index as int % 13,
                ;
            }
            Some(f)
        } else {
            None
        }
    }

    /// The symbol this feature contributes to a history.
    pub fn index(&self) -> (r: ActionIndex)
        ensures
            r == feature_index(*self),
    {
        match self {
            Feature::Suited(x) => if *x {
                1
            } else {
                0
            },
            Feature::Ranks(x, y) => {
                let a = #[verifier::truncate] (*x as u8);
                let b = #[verifier::truncate] (*y as u8);
                let r = ((a as u32 * 13 + b as u32) % 256) as u8;
                proof {
                    assert(a == *x % 256 && b == *y % 256) by (bit_vector)
                        requires
                            a == #[verifier::truncate] (*x as u8),
                            b == #[verifier::truncate] (*y as u8),
                    ;
                }
                r
            },
            Feature::EV(x) => {
                let r = #[verifier::truncate] (*x as u8);
                proof {
                    assert(r == *x % 256) by (bit_vector)
                        requires
                            r == #[verifier::truncate] (*x as u8),
                    ;
                }
                r
            },
            Feature::Pot(x) => *x,
            Feature::Order(round) => round.index() as u8,
            Feature::Auction(result) => match result {
                BidResult::Player(p) => *p,
                BidResult::Tie => 2,
            },
            Feature::Stack(x) => *x,
            Feature::Aggression(x) => {
                let r = #[verifier::truncate] (*x as u8);
                proof {
                    assert(r == *x % 256) by (bit_vector)
                        requires
                            r == #[verifier::truncate] (*x as u8),
                    ;
                }
                r
            },
        }
    }
}

/// What an observation reveals: an action, a fresh feature vector, or nothing.
#[derive(Clone, Debug)]
pub enum Information<A> {
    Action(A),
    Features(Vec<Feature>),
    Discard,
}

/// Who records a piece of information: everyone, only the player to act,
/// or the listed players.
#[derive(Clone, Debug)]
pub enum Observation<A: Action> {
    Public(Information<A>),
    Private(Information<A>),
    Shared(Information<A>, Vec<usize>),
}

/// The information an observation carries.
pub open spec fn info_of<A: Action>(o: Observation<A>) -> Information<A> {
    match o {
        Observation::Public(i) => i,
        Observation::Private(i) => i,
        Observation::Shared(i, _) => i,
    }
}

/// The indices equal to player `p`.
pub open spec fn is_player(p: int) -> spec_fn(usize) -> bool {
    |x: usize| x == p
}

/// How many times player `p` records the observation.
pub open spec fn times_seen<A: Action>(o: Observation<A>, active: Option<usize>, p: int) -> nat {
    match o {
        Observation::Public(_) => 1,
        Observation::Private(_) => if active == Some(p as usize) {
            1
        } else {
            0
        },
        Observation::Shared(_, players) => players@.filter(is_player(p)).len(),
    }
}

/// Per player: the recorded action symbols, and the feature vector that
/// replaces them when present.
pub type TrackerView = (Seq<Seq<ActionIndex>>, Seq<Option<Seq<Feature>>>);

/// The tracker's contents after recording one observation.
pub open spec fn observed<A: Action>(
    v: TrackerView,
    o: Observation<A>,
    active: Option<usize>,
) -> TrackerView {
    (
        Seq::new(
            v.0.len(),
            |p: int|
                match info_of(o) {
                    Information::Action(a) => v.0[p] + Seq::new(
                        times_seen(o, active, p),
                        |k: int| a.spec_index(),
                    ),
                    _ => v.0[p],
                },
        ),
        Seq::new(
            v.1.len(),
            |p: int|
                match info_of(o) {
                    Information::Features(fs) => if times_seen(o, active, p) > 0 {
                        Some(fs@)
                    } else {
                        v.1[p]
                    },
                    _ => v.1[p],
                },
        ),
    )
}

/// The tracker's contents after recording the observations in order.
pub open spec fn observed_all<A: Action>(
    v: TrackerView,
    os: Seq<Observation<A>>,
    active: Option<usize>,
) -> TrackerView
    decreases os.len(),
{
    if os.len() == 0 {
        v
    } else {
        observed(observed_all(v, os.drop_last(), active), os.last(), active)
    }
}

/// The observation names only regular players.
pub open spec fn observation_ok<A: Action>(o: Observation<A>, active: Option<usize>) -> bool {
    &&& active matches Some(p) ==> p < NUM_REGULAR_PLAYERS
    &&& o matches Observation::Shared(_, players) ==> forall|i: int|
        0 <= i < players@.len() ==> #[trigger] players@[i] < NUM_REGULAR_PLAYERS
}

/// The history a player reports: the feature symbols when a feature vector
/// is present, the action symbols otherwise.
pub open spec fn history_of(v: TrackerView, p: int) -> Seq<ActionIndex> {
    match v.1[p] {
        Some(fs) => fs.map_values(|f: Feature| feature_index(f)),
        None => v.0[p],
    }
}

/// Records, for each regular player, what that player has observed.
#[derive(Clone, Debug)]
pub struct ObservationTracker {
    player_info_sets: Vec<Vec<ActionIndex>>,
    player_feature_sets: Vec<Option<Vec<Feature>>>,
}

/// The feature vector as a sequence, if present.
pub open spec fn features_view(fs: Option<Vec<Feature>>) -> Option<Seq<Feature>> {
    match fs {
        Some(v) => Some(v@),
        None => None,
    }
}

impl View for ObservationTracker {
    type V = TrackerView;

    closed spec fn view(&self) -> TrackerView {
        (
            Seq::new(self.player_info_sets@.len(), |p: int| self.player_info_sets@[p]@),
            Seq::new(
                self.player_feature_sets@.len(),
                |p: int| features_view(self.player_feature_sets@[p]),
            ),
        )
    }
}

/// The view has one entry per regular player.
pub open spec fn tracker_wf(v: TrackerView) -> bool {
    v.0.len() == NUM_REGULAR_PLAYERS && v.1.len() == NUM_REGULAR_PLAYERS
}

impl ObservationTracker {
    /// Nothing observed yet.
    pub fn new() -> (r: Self)
        ensures
            tracker_wf(r@),
            forall|p: int|
                0 <= p < NUM_REGULAR_PLAYERS ==> (#[trigger] r@.0[p]).len() == 0 && r@.1[p]
                    is None,
    {
        let mut infos: Vec<Vec<ActionIndex>> = Vec::new();
        infos.push(Vec::new());
        infos.push(Vec::new());
        let mut feats: Vec<Option<Vec<Feature>>> = Vec::new();
        feats.push(None);
        feats.push(None);
        ObservationTracker { player_info_sets: infos, player_feature_sets: feats }
    }

    /// The ordered symbols `player` has observed.
    pub fn get_history(&self, player: usize) -> (r: History)
        requires
            tracker_wf(self@),
            player < NUM_REGULAR_PLAYERS,
        ensures
            r@ == history_of(self@, player as int),
    {
        match &self.player_feature_sets[player] {
            Some(features) => {
                let mut out: Vec<ActionIndex> = Vec::new();
                let mut i: usize = 0;
                while i < features.len()
                    invariant
                        i <= features.len(),
                        out@ == features@.subrange(0, i as int).map_values(
                            |f: Feature| feature_index(f),
                        ),
                    decreases features.len() - i,
                {
                    out.push(features[i].index());
                    proof {
                        assert(out@ =~= features@.subrange(0, i as int + 1).map_values(
                            |f: Feature| feature_index(f),
                        ));
                    }
                    i = i + 1;
                }
                proof {
                    assert(features@.subrange(0, features.len() as int) =~= features@);
                    assert(self@.1[player as int] == Some(features@));
                }
                History(out)
            },
            None => {
                let mut out: Vec<ActionIndex> = Vec::new();
                let src = &self.player_info_sets[player];
                let mut i: usize = 0;
                while i < src.len()
                    invariant
                        i <= src.len(),
                        out@ == src@.subrange(0, i as int),
                    decreases src.len() - i,
                {
                    out.push(src[i]);
                    proof {
                        assert(out@ =~= src@.subrange(0, i as int + 1));
                    }
                    i = i + 1;
                }
                proof {
                    assert(src@.subrange(0, src.len() as int) =~= src@);
                }
                History(out)
            },
        }
    }

    fn push_symbol(&mut self, player: usize, symbol: ActionIndex)
        requires
            tracker_wf(old(self)@),
            player < NUM_REGULAR_PLAYERS,
        ensures
            tracker_wf(final(self)@),
            final(self)@.0 == old(self)@.0.update(player as int, old(self)@.0[player as int].push(symbol)),
            final(self)@.1 == old(self)@.1,
    {
        self.player_info_sets[player].push(symbol);
        proof {
            assert(self@.0 =~= old(self)@.0.update(player as int, old(self)@.0[player as int].push(symbol)));
            assert(self@.1 =~= old(self)@.1);
        }
    }

    fn set_features(&mut self, player: usize, features: &Vec<Feature>)
        requires
            tracker_wf(old(self)@),
            player < NUM_REGULAR_PLAYERS,
        ensures
            tracker_wf(final(self)@),
            final(self)@.0 == old(self)@.0,
            final(self)@.1 == old(self)@.1.update(player as int, Some(features@)),
    {
        let mut copy: Vec<Feature> = Vec::new();
        let mut i: usize = 0;
        while i < features.len()
            invariant
                i <= features.len(),
                copy@ == features@.subrange(0, i as int),
            decreases features.len() - i,
        {
            copy.push(features[i]);
            proof {
                assert(copy@ =~= features@.subrange(0, i as int + 1));
            }
            i = i + 1;
        }
        proof {
            assert(features@.subrange(0, features.len() as int) =~= features@);
        }
        self.player_feature_sets.set(player, Some(copy));
        proof {
            assert(self@.0 =~= old(self)@.0);
            assert(self@.1 =~= old(self)@.1.update(player as int, Some(features@)));
        }
    }

    /// Records one observation: an action symbol is appended to the history
    /// of each player who sees it, a feature vector replaces theirs.
    pub fn observe<A: Action>(&mut self, observation: Observation<A>, active_player_index: Option<usize>)
        requires
            tracker_wf(old(self)@),
            observation_ok(observation, active_player_index),
        ensures
            tracker_wf(final(self)@),
            final(self)@ == observed(old(self)@, observation, active_player_index),
    {
        let ghost v0 = self@;
        let ghost target = observed(v0, observation, active_player_index);
        let ghost o = observation;
        match observation {
            Observation::Public(info) => match info {
                Information::Action(action) => {
                    let s = action.index();
                    self.push_symbol(0, s);
                    self.push_symbol(1, s);
                },
                Information::Features(features) => {
                    self.set_features(0, &features);
                    self.set_features(1, &features);
                },
                Information::Discard => {},
            },
            Observation::Private(info) => match info {
                Information::Action(action) => {
                    if let Some(p) = active_player_index {
                        self.push_symbol(p, action.index());
                    }
                },
                Information::Features(features) => {
                    if let Some(p) = active_player_index {
                        self.set_features(p, &features);
                    }
                },
                Information::Discard => {},
            },
            Observation::Shared(info, players) => {
                let mut i: usize = 0;
                while i < players.len()
                    invariant
                        i <= players.len(),
                        o == Observation::Shared(info, players),
                        tracker_wf(self@),
                        tracker_wf(v0),
                        forall|j: int| 0 <= j < players@.len() ==> #[trigger] players@[j] < NUM_REGULAR_PLAYERS,
                        shared_reached(v0, self@, info, players@.subrange(0, i as int), 0),
                        shared_reached(v0, self@, info, players@.subrange(0, i as int), 1),
                    decreases players.len() - i,
                {
                    let p = players[i];
                    let ghost before = self@;
                    proof {
                        lemma_filter_step(players@, i as int, is_player(0));
                        lemma_filter_step(players@, i as int, is_player(1));
                    }
                    match &info {
                        Information::Action(action) => {
                            self.push_symbol(p, action.index());
                        },
                        Information::Features(features) => {
                            self.set_features(p, features);
                        },
                        Information::Discard => {},
                    }
                    proof {
                        assert(players@.subrange(0, i as int).push(p) =~= players@.subrange(0, i as int + 1));
                        lemma_shared_step(v0, before, self@, info, players@.subrange(0, i as int), p, 0);
                        lemma_shared_step(v0, before, self@, info, players@.subrange(0, i as int), p, 1);
                        assert(players@.subrange(0, i as int).push(p) =~= players@.subrange(0, i as int + 1));
                    }
                    i = i + 1;
                }
                proof {
                    assert(players@.subrange(0, players.len() as int) =~= players@);
                }
            },
        }
        proof {
            assert(self@.0 =~~= target.0);
            assert(self@.1 =~~= target.1);
        }
    }

    /// Records the observations in order.
    pub fn observe_all<A: Action>(
        &mut self,
        observations: Vec<Observation<A>>,
        active_player_index: Option<usize>,
    )
        requires
            tracker_wf(old(self)@),
            forall|i: int|
                0 <= i < observations@.len() ==> observation_ok(
                    #[trigger] observations@[i],
                    active_player_index,
                ),
        ensures
            tracker_wf(final(self)@),
            final(self)@ == observed_all(old(self)@, observations@, active_player_index),
    {
        let ghost start = self@;
        let ghost all = observations@;
        let n = observations.len();
        let mut rest = observations;
        let mut i: usize = 0;
        while rest.len() > 0
            invariant
                i <= all.len(),
                all.len() == n,
                rest.len() + i == all.len(),
                rest@ == all.subrange(i as int, all.len() as int),
                tracker_wf(self@),
                self@ == observed_all(start, all.subrange(0, i as int), active_player_index),
                forall|j: int|
                    0 <= j < all.len() ==> observation_ok(#[trigger] all[j], active_player_index),
            decreases rest.len(),
        {
            let o = rest.remove(0);
            proof {
                assert(o == all[i as int]);
                assert(all.subrange(0, i as int + 1).drop_last() =~= all.subrange(0, i as int));
                assert(rest@ =~= all.subrange(i as int + 1, all.len() as int));
            }
            self.observe(o, active_player_index);
            i = i + 1;
        }
        proof {
            assert(all.subrange(0, i as int) =~= all);
        }
    }
}

/// Player `q`'s entries after the listed players `seen` recorded `info`.
pub open spec fn shared_reached<A: Action>(
    v0: TrackerView,
    v: TrackerView,
    info: Information<A>,
    seen: Seq<usize>,
    q: int,
) -> bool {
    let n = seen.filter(is_player(q)).len();
    &&& v.0[q] == match info {
        Information::Action(a) => v0.0[q] + Seq::new(n, |k: int| a.spec_index()),
        _ => v0.0[q],
    }
    &&& v.1[q] == match info {
        Information::Features(fs) => if n > 0 {
            Some(fs@)
        } else {
            v0.1[q]
        },
        _ => v0.1[q],
    }
}

proof fn lemma_shared_step<A: Action>(
    v0: TrackerView,
    before: TrackerView,
    after: TrackerView,
    info: Information<A>,
    seen: Seq<usize>,
    p: usize,
    q: int,
)
    requires
        tracker_wf(before),
        tracker_wf(after),
        p < NUM_REGULAR_PLAYERS,
        0 <= q < NUM_REGULAR_PLAYERS,
        shared_reached(v0, before, info, seen, q),
        seen.push(p).filter(is_player(q)) == if p == q {
            seen.filter(is_player(q)).push(p)
        } else {
            seen.filter(is_player(q))
        },
        match info {
            Information::Action(a) => after.0 == before.0.update(
                p as int,
                before.0[p as int].push(a.spec_index()),
            ) && after.1 == before.1,
            Information::Features(fs) => after.0 == before.0 && after.1 == before.1.update(
                p as int,
                Some(fs@),
            ),
            Information::Discard => after == before,
        },
    ensures
        shared_reached(v0, after, info, seen.push(p), q),
{
    let m = seen.filter(is_player(q)).len();
    if let Information::Action(a) = info {
        if p == q {
            assert(v0.0[q] + Seq::new(m + 1, |k: int| a.spec_index()) =~= (v0.0[q] + Seq::new(
                m,
                |k: int| a.spec_index(),
            )).push(a.spec_index()));
        }
    }
}

} // verus!
