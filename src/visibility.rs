use vstd::prelude::*;
use crate::filter::lemma_filter_step;
use crate::mapper::Action;
use crate::tracker::{is_player, NUM_REGULAR_PLAYERS};

verus! {

/// Who sees an action: everyone, the player to act, or the listed players.
#[derive(Clone, Debug)]
pub enum Visibility<A: Action> {
    Public(A),
    Private(A),
    Shared(A, Vec<usize>),
}

/// The action a visibility carries.
pub open spec fn action_of<A: Action>(v: Visibility<A>) -> A {
    match v {
        Visibility::Public(a) => a,
        Visibility::Private(a) => a,
        Visibility::Shared(a, _) => a,
    }
}

/// How many times player `p` records the action.
pub open spec fn times_visible<A: Action>(v: Visibility<A>, active: Option<usize>, p: int) -> nat {
    match v {
        Visibility::Public(_) => 1,
        Visibility::Private(_) => if active == Some(p as usize) {
            1
        } else {
            0
        },
        Visibility::Shared(_, players) => players@.filter(is_player(p)).len(),
    }
}

/// The visibility names only regular players.
pub open spec fn visibility_ok<A: Action>(v: Visibility<A>, active: Option<usize>) -> bool {
    &&& active matches Some(p) ==> p < NUM_REGULAR_PLAYERS
    &&& v matches Visibility::Shared(_, players) ==> forall|i: int|
        0 <= i < players@.len() ==> #[trigger] players@[i] < NUM_REGULAR_PLAYERS
}

/// Each player's actions after recording one visibility.
pub open spec fn seen_after<A: Action>(h: Seq<Seq<A>>, v: Visibility<A>, active: Option<usize>) -> Seq<
    Seq<A>,
> {
    Seq::new(h.len(), |p: int| h[p] + Seq::new(times_visible(v, active, p), |k: int| action_of(v)))
}

/// The actions each regular player has seen, in order.
#[derive(Clone, Debug)]
pub struct VisibilityTracker<A: Action> {
    player_info_sets: Vec<Vec<A>>,
}

impl<A: Action> View for VisibilityTracker<A> {
    type V = Seq<Seq<A>>;

    closed spec fn view(&self) -> Seq<Seq<A>> {
        Seq::new(self.player_info_sets@.len(), |p: int| self.player_info_sets@[p]@)
    }
}

impl<A: Action> VisibilityTracker<A> {
    pub fn new() -> (r: Self)
        ensures
            r@.len() == NUM_REGULAR_PLAYERS,
            forall|p: int| 0 <= p < NUM_REGULAR_PLAYERS ==> (#[trigger] r@[p]).len() == 0,
    {
        let mut sets: Vec<Vec<A>> = Vec::new();
        sets.push(Vec::new());
        sets.push(Vec::new());
        VisibilityTracker { player_info_sets: sets }
    }

    /// The actions `player` has seen.
    pub fn get_history(&self, player: usize) -> (r: Vec<A>)
        requires
            self@.len() == NUM_REGULAR_PLAYERS,
            player < NUM_REGULAR_PLAYERS,
        ensures
            r@ == self@[player as int],
    {
        let src = &self.player_info_sets[player];
        let mut out: Vec<A> = Vec::new();
        let mut i: usize = 0;
        while i < src.len()
            invariant
                i <= src@.len(),
                out@ == src@.subrange(0, i as int),
            decreases src@.len() - i,
        {
            out.push(src[i]);
            proof {
                assert(out@ =~= src@.subrange(0, i as int + 1));
            }
            i = i + 1;
        }
        proof {
            assert(src@.subrange(0, src@.len() as int) =~= src@);
        }
        out
    }

    fn push_action(&mut self, player: usize, action: A)
        requires
            old(self)@.len() == NUM_REGULAR_PLAYERS,
            player < NUM_REGULAR_PLAYERS,
        ensures
            final(self)@ == old(self)@.update(player as int, old(self)@[player as int].push(action)),
    {
        self.player_info_sets[player].push(action);
        proof {
            assert(self@ =~= old(self)@.update(player as int, old(self)@[player as int].push(action)));
        }
    }

    /// Appends the action to the history of each player who sees it.
    pub fn observe(&mut self, visibility: Visibility<A>, active_player: Option<usize>)
        requires
            old(self)@.len() == NUM_REGULAR_PLAYERS,
            visibility_ok(visibility, active_player),
        ensures
            final(self)@.len() == NUM_REGULAR_PLAYERS,
            final(self)@ == seen_after(old(self)@, visibility, active_player),
    {
        let ghost v0 = self@;
        let ghost target = seen_after(v0, visibility, active_player);
        match visibility {
            Visibility::Public(action) => {
                self.push_action(0, action);
                self.push_action(1, action);
            },
            Visibility::Private(action) => {
                if let Some(p) = active_player {
                    self.push_action(p, action);
                }
            },
            Visibility::Shared(action, players) => {
                let mut i: usize = 0;
                while i < players.len()
                    invariant
                        i <= players@.len(),
                        self@.len() == NUM_REGULAR_PLAYERS,
                        v0.len() == NUM_REGULAR_PLAYERS,
                        forall|j: int| 0 <= j < players@.len() ==> #[trigger] players@[j] < NUM_REGULAR_PLAYERS,
                        self@[0] == v0[0] + Seq::new(
                            players@.subrange(0, i as int).filter(is_player(0)).len(),
                            |k: int| action,
                        ),
                        self@[1] == v0[1] + Seq::new(
                            players@.subrange(0, i as int).filter(is_player(1)).len(),
                            |k: int| action,
                        ),
                    decreases players@.len() - i,
                {
                    let p = players[i];
                    proof {
                        lemma_filter_step(players@, i as int, is_player(0));
                        lemma_filter_step(players@, i as int, is_player(1));
                        let n0 = players@.subrange(0, i as int).filter(is_player(0)).len();
                        let n1 = players@.subrange(0, i as int).filter(is_player(1)).len();
                        assert(v0[0] + Seq::new(n0 + 1, |k: int| action) =~= (v0[0] + Seq::new(
                            n0,
                            |k: int| action,
                        )).push(action));
                        assert(v0[1] + Seq::new(n1 + 1, |k: int| action) =~= (v0[1] + Seq::new(
                            n1,
                            |k: int| action,
                        )).push(action));
                    }
                    self.push_action(p, action);
                    i = i + 1;
                }
                proof {
                    assert(players@.subrange(0, players@.len() as int) =~= players@);
                }
            },
        }
        proof {
            assert(self@[0] =~= target[0]);
            assert(self@[1] =~= target[1]);
            assert(self@ =~= target);
        }
    }
}

} // verus!
