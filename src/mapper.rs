use vstd::prelude::*;
use vstd::std_specs::cmp::PartialEqSpec;
use crate::filter::{Filter, Parsable, accepts_value, lemma_filter_step};
use crate::history::ActionIndex;

verus! {

/// Number of depths a game mapper covers.
pub const MAX_GAME_DEPTH: usize = 1000;

/// Width of an action encoding when a depth has no mapper.
pub const HOT_ENCODING_SIZE: usize = 30;

/// Number of distinct action indices.
pub const INDEX_SPACE: usize = 256;

/// A move of a game, with a stable index into a bounded action space.
pub trait Action: Parsable {
    spec fn spec_index(&self) -> ActionIndex;

    spec fn spec_max_index() -> ActionIndex;

    fn index(&self) -> (r: ActionIndex)
        ensures
            r == self.spec_index(),
    ;

    fn max_index() -> (r: ActionIndex)
        ensures
            r == Self::spec_max_index(),
    ;
}

/// A filter together with the action that stands for everything it keeps.
pub type ActionFilter<A> = (Filter<A>, A);

/// `i` is the first filter of `fs` that keeps `a`.
pub open spec fn first_match<A: Action>(fs: Seq<ActionFilter<A>>, a: A, i: int) -> bool {
    &&& 0 <= i < fs.len()
    &&& accepts_value(fs[i].0, a)
    &&& forall|j: int| 0 <= j < i ==> !accepts_value(#[trigger] fs[j].0, a)
}

/// No filter of `fs` keeps `a`.
pub open spec fn unmatched<A: Action>(fs: Seq<ActionFilter<A>>, a: A) -> bool {
    forall|j: int| 0 <= j < fs.len() ==> !accepts_value(#[trigger] fs[j].0, a)
}

/// The representative that `fs` maps `a` to, where some filter keeps it.
pub open spec fn mapped_to<A: Action>(fs: Seq<ActionFilter<A>>, a: A) -> A {
    fs[choose|i: int| first_match(fs, a, i)].1
}

/// The actions whose index is `k`.
pub open spec fn index_is<A: Action>(k: int) -> spec_fn(A) -> bool {
    |a: A| a.spec_index() == k
}

/// The actions of `s` whose index is `k`, in their order.
pub open spec fn group<A: Action>(s: Seq<A>, k: int) -> Seq<A> {
    s.filter(index_is::<A>(k))
}

/// For each index below `n` in increasing order, the median member
/// (position `len / 2`) of its group, where the group is not empty.
pub open spec fn medians<A: Action>(s: Seq<A>, n: nat) -> Seq<A>
    decreases n,
{
    if n == 0 {
        seq![]
    } else {
        let g = group(s, n - 1);
        medians(s, (n - 1) as nat) + if g.len() > 0 {
            seq![g[(g.len() / 2) as int]]
        } else {
            seq![]
        }
    }
}

/// Maps actions to representatives, by the first filter that keeps them.
///
/// The filters are meant to span the whole action space. An action that no
/// filter keeps is an abstraction error: the lookups below report it as
/// `None`, the signal a caller must treat as fatal, never as "no mapping".
#[derive(Debug)]
pub struct ActionMapper<A: Action> {
    filters: Vec<ActionFilter<A>>,
}

impl<A: Action> ActionMapper<A> {
    pub closed spec fn filters(&self) -> Seq<ActionFilter<A>> {
        self.filters@
    }

    pub fn new() -> (r: Self)
        ensures
            r.filters() == Seq::<ActionFilter<A>>::empty(),
    {
        ActionMapper { filters: Vec::new() }
    }

    pub fn add_filter(&mut self, filter: Filter<A>, action: A)
        ensures
            final(self).filters() == old(self).filters().push((filter, action)),
    {
        self.filters.push((filter, action));
    }

    /// An equal copy of the mapper.
    pub fn duplicate(&self) -> (r: Self)
        ensures
            r.filters() == self.filters(),
    {
        let mut filters: Vec<ActionFilter<A>> = Vec::new();
        let mut i: usize = 0;
        while i < self.filters.len()
            invariant
                i <= self.filters.len(),
                filters@ == self.filters@.subrange(0, i as int),
            decreases self.filters.len() - i,
        {
            let f = self.filters[i].0.duplicate();
            filters.push((f, self.filters[i].1));
            proof {
                assert(filters@ =~= self.filters@.subrange(0, i as int + 1));
            }
            i = i + 1;
        }
        proof {
            assert(filters@ =~= self.filters@);
        }
        ActionMapper { filters }
    }

    /// Position of the first filter that keeps `action`.
    fn first_filter(&self, action: &A) -> (r: Option<usize>)
        ensures
            r matches Some(i) ==> i < self.filters@.len(),
            A::obeys_eq_spec() ==> match r {
                Some(i) => first_match(self.filters(), *action, i as int),
                None => unmatched(self.filters(), *action),
            },
    {
        let mut i: usize = 0;
        while i < self.filters.len()
            invariant
                i <= self.filters.len(),
                A::obeys_eq_spec() ==> forall|j: int|
                    0 <= j < i ==> !accepts_value(#[trigger] self.filters@[j].0, *action),
            decreases self.filters.len() - i,
        {
            if self.filters[i].0.accepts(action) {
                return Some(i);
            }
            i = i + 1;
        }
        None
    }

    /// The representative of `action` and the position of the filter that
    /// kept it; `None` (an abstraction error) where no filter keeps it.
    pub fn map_and_index(&self, action: A) -> (r: Option<(A, ActionIndex)>)
        ensures
            A::obeys_eq_spec() ==> match r {
                Some((m, k)) => exists|i: int|
                    first_match(self.filters(), action, i) && m == self.filters()[i].1 && k == i
                        as u8,
                None => unmatched(self.filters(), action),
            },
    {
        match self.first_filter(&action) {
            Some(i) => Some((self.filters[i].1, #[verifier::truncate] (i as u8))),
            None => None,
        }
    }

    /// The representative of `action`; `None` (an abstraction error) where
    /// no filter keeps it.
    pub fn map(&self, action: A) -> (r: Option<A>)
        ensures
            A::obeys_eq_spec() ==> match r {
                Some(m) => !unmatched(self.filters(), action) && m == mapped_to(
                    self.filters(),
                    action,
                ),
                None => unmatched(self.filters(), action),
            },
    {
        match self.first_filter(&action) {
            Some(i) => {
                proof {
                    if A::obeys_eq_spec() {
                        let c = choose|j: int| first_match(self.filters@, action, j);
                        assert(first_match(self.filters@, action, c));
                        if c < i {
                            assert(!accepts_value(self.filters@[c].0, action));
                        }
                        if i < c {
                            assert(!accepts_value(self.filters@[i as int].0, action));
                        }
                        assert(c == i);
                    }
                }
                Some(self.filters[i].1)
            },
            None => None,
        }
    }

    /// Position of the first filter that keeps `action`, as an index.
    pub fn to_index(&self, action: A) -> (r: Option<ActionIndex>)
        ensures
            A::obeys_eq_spec() ==> match r {
                Some(k) => exists|i: int| first_match(self.filters(), action, i) && k == i as u8,
                None => unmatched(self.filters(), action),
            },
    {
        match self.first_filter(&action) {
            Some(i) => Some(#[verifier::truncate] (i as u8)),
            None => None,
        }
    }

    pub fn num_groups(&self) -> (r: usize)
        ensures
            r == self.filters().len(),
    {
        self.filters.len()
    }
}

impl<A: Action> Clone for ActionMapper<A> {
    fn clone(&self) -> Self {
        self.duplicate()
    }
}

/// The encoding width after the depth maps `maps`, read in order: a depth
/// with a mapper raises the width to its group count, one without resets it
/// to the default width.
pub open spec fn encoding_after<A: Action>(maps: Seq<Option<ActionMapper<A>>>) -> nat
    decreases maps.len(),
{
    if maps.len() == 0 {
        0
    } else {
        let cur = encoding_after(maps.drop_last());
        match maps.last() {
            Some(m) => if m.filters().len() > cur {
                m.filters().len()
            } else {
                cur
            },
            None => HOT_ENCODING_SIZE as nat,
        }
    }
}

/// An optional mapper for each depth of the game; a depth without one
/// passes actions through unchanged.
#[derive(Debug)]
pub struct GameMapper<A: Action> {
    depth_specific_maps: Vec<Option<ActionMapper<A>>>,
    recall_depth: usize,
    max_encoding_size: usize,
}

impl<A: Action> GameMapper<A> {
    pub closed spec fn maps(&self) -> Seq<Option<ActionMapper<A>>> {
        self.depth_specific_maps@
    }

    pub closed spec fn recall(&self) -> usize {
        self.recall_depth
    }

    /// One slot per depth, and the width follows the slots.
    #[verifier::type_invariant]
    closed spec fn wf(&self) -> bool {
        &&& self.depth_specific_maps@.len() == MAX_GAME_DEPTH
        &&& self.max_encoding_size == encoding_after(self.depth_specific_maps@)
    }

    /// Maps that pass every action through.
    pub fn new(recall_depth: Option<usize>) -> (r: Self)
        ensures
            r.maps().len() == MAX_GAME_DEPTH,
            forall|d: int| 0 <= d < MAX_GAME_DEPTH ==> (#[trigger] r.maps()[d]) is None,
            r.recall() == match recall_depth {
                Some(n) => n,
                None => MAX_GAME_DEPTH,
            },
    {
        let recall_depth = match recall_depth {
            Some(n) => n,
            None => MAX_GAME_DEPTH,
        };
        let mut maps: Vec<Option<ActionMapper<A>>> = Vec::new();
        let mut i: usize = 0;
        while i < MAX_GAME_DEPTH
            invariant
                i <= MAX_GAME_DEPTH,
                maps@.len() == i,
                forall|d: int| 0 <= d < i ==> (#[trigger] maps@[d]) is None,
                i > 0 ==> encoding_after(maps@) == HOT_ENCODING_SIZE,
            decreases MAX_GAME_DEPTH - i,
        {
            let ghost prev = maps@;
            maps.push(None);
            proof {
                assert(maps@.drop_last() =~= prev);
            }
            i = i + 1;
        }
        GameMapper {
            depth_specific_maps: maps,
            recall_depth,
            max_encoding_size: HOT_ENCODING_SIZE,
        }
    }

    /// The same mapper at every depth.
    pub fn from_default(default_map: ActionMapper<A>, recall_depth: Option<usize>) -> (r: Self)
        ensures
            r.maps().len() == MAX_GAME_DEPTH,
            forall|d: int|
                0 <= d < MAX_GAME_DEPTH ==> ((#[trigger] r.maps()[d]) matches Some(m)
                    && m.filters() == default_map.filters()),
            r.recall() == match recall_depth {
                Some(n) => n,
                None => MAX_GAME_DEPTH,
            },
    {
        let recall_depth = match recall_depth {
            Some(n) => n,
            None => MAX_GAME_DEPTH,
        };
        let encoding_size = default_map.num_groups();
        let mut maps: Vec<Option<ActionMapper<A>>> = Vec::new();
        let mut i: usize = 0;
        while i < MAX_GAME_DEPTH
            invariant
                i <= MAX_GAME_DEPTH,
                maps@.len() == i,
                encoding_size == default_map.filters@.len(),
                forall|d: int|
                    0 <= d < i ==> ((#[trigger] maps@[d]) matches Some(m) && m.filters()
                        == default_map.filters()),
                encoding_after(maps@) == if i == 0 {
                    0
                } else {
                    encoding_size as nat
                },
            decreases MAX_GAME_DEPTH - i,
        {
            let ghost prev = maps@;
            maps.push(Some(default_map.duplicate()));
            proof {
                assert(maps@.drop_last() =~= prev);
            }
            i = i + 1;
        }
        GameMapper { depth_specific_maps: maps, recall_depth, max_encoding_size: encoding_size }
    }

    /// A copy with the same mapper filters at every depth.
    pub fn duplicate(&self) -> (r: Self)
        ensures
            r.maps().len() == MAX_GAME_DEPTH,
            r.recall() == self.recall(),
            forall|d: int|
                0 <= d < MAX_GAME_DEPTH ==> same_slot(#[trigger] r.maps()[d], self.maps()[d]),
    {
        proof {
            use_type_invariant(self);
        }
        let mut maps: Vec<Option<ActionMapper<A>>> = Vec::new();
        let mut i: usize = 0;
        while i < self.depth_specific_maps.len()
            invariant
                i <= self.depth_specific_maps@.len(),
                maps@.len() == i,
                forall|d: int| 0 <= d < i ==> same_slot(#[trigger] maps@[d], self.depth_specific_maps@[d]),
            decreases self.depth_specific_maps@.len() - i,
        {
            match &self.depth_specific_maps[i] {
                Some(m) => maps.push(Some(m.duplicate())),
                None => maps.push(None),
            }
            i = i + 1;
        }
        proof {
            lemma_same_shape_encoding(maps@, self.depth_specific_maps@);
        }
        GameMapper {
            depth_specific_maps: maps,
            recall_depth: self.recall_depth,
            max_encoding_size: self.max_encoding_size,
        }
    }

    /// Installs (or removes) the mapper of one depth and recomputes the width.
    pub fn update_depth(&mut self, mapper: Option<ActionMapper<A>>, depth: usize)
        requires
            depth < MAX_GAME_DEPTH,
        ensures
            final(self).maps() == old(self).maps().update(depth as int, mapper),
            final(self).recall() == old(self).recall(),
    {
        proof {
            use_type_invariant(&*self);
        }
        let mut current = GameMapper::new(None);
        std::mem::swap(&mut current, self);
        let GameMapper { depth_specific_maps: mut maps, recall_depth, max_encoding_size: _ } = current;
        maps.set(depth, mapper);
        let size = encoding_width(&maps);
        *self = GameMapper { depth_specific_maps: maps, recall_depth, max_encoding_size: size };
    }

    /// The representative of `action` at `depth` and its group position;
    /// without a mapper there, the action and `index` themselves.
    pub fn map_and_index(&self, action: A, depth: usize, index: ActionIndex) -> (r: Option<
        (A, ActionIndex),
    >)
        requires
            depth < MAX_GAME_DEPTH,
        ensures
            A::obeys_eq_spec() ==> match self.maps()[depth as int] {
                None => r == Some((action, index)),
                Some(m) => match r {
                    Some((a, k)) => exists|i: int|
                        first_match(m.filters(), action, i) && a == m.filters()[i].1 && k == i
                            as u8,
                    None => unmatched(m.filters(), action),
                },
            },
    {
        proof {
            use_type_invariant(self);
        }
        match &self.depth_specific_maps[depth] {
            Some(mapper) => mapper.map_and_index(action),
            None => Some((action, index)),
        }
    }

    /// The representative of `action` at `depth`.
    pub fn map_action(&self, action: A, depth: usize) -> (r: Option<A>)
        requires
            depth < MAX_GAME_DEPTH,
        ensures
            A::obeys_eq_spec() ==> match self.maps()[depth as int] {
                None => r == Some(action),
                Some(m) => match r {
                    Some(a) => !unmatched(m.filters(), action) && a == mapped_to(
                        m.filters(),
                        action,
                    ),
                    None => unmatched(m.filters(), action),
                },
            },
    {
        proof {
            use_type_invariant(self);
        }
        match &self.depth_specific_maps[depth] {
            Some(mapper) => mapper.map(action),
            None => Some(action),
        }
    }

    /// Maps each action at `depth`, groups the results by index and keeps
    /// the median of each group, in increasing index order; `None` where a
    /// mapper at `depth` keeps none of its filters for some action.
    pub fn map_actions(&self, actions: &Vec<A>, depth: usize) -> (r: Option<Vec<A>>)
        requires
            depth < MAX_GAME_DEPTH,
        ensures
            A::obeys_eq_spec() ==> match self.maps()[depth as int] {
                None => r matches Some(v) && v@ == medians(actions@, INDEX_SPACE as nat),
                Some(m) => match r {
                    Some(v) => (forall|i: int|
                        0 <= i < actions@.len() ==> !unmatched(m.filters(), #[trigger] actions@[i]))
                        && v@ == medians(
                        actions@.map_values(|a: A| mapped_to(m.filters(), a)),
                        INDEX_SPACE as nat,
                    ),
                    None => exists|i: int|
                        0 <= i < actions@.len() && unmatched(m.filters(), #[trigger] actions@[i]),
                },
            },
    {
        proof {
            use_type_invariant(self);
        }
        let mut mapped: Vec<A> = Vec::new();
        match &self.depth_specific_maps[depth] {
            Some(mapper) => {
                let mut i: usize = 0;
                while i < actions.len()
                    invariant
                        i <= actions.len(),
                        self.maps()[depth as int] == Some(*mapper),
                        A::obeys_eq_spec() ==> forall|j: int|
                            0 <= j < i ==> !unmatched(mapper.filters(), #[trigger] actions@[j]),
                        A::obeys_eq_spec() ==> mapped@ == actions@.subrange(0, i as int).map_values(
                            |a: A| mapped_to(mapper.filters(), a),
                        ),
                    decreases actions.len() - i,
                {
                    match mapper.map(actions[i]) {
                        Some(a) => {
                            mapped.push(a);
                        },
                        None => {
                            proof {
                                if A::obeys_eq_spec() {
                                    assert(unmatched(mapper.filters(), actions@[i as int]));
                                    assert(exists|j: int|
                                        0 <= j < actions@.len() && unmatched(
                                            mapper.filters(),
                                            #[trigger] actions@[j],
                                        ));
                                }
                            }
                            return None;
                        },
                    }
                    proof {
                        if A::obeys_eq_spec() {
                            assert(mapped@ =~= actions@.subrange(0, i as int + 1).map_values(
                                |a: A| mapped_to(mapper.filters(), a),
                            ));
                        }
                    }
                    i = i + 1;
                }
                proof {
                    assert(actions@.subrange(0, actions.len() as int) =~= actions@);
                }
            },
            None => {
                let mut i: usize = 0;
                while i < actions.len()
                    invariant
                        i <= actions.len(),
                        mapped@ == actions@.subrange(0, i as int),
                    decreases actions.len() - i,
                {
                    mapped.push(actions[i]);
                    proof {
                        assert(mapped@ =~= actions@.subrange(0, i as int + 1));
                    }
                    i = i + 1;
                }
                proof {
                    assert(actions@.subrange(0, actions.len() as int) =~= actions@);
                }
            },
        }
        Some(median_of_groups(&mapped))
    }

    pub fn encoding_size(&self) -> (r: usize)
        ensures
            r == encoding_after(self.maps()),
    {
        proof {
            use_type_invariant(self);
        }
        self.max_encoding_size
    }
}

impl<A: Action> Clone for GameMapper<A> {
    fn clone(&self) -> Self {
        self.duplicate()
    }
}

/// Two depth slots hold mappers with equal filters, or are both empty.
pub open spec fn same_slot<A: Action>(a: Option<ActionMapper<A>>, b: Option<ActionMapper<A>>) -> bool {
    match (a, b) {
        (Some(x), Some(y)) => x.filters() == y.filters(),
        (None, None) => true,
        _ => false,
    }
}

proof fn lemma_same_shape_encoding<A: Action>(a: Seq<Option<ActionMapper<A>>>, b: Seq<Option<ActionMapper<A>>>)
    requires
        a.len() == b.len(),
        forall|d: int| 0 <= d < a.len() ==> same_slot(#[trigger] a[d], b[d]),
    ensures
        encoding_after(a) == encoding_after(b),
    decreases a.len(),
{
    if a.len() > 0 {
        lemma_same_shape_encoding(a.drop_last(), b.drop_last());
        assert(same_slot(a[a.len() - 1], b[b.len() - 1]));
    }
}

/// The width `encoding_after` gives, computed.
fn encoding_width<A: Action>(maps: &Vec<Option<ActionMapper<A>>>) -> (r: usize)
    ensures
        r == encoding_after(maps@),
{
    let mut size: usize = 0;
    let mut i: usize = 0;
    while i < maps.len()
        invariant
            i <= maps@.len(),
            size == encoding_after(maps@.subrange(0, i as int)),
        decreases maps@.len() - i,
    {
        proof {
            assert(maps@.subrange(0, i as int + 1).drop_last() =~= maps@.subrange(0, i as int));
        }
        match &maps[i] {
            Some(m) => {
                if m.num_groups() > size {
                    size = m.num_groups();
                }
            },
            None => {
                size = HOT_ENCODING_SIZE;
            },
        }
        i = i + 1;
    }
    proof {
        assert(maps@.subrange(0, i as int) =~= maps@);
    }
    size
}

proof fn lemma_single_filter<A>(e: A, p: spec_fn(A) -> bool)
    ensures
        seq![e].filter(p).len() == if p(e) {
            1int
        } else {
            0int
        },
{
    reveal(Seq::filter);
    assert(seq![e].drop_last() =~= Seq::<A>::empty());
    assert(Seq::<A>::empty().filter(p) =~= Seq::<A>::empty());
}

proof fn lemma_medians_count<A: Action>(s: Seq<A>, n: nat, k: int)
    requires
        0 <= k,
    ensures
        medians(s, n).filter(index_is::<A>(k)).len() == if k < n && group(s, k).len() > 0 {
            1int
        } else {
            0int
        },
    decreases n,
{
    reveal(Seq::filter);
    if n == 0 {
        assert(medians(s, 0) =~= Seq::<A>::empty());
    } else {
        let prev = medians(s, (n - 1) as nat);
        let g = group(s, n - 1);
        lemma_medians_count(s, (n - 1) as nat, k);
        if g.len() > 0 {
            let e = g[(g.len() / 2) as int];
            let tail = seq![e];
            assert(medians(s, n) == prev + tail);
            Seq::filter_distributes_over_add(prev, tail, index_is::<A>(k));
            s.lemma_filter_pred(index_is::<A>(n - 1), (g.len() / 2) as int);
            assert(e.spec_index() == n - 1);
            lemma_single_filter(e, index_is::<A>(k));
            assert((prev + tail).filter(index_is::<A>(k)).len() == prev.filter(index_is::<A>(k)).len()
                + tail.filter(index_is::<A>(k)).len());
        } else {
            let tail = Seq::<A>::empty();
            assert(medians(s, n) == prev + tail);
            assert(prev + tail =~= prev);
        }
    }
}

/// After grouping, every index that some action has is kept by exactly one
/// action, and no other index is kept.
pub proof fn lemma_one_per_group<A: Action>(actions: Seq<A>, k: int)
    requires
        0 <= k < INDEX_SPACE,
    ensures
        medians(actions, INDEX_SPACE as nat).filter(index_is::<A>(k)).len() == if (exists|i: int|
            0 <= i < actions.len() && (#[trigger] actions[i]).spec_index() == k) {
            1int
        } else {
            0int
        },
{
    lemma_medians_count(actions, INDEX_SPACE as nat, k);
    if exists|i: int| 0 <= i < actions.len() && (#[trigger] actions[i]).spec_index() == k {
        let i = choose|i: int| 0 <= i < actions.len() && (#[trigger] actions[i]).spec_index() == k;
        actions.lemma_filter_contains(index_is::<A>(k), i);
        assert(group(actions, k).len() > 0);
    } else {
        if group(actions, k).len() > 0 {
            actions.lemma_filter_pred(index_is::<A>(k), 0);
            let e = group(actions, k)[0];
            assert(group(actions, k).contains(e));
            actions.lemma_filter_contains_rev(index_is::<A>(k), e);
            let i = choose|i: int| 0 <= i < actions.len() && actions[i] == e;
            assert(actions[i].spec_index() == k);
            assert(false);
        }
    }
}

/// The actions of `s` with index `k`, in order.
fn collect_group<A: Action>(s: &Vec<A>, k: usize) -> (r: Vec<A>)
    ensures
        r@ == group(s@, k as int),
{
    let mut out: Vec<A> = Vec::new();
    let mut i: usize = 0;
    while i < s.len()
        invariant
            i <= s.len(),
            out@ == s@.subrange(0, i as int).filter(index_is::<A>(k as int)),
        decreases s.len() - i,
    {
        proof {
            lemma_filter_step(s@, i as int, index_is::<A>(k as int));
        }
        if s[i].index() as usize == k {
            out.push(s[i]);
        }
        i = i + 1;
    }
    proof {
        assert(s@.subrange(0, s.len() as int) =~= s@);
    }
    out
}

/// For each index in increasing order, the median action of its group.
pub fn median_of_groups<A: Action>(actions: &Vec<A>) -> (r: Vec<A>)
    ensures
        r@ == medians(actions@, INDEX_SPACE as nat),
{
    let mut out: Vec<A> = Vec::new();
    let mut k: usize = 0;
    while k < INDEX_SPACE
        invariant
            k <= INDEX_SPACE,
            out@ == medians(actions@, k as nat),
        decreases INDEX_SPACE - k,
    {
        let g = collect_group(actions, k);
        if g.len() > 0 {
            out.push(g[g.len() / 2]);
        }
        proof {
            assert(((k + 1) as nat - 1) as nat == k as nat);
            if g.len() > 0 {
                assert(out@ =~= medians(actions@, k as nat) + seq![g@[(g.len() / 2) as int]]);
            } else {
                assert(out@ =~= medians(actions@, k as nat) + Seq::<A>::empty());
            }
        }
        k = k + 1;
    }
    out
}

} // verus!
