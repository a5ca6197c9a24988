use vstd::prelude::*;
use std::collections::BTreeMap;
use crate::codec::{
    compress_policy, decompress_policy, packed_word, quantized, unpacked_entry,
    CondensedPolicyDistribution, ARRAY_SIZE, PACKED_ENTRIES,
};
use crate::history::{condensed, decondensed, fits_key, lemma_key_history_short, CondensedInfoSet, History};
use crate::tracker::{Round, NUM_REGULAR_PLAYERS};

verus! {

broadcast use vstd::laws_cmp::group_laws_cmp;

/// Loss of a slot that must match exactly and does not.
pub const FAIL_CUTOFF: i32 = 1000;

/// Largest symbol a feature slot takes.
pub const MAX_FEATURE_INDEX: i64 = 200;

/// How one slot of a history is compared with the query.
#[derive(Clone, Debug, Copy)]
pub enum FitFunction {
    /// Window from `value + .1` to `value + .0`; loss is the distance.
    Range(i32, i32),
    /// Any value; loss is the distance.
    Difference,
    /// The value itself; loss is zero or `FAIL_CUTOFF`.
    Exact,
}

/// The fit functions of each slot, for each stage of the game.
#[derive(Clone, Debug)]
pub struct Evaluator {
    pub preflop: Vec<FitFunction>,
    pub auction: Vec<FitFunction>,
    pub flop_onwards: Vec<FitFunction>,
}

impl Default for Evaluator {
    fn default() -> (r: Self)
        ensures
            r.preflop@.len() == 0 && r.auction@.len() == 0 && r.flop_onwards@.len() == 0,
    {
        Evaluator { preflop: Vec::new(), auction: Vec::new(), flop_onwards: Vec::new() }
    }
}

/// Distance between two symbols.
pub open spec fn abs_diff(a: u8, b: u8) -> int {
    if a >= b {
        a - b
    } else {
        b - a
    }
}

/// Loss of one slot.
pub open spec fn slot_loss(f: FitFunction, target: u8, test: u8) -> int {
    match f {
        FitFunction::Exact => if test == target {
            0
        } else {
            FAIL_CUTOFF as int
        },
        _ => abs_diff(test, target),
    }
}

/// Smallest of three lengths.
pub open spec fn min3(a: nat, b: nat, c: nat) -> nat {
    if a <= b && a <= c {
        a
    } else if b <= c {
        b
    } else {
        c
    }
}

/// Loss summed over the first `n` slots.
pub open spec fn loss_upto(target: Seq<u8>, test: Seq<u8>, fs: Seq<FitFunction>, n: nat) -> int
    decreases n,
{
    if n == 0 {
        0
    } else {
        loss_upto(target, test, fs, (n - 1) as nat) + slot_loss(
            fs[n - 1],
            target[n - 1],
            test[n - 1],
        )
    }
}

/// Loss over the slots the three sequences share.
pub open spec fn loss_spec(target: Seq<u8>, test: Seq<u8>, fs: Seq<FitFunction>) -> int {
    loss_upto(target, test, fs, min3(target.len(), test.len(), fs.len()))
}

/// `x` held to the range of a `u8`.
pub open spec fn clamp_u8(x: int) -> u8 {
    if x < 0 {
        0
    } else if x > 255 {
        255
    } else {
        x as u8
    }
}

/// Lowest and highest value a slot may take around `v`.
pub open spec fn slot_bounds(v: u8, f: FitFunction) -> (u8, u8) {
    match f {
        FitFunction::Range(pos, neg) => {
            let hi = if v + pos > MAX_FEATURE_INDEX {
                MAX_FEATURE_INDEX as int
            } else {
                v + pos
            };
            let lo = if v + neg < 0 {
                0
            } else {
                v + neg
            };
            (clamp_u8(lo), clamp_u8(hi))
        },
        FitFunction::Exact => (v, v),
        FitFunction::Difference => (0, MAX_FEATURE_INDEX as u8),
    }
}

/// The fit functions for the stage named by the history's first symbol.
pub open spec fn stage_fits(e: Evaluator, h: Seq<u8>) -> Seq<FitFunction> {
    if h[0] == 0 {
        e.preflop@
    } else if h[0] == 1 {
        e.auction@
    } else {
        e.flop_onwards@
    }
}

/// The query's history names a stage: it is not empty and starts with a round.
pub open spec fn has_stage(h: Seq<u8>) -> bool {
    h.len() > 0 && h[0] < 5
}

/// Number of slots the query and its fit functions share.
pub open spec fn window_len(h: Seq<u8>, fs: Seq<FitFunction>) -> nat {
    if h.len() <= fs.len() {
        h.len()
    } else {
        fs.len()
    }
}

/// Lower bound of each shared slot.
pub open spec fn low_symbols(h: Seq<u8>, fs: Seq<FitFunction>) -> Seq<u8> {
    Seq::new(window_len(h, fs), |i: int| slot_bounds(h[i], fs[i]).0)
}

/// Upper bound of each shared slot.
pub open spec fn high_symbols(h: Seq<u8>, fs: Seq<FitFunction>) -> Seq<u8> {
    Seq::new(window_len(h, fs), |i: int| slot_bounds(h[i], fs[i]).1)
}

/// Upper end of the key window: the packed high bounds, or the largest
/// key where they do not fit.
pub open spec fn high_key(h: Seq<u8>, fs: Seq<FitFunction>) -> nat {
    if fits_key(high_symbols(h, fs)) {
        condensed(high_symbols(h, fs))
    } else {
        u64::MAX as nat
    }
}

/// `k` is a stored key inside the query's window.
pub open spec fn candidate<V>(m: Map<u64, V>, h: Seq<u8>, fs: Seq<FitFunction>, k: u64) -> bool {
    &&& m.contains_key(k)
    &&& condensed(low_symbols(h, fs)) <= k as nat
    &&& k as nat <= high_key(h, fs)
}

/// Loss of the stored key `k` against the query history.
pub open spec fn key_loss(h: Seq<u8>, fs: Seq<FitFunction>, k: u64) -> int {
    loss_spec(h, decondensed(k as nat), fs)
}

/// `r` is the answer to the nearest-fit query of history `h` with fit
/// functions `fs` over the keys of `m`: the first (lowest) candidate of
/// least loss, with that loss, where the query names a stage and some
/// candidate's loss is below `FAIL_CUTOFF`; `None` otherwise.
pub open spec fn best_fit<V>(m: Map<u64, V>, h: Seq<u8>, fs: Seq<FitFunction>, r: Option<(u64, i32)>) -> bool {
    &&& r is None <==> (!has_stage(h) || forall|k: u64|
        candidate(m, h, fs, k) ==> key_loss(h, fs, k) >= FAIL_CUTOFF)
    &&& r matches Some((k, l)) ==> {
        &&& has_stage(h)
        &&& candidate(m, h, fs, k)
        &&& l == key_loss(h, fs, k)
        &&& l < FAIL_CUTOFF
        &&& forall|k2: u64|
            #![trigger candidate(m, h, fs, k2)]
            candidate(m, h, fs, k2) ==> key_loss(h, fs, k2) >= l && (k2 < k ==> key_loss(h, fs, k2) > l)
    }
}

/// The stored keys between `lo` and `hi`, in increasing order.
/// Relies on `BTreeMap::range`, which walks the keys of the range in order.
#[verifier::external_body]
fn keys_in_range<V>(m: &BTreeMap<u64, V>, lo: u64, hi: u64) -> (r: Vec<u64>)
    requires
        lo <= hi,
    ensures
        forall|i: int, j: int| 0 <= i < j < r@.len() ==> r@[i] < r@[j],
        forall|k: u64| r@.contains(k) <==> (m@.contains_key(k) && lo <= k <= hi),
{
    m.range(lo..=hi).map(|(k, _)| *k).collect()
}

impl Evaluator {
    /// Summed loss of `test` against `target` over the slots both have.
    pub fn loss(target: &History, test: &History, functions: &Vec<FitFunction>) -> (r: i32)
        requires
            target@.len() <= 1_000_000,
        ensures
            r == loss_spec(target@, test@, functions@),
    {
        let n = if target.0.len() <= test.0.len() && target.0.len() <= functions.len() {
            target.0.len()
        } else if test.0.len() <= functions.len() {
            test.0.len()
        } else {
            functions.len()
        };
        let mut loss: i32 = 0;
        let mut i: usize = 0;
        while i < n
            invariant
                i <= n,
                n == min3(target@.len(), test@.len(), functions@.len()),
                n <= 1_000_000,
                loss == loss_upto(target@, test@, functions@, i as nat),
                0 <= loss <= 1000 * i,
            decreases n - i,
        {
            let a = target.0[i];
            let b = test.0[i];
            let dl: i32 = match functions[i] {
                FitFunction::Exact => if b == a {
                    0
                } else {
                    FAIL_CUTOFF
                },
                _ => if b >= a {
                    (b - a) as i32
                } else {
                    (a - b) as i32
                },
            };
            loss = loss + dl;
            i = i + 1;
        }
        loss
    }

    /// The window a slot may range over around `target_value`.
    pub fn get_min_max(target_value: u8, function: FitFunction) -> (r: (u8, u8))
        ensures
            r == slot_bounds(target_value, function),
    {
        match function {
            FitFunction::Range(pos_delta, neg_delta) => {
                let value = target_value as i64;
                let up = value + pos_delta as i64;
                let max = if up > MAX_FEATURE_INDEX {
                    MAX_FEATURE_INDEX
                } else {
                    up
                };
                let down = value + neg_delta as i64;
                let min = if down < 0 {
                    0
                } else {
                    down
                };
                (clamp(min), clamp(max))
            },
            FitFunction::Exact => (target_value, target_value),
            FitFunction::Difference => (0, MAX_FEATURE_INDEX as u8),
        }
    }

    /// Among the stored keys inside the query's window, the first (lowest)
    /// one of least loss, with that loss; `None` where the query names no
    /// stage or every candidate's loss reaches `FAIL_CUTOFF`.
    pub fn get_best<V>(&self, map: &BTreeMap<CondensedInfoSet, V>, target: CondensedInfoSet) -> (r:
        Option<(CondensedInfoSet, i32)>)
        ensures
            best_fit(map@, decondensed(target as nat), stage_fits(*self, decondensed(target as nat)), r),
    {
        let history = History::from_condensed(target);
        proof {
            lemma_key_history_short(target);
        }
        let ghost h = history@;
        if history.0.len() == 0 {
            return None;
        }
        let round = match Round::from_index(history.0[0] as usize) {
            Some(round) => round,
            None => {
                return None;
            },
        };
        let functions = match round {
            Round::PreFlop => &self.preflop,
            Round::Auction => &self.auction,
            Round::Flop | Round::Turn | Round::River => &self.flop_onwards,
        };
        proof {
            assert(functions@ == stage_fits(*self, h));
        }
        let ghost fs = functions@;
        let n = if history.0.len() <= functions.len() {
            history.0.len()
        } else {
            functions.len()
        };
        let mut mins: Vec<u8> = Vec::new();
        let mut maxs: Vec<u8> = Vec::new();
        let mut i: usize = 0;
        while i < n
            invariant
                i <= n,
                n == window_len(h, fs),
                h == history@,
                fs == functions@,
                mins@ == low_symbols(h, fs).subrange(0, i as int),
                maxs@ == high_symbols(h, fs).subrange(0, i as int),
            decreases n - i,
        {
            let (lo, hi) = Evaluator::get_min_max(history.0[i], functions[i]);
            mins.push(lo);
            maxs.push(hi);
            proof {
                assert(mins@ =~= low_symbols(h, fs).subrange(0, i as int + 1));
                assert(maxs@ =~= high_symbols(h, fs).subrange(0, i as int + 1));
            }
            i = i + 1;
        }
        proof {
            assert(mins@ =~= low_symbols(h, fs));
            assert(maxs@ =~= high_symbols(h, fs));
        }
        let low = History(mins);
        let high = History(maxs);
        let min_info_set = match low.checked_condensed() {
            Some(k) => k,
            None => {
                return None;
            },
        };
        let max_info_set = match high.checked_condensed() {
            Some(k) => k,
            None => u64::MAX,
        };
        if min_info_set > max_info_set {
            return None;
        }
        let keys = keys_in_range(map, min_info_set, max_info_set);
        let mut min_loss: i32 = FAIL_CUTOFF;
        let mut min_key: Option<CondensedInfoSet> = None;
        let mut t: usize = 0;
        while t < keys.len()
            invariant
                t <= keys@.len(),
                h == history@,
                fs == functions@,
                h.len() <= 9,
                forall|i: int, j: int| 0 <= i < j < keys@.len() ==> keys@[i] < keys@[j],
                min_key is None ==> min_loss == FAIL_CUTOFF,
                forall|s: int| 0 <= s < t ==> key_loss(h, fs, #[trigger] keys@[s]) >= min_loss,
                min_key matches Some(k) ==> {
                    &&& min_loss < FAIL_CUTOFF
                    &&& min_loss == key_loss(h, fs, k)
                    &&& keys@.subrange(0, t as int).contains(k)
                    &&& forall|s: int|
                        0 <= s < t && #[trigger] keys@[s] < k ==> key_loss(h, fs, keys@[s])
                            > min_loss
                },
            decreases keys@.len() - t,
        {
            let key = keys[t];
            let test = History::from_condensed(key);
            let l = Evaluator::loss(&history, &test, functions);
            if l < min_loss {
                min_loss = l;
                min_key = Some(key);
                proof {
                    assert(keys@.subrange(0, t as int + 1)[t as int] == key);
                }
            } else {
                proof {
                    if let Some(k) = min_key {
                        let s0 = choose|s: int| 0 <= s < t && keys@.subrange(0, t as int)[s] == k;
                        assert(keys@[s0] == k);
                        assert(keys@.subrange(0, t as int + 1)[s0] == k);
                    }
                }
            }
            proof {
                assert forall|s: int| 0 <= s < t + 1 && #[trigger] keys@[s] < key implies s < t by {
                    if s == t {
                        assert(false);
                    }
                }
            }
            t = t + 1;
        }
        proof {
            assert(keys@.subrange(0, keys@.len() as int) =~= keys@);
            assert forall|k2: u64| candidate(map@, h, fs, k2) implies key_loss(h, fs, k2) >= min_loss by {
                assert(keys@.contains(k2));
                let s = choose|s: int| 0 <= s < keys@.len() && keys@[s] == k2;
                assert(key_loss(h, fs, keys@[s]) >= min_loss);
            }
            if let Some(k) = min_key {
                assert forall|k2: u64| candidate(map@, h, fs, k2) && k2 < k implies key_loss(h, fs, k2) > min_loss by {
                    assert(keys@.contains(k2));
                    let s = choose|s: int| 0 <= s < keys@.len() && keys@[s] == k2;
                    assert(key_loss(h, fs, keys@[s]) > min_loss);
                }
                assert(keys@.subrange(0, t as int).contains(k));
                assert(keys@.contains(k));
                assert(map@.contains_key(k) && min_info_set <= k <= max_info_set);
                assert(min_info_set as nat == condensed(low_symbols(h, fs)));
                assert(max_info_set as nat == high_key(h, fs));
                assert(candidate(map@, h, fs, k));
            }
        }
        match min_key {
            Some(k) => Some((k, min_loss)),
            None => None,
        }
    }
}

/// The trained policies of both players, packed, keyed by information set,
/// with the evaluator used for nearest-fit queries.
#[derive(Clone, Debug)]
pub struct BlueprintStrategy {
    policies: Vec<BTreeMap<CondensedInfoSet, CondensedPolicyDistribution>>,
    evaluator: Evaluator,
}

impl BlueprintStrategy {
    /// The packed policies of `player`.
    pub closed spec fn table(&self, player: int) -> Map<CondensedInfoSet, CondensedPolicyDistribution> {
        self.policies@[player]@
    }

    pub closed spec fn fit(&self) -> Evaluator {
        self.evaluator
    }

    /// One table per regular player.
    pub closed spec fn wf(&self) -> bool {
        self.policies@.len() == NUM_REGULAR_PLAYERS
    }

    /// No policies, and an evaluator with no slots.
    pub fn new() -> (r: Self)
        ensures
            r.wf(),
            r.table(0).is_empty() && r.table(1).is_empty(),
            r.fit().preflop@.len() == 0 && r.fit().auction@.len() == 0
                && r.fit().flop_onwards@.len() == 0,
    {
        let mut policies: Vec<BTreeMap<CondensedInfoSet, CondensedPolicyDistribution>> = Vec::new();
        policies.push(BTreeMap::new());
        policies.push(BTreeMap::new());
        BlueprintStrategy { policies, evaluator: Evaluator::default() }
    }

    /// The same policies, queried with `evaluator`.
    pub fn with_evaluator(self, evaluator: Evaluator) -> (r: BlueprintStrategy)
        ensures
            r.wf() == self.wf(),
            forall|p: int| #[trigger] r.table(p) == self.table(p),
            r.fit() == evaluator,
    {
        BlueprintStrategy { policies: self.policies, evaluator }
    }

    /// Stores an already packed policy.
    pub fn insert_packed(
        &mut self,
        player: usize,
        info_set: CondensedInfoSet,
        packed: CondensedPolicyDistribution,
    )
        requires
            old(self).wf(),
            player < NUM_REGULAR_PLAYERS,
        ensures
            final(self).wf(),
            final(self).fit() == old(self).fit(),
            final(self).table(player as int) == old(self).table(player as int).insert(info_set, packed),
            forall|p: int|
                0 <= p < NUM_REGULAR_PLAYERS && p != player ==> #[trigger] final(self).table(p)
                    == old(self).table(p),
    {
        self.policies[player].insert(info_set, packed);
    }

    /// Packs a quantized policy and stores it.
    pub fn insert_policy(&mut self, player: usize, info_set: CondensedInfoSet, policy: &Vec<u16>)
        requires
            old(self).wf(),
            player < NUM_REGULAR_PLAYERS,
            policy@.len() <= PACKED_ENTRIES,
            quantized(policy@),
        ensures
            final(self).wf(),
            final(self).fit() == old(self).fit(),
            final(self).table(player as int).contains_key(info_set),
            final(self).table(player as int).remove(info_set) == old(self).table(player as int).remove(info_set),
            forall|i: int|
                0 <= i < ARRAY_SIZE ==> #[trigger] final(self).table(player as int)[info_set][i] as nat
                    == packed_word(policy@, i),
            forall|p: int|
                0 <= p < NUM_REGULAR_PLAYERS && p != player ==> #[trigger] final(self).table(p)
                    == old(self).table(p),
    {
        let packed = compress_policy(policy);
        self.insert_packed(player, info_set, packed);
        proof {
            assert(self.table(player as int).remove(info_set) =~= old(self).table(player as int).remove(info_set));
        }
    }

    /// The packed policy of `player` at `info_set`.
    fn packed(&self, player: usize, info_set: CondensedInfoSet) -> (r: Option<CondensedPolicyDistribution>)
        requires
            self.wf(),
            player < NUM_REGULAR_PLAYERS,
        ensures
            r is Some <==> self.table(player as int).contains_key(info_set),
            r matches Some(w) ==> w == self.table(player as int)[info_set],
    {
        match self.policies[player].get(&info_set) {
            Some(w) => Some(*w),
            None => None,
        }
    }

    /// The stored entries of `player`, in increasing key order.
    pub fn entries(&self, player: usize) -> (r: Vec<(CondensedInfoSet, CondensedPolicyDistribution)>)
        requires
            self.wf(),
            player < NUM_REGULAR_PLAYERS,
        ensures
            forall|i: int, j: int| 0 <= i < j < r@.len() ==> r@[i].0 < r@[j].0,
            forall|i: int|
                0 <= i < r@.len() ==> self.table(player as int).contains_key(#[trigger] r@[i].0)
                    && r@[i].1 == self.table(player as int)[r@[i].0],
            forall|k: CondensedInfoSet|
                self.table(player as int).contains_key(k) ==> exists|i: int|
                    0 <= i < r@.len() && #[trigger] r@[i].0 == k,
    {
        let keys = keys_in_range(&self.policies[player], 0, u64::MAX);
        let mut out: Vec<(CondensedInfoSet, CondensedPolicyDistribution)> = Vec::new();
        let mut i: usize = 0;
        while i < keys.len()
            invariant
                i <= keys@.len(),
                self.wf(),
                player < NUM_REGULAR_PLAYERS,
                out@.len() == i,
                forall|k: u64| keys@.contains(k) <==> self.table(player as int).contains_key(k),
                forall|a: int| 0 <= a < i ==> #[trigger] out@[a].0 == keys@[a],
                forall|a: int|
                    0 <= a < i ==> #[trigger] out@[a].1 == self.table(player as int)[out@[a].0],
            decreases keys@.len() - i,
        {
            let k = keys[i];
            proof {
                assert(keys@.contains(k));
            }
            match self.packed(player, k) {
                Some(w) => {
                    out.push((k, w));
                },
                None => {
                    proof {
                        assert(false);
                    }
                },
            }
            i = i + 1;
        }
        proof {
            assert forall|k: CondensedInfoSet| self.table(player as int).contains_key(k) implies exists|a: int|
                0 <= a < out@.len() && #[trigger] out@[a].0 == k by {
                assert(keys@.contains(k));
                let a = choose|a: int| 0 <= a < keys@.len() && keys@[a] == k;
                assert(out@[a].0 == k);
            }
            assert forall|a: int| 0 <= a < out@.len() implies self.table(player as int).contains_key(
                #[trigger] out@[a].0,
            ) by {
                assert(keys@.contains(keys@[a]));
            }
        }
        out
    }

    /// The quantized policy stored for exactly `info_set`.
    pub fn get_exact_policy(&self, player: usize, info_set: CondensedInfoSet) -> (r: Option<Vec<u16>>)
        requires
            self.wf(),
            player < NUM_REGULAR_PLAYERS,
        ensures
            r is Some <==> self.table(player as int).contains_key(info_set),
            r matches Some(v) ==> v@.len() == PACKED_ENTRIES && forall|k: int|
                0 <= k < PACKED_ENTRIES ==> #[trigger] v@[k] as nat == unpacked_entry(
                    self.table(player as int)[info_set]@,
                    k,
                ),
    {
        match self.packed(player, info_set) {
            Some(w) => Some(decompress_policy(&w)),
            None => None,
        }
    }

    /// The nearest stored key to `info_set` under the evaluator, its loss,
    /// and its quantized policy; `None` as for `Evaluator::get_best`.
    pub fn get_best_policy(&self, player: usize, info_set: CondensedInfoSet) -> (r: Option<
        (CondensedInfoSet, i32, Vec<u16>),
    >)
        requires
            self.wf(),
            player < NUM_REGULAR_PLAYERS,
        ensures
            ({
                let h = decondensed(info_set as nat);
                let fs = stage_fits(self.fit(), h);
                let m = self.table(player as int);
                &&& best_fit(
                    m,
                    h,
                    fs,
                    match r {
                        Some((k, l, _)) => Some((k, l)),
                        None => None,
                    },
                )
                &&& r matches Some((k, l, v)) ==> {
                    &&& v@.len() == PACKED_ENTRIES
                    &&& forall|e: int|
                        0 <= e < PACKED_ENTRIES ==> #[trigger] v@[e] as nat == unpacked_entry(m[k]@, e)
                }
            }),
    {
        let table = &self.policies[player];
        proof {
            assert(table@ == self.table(player as int));
        }
        match self.evaluator.get_best(table, info_set) {
            Some((k, l)) => match self.get_exact_policy(player, k) {
                Some(v) => {
                    proof {
                        let h = decondensed(info_set as nat);
                        let fs = stage_fits(self.fit(), h);
                        let m = self.table(player as int);
                        assert(fs == stage_fits(self.evaluator, h));
                        assert(has_stage(h));
                        assert(candidate(m, h, fs, k));
                        assert(l == key_loss(h, fs, k));
                        assert(forall|k2: u64|
                            #![trigger candidate(m, h, fs, k2)]
                            candidate(m, h, fs, k2) ==> key_loss(h, fs, k2) >= l && (k2 < k
                                ==> key_loss(h, fs, k2) > l));
                    }
                    Some((k, l, v))
                },
                None => {
                    proof {
                        assert(self.table(player as int).contains_key(k));
                    }
                    None
                },
            },
            None => None,
        }
    }
}

/// The fit functions widen each slot around the query rather than shift it.
pub open spec fn centered(fs: Seq<FitFunction>) -> bool {
    forall|i: int|
        0 <= i < fs.len() ==> match #[trigger] fs[i] {
            FitFunction::Range(pos, neg) => pos >= 0 && neg <= 0,
            _ => true,
        }
}

proof fn lemma_condensed_monotone(a: Seq<u8>, b: Seq<u8>)
    requires
        a.len() == b.len(),
        forall|i: int| 0 <= i < a.len() ==> a[i] <= b[i],
    ensures
        condensed(a) <= condensed(b),
    decreases a.len(),
{
    if a.len() > 0 {
        lemma_condensed_monotone(a.drop_first(), b.drop_first());
        let x = condensed(a.drop_first());
        let y = condensed(b.drop_first());
        assert(a[0] as nat + 200 * x <= b[0] as nat + 200 * y) by (nonlinear_arith)
            requires
                x <= y,
                a[0] <= b[0],
        ;
    }
}

proof fn lemma_loss_self(h: Seq<u8>, fs: Seq<FitFunction>, n: nat)
    requires
        n <= h.len(),
        n <= fs.len(),
    ensures
        loss_upto(h, h, fs, n) == 0,
    decreases n,
{
    if n > 0 {
        lemma_loss_self(h, fs, (n - 1) as nat);
    }
}

proof fn lemma_loss_nonnegative(h: Seq<u8>, t: Seq<u8>, fs: Seq<FitFunction>, n: nat)
    ensures
        loss_upto(h, t, fs, n) >= 0,
    decreases n,
{
    if n > 0 {
        lemma_loss_nonnegative(h, t, fs, (n - 1) as nat);
    }
}

/// A stored key that packs a history lies in the window of that history's
/// query with zero loss, the least any candidate has, so the nearest-fit
/// lookup of the history returns a key of loss zero; this holds when the fit
/// functions cover every slot, widen each slot around the query, and the
/// symbols are feature indices.
pub proof fn lemma_stored_key_fits<V>(e: Evaluator, m: Map<u64, V>, target: u64, r: Option<(u64, i32)>)
    requires
        m.contains_key(target),
        condensed(decondensed(target as nat)) == target,
        has_stage(decondensed(target as nat)),
        stage_fits(e, decondensed(target as nat)).len() >= decondensed(target as nat).len(),
        centered(stage_fits(e, decondensed(target as nat))),
        forall|i: int|
            0 <= i < decondensed(target as nat).len() ==> #[trigger] decondensed(target as nat)[i]
                <= MAX_FEATURE_INDEX,
    ensures
        ({
            let h = decondensed(target as nat);
            let fs = stage_fits(e, h);
            &&& candidate(m, h, fs, target)
            &&& key_loss(h, fs, target) == 0
            &&& forall|k: u64| #[trigger] candidate(m, h, fs, k) ==> key_loss(h, fs, k) >= 0
            &&& best_fit(m, h, fs, r) ==> (r matches Some((_, l)) && l == 0)
        }),
{
    let h = decondensed(target as nat);
    let fs = stage_fits(e, h);
    let lo = low_symbols(h, fs);
    let hi = high_symbols(h, fs);
    assert(window_len(h, fs) == h.len());
    assert forall|i: int| 0 <= i < h.len() implies lo[i] <= h[i] && h[i] <= hi[i] by {
        assert(lo[i] == slot_bounds(h[i], fs[i]).0);
        assert(hi[i] == slot_bounds(h[i], fs[i]).1);
    }
    lemma_condensed_monotone(lo, h);
    lemma_condensed_monotone(h, hi);
    lemma_loss_self(h, fs, h.len());
    assert forall|k: u64| #[trigger] candidate(m, h, fs, k) implies key_loss(h, fs, k) >= 0 by {
        let t = decondensed(k as nat);
        lemma_loss_nonnegative(h, t, fs, min3(h.len(), t.len(), fs.len()));
    }
    if best_fit(m, h, fs, r) {
        assert(candidate(m, h, fs, target));
        if let Some((k, l)) = r {
            assert(key_loss(h, fs, target) >= l);
            assert(candidate(m, h, fs, k));
        }
    }
}

proof fn lemma_loss_one_slot(h: Seq<u8>, t: Seq<u8>, fs: Seq<FitFunction>, j: int, n: nat)
    requires
        t.len() == h.len(),
        n <= h.len(),
        n <= fs.len(),
        0 <= j < h.len(),
        fs[j] matches FitFunction::Difference,
        abs_diff(t[j], h[j]) == 1,
        forall|i: int| 0 <= i < h.len() && i != j ==> #[trigger] t[i] == h[i],
    ensures
        loss_upto(h, t, fs, n) == if j < n {
            1int
        } else {
            0int
        },
    decreases n,
{
    if n > 0 {
        lemma_loss_one_slot(h, t, fs, j, (n - 1) as nat);
        if n - 1 != j {
            assert(t[n - 1] == h[n - 1]);
        }
    }
}

/// A stored key whose history differs from the query's in one `Difference`
/// slot, by one, is the answer to the nearest-fit query with loss 1, when
/// every other candidate's loss exceeds 1, the fit functions cover every
/// slot and widen each slot around the query, and the symbols are feature
/// indices.
pub proof fn lemma_neighbour_found<V>(
    m: Map<u64, V>,
    h: Seq<u8>,
    fs: Seq<FitFunction>,
    neighbour: u64,
    j: int,
    r: Option<(u64, i32)>,
)
    requires
        has_stage(h),
        fs.len() >= h.len(),
        centered(fs),
        forall|i: int| 0 <= i < h.len() ==> #[trigger] h[i] <= MAX_FEATURE_INDEX,
        0 <= j < h.len(),
        fs[j] matches FitFunction::Difference,
        m.contains_key(neighbour),
        condensed(decondensed(neighbour as nat)) == neighbour,
        decondensed(neighbour as nat).len() == h.len(),
        forall|i: int|
            0 <= i < h.len() && i != j ==> #[trigger] decondensed(neighbour as nat)[i] == h[i],
        abs_diff(decondensed(neighbour as nat)[j], h[j]) == 1,
        decondensed(neighbour as nat)[j] <= MAX_FEATURE_INDEX,
        forall|k: u64|
            #[trigger] candidate(m, h, fs, k) && k != neighbour ==> key_loss(h, fs, k) > 1,
        best_fit(m, h, fs, r),
    ensures
        candidate(m, h, fs, neighbour),
        key_loss(h, fs, neighbour) == 1,
        r == Some((neighbour, 1i32)),
{
    let t = decondensed(neighbour as nat);
    let lo = low_symbols(h, fs);
    let hi = high_symbols(h, fs);
    assert(window_len(h, fs) == h.len());
    assert forall|i: int| 0 <= i < h.len() implies lo[i] <= t[i] && t[i] <= hi[i] by {
        assert(lo[i] == slot_bounds(h[i], fs[i]).0);
        assert(hi[i] == slot_bounds(h[i], fs[i]).1);
        if i != j {
            assert(t[i] == h[i]);
        }
    }
    lemma_condensed_monotone(lo, t);
    lemma_condensed_monotone(t, hi);
    assert(candidate(m, h, fs, neighbour));
    lemma_loss_one_slot(h, t, fs, j, h.len());
    assert(min3(h.len(), t.len(), fs.len()) == h.len());
    assert(key_loss(h, fs, neighbour) == 1);
    match r {
        Some((k, l)) => {
            assert(key_loss(h, fs, neighbour) >= l);
            if k != neighbour {
                assert(key_loss(h, fs, k) > 1);
            }
        },
        None => {
            assert(key_loss(h, fs, neighbour) >= FAIL_CUTOFF);
        },
    }
}

fn clamp(x: i64) -> (r: u8)
    ensures
        r == clamp_u8(x as int),
{
    if x < 0 {
        0
    } else if x > 255 {
        255
    } else {
        x as u8
    }
}

} // verus!
