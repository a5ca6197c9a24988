use vstd::prelude::*;

verus! {

/// Radix of the mixed-radix packing of a history into an information-set key.
pub const MAX_ACTIONS: u64 = 200;

/// Index of an action (or of a feature) inside a player's history.
pub type ActionIndex = u8;

/// A player's history packed into one 64-bit key.
pub type CondensedInfoSet = u64;

/// The packed key of a symbol sequence: `s[0] + R * key(s[1..])`, the
/// empty sequence packing to the leading `1`.
pub open spec fn condensed(s: Seq<u8>) -> nat
    decreases s.len(),
{
    if s.len() == 0 {
        1
    } else {
        s[0] as nat + MAX_ACTIONS as nat * condensed(s.drop_first())
    }
}

/// The symbols read back from a key: its base-R digits below the leading one.
pub open spec fn decondensed(k: nat) -> Seq<u8>
    decreases k,
{
    if k <= 1 {
        seq![]
    } else {
        seq![(k % MAX_ACTIONS as nat) as u8] + decondensed(k / MAX_ACTIONS as nat)
    }
}

/// Every symbol is a digit of the radix.
pub open spec fn valid_symbols(s: Seq<u8>) -> bool {
    forall|i: int| 0 <= i < s.len() ==> s[i] < MAX_ACTIONS
}

/// A history fits a 64-bit key when its packed value does.
pub open spec fn fits_key(s: Seq<u8>) -> bool {
    condensed(s) <= u64::MAX
}

/// An ordered sequence of symbols observed by one player.
#[derive(Clone, Debug)]
pub struct History(pub Vec<ActionIndex>);

impl View for History {
    type V = Seq<u8>;

    open spec fn view(&self) -> Seq<u8> {
        self.0@
    }
}

proof fn lemma_condensed_positive(s: Seq<u8>)
    ensures
        condensed(s) >= 1,
    decreases s.len(),
{
    if s.len() > 0 {
        lemma_condensed_positive(s.drop_first());
    }
}

/// Packing the suffix that starts at `i - 1` adds one digit to the suffix at `i`.
proof fn lemma_condensed_step(s: Seq<u8>, i: int)
    requires
        0 < i <= s.len(),
    ensures
        condensed(s.subrange(i - 1, s.len() as int)) == s[i - 1] as nat + MAX_ACTIONS as nat
            * condensed(s.subrange(i, s.len() as int)),
        condensed(s.subrange(i, s.len() as int)) <= condensed(s.subrange(i - 1, s.len() as int)),
{
    let t = s.subrange(i - 1, s.len() as int);
    assert(t.drop_first() =~= s.subrange(i, s.len() as int));
    lemma_condensed_positive(s.subrange(i, s.len() as int));
}

proof fn lemma_suffix_bounded(s: Seq<u8>, i: int)
    requires
        0 <= i <= s.len(),
    ensures
        condensed(s.subrange(i, s.len() as int)) <= condensed(s),
    decreases i,
{
    if i == 0 {
        assert(s.subrange(0, s.len() as int) =~= s);
    } else {
        lemma_condensed_step(s, i);
        lemma_suffix_bounded(s, i - 1);
    }
}

impl History {
    /// Packs the history into one key: `key = 1`, then for each symbol from
    /// last to first `key = key * R + s`.
    pub fn into_condensed(self) -> (r: CondensedInfoSet)
        requires
            fits_key(self@),
        ensures
            r == condensed(self@),
    {
        let n = self.0.len();
        let mut key: u64 = 1;
        let mut i: usize = n;
        proof {
            assert(self.0@.subrange(n as int, n as int) =~= Seq::<u8>::empty());
        }
        while i > 0
            invariant
                n == self.0.len(),
                i <= n,
                key == condensed(self.0@.subrange(i as int, n as int)),
                fits_key(self@),
            decreases i,
        {
            proof {
                lemma_condensed_step(self.0@, i as int);
                lemma_suffix_bounded(self.0@, i as int - 1);
            }
            i = i - 1;
            key = key * 200 + self.0[i] as u64;
        }
        proof {
            assert(self.0@.subrange(0, n as int) =~= self.0@);
        }
        key
    }

    /// Packs the history into one key; `None` where the packed value does
    /// not fit in 64 bits.
    pub fn checked_condensed(&self) -> (r: Option<CondensedInfoSet>)
        ensures
            r is None <==> !fits_key(self@),
            r matches Some(k) ==> k == condensed(self@),
    {
        let n = self.0.len();
        let mut key: u64 = 1;
        let mut i: usize = n;
        proof {
            assert(self.0@.subrange(n as int, n as int) =~= Seq::<u8>::empty());
        }
        while i > 0
            invariant
                n == self.0.len(),
                i <= n,
                key == condensed(self.0@.subrange(i as int, n as int)),
            decreases i,
        {
            proof {
                lemma_condensed_step(self.0@, i as int);
                lemma_suffix_bounded(self.0@, i as int - 1);
            }
            i = i - 1;
            let scaled = key.checked_mul(200);
            match scaled {
                Some(m) => match m.checked_add(self.0[i] as u64) {
                    Some(k) => {
                        key = k;
                    },
                    None => {
                        return None;
                    },
                },
                None => {
                    return None;
                },
            }
        }
        proof {
            assert(self.0@.subrange(0, n as int) =~= self.0@);
        }
        Some(key)
    }

    /// Reads a key back into the history it packs.
    pub fn from_condensed(condensed_key: CondensedInfoSet) -> (r: History)
        ensures
            r@ == decondensed(condensed_key as nat),
    {
        let mut history: Vec<ActionIndex> = Vec::new();
        let mut k: u64 = condensed_key;
        while k > 1
            invariant
                history@ + decondensed(k as nat) == decondensed(condensed_key as nat),
            decreases k,
        {
            let digit = (k % 200) as u8;
            proof {
                assert(decondensed(k as nat) == seq![digit] + decondensed((k / 200) as nat));
                assert(history@.push(digit) + decondensed((k / 200) as nat) =~= history@
                    + decondensed(k as nat));
            }
            history.push(digit);
            k = k / 200;
        }
        proof {
            assert(history@ + decondensed(k as nat) =~= history@);
        }
        History(history)
    }
}

/// `200^n`.
pub open spec fn pow200(n: nat) -> nat
    decreases n,
{
    if n == 0 {
        1
    } else {
        200 * pow200((n - 1) as nat)
    }
}

proof fn lemma_decondensed_len(k: nat, n: nat)
    requires
        k < pow200(n),
    ensures
        decondensed(k).len() <= n,
    decreases n,
{
    if k > 1 {
        if n == 0 {
            assert(false);
        } else {
            let p = pow200((n - 1) as nat);
            assert(k / 200 < p) by (nonlinear_arith)
                requires
                    k < 200 * p,
            ;
            lemma_decondensed_len(k / 200, (n - 1) as nat);
        }
    }
}

/// A 64-bit key reads back into at most nine symbols.
pub proof fn lemma_key_history_short(k: u64)
    ensures
        decondensed(k as nat).len() <= 9,
{
    reveal_with_fuel(pow200, 10);
    assert(pow200(9) == 512000000000000000000nat);
    lemma_decondensed_len(k as nat, 9);
}

/// Reading back a packed history gives that history, for digits of the radix.
pub proof fn lemma_decondense_condense(s: Seq<u8>)
    requires
        valid_symbols(s),
    ensures
        decondensed(condensed(s)) == s,
    decreases s.len(),
{
    if s.len() > 0 {
        let rest = s.drop_first();
        assert(valid_symbols(rest));
        lemma_decondense_condense(rest);
        lemma_condensed_positive(rest);
        let c = condensed(rest);
        let k = condensed(s);
        assert(k == s[0] as nat + 200 * c);
        assert(k % 200 == s[0] as nat && k / 200 == c) by (nonlinear_arith)
            requires
                k == s[0] as nat + 200 * c,
                s[0] < 200,
        ;
        assert(k > 1);
        assert(decondensed(k) =~= seq![s[0]] + rest);
        assert(seq![s[0]] + rest =~= s);
    }
}

/// Distinct histories of radix digits pack to distinct keys.
pub proof fn lemma_condense_injective(a: Seq<u8>, b: Seq<u8>)
    requires
        valid_symbols(a),
        valid_symbols(b),
        condensed(a) == condensed(b),
    ensures
        a == b,
{
    lemma_decondense_condense(a);
    lemma_decondense_condense(b);
}

/// Packing a history and reading the key back returns the same history.
pub proof fn lemma_round_trip(h: History)
    requires
        valid_symbols(h@),
        fits_key(h@),
    ensures
        decondensed(condensed(h@)) == h@,
{
    lemma_decondense_condense(h@);
}

} // verus!
