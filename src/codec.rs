use vstd::prelude::*;

verus! {

/// Most entries a policy can have.
pub const MAX_POLICY_LENGTH: usize = 90;

/// Bits one quantized entry takes.
pub const MAX_VALUE_SIZE_BITS: usize = 10;

/// Bits of one packed word.
pub const CHOSEN_COMPRESSION_BITS: usize = 128;

/// Entries packed into one word: `CHOSEN_COMPRESSION_BITS / MAX_VALUE_SIZE_BITS`.
pub const MAX_FIT: usize = 12;

/// Words of a packed policy: `MAX_POLICY_LENGTH / MAX_FIT`.
pub const ARRAY_SIZE: usize = 7;

/// Entries a packed policy holds: `ARRAY_SIZE * MAX_FIT`.
pub const PACKED_ENTRIES: usize = 84;

/// Largest quantized entry: a probability times 999.
pub const MAX_QUANTUM: u16 = 999;

/// Base in which entries are packed into a word.
pub const PACK_BASE: u128 = 1000;

/// A policy packed into fixed-size words, twelve entries per word.
pub type CondensedPolicyDistribution = [u128; ARRAY_SIZE];

/// `1000^n`.
pub open spec fn pow1000(n: nat) -> nat
    decreases n,
{
    if n == 0 {
        1
    } else {
        1000 * pow1000((n - 1) as nat)
    }
}

/// Entry `k` of a policy, reading zero past its end.
pub open spec fn entry(q: Seq<u16>, k: int) -> nat {
    if 0 <= k < q.len() {
        q[k] as nat
    } else {
        0
    }
}

/// The value of entries `12 i + j .. 12 i + 11` of `q`, the first one lowest.
pub open spec fn packed_tail(q: Seq<u16>, i: int, j: int) -> nat
    decreases 12 - j,
{
    if j >= 12 {
        0
    } else {
        entry(q, 12 * i + j) + 1000 * packed_tail(q, i, j + 1)
    }
}

/// Word `i` of the packed policy.
pub open spec fn packed_word(q: Seq<u16>, i: int) -> nat {
    packed_tail(q, i, 0)
}

/// Digit `j` of a word in base 1000.
pub open spec fn digit(w: nat, j: nat) -> nat {
    (w / pow1000(j)) % 1000
}

/// Every entry is a quantized probability.
pub open spec fn quantized(q: Seq<u16>) -> bool {
    forall|k: int| 0 <= k < q.len() ==> q[k] <= MAX_QUANTUM
}

/// Entry `k` read out of the packed words.
pub open spec fn unpacked_entry(words: Seq<u128>, k: int) -> nat {
    digit(words[k / 12] as nat, (k % 12) as nat)
}

proof fn lemma_tail_bound(q: Seq<u16>, i: int, j: int)
    requires
        quantized(q),
        0 <= j <= 12,
    ensures
        packed_tail(q, i, j) < pow1000((12 - j) as nat),
    decreases 12 - j,
{
    if j < 12 {
        lemma_tail_bound(q, i, j + 1);
        let t = packed_tail(q, i, j + 1);
        let p = pow1000((12 - j - 1) as nat);
        let e = entry(q, 12 * i + j);
        assert(e <= 999);
        assert(e + 1000 * t < 1000 * p) by (nonlinear_arith)
            requires
                e <= 999,
                t < p,
                t + 1 <= p,
        ;
    }
}

proof fn lemma_digits_of_tail(q: Seq<u16>, i: int, j: int, t: nat)
    requires
        quantized(q),
        0 <= j,
        j + t < 12,
    ensures
        digit(packed_tail(q, i, j), t) == entry(q, 12 * i + j + t),
    decreases t,
{
    let w = packed_tail(q, i, j);
    let rest = packed_tail(q, i, j + 1);
    let e = entry(q, 12 * i + j);
    assert(e < 1000);
    assert(w == e + 1000 * rest);
    assert(w % 1000 == e && w / 1000 == rest) by (nonlinear_arith)
        requires
            w == e + 1000 * rest,
            e < 1000,
    ;
    if t == 0 {
        assert(w / 1 == w);
    } else {
        lemma_digits_of_tail(q, i, j + 1, (t - 1) as nat);
        let p = pow1000((t - 1) as nat);
        assert(p > 0) by {
            lemma_pow1000_positive((t - 1) as nat);
        }
        vstd::arithmetic::div_mod::lemma_div_denominator(w as int, 1000, p as int);
        assert(pow1000(t) == 1000 * p);
    }
}

proof fn lemma_pow1000_positive(n: nat)
    ensures
        pow1000(n) > 0,
    decreases n,
{
    if n > 0 {
        lemma_pow1000_positive((n - 1) as nat);
    }
}

/// Some entry of the quantized policy is above zero; a policy without one
/// carries no strategy and is left out of a blueprint.
pub fn has_mass(policy: &Vec<u16>) -> (r: bool)
    ensures
        r == exists|k: int| 0 <= k < policy@.len() && #[trigger] policy@[k] > 0,
{
    let mut i: usize = 0;
    while i < policy.len()
        invariant
            i <= policy@.len(),
            forall|k: int| 0 <= k < i ==> #[trigger] policy@[k] == 0,
        decreases policy@.len() - i,
    {
        if policy[i] > 0 {
            return true;
        }
        i = i + 1;
    }
    false
}

/// Packs a quantized policy: entry `12 i + j` becomes digit `j` (base
/// 1000) of word `i`; missing entries are zero.
pub fn compress_policy(policy: &Vec<u16>) -> (r: CondensedPolicyDistribution)
    requires
        policy@.len() <= PACKED_ENTRIES,
        quantized(policy@),
    ensures
        forall|i: int| 0 <= i < ARRAY_SIZE ==> r[i] as nat == packed_word(policy@, i),
{
    let mut result: CondensedPolicyDistribution = [0; ARRAY_SIZE];
    let mut i: usize = 0;
    while i < ARRAY_SIZE
        invariant
            i <= ARRAY_SIZE,
            quantized(policy@),
            policy@.len() <= PACKED_ENTRIES,
            forall|w: int| 0 <= w < i ==> result[w] as nat == packed_word(policy@, w),
        decreases ARRAY_SIZE - i,
    {
        let mut total: u128 = 0;
        let mut j: usize = MAX_FIT;
        proof {
            reveal_with_fuel(pow1000, 13);
        }
        while j > 0
            invariant
                j <= MAX_FIT,
                i < ARRAY_SIZE,
                quantized(policy@),
                policy@.len() <= PACKED_ENTRIES,
                total as nat == packed_tail(policy@, i as int, j as int),
            decreases j,
        {
            j = j - 1;
            let k = MAX_FIT * i + j;
            let value: u128 = if k < policy.len() {
                policy[k] as u128
            } else {
                0
            };
            proof {
                lemma_tail_bound(policy@, i as int, j as int);
                reveal_with_fuel(pow1000, 13);
                assert(pow1000(12) == 1000000000000000000000000000000000000nat);
                lemma_pow1000_monotone((12 - j) as nat, 12);
                assert(value as nat == entry(policy@, 12 * i + j));
                assert(value <= 999);
            }
            total = total * PACK_BASE + value;
        }
        result[i] = total;
        i = i + 1;
    }
    result
}

proof fn lemma_pow1000_monotone(a: nat, b: nat)
    requires
        a <= b,
    ensures
        pow1000(a) <= pow1000(b),
    decreases b,
{
    if a < b {
        lemma_pow1000_monotone(a, (b - 1) as nat);
        lemma_pow1000_positive((b - 1) as nat);
    }
}

/// Reads every digit of every word back, twelve per word.
pub fn decompress_policy(policy: &CondensedPolicyDistribution) -> (r: Vec<u16>)
    ensures
        r@.len() == PACKED_ENTRIES,
        forall|k: int| 0 <= k < PACKED_ENTRIES ==> r@[k] as nat == unpacked_entry(policy@, k),
{
    let mut result: Vec<u16> = Vec::new();
    let mut i: usize = 0;
    while i < ARRAY_SIZE
        invariant
            i <= ARRAY_SIZE,
            result@.len() == MAX_FIT * i,
            forall|k: int| 0 <= k < MAX_FIT * i ==> result@[k] as nat == unpacked_entry(policy@, k),
        decreases ARRAY_SIZE - i,
    {
        let word = policy[i];
        let mut chunk: u128 = word;
        let mut j: usize = 0;
        proof {
            assert(pow1000(0) == 1);
            assert(word as nat / 1 == word as nat);
        }
        while j < MAX_FIT
            invariant
                i < ARRAY_SIZE,
                j <= MAX_FIT,
                word == policy@[i as int],
                result@.len() == MAX_FIT * i + j,
                chunk as nat == word as nat / pow1000(j as nat),
                forall|k: int| 0 <= k < MAX_FIT * i + j ==> result@[k] as nat == unpacked_entry(policy@, k),
            decreases MAX_FIT - j,
        {
            let value = (chunk % PACK_BASE) as u16;
            proof {
                let k = MAX_FIT * i + j;
                assert(k / 12 == i && k % 12 == j) by (nonlinear_arith)
                    requires
                        k == 12 * i + j,
                        j < 12,
                ;
                lemma_pow1000_positive(j as nat);
                vstd::arithmetic::div_mod::lemma_div_denominator(
                    word as int,
                    pow1000(j as nat) as int,
                    1000,
                );
                assert(pow1000(j as nat + 1) == 1000 * pow1000(j as nat));
                vstd::arithmetic::mul::lemma_mul_is_commutative(pow1000(j as nat) as int, 1000);
            }
            result.push(value);
            chunk = chunk / PACK_BASE;
            j = j + 1;
        }
        i = i + 1;
    }
    result
}

/// Reading a packed policy back gives each quantized entry, and zero for
/// the slots past its end.
pub proof fn lemma_compress_round_trip(policy: Seq<u16>, words: Seq<u128>)
    requires
        policy.len() <= PACKED_ENTRIES,
        quantized(policy),
        words.len() == ARRAY_SIZE,
        forall|i: int| 0 <= i < ARRAY_SIZE ==> words[i] as nat == packed_word(policy, i),
    ensures
        forall|k: int| 0 <= k < PACKED_ENTRIES ==> #[trigger] unpacked_entry(words, k) == entry(policy, k),
{
    assert forall|k: int| 0 <= k < PACKED_ENTRIES implies #[trigger] unpacked_entry(words, k) == entry(policy, k) by {
        let i = k / 12;
        let j = k % 12;
        assert(0 <= i < 7 && 0 <= j < 12 && k == 12 * i + j) by (nonlinear_arith)
            requires
                0 <= k < 84,
                i == k / 12,
                j == k % 12,
        ;
        lemma_digits_of_tail(policy, i, 0, j as nat);
    }
}

} // verus!
