use vstd::prelude::*;
use crate::history::ActionIndex;
use crate::mapper::HOT_ENCODING_SIZE;

verus! {

/// One flag per action slot, set at the encoded action.
pub type HotEncoding = Vec<bool>;

/// A value that can be written as a one-hot vector.
pub trait IntoHotEncoding: Sized {
    /// The slot this value sets.
    spec fn hot_index(&self) -> int;

    fn encoding(self) -> (r: HotEncoding)
        requires
            0 <= self.hot_index() < HOT_ENCODING_SIZE,
        ensures
            r@.len() == HOT_ENCODING_SIZE,
            forall|i: int| 0 <= i < HOT_ENCODING_SIZE ==> (#[trigger] r@[i] <==> i == self.hot_index()),
    ;
}

impl IntoHotEncoding for ActionIndex {
    open spec fn hot_index(&self) -> int {
        *self as int
    }

    fn encoding(self) -> (r: HotEncoding) {
        let mut v: Vec<bool> = Vec::new();
        let mut i: usize = 0;
        while i < HOT_ENCODING_SIZE
            invariant
                i <= HOT_ENCODING_SIZE,
                v@.len() == i,
                forall|j: int| 0 <= j < i ==> (#[trigger] v@[j] <==> j == self as int),
            decreases HOT_ENCODING_SIZE - i,
        {
            v.push(i == self as usize);
            i = i + 1;
        }
        v
    }
}

/// Each flag as 1 or 0.
pub fn to_int(v: Vec<HotEncoding>) -> (r: Vec<Vec<i32>>)
    ensures
        r@.len() == v@.len(),
        forall|i: int|
            0 <= i < v@.len() ==> (#[trigger] r@[i])@.len() == v@[i]@.len() && forall|j: int|
                0 <= j < v@[i]@.len() ==> r@[i]@[j] == if v@[i]@[j] {
                    1i32
                } else {
                    0i32
                },
{
    let mut all: Vec<Vec<i32>> = Vec::new();
    let mut i: usize = 0;
    while i < v.len()
        invariant
            i <= v@.len(),
            all@.len() == i,
            forall|a: int|
                0 <= a < i ==> (#[trigger] all@[a])@.len() == v@[a]@.len() && forall|j: int|
                    0 <= j < v@[a]@.len() ==> all@[a]@[j] == if v@[a]@[j] {
                        1i32
                    } else {
                        0i32
                    },
        decreases v@.len() - i,
    {
        let e = &v[i];
        let mut ints: Vec<i32> = Vec::new();
        let mut j: usize = 0;
        while j < e.len()
            invariant
                j <= e@.len(),
                ints@.len() == j,
                forall|b: int| 0 <= b < j ==> ints@[b] == if e@[b] {
                    1i32
                } else {
                    0i32
                },
            decreases e@.len() - j,
        {
            ints.push(if e[j] {
                1
            } else {
                0
            });
            j = j + 1;
        }
        all.push(ints);
        i = i + 1;
    }
    all
}

/// `2^n`.
pub open spec fn pow2(n: nat) -> nat
    decreases n,
{
    if n == 0 {
        1
    } else {
        2 * pow2((n - 1) as nat)
    }
}

/// The number whose bit `j` is set where entry `j` is 1.
pub open spec fn binary_value(e: Seq<i32>) -> nat
    decreases e.len(),
{
    if e.len() == 0 {
        0
    } else {
        binary_value(e.drop_last()) + if e.last() == 1 {
            pow2((e.len() - 1) as nat)
        } else {
            0
        }
    }
}

proof fn lemma_binary_bound(e: Seq<i32>)
    ensures
        binary_value(e) < pow2(e.len()),
    decreases e.len(),
{
    if e.len() > 0 {
        lemma_binary_bound(e.drop_last());
    }
}

/// Reads each row of flags as a binary number, entry `j` worth `2^j`.
pub fn to_binary(v: Vec<Vec<i32>>) -> (r: Vec<i32>)
    requires
        forall|i: int| 0 <= i < v@.len() ==> (#[trigger] v@[i])@.len() <= 31,
    ensures
        r@.len() == v@.len(),
        forall|i: int| 0 <= i < v@.len() ==> #[trigger] r@[i] as int == binary_value(v@[i]@),
{
    let mut all: Vec<i32> = Vec::new();
    let mut i: usize = 0;
    while i < v.len()
        invariant
            i <= v@.len(),
            all@.len() == i,
            forall|a: int| 0 <= a < v@.len() ==> (#[trigger] v@[a])@.len() <= 31,
            forall|a: int| 0 <= a < i ==> #[trigger] all@[a] as int == binary_value(v@[a]@),
        decreases v@.len() - i,
    {
        let e = &v[i];
        let mut binary: i32 = 0;
        let mut power: i64 = 1;
        let mut j: usize = 0;
        proof {
            reveal_with_fuel(pow2, 32);
        }
        while j < e.len()
            invariant
                j <= e@.len(),
                e@.len() <= 31,
                power as int == pow2(j as nat),
                binary as int == binary_value(e@.subrange(0, j as int)),
            decreases e@.len() - j,
        {
            proof {
                reveal_with_fuel(pow2, 32);
                assert(pow2(31) == 2147483648nat);
                lemma_pow2_monotone(j as nat, 30);
                lemma_pow2_monotone(j as nat + 1, 31);
                lemma_binary_bound(e@.subrange(0, j as int));
                assert(e@.subrange(0, j as int + 1).drop_last() =~= e@.subrange(0, j as int));
            }
            if e[j] == 1 {
                binary = binary + power as i32;
            }
            power = power * 2;
            j = j + 1;
        }
        proof {
            assert(e@.subrange(0, e@.len() as int) =~= e@);
        }
        all.push(binary);
        i = i + 1;
    }
    all
}

proof fn lemma_pow2_monotone(a: nat, b: nat)
    requires
        a <= b,
    ensures
        pow2(a) <= pow2(b),
    decreases b,
{
    if a < b {
        lemma_pow2_monotone(a, (b - 1) as nat);
    }
}

} // verus!
