//! A small deterministic pseudo-random number generator (an xorshift
//! variant). Every draw is pinned as a pure function of the generator
//! state, so a fixed seed reproduces the full simulation trace: map
//! layout, spawns and rolls.

use vstd::prelude::*;
use vstd::arithmetic::div_mod::lemma_mod_division_less_than_divisor;
use vstd::arithmetic::mul::lemma_mul_inequality;
use vstd::arithmetic::mul::lemma_mul_is_distributive_add_other_way;

verus! {

/// One xorshift step of the generator state.
pub open spec fn spec_step(s: u64) -> u64 {
    let a = s ^ (s << 13);
    let b = a ^ (a >> 7);
    b ^ (b << 17)
}

/// The value drawn from `[lo, hi)` by one step from state `s`.
pub open spec fn spec_range(s: u64, lo: int, hi: int) -> int {
    lo + spec_step(s) % ((hi - lo) as u64)
}

/// The state and summed value of `k` dice with `die` faces, rolled in
/// order from state `s`.
pub open spec fn spec_rolls(s: u64, k: int, die: int) -> (u64, int)
    decreases k,
{
    if k <= 0 {
        (s, 0)
    } else {
        let s1 = spec_step(s);
        let v = 1 + spec_step(s) % (die as u64);
        let rest = spec_rolls(s1, k - 1, die);
        (rest.0, v + rest.1)
    }
}

/// Deterministic generator state. Never zero, so the xorshift step never
/// degenerates to a fixed point.
pub struct Rng {
    state: u64,
}

impl Rng {
    /// The current generator state.
    pub closed spec fn spec_state(self) -> u64 {
        self.state
    }

    pub open spec fn wf(self) -> bool {
        self.spec_state() != 0
    }

    /// Builds a generator from a seed; a zero seed is replaced by a fixed
    /// non-zero constant. The whole future stream is a function of this
    /// state alone.
    pub fn seeded(seed: u64) -> (r: Rng)
        ensures
            r.wf(),
            r.spec_state() == (if seed == 0 {
                0x9E3779B97F4A7C15u64
            } else {
                seed
            }),
    {
        let s: u64 = if seed == 0 {
            0x9E3779B97F4A7C15
        } else {
            seed
        };
        Rng { state: s }
    }

    /// One xorshift step: the drawn word and the new state are exactly
    /// [`spec_step`] of the old state, which stays non-zero.
    fn next(&mut self) -> (r: u64)
        requires
            old(self).wf(),
        ensures
            final(self).wf(),
            r == spec_step(old(self).spec_state()),
            final(self).spec_state() == r,
    {
        let x0 = self.state;
        let x1 = x0 ^ (x0 << 13u64);
        assert(x1 != 0) by (bit_vector)
            requires
                x0 != 0,
                x1 == x0 ^ (x0 << 13u64),
        ;
        let x2 = x1 ^ (x1 >> 7u64);
        assert(x2 != 0) by (bit_vector)
            requires
                x1 != 0,
                x2 == x1 ^ (x1 >> 7u64),
        ;
        let x3 = x2 ^ (x2 << 17u64);
        assert(x3 != 0) by (bit_vector)
            requires
                x2 != 0,
                x3 == x2 ^ (x2 << 17u64),
        ;
        self.state = x3;
        x3
    }

    /// A pseudo-random value in the half-open interval `[lo, hi)`:
    /// exactly [`spec_range`] of the old state.
    pub fn range(&mut self, lo: i32, hi: i32) -> (r: i32)
        requires
            old(self).wf(),
            lo < hi,
        ensures
            final(self).wf(),
            lo <= r < hi,
            r == spec_range(old(self).spec_state(), lo as int, hi as int),
            final(self).spec_state() == spec_step(old(self).spec_state()),
    {
        let x = self.next();
        let span: u64 = ((hi as i64) - (lo as i64)) as u64;
        let off: u64 = x % span;
        proof {
            lemma_mod_division_less_than_divisor(x as int, span as int);
        }
        ((lo as i64) + (off as i64)) as i32
    }

    /// The sum of `n` dice with `die` faces each: a value in
    /// `[n, n * die]`, exactly the rolls of [`spec_rolls`].
    pub fn roll_dice(&mut self, n: i32, die: i32) -> (r: i32)
        requires
            old(self).wf(),
            1 <= n,
            1 <= die,
            die < i32::MAX,
            n * die <= i32::MAX,
        ensures
            final(self).wf(),
            n <= r <= n * die,
            r == spec_rolls(old(self).spec_state(), n as int, die as int).1,
            final(self).spec_state() == spec_rolls(old(self).spec_state(), n as int, die as int).0,
    {
        let mut total: i32 = 0;
        let mut i: i32 = 0;
        while i < n
            invariant
                self.wf(),
                0 <= i <= n,
                1 <= die < i32::MAX,
                n * die <= i32::MAX,
                i <= total,
                total <= i * die,
                spec_rolls(self.spec_state(), (n - i) as int, die as int).0 == spec_rolls(
                    old(self).spec_state(),
                    n as int,
                    die as int,
                ).0,
                total + spec_rolls(self.spec_state(), (n - i) as int, die as int).1 == spec_rolls(
                    old(self).spec_state(),
                    n as int,
                    die as int,
                ).1,
            decreases n - i,
        {
            proof {
                lemma_mul_is_distributive_add_other_way(die as int, i as int, 1);
                lemma_mul_inequality((i + 1) as int, n as int, die as int);
            }
            let ghost pre = self.spec_state();
            let v = self.range(1, die + 1);
            proof {
                assert(spec_rolls(pre, (n - i) as int, die as int).0 == spec_rolls(
                    spec_step(pre),
                    (n - i - 1) as int,
                    die as int,
                ).0);
                assert(spec_rolls(pre, (n - i) as int, die as int).1 == 1 + spec_step(pre) % (
                die as u64) + spec_rolls(spec_step(pre), (n - i - 1) as int, die as int).1);
                assert(v as int == 1 + spec_step(pre) % (die as u64));
            }
            total = total + v;
            i = i + 1;
        }
        total
    }
}

} // verus!
