//! The accumulating score state threaded through the pipeline.
//!
//! Chips are a non-negative integer.  The multiplier is an exact dyadic
//! rational `mult_num / 2^mult_shift`: every effect in the rule set is an
//! integer addition or a factor of 2, 3 or 3/2, so this representation is
//! exact.  The representation is not normalised: a factor of 3/2 multiplies
//! the numerator by 3 and raises the shift by 1, and an addition of `k`
//! adds `k * 2^mult_shift` to the numerator.
//!
//! Every operation is checked: it returns `None` when a field would leave
//! `u64`, and each executable operation returns exactly what its
//! specification-level counterpart says.

use vstd::arithmetic::mul::{lemma_mul_inequality, lemma_mul_nonnegative};
use vstd::arithmetic::power2::{
    lemma2_to64, lemma_pow2_pos, lemma_pow2_strictly_increases, lemma_pow2_unfold, pow2,
};
use vstd::bits::{lemma_u64_pow2_no_overflow, lemma_u64_shl_is_mul};
use vstd::prelude::*;

verus! {

/// The running (chips, mult) pair: chips an integer, mult the dyadic
/// rational `mult_num / 2^mult_shift`.
#[derive(Clone, Copy, PartialEq, Eq, Structural, Debug)]
pub struct ScoreState {
    pub chips: u64,
    pub mult_num: u64,
    pub mult_shift: u64,
}

/// The multiplier value is at least the integer `b`:
/// `mult_num / 2^mult_shift >= b`, cross-multiplied.
pub open spec fn mult_at_least(st: ScoreState, b: int) -> bool {
    st.mult_num >= b * pow2(st.mult_shift as nat)
}

/// `chips += k`, or `None` on overflow.
pub open spec fn st_add_chips(st: ScoreState, k: int) -> Option<ScoreState> {
    if st.chips + k <= u64::MAX {
        Some(ScoreState { chips: (st.chips + k) as u64, mult_num: st.mult_num, mult_shift: st.mult_shift })
    } else {
        None
    }
}

/// `mult += k`: adds `k * 2^mult_shift` to the numerator, or `None` on
/// overflow.
pub open spec fn st_add_mult(st: ScoreState, k: int) -> Option<ScoreState> {
    if st.mult_num + k * pow2(st.mult_shift as nat) <= u64::MAX {
        Some(ScoreState {
            chips: st.chips,
            mult_num: (st.mult_num + k * pow2(st.mult_shift as nat)) as u64,
            mult_shift: st.mult_shift,
        })
    } else {
        None
    }
}

/// `mult *= 2`, or `None` on overflow.
pub open spec fn st_mul_mult2(st: ScoreState) -> Option<ScoreState> {
    if 2 * st.mult_num <= u64::MAX {
        Some(ScoreState { chips: st.chips, mult_num: (2 * st.mult_num) as u64, mult_shift: st.mult_shift })
    } else {
        None
    }
}

/// `mult *= 3`, or `None` on overflow.
pub open spec fn st_mul_mult3(st: ScoreState) -> Option<ScoreState> {
    if 3 * st.mult_num <= u64::MAX {
        Some(ScoreState { chips: st.chips, mult_num: (3 * st.mult_num) as u64, mult_shift: st.mult_shift })
    } else {
        None
    }
}

/// `mult *= 3/2`: numerator times 3, shift plus one, or `None` on overflow.
pub open spec fn st_mul_mult3_2(st: ScoreState) -> Option<ScoreState> {
    if 3 * st.mult_num <= u64::MAX && st.mult_shift + 1 <= u64::MAX {
        Some(ScoreState {
            chips: st.chips,
            mult_num: (3 * st.mult_num) as u64,
            mult_shift: (st.mult_shift + 1) as u64,
        })
    } else {
        None
    }
}

/// `k` successive applications of `mult *= 3/2`.
pub open spec fn st_mul_mult3_2_pow(st: ScoreState, k: int) -> Option<ScoreState>
    decreases k,
{
    if k <= 0 {
        Some(st)
    } else {
        match st_mul_mult3_2(st) {
            Some(s) => st_mul_mult3_2_pow(s, k - 1),
            None => None,
        }
    }
}

/// An addition beyond the `u64` range always overflows.
pub proof fn lemma_add_mult_none_when_huge(st: ScoreState, k: int)
    requires
        k > u64::MAX,
    ensures
        st_add_mult(st, k) == None::<ScoreState>,
{
    lemma_pow2_pos(st.mult_shift as nat);
    assert(k * pow2(st.mult_shift as nat) >= k * 1) by (nonlinear_arith)
        requires
            k >= 0,
            pow2(st.mult_shift as nat) >= 1,
    ;
}

impl ScoreState {
    /// The starting state for a combination's base (chips, mult) pair.
    pub fn new(chips: u64, mult: u64) -> (r: ScoreState)
        ensures
            r == (ScoreState { chips, mult_num: mult, mult_shift: 0u64 }),
    {
        ScoreState { chips, mult_num: mult, mult_shift: 0 }
    }

    /// Adds `k` to the chips.
    pub fn add_chips(self, k: u64) -> (r: Option<ScoreState>)
        ensures
            r == st_add_chips(self, k as int),
    {
        if k <= u64::MAX - self.chips {
            Some(ScoreState { chips: self.chips + k, mult_num: self.mult_num, mult_shift: self.mult_shift })
        } else {
            None
        }
    }

    /// Adds `k` to the multiplier.
    pub fn add_mult(self, k: u64) -> (r: Option<ScoreState>)
        ensures
            r == st_add_mult(self, k as int),
    {
        if k == 0 {
            return Some(self);
        }
        if self.mult_shift >= 64 {
            proof {
                lemma2_to64();
                if self.mult_shift > 64 {
                    lemma_pow2_strictly_increases(64, self.mult_shift as nat);
                }
                assert(pow2(self.mult_shift as nat) >= pow2(64));
                assert(k * pow2(self.mult_shift as nat) >= 1 * pow2(self.mult_shift as nat))
                    by (nonlinear_arith)
                    requires
                        k >= 1,
                        pow2(self.mult_shift as nat) > 0,
                ;
            }
            return None;
        }
        let p: u64 = 1u64 << self.mult_shift;
        proof {
            lemma_u64_pow2_no_overflow(self.mult_shift as nat);
            lemma_u64_shl_is_mul(1u64, self.mult_shift);
        }
        proof {
            assert((k as int) * (p as int) <= (u64::MAX as int) * (u64::MAX as int))
                by (nonlinear_arith)
                requires
                    0 <= k <= u64::MAX,
                    0 <= p <= u64::MAX,
            ;
        }
        let add: u128 = (k as u128) * (p as u128);
        if add <= (u64::MAX - self.mult_num) as u128 {
            Some(ScoreState {
                chips: self.chips,
                mult_num: self.mult_num + (add as u64),
                mult_shift: self.mult_shift,
            })
        } else {
            None
        }
    }

    /// Multiplies the multiplier by 2.
    pub fn mul_mult2(self) -> (r: Option<ScoreState>)
        ensures
            r == st_mul_mult2(self),
    {
        if self.mult_num <= u64::MAX / 2 {
            Some(ScoreState { chips: self.chips, mult_num: 2 * self.mult_num, mult_shift: self.mult_shift })
        } else {
            None
        }
    }

    /// Multiplies the multiplier by 3.
    pub fn mul_mult3(self) -> (r: Option<ScoreState>)
        ensures
            r == st_mul_mult3(self),
    {
        if self.mult_num <= u64::MAX / 3 {
            Some(ScoreState { chips: self.chips, mult_num: 3 * self.mult_num, mult_shift: self.mult_shift })
        } else {
            None
        }
    }

    /// Adds `k * count` to the multiplier, for a per-card bonus over a
    /// counted set of cards.
    pub fn add_mult_times(self, k: u64, count: usize) -> (r: Option<ScoreState>)
        ensures
            r == st_add_mult(self, (k as int) * (count as int)),
    {
        proof {
            assert((k as int) * (count as int) <= (u64::MAX as int) * (u64::MAX as int))
                by (nonlinear_arith)
                requires
                    0 <= k <= u64::MAX,
                    0 <= count <= u64::MAX,
            ;
        }
        let amt: u128 = (k as u128) * (count as u128);
        if amt > u64::MAX as u128 {
            proof {
                lemma_add_mult_none_when_huge(self, (k as int) * (count as int));
            }
            None
        } else {
            self.add_mult(amt as u64)
        }
    }

    /// Adds `k * count` to the chips, for a per-card bonus over a counted
    /// set of cards.
    pub fn add_chips_times(self, k: u64, count: usize) -> (r: Option<ScoreState>)
        ensures
            r == st_add_chips(self, (k as int) * (count as int)),
    {
        proof {
            assert((k as int) * (count as int) <= (u64::MAX as int) * (u64::MAX as int))
                by (nonlinear_arith)
                requires
                    0 <= k <= u64::MAX,
                    0 <= count <= u64::MAX,
            ;
        }
        let amt: u128 = (k as u128) * (count as u128);
        if amt > u64::MAX as u128 {
            None
        } else {
            self.add_chips(amt as u64)
        }
    }

    /// Applies `mult *= 3/2` a number of times in succession.
    pub fn mul_mult3_2_pow(self, k: usize) -> (r: Option<ScoreState>)
        ensures
            r == st_mul_mult3_2_pow(self, k as int),
    {
        let mut cur = self;
        let mut j: usize = 0;
        while j < k
            invariant
                j <= k,
                st_mul_mult3_2_pow(self, k as int) == st_mul_mult3_2_pow(cur, k as int - j),
            decreases k - j,
        {
            match cur.mul_mult3_2() {
                Some(s) => {
                    cur = s;
                },
                None => {
                    return None;
                },
            }
            j = j + 1;
        }
        Some(cur)
    }

    /// Multiplies the multiplier by 3/2.
    pub fn mul_mult3_2(self) -> (r: Option<ScoreState>)
        ensures
            r == st_mul_mult3_2(self),
    {
        if self.mult_num <= u64::MAX / 3 && self.mult_shift < u64::MAX {
            Some(ScoreState {
                chips: self.chips,
                mult_num: 3 * self.mult_num,
                mult_shift: self.mult_shift + 1,
            })
        } else {
            None
        }
    }
}

/// Adding to the chips keeps the multiplier bound.
pub proof fn lemma_add_chips_keeps_mult(st: ScoreState, k: int, b: int)
    requires
        mult_at_least(st, b),
        st_add_chips(st, k) is Some,
    ensures
        mult_at_least(st_add_chips(st, k)->Some_0, b),
{
}

/// Adding a non-negative amount to the multiplier keeps the bound.
pub proof fn lemma_add_mult_keeps_ge(st: ScoreState, k: int, b: int)
    requires
        mult_at_least(st, b),
        k >= 0,
        st_add_mult(st, k) is Some,
    ensures
        mult_at_least(st_add_mult(st, k)->Some_0, b),
{
    lemma_mul_nonnegative(k, pow2(st.mult_shift as nat) as int);
}

/// Multiplying the multiplier by 2 keeps the bound.
pub proof fn lemma_mul_mult2_keeps_ge(st: ScoreState, b: int)
    requires
        mult_at_least(st, b),
        st_mul_mult2(st) is Some,
    ensures
        mult_at_least(st_mul_mult2(st)->Some_0, b),
{
}

/// Multiplying the multiplier by 3 keeps the bound.
pub proof fn lemma_mul_mult3_keeps_ge(st: ScoreState, b: int)
    requires
        mult_at_least(st, b),
        st_mul_mult3(st) is Some,
    ensures
        mult_at_least(st_mul_mult3(st)->Some_0, b),
{
}

/// Multiplying the multiplier by 3/2 keeps the bound when it is against a
/// non-negative base.
pub proof fn lemma_mul_mult3_2_keeps_ge(st: ScoreState, b: int)
    requires
        mult_at_least(st, b),
        b >= 0,
        st_mul_mult3_2(st) is Some,
    ensures
        mult_at_least(st_mul_mult3_2(st)->Some_0, b),
{
    let s = st.mult_shift as nat;
    lemma_pow2_unfold((s + 1) as nat);
    lemma_pow2_pos(s);
    assert(pow2((s + 1) as nat) == 2 * pow2(s));
    assert(3 * st.mult_num >= b * (2 * pow2(s))) by (nonlinear_arith)
        requires
            st.mult_num >= b * pow2(s),
            b >= 0,
            st.mult_num >= 0,
            pow2(s) > 0,
    ;
}

/// Repeated multiplication by 3/2 keeps the bound against a non-negative
/// base.
pub proof fn lemma_mul_mult3_2_pow_keeps_ge(st: ScoreState, k: int, b: int)
    requires
        mult_at_least(st, b),
        b >= 0,
        st_mul_mult3_2_pow(st, k) is Some,
    ensures
        mult_at_least(st_mul_mult3_2_pow(st, k)->Some_0, b),
    decreases k,
{
    if k > 0 {
        lemma_mul_mult3_2_keeps_ge(st, b);
        lemma_mul_mult3_2_pow_keeps_ge(st_mul_mult3_2(st)->Some_0, k - 1, b);
    }
}

} // verus!
