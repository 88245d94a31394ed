//! Lengths of time, in nanoseconds.

use vstd::prelude::*;

verus! {

/// The longest length of time that is told apart.
pub const MAX_NANOS: u128 = 18_446_744_073_709_551_615_999_999_999;

/// A length of time.
#[derive(Clone, Copy, PartialEq, Eq, PartialOrd, Ord, Structural, Debug)]
pub struct Delay {
    pub nanos: u128,
}

/// Two to the power of a number.
pub open spec fn two_to(n: nat) -> nat
    decreases n,
{
    if n == 0 {
        1
    } else {
        2 * two_to((n - 1) as nat)
    }
}

/// The smaller of two numbers.
pub open spec fn least(a: int, b: int) -> int {
    if a < b {
        a
    } else {
        b
    }
}

impl Delay {

    pub fn from_millis(n: u64) -> (r: Delay)
        ensures
            r.nanos == n * 1_000_000,
    {
        Delay { nanos: n as u128 * 1_000_000 }
    }

    pub fn from_secs(n: u64) -> (r: Delay)
        ensures
            r.nanos == n * 1_000_000_000,
    {
        Delay { nanos: n as u128 * 1_000_000_000 }
    }

    /// Whole seconds.
    pub fn as_secs(&self) -> (r: u128)
        ensures
            r == self.nanos as int / 1_000_000_000,
    {
        self.nanos / 1_000_000_000
    }

    /// The length of time `factor` times over, at most the longest one.
    pub fn saturating_mul(&self, factor: u32) -> (r: Delay)
        ensures
            r.nanos == least(self.nanos * factor, MAX_NANOS as int),
    {
        if factor == 0 {
            return Delay { nanos: 0 };
        }
        let f: u128 = factor as u128;
        let limit: u128 = MAX_NANOS / f;
        if self.nanos > limit {
            assert(self.nanos * f >= MAX_NANOS) by (nonlinear_arith)
                requires
                    f > 0,
                    self.nanos > MAX_NANOS as u128 / f,
            ;
            Delay { nanos: MAX_NANOS }
        } else {
            assert(self.nanos * f <= MAX_NANOS) by (nonlinear_arith)
                requires
                    f > 0,
                    self.nanos <= MAX_NANOS as u128 / f,
            ;
            Delay { nanos: self.nanos * f }
        }
    }

    /// The shorter of two lengths of time.
    pub fn shorter(&self, other: Delay) -> (r: Delay)
        ensures
            r.nanos == least(self.nanos as int, other.nanos as int),
    {
        if self.nanos < other.nanos {
            Delay { nanos: self.nanos }
        } else {
            other
        }
    }
}

/// By how much the attempt after `shift` doublings waits longer: the factor
/// stays within 32 bits.
pub open spec fn growth(shift: nat) -> nat {
    if shift < 32 {
        two_to(shift)
    } else {
        u32::MAX as nat
    }
}

pub proof fn lemma_two_to_bound(n: nat)
    requires
        n < 32,
    ensures
        two_to(n) <= 0x8000_0000,
    decreases 32 - n,
{
    if n < 31 {
        lemma_two_to_bound(n + 1);
    } else {
        reveal_with_fuel(two_to, 32);
    }
}

/// Computes the factor for `shift` doublings.
pub fn doublings(shift: u32) -> (r: u32)
    ensures
        r == growth(shift as nat),
{
    if shift >= 32 {
        return 0xffff_ffff;
    }
    let mut r: u32 = 1;
    let mut i: u32 = 0;
    while i < shift
        invariant
            i <= shift < 32,
            r == two_to(i as nat),
        decreases shift - i,
    {
        proof {
            lemma_two_to_bound((i + 1) as nat);
        }
        r = 2 * r;
        i = i + 1;
    }
    r
}

} // verus!
