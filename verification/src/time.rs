use vstd::prelude::*;

verus! {

/// The longest span a [`Duration`] holds, in nanoseconds: `u64::MAX` whole
/// seconds and 999 999 999 nanoseconds, as `std::time::Duration` holds.
pub const MAX_NANOS: u128 = 18_446_744_073_709_551_615_999_999_999;

/// A span of time, counted in whole nanoseconds, up to [`MAX_NANOS`].
///
/// Its view is the number of nanoseconds.
#[derive(Clone, Copy, Debug, Hash, PartialEq, Eq, Structural, PartialOrd, Ord)]
pub struct Duration {
    nanos: u128,
}

impl View for Duration {
    type V = nat;

    closed spec fn view(&self) -> nat {
        self.nanos as nat
    }
}

impl Duration {
    #[verifier::type_invariant]
    spec fn held(self) -> bool {
        self.nanos <= MAX_NANOS
    }
}

pub open spec fn min_nat(a: nat, b: nat) -> nat {
    if a <= b {
        a
    } else {
        b
    }
}

pub open spec fn max_nat(a: nat, b: nat) -> nat {
    if a >= b {
        a
    } else {
        b
    }
}

impl Duration {
    /// No time at all.
    pub fn zero() -> (d: Duration)
        ensures
            d@ == 0,
    {
        Duration { nanos: 0 }
    }

    pub fn from_nanos(nanos: u128) -> (d: Duration)
        requires
            nanos <= MAX_NANOS,
        ensures
            d@ == nanos,
    {
        Duration { nanos }
    }

    pub fn from_millis(ms: u64) -> (d: Duration)
        ensures
            d@ == ms * 1_000_000,
    {
        Duration { nanos: ms as u128 * 1_000_000 }
    }

    pub fn from_secs(secs: u64) -> (d: Duration)
        ensures
            d@ == secs * 1_000_000_000,
    {
        Duration { nanos: secs as u128 * 1_000_000_000 }
    }

    /// The whole span in nanoseconds, never above [`MAX_NANOS`].
    pub fn as_nanos(&self) -> (n: u128)
        ensures
            n == self@,
            n <= MAX_NANOS,
    {
        proof {
            use_type_invariant(self);
        }
        self.nanos
    }

    /// Whole milliseconds, rounded down.
    pub fn as_millis(&self) -> (ms: u128)
        ensures
            ms == self@ / 1_000_000,
    {
        self.nanos / 1_000_000
    }

    pub fn is_zero(&self) -> (b: bool)
        ensures
            b == (self@ == 0),
    {
        self.nanos == 0
    }

    /// `self - other`, or zero where `other` is longer.
    pub fn saturating_sub(self, other: Duration) -> (d: Duration)
        ensures
            d@ == (if self@ >= other@ {
                self@ - other@
            } else {
                0
            }),
    {
        proof {
            use_type_invariant(&self);
        }
        if self.nanos >= other.nanos {
            Duration { nanos: self.nanos - other.nanos }
        } else {
            Duration { nanos: 0 }
        }
    }

    /// `self + other`, or the longest span there is where that would not fit.
    pub fn saturating_add(self, other: Duration) -> (d: Duration)
        ensures
            d@ == min_nat(self@ + other@, MAX_NANOS as nat),
    {
        proof {
            use_type_invariant(&self);
            use_type_invariant(&other);
        }
        if self.nanos <= MAX_NANOS - other.nanos {
            Duration { nanos: self.nanos + other.nanos }
        } else {
            Duration { nanos: MAX_NANOS }
        }
    }

    pub fn min(self, other: Duration) -> (d: Duration)
        ensures
            d@ == min_nat(self@, other@),
    {
        if self.nanos <= other.nanos {
            self
        } else {
            other
        }
    }

    pub fn max(self, other: Duration) -> (d: Duration)
        ensures
            d@ == max_nat(self@, other@),
    {
        if self.nanos >= other.nanos {
            self
        } else {
            other
        }
    }

    pub fn shorter_than(&self, other: &Duration) -> (b: bool)
        ensures
            b == (self@ < other@),
    {
        self.nanos < other.nanos
    }

    pub fn no_longer_than(&self, other: &Duration) -> (b: bool)
        ensures
            b == (self@ <= other@),
    {
        self.nanos <= other.nanos
    }

    /// Whether two spans are the same.
    pub fn same(&self, other: &Duration) -> (b: bool)
        ensures
            b == (self@ == other@),
    {
        self.nanos == other.nanos
    }
}

} // verus!
