//! A span of time held as whole seconds plus sub-second nanoseconds.

use vstd::prelude::*;

verus! {

/// Nanoseconds in one second.
pub open spec fn nanos_per_sec() -> nat {
    1_000_000_000
}

/// A non-negative span of time with nanosecond precision.
///
/// Its view is the total number of nanoseconds it spans.
#[derive(Clone, Copy, Debug, PartialEq, Eq, Structural)]
pub struct Duration {
    secs: u64,
    nanos: u32,
}

impl View for Duration {
    type V = nat;

    /// Seconds times 10^9 plus the nanoseconds (which the type keeps below 10^9).
    closed spec fn view(&self) -> nat {
        (self.secs as nat) * nanos_per_sec() + if self.nanos < 1_000_000_000 {
            self.nanos as nat
        } else {
            999_999_999
        }
    }
}

/// The largest number of nanoseconds a `Duration` can hold.
pub open spec fn max_duration_nanos() -> nat {
    (u64::MAX as nat) * nanos_per_sec() + 999_999_999
}

impl Duration {
    #[verifier::type_invariant]
    spec fn well_formed(self) -> bool {
        self.nanos < 1_000_000_000
    }

    /// Every duration fits in its representation: at most `u64::MAX` seconds
    /// and 999,999,999 nanoseconds.
    pub proof fn lemma_bounded(d: Duration)
        ensures
            d@ <= max_duration_nanos(),
    {
        assert(d.secs as nat * nanos_per_sec() <= (u64::MAX as nat) * nanos_per_sec())
            by (nonlinear_arith)
            requires
                d.secs <= u64::MAX,
        ;
    }

    /// A duration of `secs` whole seconds.
    pub fn from_secs(secs: u64) -> (d: Duration)
        ensures
            d@ == secs as nat * nanos_per_sec(),
    {
        Duration { secs, nanos: 0 }
    }

    /// A duration of `millis` milliseconds.
    pub fn from_millis(millis: u64) -> (d: Duration)
        ensures
            d@ == millis as nat * 1_000_000,
    {
        let secs = millis / 1000;
        let rest = (millis % 1000) as u32;
        Duration { secs, nanos: rest * 1_000_000 }
    }

    /// A duration of `secs` seconds plus `nanos` nanoseconds; nanoseconds
    /// beyond a second carry into the seconds.
    pub fn new(secs: u64, nanos: u32) -> (d: Duration)
        requires
            secs as nat + (nanos as nat) / nanos_per_sec() <= u64::MAX,
        ensures
            d@ == secs as nat * nanos_per_sec() + nanos as nat,
    {
        let carry = (nanos / 1_000_000_000) as u64;
        let rest = nanos % 1_000_000_000;
        Duration { secs: secs + carry, nanos: rest }
    }

    /// Whole seconds in this duration (the fraction is dropped).
    pub fn as_secs(&self) -> (s: u64)
        ensures
            s as nat == self@ / nanos_per_sec(),
    {
        proof {
            use_type_invariant(self);
        }
        self.secs
    }

    /// The fractional part of this duration, in whole milliseconds.
    pub fn subsec_millis(&self) -> (m: u32)
        ensures
            m as nat == (self@ % nanos_per_sec()) / 1_000_000,
            m < 1000,
    {
        proof {
            use_type_invariant(self);
        }
        self.nanos / 1_000_000
    }

    /// The fractional part of this duration, in nanoseconds.
    pub fn subsec_nanos(&self) -> (n: u32)
        ensures
            n as nat == self@ % nanos_per_sec(),
    {
        proof {
            use_type_invariant(self);
        }
        self.nanos
    }

    /// True when this duration spans no time at all.
    pub fn is_zero(&self) -> (z: bool)
        ensures
            z == (self@ == 0),
    {
        self.secs == 0 && self.nanos == 0
    }

    /// True when this duration is strictly longer than `other`.
    pub fn gt(&self, other: &Duration) -> (r: bool)
        ensures
            r == (self@ > other@),
    {
        proof {
            use_type_invariant(self);
            use_type_invariant(other);
        }
        self.secs > other.secs || (self.secs == other.secs && self.nanos > other.nanos)
    }

    /// The shorter of two durations.
    pub fn min(self, other: Duration) -> (d: Duration)
        ensures
            d@ == if self@ <= other@ { self@ } else { other@ },
    {
        if other.gt(&self) || other == self {
            self
        } else {
            other
        }
    }

    /// The longer of two durations.
    pub fn max(self, other: Duration) -> (d: Duration)
        ensures
            d@ == if self@ >= other@ { self@ } else { other@ },
    {
        if self.gt(&other) || other == self {
            self
        } else {
            other
        }
    }

    /// `self * factor`, or the longest representable duration when the
    /// product does not fit.
    pub fn saturating_mul(self, factor: u32) -> (d: Duration)
        ensures
            d@ == if self@ * (factor as nat) <= max_duration_nanos() {
                self@ * (factor as nat)
            } else {
                max_duration_nanos()
            },
    {
        proof {
            use_type_invariant(self);
        }
        assert((self.nanos as u64) * (factor as u64) < 0x1_0000_0000_0000_0000) by (nonlinear_arith)
            requires
                self.nanos < 1_000_000_000,
                factor <= u32::MAX,
        ;
        let total_nanos: u64 = (self.nanos as u64) * (factor as u64);
        let extra_secs: u64 = total_nanos / 1_000_000_000;
        let nanos: u32 = (total_nanos % 1_000_000_000) as u32;
        assert((self.secs as u128) * (factor as u128) <= 0xffff_ffff_ffff_ffff * 0xffff_ffff)
            by (nonlinear_arith)
            requires
                self.secs <= 0xffff_ffff_ffff_ffffu64,
                factor <= u32::MAX,
        ;
        assert(extra_secs <= 0xffff_ffff_ffff_ffffu64);
        let whole = (self.secs as u128) * (factor as u128) + (extra_secs as u128);
        assert(total_nanos == self.nanos as nat * factor as nat) by (nonlinear_arith)
            requires
                self.nanos < 1_000_000_000,
                total_nanos == self.nanos as int * factor as int,
        ;
        assert(self@ * (factor as nat) == whole as nat * nanos_per_sec() + nanos as nat)
            by (nonlinear_arith)
            requires
                self@ == (self.secs as nat) * nanos_per_sec() + (self.nanos as nat),
                total_nanos == self.nanos as nat * factor as nat,
                extra_secs == total_nanos / 1_000_000_000,
                nanos == total_nanos % 1_000_000_000,
                whole == self.secs as int * factor as int + extra_secs as int,
        ;
        if whole > u64::MAX as u128 {
            assert(self@ * (factor as nat) > max_duration_nanos()) by (nonlinear_arith)
                requires
                    self@ * (factor as nat) == whole as nat * nanos_per_sec() + nanos as nat,
                    whole > u64::MAX,
            ;
            Duration { secs: u64::MAX, nanos: 999_999_999 }
        } else {
            Duration { secs: whole as u64, nanos }
        }
    }
}

} // verus!
