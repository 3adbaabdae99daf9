//! Retry delays that double after each failure, up to a cap.

use vstd::arithmetic::power2::*;
use vstd::prelude::*;

verus! {

pub const NANOS_PER_SEC: u32 = 1_000_000_000;

/// The longest span a `Delay` can hold, in nanoseconds.
pub open spec fn max_delay_nanos() -> nat {
    u64::MAX as nat * NANOS_PER_SEC as nat + (NANOS_PER_SEC - 1) as nat
}

/// A span of time: whole seconds and the nanoseconds past them, as a
/// `std::time::Duration` holds it. Its view is the total in nanoseconds.
#[derive(Debug, Clone, Copy)]
pub struct Delay {
    secs: u64,
    nanos: u32,
}

impl View for Delay {
    type V = nat;

    closed spec fn view(&self) -> nat {
        self.secs as nat * NANOS_PER_SEC as nat + self.nanos as nat
    }
}

impl Delay {
    #[verifier::type_invariant]
    closed spec fn normalised(self) -> bool {
        self.nanos < NANOS_PER_SEC
    }

    /// `secs` seconds plus `nanos` nanoseconds; nanoseconds past a second
    /// carry into the seconds.
    pub fn new(secs: u64, nanos: u32) -> (d: Delay)
        requires
            secs as nat + (nanos / NANOS_PER_SEC) as nat <= u64::MAX,
        ensures
            d@ == secs as nat * NANOS_PER_SEC as nat + nanos as nat,
    {
        let carry = nanos / NANOS_PER_SEC;
        let rest = nanos % NANOS_PER_SEC;
        Delay { secs: secs + carry as u64, nanos: rest }
    }

    pub fn from_secs(secs: u64) -> (d: Delay)
        ensures
            d@ == secs as nat * NANOS_PER_SEC as nat,
    {
        Delay { secs, nanos: 0 }
    }

    /// Whole seconds.
    pub fn as_secs(&self) -> (s: u64)
        ensures
            s == self@ / NANOS_PER_SEC as nat,
    {
        proof {
            use_type_invariant(self);
            vstd::arithmetic::div_mod::lemma_fundamental_div_mod_converse(
                self@ as int,
                NANOS_PER_SEC as int,
                self.secs as int,
                self.nanos as int,
            );
        }
        self.secs
    }

    /// Nanoseconds past the whole seconds.
    pub fn subsec_nanos(&self) -> (n: u32)
        ensures
            n == self@ % NANOS_PER_SEC as nat,
    {
        proof {
            use_type_invariant(self);
            vstd::arithmetic::div_mod::lemma_fundamental_div_mod_converse(
                self@ as int,
                NANOS_PER_SEC as int,
                self.secs as int,
                self.nanos as int,
            );
        }
        self.nanos
    }

    fn doubled(self) -> (d: Delay)
        requires
            self@ * 2 <= max_delay_nanos(),
        ensures
            d@ == self@ * 2,
    {
        proof {
            use_type_invariant(&self);
        }
        let nanos = self.nanos * 2;
        if nanos >= NANOS_PER_SEC {
            assert(self.secs * 2 + 1 <= u64::MAX) by (nonlinear_arith)
                requires
                    self.secs as nat * 2000000000 + self.nanos as nat * 2 <= u64::MAX as nat
                        * 1000000000 + 999999999,
                    self.nanos as nat * 2 >= 1000000000,
            ;
            Delay { secs: self.secs * 2 + 1, nanos: nanos - NANOS_PER_SEC }
        } else {
            assert(self.secs * 2 <= u64::MAX) by (nonlinear_arith)
                requires
                    self.secs as nat * 2000000000 + self.nanos as nat * 2 <= u64::MAX as nat
                        * 1000000000 + 999999999,
            ;
            Delay { secs: self.secs * 2, nanos }
        }
    }

    fn shorter(self, other: Delay) -> (d: Delay)
        ensures
            d@ == if self@ <= other@ {
                self@
            } else {
                other@
            },
    {
        proof {
            use_type_invariant(&self);
            use_type_invariant(&other);
        }
        if self.secs < other.secs || (self.secs == other.secs && self.nanos <= other.nanos) {
            proof {
                if self.secs < other.secs {
                    assert(self.secs as nat * 1000000000 + 1000000000 <= other.secs as nat
                        * 1000000000) by (nonlinear_arith)
                        requires
                            self.secs < other.secs,
                    ;
                }
            }
            self
        } else {
            proof {
                if other.secs < self.secs {
                    assert(other.secs as nat * 1000000000 + 1000000000 <= self.secs as nat
                        * 1000000000) by (nonlinear_arith)
                        requires
                            other.secs < self.secs,
                    ;
                }
            }
            other
        }
    }
}

/// The abstract state of a `Backoff`, in nanoseconds.
pub struct BackoffView {
    pub current: nat,
    pub initial: nat,
    pub max: nat,
}

/// The delay after one more failure: twice the current one, at most `max`.
pub open spec fn grown(current: nat, max: nat) -> nat {
    if current * 2 <= max {
        current * 2
    } else {
        max
    }
}

/// The `k`-th delay handed out after construction or `reset`.
pub open spec fn schedule(initial: nat, max: nat, k: nat) -> nat
    decreases k,
{
    if k == 0 {
        initial
    } else {
        grown(schedule(initial, max, (k - 1) as nat), max)
    }
}

/// Exponential backoff between retries.
#[derive(Debug, Clone)]
pub struct Backoff {
    current: Delay,
    initial: Delay,
    max: Delay,
}

impl View for Backoff {
    type V = BackoffView;

    closed spec fn view(&self) -> BackoffView {
        BackoffView { current: self.current@, initial: self.initial@, max: self.max@ }
    }
}

impl Backoff {
    pub fn new(initial: Delay, max: Delay) -> (b: Self)
        ensures
            b@ == (BackoffView { current: initial@, initial: initial@, max: max@ }),
    {
        Backoff { current: initial, initial, max }
    }

    /// Whether the current delay can still be doubled (`next_delay` needs it).
    pub fn can_double(&self) -> (b: bool)
        ensures
            b == (self@.current * 2 <= max_delay_nanos()),
    {
        proof {
            use_type_invariant(&self.current);
        }
        self.current.secs < 0x8000_0000_0000_0000
    }

    /// Hands out the current delay and doubles it for next time, up to the cap.
    pub fn next_delay(&mut self) -> (d: Delay)
        requires
            old(self)@.current * 2 <= max_delay_nanos(),
        ensures
            d@ == old(self)@.current,
            final(self)@ == (BackoffView {
                current: grown(old(self)@.current, old(self)@.max),
                ..old(self)@
            }),
    {
        let delay = self.current;
        self.current = self.current.doubled().shorter(self.max);
        delay
    }

    /// Back to the initial delay after a success.
    pub fn reset(&mut self)
        ensures
            final(self)@ == (BackoffView { current: old(self)@.initial, ..old(self)@ }),
    {
        self.current = self.initial;
    }
}

/// Starting from an initial delay within the cap, the `k`-th delay is the
/// initial one doubled `k` times, cut off at the cap.
pub proof fn schedule_doubles_to_the_cap(initial: nat, max: nat, k: nat)
    requires
        initial <= max,
    ensures
        schedule(initial, max, k) == if initial * pow2(k) <= max {
            initial * pow2(k)
        } else {
            max
        },
    decreases k,
{
    if k == 0 {
        lemma2_to64();
    } else {
        schedule_doubles_to_the_cap(initial, max, (k - 1) as nat);
        lemma_pow2_unfold(k);
        let p = pow2((k - 1) as nat);
        assert(initial * pow2(k) == (initial * p) * 2) by (nonlinear_arith)
            requires
                pow2(k) == 2 * p,
        ;
    }
}

/// Starting within the cap, delays never shrink and never pass the cap.
pub proof fn schedule_grows_within_the_cap(initial: nat, max: nat, k: nat)
    requires
        initial <= max,
    ensures
        schedule(initial, max, k) <= schedule(initial, max, k + 1) <= max,
    decreases k,
{
    if k > 0 {
        schedule_grows_within_the_cap(initial, max, (k - 1) as nat);
    }
}

} // verus!
