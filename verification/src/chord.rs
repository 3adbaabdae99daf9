//! The brightness keys, which together switch the daemon on and off.
//!
//! A chord is both brightness keys pressed at once. Times are milliseconds on
//! any clock that the caller keeps; they need not be monotonic.

use std::collections::VecDeque;
use vstd::prelude::*;

verus! {

broadcast use vstd::std_specs::vecdeque::group_vec_dequeue_axioms;

#[derive(Debug, Clone, Copy, PartialEq, Eq, Structural)]
pub enum Key {
    Up,
    Down,
}

/// The other key must come at most this long after the first.
pub const WINDOW_MS: u64 = 120;

/// Nothing else may have been pressed this long before the first key.
pub const QUIET_MS: u64 = 400;

/// A chord never follows another one sooner than this.
pub const COOLDOWN_MS: u64 = 1000;

/// How many presses the detector remembers.
pub const HISTORY: usize = 3;

/// Whether a press of `key` at `now` completes a chord, given the remembered
/// presses (oldest first) and the time of the last chord.
pub open spec fn completes_chord(
    presses: Seq<(Key, u64)>,
    last_chord: Option<u64>,
    key: Key,
    now: u64,
) -> bool {
    &&& presses.len() > 0
    &&& presses.last().0 != key
    &&& now - presses.last().1 <= WINDOW_MS
    &&& (presses.len() >= 2 ==> presses.last().1 - presses[presses.len() - 2].1 >= QUIET_MS)
    &&& (last_chord matches Some(t) ==> now - t >= COOLDOWN_MS)
}

/// The remembered presses after a press of `key` at `now`.
pub open spec fn presses_after(
    presses: Seq<(Key, u64)>,
    last_chord: Option<u64>,
    key: Key,
    now: u64,
) -> Seq<(Key, u64)> {
    if completes_chord(presses, last_chord, key, now) {
        Seq::empty()
    } else if presses.len() == HISTORY {
        presses.drop_first().push((key, now))
    } else {
        presses.push((key, now))
    }
}

/// The time of the last chord after a press of `key` at `now`.
pub open spec fn last_chord_after(
    presses: Seq<(Key, u64)>,
    last_chord: Option<u64>,
    key: Key,
    now: u64,
) -> Option<u64> {
    if completes_chord(presses, last_chord, key, now) {
        Some(now)
    } else {
        last_chord
    }
}

/// Tells a chord of the two brightness keys from ordinary presses.
#[derive(Debug)]
pub struct ChordDetector {
    presses: VecDeque<(Key, u64)>,
    last_chord: Option<u64>,
}

impl View for ChordDetector {
    /// The remembered presses, oldest first, and the time of the last chord.
    type V = (Seq<(Key, u64)>, Option<u64>);

    closed spec fn view(&self) -> (Seq<(Key, u64)>, Option<u64>) {
        (self.presses@, self.last_chord)
    }
}

impl ChordDetector {
    #[verifier::type_invariant]
    closed spec fn bounded(self) -> bool {
        self.presses@.len() <= HISTORY
    }

    /// A detector that remembers nothing.
    pub fn new() -> (d: ChordDetector)
        ensures
            d@.0 == Seq::<(Key, u64)>::empty(),
            d@.1 == None::<u64>,
    {
        ChordDetector { presses: VecDeque::new(), last_chord: None }
    }

    /// Returns true when this press completes a chord: the other brightness key
    /// was pressed at most 120 ms earlier, nothing else was pressed in the
    /// 400 ms before that, and no chord fired in the last second. Pressing the
    /// keys one after the other, or tapping them in a quick run, never matches.
    pub fn press(&mut self, key: Key, now: u64) -> (fired: bool)
        ensures
            fired == completes_chord(old(self)@.0, old(self)@.1, key, now),
            final(self)@.0 == presses_after(old(self)@.0, old(self)@.1, key, now),
            final(self)@.1 == last_chord_after(old(self)@.0, old(self)@.1, key, now),
            final(self)@.0.len() <= HISTORY,
    {
        proof {
            use_type_invariant(&*self);
        }
        let n = self.presses.len();
        let fired = if n == 0 {
            false
        } else {
            let (previous, at) = self.presses[n - 1];
            let close = now < at || now - at <= WINDOW_MS;
            let quiet_before = if n >= 2 {
                let (_, before) = self.presses[n - 2];
                at >= before && at - before >= QUIET_MS
            } else {
                true
            };
            let cooled = match self.last_chord {
                Some(t) => now >= t && now - t >= COOLDOWN_MS,
                None => true,
            };
            previous != key && close && quiet_before && cooled
        };
        let mut presses = VecDeque::new();
        std::mem::swap(&mut presses, &mut self.presses);
        if fired {
            self.last_chord = Some(now);
            presses.clear();
        } else {
            if n == HISTORY {
                presses.pop_front();
            }
            presses.push_back((key, now));
        }
        self.presses = presses;
        fired
    }
}

impl Default for ChordDetector {
    fn default() -> (d: ChordDetector)
        ensures
            d@.0 == Seq::<(Key, u64)>::empty(),
            d@.1 == None::<u64>,
    {
        ChordDetector::new()
    }
}

/// Pressing the same key twice never completes a chord.
pub proof fn same_key_twice_never_fires(
    presses: Seq<(Key, u64)>,
    last_chord: Option<u64>,
    key: Key,
    now: u64,
)
    requires
        presses.len() > 0,
        presses.last().0 == key,
    ensures
        !completes_chord(presses, last_chord, key, now),
{
}

/// A key pressed more than the window after the other one does not complete
/// a chord: the keys were pressed one after the other.
pub proof fn one_after_the_other_never_fires(
    presses: Seq<(Key, u64)>,
    last_chord: Option<u64>,
    key: Key,
    now: u64,
)
    requires
        presses.len() > 0,
        now > presses.last().1 + WINDOW_MS,
    ensures
        !completes_chord(presses, last_chord, key, now),
{
}

/// When another press came shortly before the first key of a would-be chord,
/// the keys are part of a quick run of presses and do not complete a chord.
pub proof fn quick_run_never_fires(
    presses: Seq<(Key, u64)>,
    last_chord: Option<u64>,
    key: Key,
    now: u64,
)
    requires
        presses.len() >= 2,
        presses.last().1 < presses[presses.len() - 2].1 + QUIET_MS,
    ensures
        !completes_chord(presses, last_chord, key, now),
{
}

/// No chord completes within the cooldown after the last one.
pub proof fn second_chord_needs_a_pause(
    presses: Seq<(Key, u64)>,
    t: u64,
    key: Key,
    now: u64,
)
    requires
        now < t + COOLDOWN_MS,
    ensures
        !completes_chord(presses, Some(t), key, now),
{
}

/// A completed chord forgets the presses, so the very next press never
/// completes another one.
pub proof fn press_after_a_chord_never_fires(
    presses: Seq<(Key, u64)>,
    last_chord: Option<u64>,
    key: Key,
    now: u64,
    next_key: Key,
    next_now: u64,
)
    requires
        completes_chord(presses, last_chord, key, now),
    ensures
        presses_after(presses, last_chord, key, now).len() == 0,
        !completes_chord(
            presses_after(presses, last_chord, key, now),
            last_chord_after(presses, last_chord, key, now),
            next_key,
            next_now,
        ),
{
}

/// The detector never remembers more than its history of presses, and the
/// press just made is always the newest one remembered unless it completed a
/// chord.
pub proof fn history_stays_bounded(
    presses: Seq<(Key, u64)>,
    last_chord: Option<u64>,
    key: Key,
    now: u64,
)
    requires
        presses.len() <= HISTORY,
    ensures
        presses_after(presses, last_chord, key, now).len() <= HISTORY,
        !completes_chord(presses, last_chord, key, now) ==> presses_after(
            presses,
            last_chord,
            key,
            now,
        ).last() == (key, now),
{
}

} // verus!
