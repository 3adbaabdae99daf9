//! The brightness levels the daemon wrote itself, so that the backlight
//! reporting them back is not taken for a change by the user.

use std::collections::VecDeque;
use vstd::prelude::*;

verus! {

broadcast use vstd::std_specs::vecdeque::group_vec_dequeue_axioms;

/// How many of its own writes the daemon remembers.
pub const ECHO_HISTORY: usize = 4;

/// The remembered levels after writing `level`: the newest ones, at most
/// `ECHO_HISTORY` of them, oldest first.
pub open spec fn after_write(levels: Seq<u32>, level: u32) -> Seq<u32> {
    if levels.len() >= ECHO_HISTORY {
        levels.drop_first().push(level)
    } else {
        levels.push(level)
    }
}

/// The last few levels written to the backlight, oldest first.
#[derive(Debug)]
pub struct EchoHistory {
    levels: VecDeque<u32>,
}

impl View for EchoHistory {
    type V = Seq<u32>;

    closed spec fn view(&self) -> Seq<u32> {
        self.levels@
    }
}

impl EchoHistory {
    #[verifier::type_invariant]
    closed spec fn bounded(self) -> bool {
        self.levels@.len() <= ECHO_HISTORY
    }

    /// A history that holds only `level`, the level found at start.
    pub fn new(level: u32) -> (h: EchoHistory)
        ensures
            h@ == seq![level],
    {
        let mut levels = VecDeque::new();
        levels.push_back(level);
        EchoHistory { levels }
    }

    /// Whether `level` is one the daemon wrote itself recently.
    pub fn contains(&self, level: u32) -> (b: bool)
        ensures
            b == self@.contains(level),
    {
        let n = self.levels.len();
        let mut i: usize = 0;
        while i < n
            invariant
                n == self@.len(),
                i <= n,
                forall|k: int| 0 <= k < i ==> self@[k] != level,
            decreases n - i,
        {
            if self.levels[i] == level {
                assert(self@[i as int] == level);
                return true;
            }
            i = i + 1;
        }
        false
    }

    /// Remembers that the daemon wrote `level`, forgetting the oldest write
    /// when the history is full.
    pub fn record(&mut self, level: u32)
        ensures
            final(self)@ == after_write(old(self)@, level),
            final(self)@.len() <= ECHO_HISTORY,
            final(self)@.contains(level),
    {
        proof {
            use_type_invariant(&*self);
        }
        let mut levels = VecDeque::new();
        std::mem::swap(&mut levels, &mut self.levels);
        if levels.len() >= ECHO_HISTORY {
            levels.pop_front();
        }
        levels.push_back(level);
        let ghost last = levels@.len() - 1;
        assert(levels@[last] == level);
        self.levels = levels;
    }

    /// Forgets every write and holds only `level`, after the level was
    /// changed by someone else.
    pub fn reset(&mut self, level: u32)
        ensures
            final(self)@ == seq![level],
    {
        let mut levels = VecDeque::new();
        levels.push_back(level);
        self.levels = levels;
    }
}

impl Clone for EchoHistory {
    fn clone(&self) -> (c: EchoHistory)
        ensures
            c@ == self@,
    {
        proof {
            use_type_invariant(self);
        }
        let n = self.levels.len();
        let mut levels: VecDeque<u32> = VecDeque::new();
        let mut i: usize = 0;
        while i < n
            invariant
                n == self@.len(),
                n <= ECHO_HISTORY,
                i <= n,
                levels@ == self@.take(i as int),
            decreases n - i,
        {
            levels.push_back(self.levels[i]);
            assert(self@.take(i + 1) =~= self@.take(i as int).push(self@[i as int]));
            i = i + 1;
        }
        assert(self@.take(n as int) =~= self@);
        EchoHistory { levels }
    }
}

/// A written level is recognised as the daemon's own until `ECHO_HISTORY`
/// newer writes have pushed it out.
pub proof fn recent_writes_are_recognised(levels: Seq<u32>, writes: Seq<u32>, k: int)
    requires
        levels.len() <= ECHO_HISTORY,
        0 <= k < writes.len(),
        writes.len() - k <= ECHO_HISTORY,
    ensures
        writes_applied(levels, writes).contains(writes[k]),
        writes_applied(levels, writes).len() <= ECHO_HISTORY,
{
    lemma_writes_applied(levels, writes);
    let w = writes_applied(levels, writes);
    let n = w.len();
    let j = n - (writes.len() - k);
    assert(w[j] == writes[k]);
}

/// The remembered levels after writing each of `writes` in turn.
pub open spec fn writes_applied(levels: Seq<u32>, writes: Seq<u32>) -> Seq<u32>
    decreases writes.len(),
{
    if writes.len() == 0 {
        levels
    } else {
        after_write(writes_applied(levels, writes.drop_last()), writes.last())
    }
}

/// After a run of writes the history ends with the newest of them, as many
/// as fit.
proof fn lemma_writes_applied(levels: Seq<u32>, writes: Seq<u32>)
    requires
        levels.len() <= ECHO_HISTORY,
    ensures
        ({
            let w = writes_applied(levels, writes);
            &&& w.len() <= ECHO_HISTORY
            &&& w.len() >= if writes.len() <= ECHO_HISTORY {
                writes.len()
            } else {
                ECHO_HISTORY as nat
            }
            &&& forall|i: int|
                0 <= i < writes.len() && writes.len() - i <= w.len() ==> #[trigger] w[w.len()
                    - (writes.len() - i)] == writes[i]
        }),
    decreases writes.len(),
{
    if writes.len() > 0 {
        let prev = writes.drop_last();
        lemma_writes_applied(levels, prev);
        let p = writes_applied(levels, prev);
        let w = writes_applied(levels, writes);
        assert forall|i: int|
            0 <= i < writes.len() && writes.len() - i <= w.len() implies #[trigger] w[w.len()
            - (writes.len() - i)] == writes[i] by {
            if i < writes.len() - 1 {
                assert(prev[i] == writes[i]);
                assert(p[p.len() - (prev.len() - i)] == prev[i]);
            }
        }
    }
}

} // verus!
