//! Which stored samples survive compaction.
//!
//! The sample log is compacted by dropping weak samples (confirmations) and
//! old samples. The entries are given oldest first, each marked weak or
//! strong; `prune_plan` picks the ones to keep.

use vstd::prelude::*;

verus! {

/// Most samples kept on disk.
pub const MAX_SAMPLES: usize = 5000;

/// Number of weak entries among the first `k`.
pub open spec fn weak_before(weak: Seq<bool>, k: int) -> nat
    decreases k,
{
    if k <= 0 {
        0
    } else {
        weak_before(weak, k - 1) + if weak[k - 1] {
            1nat
        } else {
            0nat
        }
    }
}

/// Number of weak entries.
pub open spec fn weak_total(weak: Seq<bool>) -> nat {
    weak_before(weak, weak.len() as int)
}

/// How many entries are over `max`.
pub open spec fn excess(weak: Seq<bool>, max: nat) -> nat {
    if weak.len() > max {
        (weak.len() - max) as nat
    } else {
        0
    }
}

/// How many weak entries go, oldest first: enough to bring the weak ones
/// down to `weak_cap` and the total down to `max`, but no more than exist.
pub open spec fn weak_dropped(weak: Seq<bool>, weak_cap: nat, max: nat) -> nat {
    let w = weak_total(weak);
    let over = if w > weak_cap {
        (w - weak_cap) as nat
    } else {
        0
    };
    let need = if over > excess(weak, max) {
        over
    } else {
        excess(weak, max)
    };
    if need < w {
        need
    } else {
        w
    }
}

/// Whether entry `i` survives the removal of weak entries.
pub open spec fn survives(weak: Seq<bool>, weak_cap: nat, max: nat, i: int) -> bool {
    !(weak[i] && weak_before(weak, i) < weak_dropped(weak, weak_cap, max))
}

/// The surviving indices among the first `k` entries, in order.
pub open spec fn survivors(weak: Seq<bool>, weak_cap: nat, max: nat, k: int) -> Seq<usize>
    decreases k,
{
    if k <= 0 {
        Seq::empty()
    } else {
        let s = survivors(weak, weak_cap, max, k - 1);
        if survives(weak, weak_cap, max, k - 1) {
            s.push((k - 1) as usize)
        } else {
            s
        }
    }
}

/// The indices that are kept: the survivors, less the oldest ones beyond `max`.
pub open spec fn kept(weak: Seq<bool>, weak_cap: nat, max: nat) -> Seq<usize> {
    let s = survivors(weak, weak_cap, max, weak.len() as int);
    let d = if s.len() > max {
        (s.len() - max) as int
    } else {
        0
    };
    s.skip(d)
}

/// Number of weak entries among the given indices.
pub open spec fn weak_among(weak: Seq<bool>, idx: Seq<usize>) -> nat
    decreases idx.len(),
{
    if idx.len() == 0 {
        0
    } else {
        weak_among(weak, idx.drop_last()) + if weak[idx.last() as int] {
            1nat
        } else {
            0nat
        }
    }
}

/// Chooses the entries to keep. `weak` marks the weak entries, oldest first;
/// at most `weak_cap` weak entries and at most `max` entries in all remain.
/// Weak entries go first, oldest first; strong ones go, oldest first, only
/// once no weak entry is left. Returns the kept indices in order.
pub fn prune_plan(weak: &[bool], weak_cap: usize, max: usize) -> (keep: Vec<usize>)
    ensures
        keep@ == kept(weak@, weak_cap as nat, max as nat),
{
    let len = weak.len();
    let ghost w = weak@;
    let mut total: usize = 0;
    for i in 0..len
        invariant
            len == w.len(),
            w == weak@,
            total == weak_before(w, i as int),
            total <= i,
    {
        if weak[i] {
            total = total + 1;
        }
    }
    let ghost drop = weak_dropped(w, weak_cap as nat, max as nat);
    let mut weak_seen = total;
    let mut over_max = if len > max {
        len - max
    } else {
        0
    };
    let ghost excess0 = over_max;
    let mut survivors_vec: Vec<usize> = Vec::new();
    for i in 0..len
        invariant
            len == w.len(),
            w == weak@,
            total == weak_total(w),
            excess0 == excess(w, max as nat),
            drop == weak_dropped(w, weak_cap as nat, max as nat),
            ({
                let removed = if weak_before(w, i as int) < drop {
                    weak_before(w, i as int)
                } else {
                    drop
                };
                &&& weak_seen == total - removed
                &&& over_max == if excess0 > removed {
                    (excess0 - removed) as nat
                } else {
                    0nat
                }
            }),
            weak_before(w, i as int) <= total,
            survivors_vec@ == survivors(w, weak_cap as nat, max as nat, i as int),
    {
        proof {
            lemma_weak_before_mono(w, i as int + 1, len as int);
        }
        if weak[i] && (weak_seen > weak_cap || over_max > 0) {
            weak_seen = weak_seen - 1;
            over_max = if over_max > 0 {
                over_max - 1
            } else {
                0
            };
        } else {
            survivors_vec.push(i);
        }
    }
    let n = survivors_vec.len();
    let skip = if n > max {
        n - max
    } else {
        0
    };
    let mut keep: Vec<usize> = Vec::new();
    for k in skip..n
        invariant
            n == survivors_vec@.len(),
            skip <= n,
            keep@ == survivors_vec@.subrange(skip as int, k as int),
    {
        keep.push(survivors_vec[k]);
    }
    proof {
        assert(keep@ =~= survivors_vec@.skip(skip as int));
    }
    keep
}

/// How many of the first `k` entries the weak pass removes.
pub open spec fn removed_before(weak: Seq<bool>, weak_cap: nat, max: nat, k: int) -> nat {
    let b = weak_before(weak, k);
    let d = weak_dropped(weak, weak_cap, max);
    if b < d {
        b
    } else {
        d
    }
}

proof fn lemma_survivors(weak: Seq<bool>, weak_cap: nat, max: nat, k: int)
    requires
        0 <= k <= weak.len(),
        weak.len() <= usize::MAX,
    ensures
        ({
            let s = survivors(weak, weak_cap, max, k);
            &&& forall|a: int, b: int| 0 <= a < b < s.len() ==> s[a] < s[b]
            &&& forall|a: int| 0 <= a < s.len() ==> s[a] < k
            &&& forall|i: int|
                0 <= i < k ==> (s.contains(i as usize) <==> survives(weak, weak_cap, max, i))
            &&& s.len() == k - removed_before(weak, weak_cap, max, k)
            &&& weak_among(weak, s) == weak_before(weak, k) - removed_before(
                weak,
                weak_cap,
                max,
                k,
            )
        }),
    decreases k,
{
    if k > 0 {
        lemma_survivors(weak, weak_cap, max, k - 1);
        let p = survivors(weak, weak_cap, max, k - 1);
        let s = survivors(weak, weak_cap, max, k);
        if survives(weak, weak_cap, max, k - 1) {
            assert(s == p.push((k - 1) as usize));
            assert(s.drop_last() =~= p);
            assert forall|i: int| 0 <= i < k implies (s.contains(i as usize) <==> survives(
                weak,
                weak_cap,
                max,
                i,
            )) by {
                if i < k - 1 {
                    if s.contains(i as usize) {
                        let a = choose|a: int| 0 <= a < s.len() && s[a] == i as usize;
                        if a == s.len() - 1 {
                            assert(s[a] == (k - 1) as usize);
                        } else {
                            assert(p[a] == i as usize);
                        }
                    }
                    if p.contains(i as usize) {
                        let a = choose|a: int| 0 <= a < p.len() && p[a] == i as usize;
                        assert(s[a] == i as usize);
                    }
                } else {
                    assert(s[s.len() - 1] == (k - 1) as usize);
                }
            }
        } else {
            assert forall|i: int| 0 <= i < k implies (s.contains(i as usize) <==> survives(
                weak,
                weak_cap,
                max,
                i,
            )) by {
                if i == k - 1 {
                    if s.contains(i as usize) {
                        let a = choose|a: int| 0 <= a < s.len() && s[a] == i as usize;
                        assert(p[a] < k - 1);
                    }
                }
            }
        }
    }
}

proof fn lemma_weak_among_append(weak: Seq<bool>, a: Seq<usize>, b: Seq<usize>)
    ensures
        weak_among(weak, a + b) == weak_among(weak, a) + weak_among(weak, b),
    decreases b.len(),
{
    if b.len() == 0 {
        assert(a + b =~= a);
    } else {
        lemma_weak_among_append(weak, a, b.drop_last());
        assert((a + b).drop_last() =~= a + b.drop_last());
        assert((a + b).last() == b.last());
    }
}

/// Entries that pass compaction keep their relative order.
pub proof fn prune_keeps_order(weak: Seq<bool>, weak_cap: nat, max: nat)
    requires
        weak.len() <= usize::MAX,
    ensures
        ({
            let k = kept(weak, weak_cap, max);
            &&& forall|a: int, b: int| 0 <= a < b < k.len() ==> k[a] < k[b]
            &&& forall|a: int| 0 <= a < k.len() ==> k[a] < weak.len()
        }),
{
    lemma_survivors(weak, weak_cap, max, weak.len() as int);
}

/// At most `max` entries remain; fewer only when the weak pass alone got
/// below `max`.
pub proof fn prune_fits(weak: Seq<bool>, weak_cap: nat, max: nat)
    requires
        weak.len() <= usize::MAX,
    ensures
        kept(weak, weak_cap, max).len() == if weak.len() - weak_dropped(weak, weak_cap, max)
            <= max {
            (weak.len() - weak_dropped(weak, weak_cap, max)) as nat
        } else {
            max
        },
{
    lemma_survivors(weak, weak_cap, max, weak.len() as int);
}

/// At most `weak_cap` of the kept entries are weak.
pub proof fn prune_caps_weak(weak: Seq<bool>, weak_cap: nat, max: nat)
    requires
        weak.len() <= usize::MAX,
    ensures
        weak_among(weak, kept(weak, weak_cap, max)) <= weak_cap,
{
    let n = weak.len() as int;
    lemma_survivors(weak, weak_cap, max, n);
    let s = survivors(weak, weak_cap, max, n);
    let d = if s.len() > max {
        (s.len() - max) as int
    } else {
        0
    };
    assert(s =~= s.take(d) + s.skip(d));
    lemma_weak_among_append(weak, s.take(d), s.skip(d));
}

/// A strong entry is dropped only when no weak entry is kept.
pub proof fn prune_drops_weak_first(weak: Seq<bool>, weak_cap: nat, max: nat)
    requires
        weak.len() <= usize::MAX,
    ensures
        forall|i: int|
            0 <= i < weak.len() && !weak[i] && !kept(weak, weak_cap, max).contains(i as usize)
                ==> weak_among(weak, kept(weak, weak_cap, max)) == 0,
{
    let n = weak.len() as int;
    lemma_survivors(weak, weak_cap, max, n);
    let s = survivors(weak, weak_cap, max, n);
    let d = if s.len() > max {
        (s.len() - max) as int
    } else {
        0
    };
    assert(s =~= s.take(d) + s.skip(d));
    lemma_weak_among_append(weak, s.take(d), s.skip(d));
    assert forall|i: int|
        0 <= i < weak.len() && !weak[i] && !kept(weak, weak_cap, max).contains(
            i as usize,
        ) implies weak_among(weak, kept(weak, weak_cap, max)) == 0 by {
        assert(survives(weak, weak_cap, max, i));
        assert(s.contains(i as usize));
        if d == 0 {
            assert(s.skip(0) =~= s);
        }
    }
}

/// Weak entries are dropped oldest first.
pub proof fn prune_drops_oldest_weak_first(weak: Seq<bool>, weak_cap: nat, max: nat)
    requires
        weak.len() <= usize::MAX,
    ensures
        forall|i: int, j: int|
            0 <= i < weak.len() && 0 <= j < weak.len() && weak[i] && weak[j] && !kept(
                weak,
                weak_cap,
                max,
            ).contains(i as usize) && kept(weak, weak_cap, max).contains(j as usize) ==> i < j,
{
    let n = weak.len() as int;
    lemma_survivors(weak, weak_cap, max, n);
    let s = survivors(weak, weak_cap, max, n);
    let k = kept(weak, weak_cap, max);
    let d = if s.len() > max {
        (s.len() - max) as int
    } else {
        0
    };
    let dr = weak_dropped(weak, weak_cap, max);
    assert forall|i: int, j: int|
        0 <= i < weak.len() && 0 <= j < weak.len() && weak[i] && weak[j] && !k.contains(
            i as usize,
        ) && k.contains(j as usize) implies i < j by {
        let b = choose|b: int| 0 <= b < k.len() && k[b] == j as usize;
        assert(s[b + d] == j as usize);
        assert(s.contains(j as usize));
        assert(survives(weak, weak_cap, max, j));
        assert(weak_before(weak, j) >= dr);
        lemma_weak_before_mono(weak, j + 1, n);
        lemma_weak_before_mono(weak, i + 1, n);
        assert(weak_before(weak, i) + 1 <= weak_total(weak));
        if !s.contains(i as usize) {
            assert(!survives(weak, weak_cap, max, i));
            assert(weak_before(weak, i) < dr);
            if j <= i {
                lemma_weak_before_mono(weak, j, i);
            }
        } else {
            assert(survives(weak, weak_cap, max, i));
            if d == 0 {
                assert(s.skip(0) =~= s);
                assert(k.contains(i as usize));
            }
            assert(d > 0);
            assert(s.len() == n - dr);
            assert(dr == weak_total(weak));
        }
    }
}

/// With room for everything and few enough weak entries, nothing is dropped.
pub proof fn prune_leaves_small_sets_alone(weak: Seq<bool>, weak_cap: nat, max: nat)
    requires
        weak.len() <= max,
        weak_total(weak) <= weak_cap,
        weak.len() <= usize::MAX,
    ensures
        kept(weak, weak_cap, max) =~= Seq::new(weak.len(), |i: int| i as usize),
{
    let n = weak.len() as int;
    lemma_survivors(weak, weak_cap, max, n);
    let s = survivors(weak, weak_cap, max, n);
    assert(s.skip(0) =~= s);
    assert forall|a: int| 0 <= a < n implies s[a] == a as usize by {
        lemma_sorted_dense(s, n, a);
    }
}

proof fn lemma_sorted_dense(s: Seq<usize>, n: int, a: int)
    requires
        s.len() == n,
        forall|x: int, y: int| 0 <= x < y < s.len() ==> s[x] < s[y],
        forall|x: int| 0 <= x < s.len() ==> s[x] < n,
        0 <= a < n,
    ensures
        s[a] == a,
    decreases n - a,
{
    lemma_sorted_above_index(s, a);
    if a + 1 < n {
        lemma_sorted_dense(s, n, a + 1);
    }
}

proof fn lemma_sorted_above_index(s: Seq<usize>, a: int)
    requires
        forall|x: int, y: int| 0 <= x < y < s.len() ==> s[x] < s[y],
        0 <= a < s.len(),
    ensures
        s[a] >= a,
    decreases a,
{
    if a > 0 {
        lemma_sorted_above_index(s, a - 1);
    }
}

proof fn lemma_weak_before_mono(w: Seq<bool>, a: int, b: int)
    requires
        a <= b,
    ensures
        weak_before(w, a) <= weak_before(w, b),
    decreases b - a,
{
    if a < b {
        lemma_weak_before_mono(w, a, b - 1);
    }
}

/// Exactly as many weak entries are dropped as the weak cap and the size
/// limit call for, and no more: the larger of the weak entries over the cap
/// and the entries over `max`, but never more weak entries than there are.
/// The kept entries number `max`, or all that are left when fewer.
pub proof fn prune_drops_just_enough_weak(weak: Seq<bool>, weak_cap: nat, max: nat)
    requires
        weak.len() <= usize::MAX,
    ensures
        ({
            let w = weak_total(weak);
            let over_cap: int = w - weak_cap;
            let over_max: int = weak.len() - max;
            let need: int = if over_cap > over_max {
                over_cap
            } else {
                over_max
            };
            let dropped: int = if need <= 0 {
                0
            } else if need < w {
                need
            } else {
                w as int
            };
            let k = kept(weak, weak_cap, max);
            &&& w - weak_among(weak, k) == dropped
            &&& k.len() == if weak.len() - dropped <= max {
                weak.len() - dropped
            } else {
                max as int
            }
        }),
{
    let n = weak.len() as int;
    lemma_survivors(weak, weak_cap, max, n);
    let s = survivors(weak, weak_cap, max, n);
    let d = if s.len() > max {
        (s.len() - max) as int
    } else {
        0
    };
    assert(s =~= s.take(d) + s.skip(d));
    lemma_weak_among_append(weak, s.take(d), s.skip(d));
}

} // verus!
