//! A small xorshift generator, with an integer-exact `below` and a
//! Fisher–Yates `shuffle` built on it.

use vstd::arithmetic::power2::*;
use vstd::prelude::*;

verus! {

/// Multiplier applied to the seed (the 64-bit golden ratio).
pub const SEED_MULTIPLIER: u64 = 0x9e37_79b9_7f4a_7c15;

/// Multiplier applied to the xorshift state to form each output.
pub const OUTPUT_MULTIPLIER: u64 = 0x2545_f491_4f6c_dd1d;

/// 2^53, the scale of the uniform values in `[0, 1)` the generator produces.
pub const TWO_POW_53: u128 = 0x20_0000_0000_0000;

/// The state a generator seeded with `seed` starts from: never zero.
pub open spec fn seed_state(seed: u64) -> u64 {
    seed.wrapping_mul(SEED_MULTIPLIER) | 1
}

/// One xorshift step (shifts 12, 25, 27).
pub open spec fn xorshift(s: u64) -> u64 {
    let a = s ^ (s >> 12u64);
    let b = a ^ (a << 25u64);
    b ^ (b >> 27u64)
}

/// The value handed out for a state that has just been stepped.
pub open spec fn output(s: u64) -> u64 {
    s.wrapping_mul(OUTPUT_MULTIPLIER)
}

/// Number of binary digits of `v` (0 for 0).
pub open spec fn bit_len(v: nat) -> nat
    decreases v,
{
    if v == 0 {
        0
    } else {
        1 + bit_len(v / 2)
    }
}

/// The double-precision value nearest to the whole number `v`, ties going
/// to an even significand: IEEE 754 round-to-nearest with 53 significant bits.
pub open spec fn nearest_double(v: nat) -> nat {
    if bit_len(v) <= 53 {
        v
    } else {
        let unit = pow2((bit_len(v) - 53) as nat);
        let q = v / unit;
        let rem = v % unit;
        let up = rem * 2 > unit || (rem * 2 == unit && q % 2 == 1);
        (if up {
            q + 1
        } else {
            q
        }) * unit
    }
}

/// What `below(n)` returns for the raw output `x`: the uniform value
/// `(x >> 11) / 2^53` times `n`, both as doubles, the product rounded to a
/// double, truncated to an integer (saturating at `usize::MAX`) and reduced
/// modulo `max(n, 1)`.
pub open spec fn below_of(x: u64, n: nat) -> nat {
    let m = (x >> 11u64) as nat;
    let t = nearest_double(m * nearest_double(n)) / pow2(53);
    let k = if t > usize::MAX {
        usize::MAX as nat
    } else {
        t
    };
    k % (if n == 0 {
        1
    } else {
        n
    })
}

/// `s` with the items at `i` and `j` exchanged.
pub open spec fn swapped<T>(s: Seq<T>, i: int, j: int) -> Seq<T> {
    s.update(i, s[j]).update(j, s[i])
}

/// Fisher–Yates from index `i` down to 1: the items and generator state after
/// swapping each index `k` with `below(k + 1)`.
pub open spec fn fisher_yates<T>(s: Seq<T>, state: u64, i: nat) -> (Seq<T>, u64)
    decreases i,
{
    if i == 0 {
        (s, state)
    } else {
        let next = xorshift(state);
        let j = below_of(output(next), i + 1);
        fisher_yates(swapped(s, i as int, j as int), next, (i - 1) as nat)
    }
}

/// What `shuffle` leaves: the items and the generator state.
pub open spec fn shuffled<T>(s: Seq<T>, state: u64) -> (Seq<T>, u64) {
    if s.len() == 0 {
        (s, state)
    } else {
        fisher_yates(s, state, (s.len() - 1) as nat)
    }
}

/// Xorshift generator; its state is never zero.
#[derive(Debug)]
pub struct Rng(u64);

impl Clone for Rng {
    fn clone(&self) -> (r: Self)
        ensures
            r@ == self@,
    {
        proof {
            use_type_invariant(self);
        }
        Rng(self.0)
    }
}

impl View for Rng {
    type V = u64;

    closed spec fn view(&self) -> u64 {
        self.0
    }
}

impl Rng {
    #[verifier::type_invariant]
    closed spec fn nonzero(self) -> bool {
        self.0 != 0
    }

    pub fn new(seed: u64) -> (r: Self)
        ensures
            r@ == seed_state(seed),
            r@ != 0,
    {
        let s = seed.wrapping_mul(SEED_MULTIPLIER) | 1;
        assert(s != 0) by (bit_vector)
            requires
                s == seed.wrapping_mul(SEED_MULTIPLIER) | 1,
        ;
        Rng(s)
    }

    pub fn next_u64(&mut self) -> (r: u64)
        ensures
            final(self)@ == xorshift(old(self)@),
            final(self)@ != 0,
            r == output(final(self)@),
    {
        proof {
            use_type_invariant(&*self);
        }
        let s = self.0;
        let a = s ^ (s >> 12);
        let b = a ^ (a << 25);
        let c = b ^ (b >> 27);
        proof {
            xorshift_keeps_state_nonzero(s);
        }
        self.0 = c;
        c.wrapping_mul(OUTPUT_MULTIPLIER)
    }

    /// A value in `0..n` (0 when `n` is 0), from one step of the generator.
    pub fn below(&mut self, n: usize) -> (r: usize)
        ensures
            final(self)@ == xorshift(old(self)@),
            r == below_of(output(final(self)@), n as nat),
            n > 0 ==> r < n,
            n == 0 ==> r == 0,
    {
        proof {
            lemma_pow2_constants();
        }
        let x = self.next_u64();
        let m = x >> 11;
        assert(m <= 0x1f_ffff_ffff_ffff) by (bit_vector)
            requires
                m == x >> 11u64,
        ;
        let nf = nearest_double_u128(n as u128);
        proof {
            lemma_nearest_double_u64(n as nat);
            lemma2_to64();
            lemma2_to64_rest();
            assert(m * nf <= 0x1f_ffff_ffff_ffff * 0x1_0000_0000_0000_0000) by (nonlinear_arith)
                requires
                    m <= 0x1f_ffff_ffff_ffff,
                    nf <= 0x1_0000_0000_0000_0000,
            ;
        }
        let product = nearest_double_u128((m as u128) * nf);
        let t = product / TWO_POW_53;
        proof {
            lemma2_to64();
            assert(pow2(53) == TWO_POW_53) by {
                lemma_pow2_adds(48, 5);
                lemma2_to64_rest();
            }
        }
        let k: usize = if t > usize::MAX as u128 {
            usize::MAX
        } else {
            t as usize
        };
        let modulus: usize = if n == 0 {
            1
        } else {
            n
        };
        k % modulus
    }

    /// Shuffles `items` in place (Fisher–Yates, from the last index down).
    pub fn shuffle<T>(&mut self, items: &mut [T])
        ensures
            (final(items)@, final(self)@) == shuffled(old(items)@, old(self)@),
            final(items)@.to_multiset() =~= old(items)@.to_multiset(),
    {
        let ghost start = (items@, self@);
        let len = items.len();
        if len == 0 {
            return;
        }
        let mut i = len - 1;
        while i > 0
            invariant
                i < len,
                items@.len() == len,
                fisher_yates(items@, self@, i as nat) == fisher_yates(start.0, start.1, (len - 1) as nat),
                items@.to_multiset() =~= start.0.to_multiset(),
            decreases i,
        {
            let ghost before = items@;
            let j = self.below(i + 1);
            swap_items(items, i, j);
            proof {
                lemma_swap_to_multiset(before, i as int, j as int);
            }
            i = i - 1;
        }
    }
}

/// `<[T]>::swap`: exchanges the items at `i` and `j` (both in bounds).
#[verifier::external_body]
fn swap_items<T>(items: &mut [T], i: usize, j: usize)
    requires
        i < old(items)@.len(),
        j < old(items)@.len(),
    ensures
        final(items)@ == swapped(old(items)@, i as int, j as int),
{
    items.swap(i, j);
}

/// Nearest double to a whole number below 2^117, computed exactly.
fn nearest_double_u128(v: u128) -> (r: u128)
    requires
        v < pow2(117),
    ensures
        r == nearest_double(v as nat),
        r <= pow2(117),
{
    proof {
        lemma_bit_len_bound(v as nat, 117);
        lemma_nearest_double_bound(v as nat);
        if bit_len(v as nat) < 117 {
            lemma_pow2_strictly_increases(bit_len(v as nat), 117);
        }
    }
    let mut len: u32 = 0;
    let mut t = v;
    while t > 0
        invariant
            bit_len(v as nat) == len + bit_len(t as nat),
            bit_len(v as nat) <= 117,
        decreases t,
    {
        t = t / 2;
        len = len + 1;
    }
    if len <= 53 {
        return v;
    }
    let e = len - 53;
    let mut unit: u128 = 1;
    let mut i: u32 = 0;
    proof {
        lemma2_to64();
    }
    while i < e
        invariant
            i <= e,
            e <= 64,
            unit == pow2(i as nat),
        decreases e - i,
    {
        proof {
            lemma_pow2_unfold((i + 1) as nat);
            if i + 1 < 64 {
                lemma_pow2_strictly_increases((i + 1) as nat, 64);
            }
            lemma2_to64_rest();
        }
        unit = unit * 2;
        i = i + 1;
    }
    proof {
        lemma_pow2_pos(e as nat);
        lemma_pow2_adds(53, e as nat);
        lemma_bit_len_pos(v as nat);
        lemma2_to64_rest();
        let p53 = pow2(53);
        assert(v < p53 * unit);
        assert(v / unit < p53) by (nonlinear_arith)
            requires
                v < p53 * unit,
                unit > 0,
        ;
        assert((v / unit + 1) * unit <= p53 * unit) by (nonlinear_arith)
            requires
                v / unit < p53,
                unit > 0,
        ;
    }
    let q = v / unit;
    let rem = v % unit;
    let up = rem * 2 > unit || (rem * 2 == unit && q % 2 == 1);
    if up {
        (q + 1) * unit
    } else {
        q * unit
    }
}

/// A positive number lies between the powers of two around its bit length.
proof fn lemma_bit_len_pos(v: nat)
    requires
        v > 0,
    ensures
        bit_len(v) >= 1,
        pow2((bit_len(v) - 1) as nat) <= v < pow2(bit_len(v)),
    decreases v,
{
    if v / 2 > 0 {
        lemma_bit_len_pos(v / 2);
        assert(bit_len(v) == 1 + bit_len(v / 2));
        lemma_pow2_unfold(bit_len(v / 2));
        lemma_pow2_unfold(bit_len(v));
    } else {
        assert(v == 1);
        assert(bit_len(0) == 0);
        assert(bit_len(1) == 1 + bit_len(0));
        lemma2_to64();
    }
}

/// A number below 2^k has at most k binary digits.
proof fn lemma_bit_len_bound(v: nat, k: nat)
    requires
        v < pow2(k),
    ensures
        bit_len(v) <= k,
{
    if v > 0 {
        lemma_bit_len_pos(v);
        if bit_len(v) > k {
            if (bit_len(v) - 1) as nat > k {
                lemma_pow2_strictly_increases(k, (bit_len(v) - 1) as nat);
            }
        }
    }
}

/// Rounding never goes past the next power of two.
proof fn lemma_nearest_double_bound(v: nat)
    ensures
        nearest_double(v) <= pow2(bit_len(v)),
{
    if bit_len(v) <= 53 {
        if v > 0 {
            lemma_bit_len_pos(v);
        } else {
            lemma_pow2_pos(0);
        }
    } else {
        lemma_bit_len_pos(v);
        let e = (bit_len(v) - 53) as nat;
        let unit = pow2(e);
        lemma_pow2_pos(e);
        lemma_pow2_adds(53, e);
        let p53 = pow2(53);
        assert(v < p53 * unit);
        assert(v / unit < p53) by (nonlinear_arith)
            requires
                v < p53 * unit,
                unit > 0,
        ;
        assert((v / unit + 1) * unit <= p53 * unit) by (nonlinear_arith)
            requires
                v / unit < p53,
                unit > 0,
        ;
        assert((v / unit) * unit <= (v / unit + 1) * unit) by (nonlinear_arith)
            requires
                unit > 0,
        ;
    }
}

proof fn lemma_pow2_constants()
    ensures
        pow2(53) == TWO_POW_53,
        pow2(64) == 0x1_0000_0000_0000_0000,
        pow2(117) == 0x20_0000_0000_0000 * 0x1_0000_0000_0000_0000,
{
    lemma2_to64();
    lemma2_to64_rest();
    lemma_pow2_adds(53, 64);
}

proof fn lemma_nearest_double_u64(n: nat)
    requires
        n < pow2(64),
    ensures
        nearest_double(n) <= pow2(64),
{
    lemma_bit_len_bound(n, 64);
    lemma_nearest_double_bound(n);
    if bit_len(n) < 64 {
        lemma_pow2_strictly_increases(bit_len(n), 64);
    }
}

proof fn lemma_update_to_multiset<T>(s: Seq<T>, i: int, v: T)
    requires
        0 <= i < s.len(),
    ensures
        s.update(i, v).to_multiset() =~= s.to_multiset().remove(s[i]).insert(v),
{
    broadcast use vstd::seq_lib::group_to_multiset_ensures, vstd::multiset::group_multiset_axioms;

    let t = s.update(i, v);
    assert(t.remove(i) =~= s.remove(i));
    assert(t[i] == v);
    assert(t.contains(v));
    assert(t.to_multiset().count(v) > 0);
    assert(t.to_multiset() =~= t.to_multiset().remove(v).insert(v));
}

proof fn lemma_swap_to_multiset<T>(s: Seq<T>, i: int, j: int)
    requires
        0 <= i < s.len(),
        0 <= j < s.len(),
    ensures
        swapped(s, i, j).to_multiset() =~= s.to_multiset(),
{
    broadcast use vstd::seq_lib::group_to_multiset_ensures, vstd::multiset::group_multiset_axioms;

    let u = s.update(i, s[j]);
    lemma_update_to_multiset(s, i, s[j]);
    lemma_update_to_multiset(u, j, s[i]);
    assert(s.contains(s[i]));
    assert(s.to_multiset().count(s[i]) > 0);
    if i == j {
        assert(swapped(s, i, j) =~= s);
    } else {
        assert(u[j] == s[j]);
    }
}

/// A step never takes a nonzero state to zero, so a generator, whose first
/// state is odd, never gets stuck at zero.
pub proof fn xorshift_keeps_state_nonzero(s: u64)
    requires
        s != 0,
    ensures
        xorshift(s) != 0,
{
    let a = s ^ (s >> 12u64);
    let b = a ^ (a << 25u64);
    let c = b ^ (b >> 27u64);
    assert(s != 0 ==> a != 0) by (bit_vector)
        requires
            a == s ^ (s >> 12u64),
    ;
    assert(a != 0 ==> b != 0) by (bit_vector)
        requires
            b == a ^ (a << 25u64),
    ;
    assert(b != 0 ==> c != 0) by (bit_vector)
        requires
            c == b ^ (b >> 27u64),
    ;
}

/// The first `k` values a generator in state `state` hands out.
pub open spec fn stream(state: u64, k: nat) -> Seq<u64>
    decreases k,
{
    if k == 0 {
        Seq::empty()
    } else {
        seq![output(xorshift(state))] + stream(xorshift(state), (k - 1) as nat)
    }
}

/// Generators made from the same seed hand out the same values, and each
/// value in turn is the next one of `stream`.
pub proof fn same_seed_same_stream(a: u64, b: u64, k: nat)
    requires
        a == b,
    ensures
        stream(seed_state(a), k) == stream(seed_state(b), k),
        stream(seed_state(a), k).len() == k,
        k > 0 ==> stream(seed_state(a), k)[0] == output(xorshift(seed_state(a))),
{
    lemma_stream_len(seed_state(a), k);
}

proof fn lemma_stream_len(state: u64, k: nat)
    ensures
        stream(state, k).len() == k,
    decreases k,
{
    if k > 0 {
        lemma_stream_len(xorshift(state), (k - 1) as nat);
    }
}

} // verus!
