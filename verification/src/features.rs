//! Layout of the feature vector and the names and hash buckets behind it.

use crate::text::{decimal, decimal_string, lowercase, to_lowercase};
use vstd::prelude::*;
use vstd::string::StringSliceAdditionalSpecFns;
use vstd::utf8::encode_utf8;

verus! {

pub const DIM: usize = 36;
pub const APP_BUCKETS: usize = 16;
pub const NETWORK_BUCKETS: usize = 8;
pub const LUX: usize = 0;
pub const SCREEN_LUMA: usize = 3;
pub const APP_OFFSET: usize = 12;
pub const NETWORK_OFFSET: usize = 28;

pub const FNV_OFFSET_BASIS: u64 = 0xcbf2_9ce4_8422_2325;
pub const FNV_PRIME: u64 = 0x0100_0000_01b3;

/// Names of the features before the app and network groups.
pub open spec fn signal_name(i: nat) -> Seq<char> {
    if i == 0 {
        "room light"@
    } else if i == 1 {
        "sun elevation"@
    } else if i == 2 {
        "clear-sky index"@
    } else if i == 3 {
        "screen luma"@
    } else if i == 4 {
        "bright screen area"@
    } else if i == 5 {
        "time of day (sin)"@
    } else if i == 6 {
        "time of day (cos)"@
    } else if i == 7 {
        "on AC"@
    } else if i == 8 {
        "battery"@
    } else if i == 9 {
        "night light"@
    } else if i == 10 {
        "video playing"@
    } else {
        "fullscreen"@
    }
}

/// The readable name of feature `index`.
pub open spec fn feature_name(index: nat) -> Seq<char> {
    if index < APP_OFFSET {
        signal_name(index)
    } else if index < NETWORK_OFFSET {
        "app group "@ + decimal((index - APP_OFFSET) as nat)
    } else {
        "network group "@ + decimal((index - NETWORK_OFFSET) as nat)
    }
}

pub fn name(index: usize) -> (r: String)
    ensures
        r@ == feature_name(index as nat),
{
    if index < APP_OFFSET {
        let s = match index {
            0 => "room light",
            1 => "sun elevation",
            2 => "clear-sky index",
            3 => "screen luma",
            4 => "bright screen area",
            5 => "time of day (sin)",
            6 => "time of day (cos)",
            7 => "on AC",
            8 => "battery",
            9 => "night light",
            10 => "video playing",
            _ => "fullscreen",
        };
        String::from_str(s)
    } else if index < NETWORK_OFFSET {
        String::from_str("app group ").concat(decimal_string(index - APP_OFFSET).as_str())
    } else {
        String::from_str("network group ").concat(decimal_string(index - NETWORK_OFFSET).as_str())
    }
}

/// The little-endian bytes of `x`.
pub open spec fn le_bytes(x: u64) -> Seq<u8> {
    seq![
        x as u8,
        (x >> 8u64) as u8,
        (x >> 16u64) as u8,
        (x >> 24u64) as u8,
        (x >> 32u64) as u8,
        (x >> 40u64) as u8,
        (x >> 48u64) as u8,
        (x >> 56u64) as u8,
    ]
}

/// 64-bit FNV-1a over `bytes`, starting from hash `h`.
pub open spec fn fnv1a(h: u64, bytes: Seq<u8>) -> u64
    decreases bytes.len(),
{
    if bytes.len() == 0 {
        h
    } else {
        fnv1a((h ^ (bytes[0] as u64)).wrapping_mul(FNV_PRIME), bytes.drop_first())
    }
}

/// The bucket of `text` (as UTF-8 bytes) under `salt`: FNV-1a of the salt's
/// little-endian bytes followed by the text, modulo `buckets`.
pub open spec fn bucket_of(salt: u64, text: Seq<u8>, buckets: nat) -> nat {
    fnv1a(FNV_OFFSET_BASIS, le_bytes(salt) + text) as nat % buckets
}

pub fn bucket(salt: u64, text: &str, buckets: usize) -> (r: usize)
    requires
        buckets > 0,
    ensures
        r == bucket_of(salt, text.spec_bytes(), buckets as nat),
        r < buckets,
{
    let text_bytes = text.as_bytes();
    let salt_bytes: [u8; 8] = [
        salt as u8,
        (salt >> 8) as u8,
        (salt >> 16) as u8,
        (salt >> 24) as u8,
        (salt >> 32) as u8,
        (salt >> 40) as u8,
        (salt >> 48) as u8,
        (salt >> 56) as u8,
    ];
    let ghost all = le_bytes(salt) + text_bytes@;
    assert(salt_bytes@ =~= le_bytes(salt));
    let mut hash: u64 = FNV_OFFSET_BASIS;
    assert(all.skip(0) =~= all);
    for k in 0..8
        invariant
            all == le_bytes(salt) + text_bytes@,
            salt_bytes@ == le_bytes(salt),
            fnv1a(FNV_OFFSET_BASIS, all) == fnv1a(hash, all.skip(k as int)),
    {
        assert(all.skip(k as int).drop_first() =~= all.skip(k + 1));
        assert(all.skip(k as int)[0] == salt_bytes@[k as int]);
        hash = (hash ^ (salt_bytes[k] as u64)).wrapping_mul(FNV_PRIME);
    }
    let n = text_bytes.len();
    for k in 0..n
        invariant
            n == text_bytes@.len(),
            all == le_bytes(salt) + text_bytes@,
            fnv1a(FNV_OFFSET_BASIS, all) == fnv1a(hash, all.skip(8 + k)),
    {
        assert(all.skip(8 + k).drop_first() =~= all.skip(8 + k + 1));
        assert(all.skip(8 + k)[0] == text_bytes@[k as int]);
        hash = (hash ^ (text_bytes[k] as u64)).wrapping_mul(FNV_PRIME);
    }
    assert(all.skip(8 + n).len() == 0);
    (hash % (buckets as u64)) as usize
}

/// The feature that is set for the active app: an app group slot chosen by
/// the salted bucket of the app class, lowercased.
pub open spec fn app_slot_of(salt: u64, class: Seq<char>) -> nat {
    APP_OFFSET as nat + bucket_of(salt, encode_utf8(lowercase(class)), APP_BUCKETS as nat)
}

/// The feature that is set for the known network: a network group slot
/// chosen by the salted bucket of the network's name.
pub open spec fn network_slot_of(salt: u64, network: Seq<char>) -> nat {
    NETWORK_OFFSET as nat + bucket_of(salt, encode_utf8(network), NETWORK_BUCKETS as nat)
}

pub fn app_slot(salt: u64, class: &str) -> (i: usize)
    ensures
        i == app_slot_of(salt, class@),
{
    let lower = to_lowercase(class);
    APP_OFFSET + bucket(salt, lower.as_str(), APP_BUCKETS)
}

pub fn network_slot(salt: u64, network: &str) -> (i: usize)
    ensures
        i == network_slot_of(salt, network@),
{
    NETWORK_OFFSET + bucket(salt, network, NETWORK_BUCKETS)
}

/// The app and network features are one-hot groups that lie after the
/// plain signals, apart from each other and inside the vector, whatever the
/// salt, app class or network.
pub proof fn slots_are_disjoint_groups(salt: u64, class: Seq<char>, network: Seq<char>)
    ensures
        APP_OFFSET <= app_slot_of(salt, class) < APP_OFFSET + APP_BUCKETS,
        APP_OFFSET + APP_BUCKETS == NETWORK_OFFSET,
        NETWORK_OFFSET <= network_slot_of(salt, network) < NETWORK_OFFSET + NETWORK_BUCKETS,
        NETWORK_OFFSET + NETWORK_BUCKETS == DIM,
{
}

/// App classes that differ only in case share their feature.
pub proof fn app_slot_ignores_case(salt: u64, a: Seq<char>, b: Seq<char>)
    requires
        lowercase(a) == lowercase(b),
    ensures
        app_slot_of(salt, a) == app_slot_of(salt, b),
{
}

/// One FNV-1a step.
proof fn lemma_fnv1a_push(h: u64, bytes: Seq<u8>, c: u8)
    ensures
        fnv1a(h, bytes.push(c)) == (fnv1a(h, bytes) ^ (c as u64)).wrapping_mul(FNV_PRIME),
    decreases bytes.len(),
{
    let next = (h ^ (bytes.push(c)[0] as u64)).wrapping_mul(FNV_PRIME);
    assert(fnv1a(h, bytes.push(c)) == fnv1a(next, bytes.push(c).drop_first()));
    if bytes.len() > 0 {
        assert(bytes.push(c)[0] == bytes[0]);
        assert(bytes.push(c).drop_first() =~= bytes.drop_first().push(c));
        assert(fnv1a(h, bytes) == fnv1a(next, bytes.drop_first()));
        lemma_fnv1a_push(next, bytes.drop_first(), c);
    } else {
        assert(bytes.push(c).drop_first() =~= Seq::<u8>::empty());
        assert(fnv1a(h, bytes) == h);
        assert(fnv1a(next, Seq::<u8>::empty()) == next);
    }
}

/// Every byte of the text goes into the hash. With `buckets` at 2^64 a
/// bucket is the whole 64-bit hash: for the empty text it is FNV-1a over the
/// salt's little-endian bytes, and appending a byte `c` to a text of any
/// length takes the hash `h` to `(h ^ c) * FNV_PRIME`, wrapping; any bucket
/// count then takes that hash modulo the count.
pub proof fn bucket_hashes_every_byte(salt: u64, text: Seq<u8>, c: u8, buckets: nat)
    requires
        buckets > 0,
    ensures
        bucket_of(salt, Seq::empty(), 0x1_0000_0000_0000_0000) == fnv1a(
            FNV_OFFSET_BASIS,
            le_bytes(salt),
        ) as nat,
        bucket_of(salt, text.push(c), 0x1_0000_0000_0000_0000) == ((bucket_of(
            salt,
            text,
            0x1_0000_0000_0000_0000,
        ) as u64 ^ (c as u64)).wrapping_mul(FNV_PRIME)) as nat,
        bucket_of(salt, text, buckets) == bucket_of(salt, text, 0x1_0000_0000_0000_0000)
            % buckets,
{
    assert(le_bytes(salt) + Seq::<u8>::empty() =~= le_bytes(salt));
    assert(le_bytes(salt) + text.push(c) =~= (le_bytes(salt) + text).push(c));
    lemma_fnv1a_push(FNV_OFFSET_BASIS, le_bytes(salt) + text, c);
}

/// The salt goes into the hash as its eight bytes, least significant first,
/// and the hash is 64-bit FNV-1a with its standard offset basis and prime.
pub proof fn salt_bytes_are_little_endian(salt: u64)
    ensures
        FNV_OFFSET_BASIS == 14695981039346656037u64,
        FNV_PRIME == 1099511628211u64,
        le_bytes(salt).len() == 8,
        le_bytes(salt)[0] == salt % 0x100,
        le_bytes(salt)[1] == salt / 0x100 % 0x100,
        le_bytes(salt)[2] == salt / 0x1_0000 % 0x100,
        le_bytes(salt)[3] == salt / 0x100_0000 % 0x100,
        le_bytes(salt)[4] == salt / 0x1_0000_0000 % 0x100,
        le_bytes(salt)[5] == salt / 0x100_0000_0000 % 0x100,
        le_bytes(salt)[6] == salt / 0x1_0000_0000_0000 % 0x100,
        le_bytes(salt)[7] == salt / 0x100_0000_0000_0000 % 0x100,
{
    assert(salt as u8 == salt % 0x100) by (bit_vector);
    assert((salt >> 8u64) as u8 == salt / 0x100 % 0x100) by (bit_vector);
    assert((salt >> 16u64) as u8 == salt / 0x1_0000 % 0x100) by (bit_vector);
    assert((salt >> 24u64) as u8 == salt / 0x100_0000 % 0x100) by (bit_vector);
    assert((salt >> 32u64) as u8 == salt / 0x1_0000_0000 % 0x100) by (bit_vector);
    assert((salt >> 40u64) as u8 == salt / 0x100_0000_0000 % 0x100) by (bit_vector);
    assert((salt >> 48u64) as u8 == salt / 0x1_0000_0000_0000 % 0x100) by (bit_vector);
    assert((salt >> 56u64) as u8 == salt / 0x100_0000_0000_0000 % 0x100) by (bit_vector);
}

} // verus!
