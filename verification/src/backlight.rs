//! Backlight devices under `/sys/class/backlight`: which one to drive and
//! how to read its level.

use crate::text::{chars_of, parse_trimmed_u32, parse_u32, trim_window, trimmed, window_is};
use vstd::prelude::*;

verus! {

pub const SYSFS_ROOT: &'static str = "/sys/class/backlight";

#[verifier::external_type_specification]
#[verifier::external_body]
pub struct ExPathBuf(std::path::PathBuf);

/// `PathBuf::clone`: a copy of the path; nothing is claimed of it.
pub assume_specification[ <std::path::PathBuf as Clone>::clone ](
    p: &std::path::PathBuf,
) -> std::path::PathBuf;

#[derive(Debug, Clone, PartialEq)]
pub struct Device {
    pub name: String,
    pub path: std::path::PathBuf,
    pub max: u32,
}

/// The value a sysfs attribute holds: its text, trimmed, as a `u32`.
pub open spec fn reading(text: Option<&str>) -> Option<u32> {
    match text {
        Some(t) => parse_u32(trimmed(t@)),
        None => None,
    }
}

pub open spec fn clamp_level(level: Option<u32>, max: u32) -> Option<u32> {
    match level {
        Some(l) => Some(if l <= max {
            l
        } else {
            max
        }),
        None => None,
    }
}

impl Device {
    /// The current level from the texts of `actual_brightness` and
    /// `brightness` (`None` where a file could not be read): the first that
    /// holds a number, capped at the device maximum.
    pub fn level(&self, actual_brightness: Option<&str>, brightness: Option<&str>) -> (r: Option<
        u32,
    >)
        ensures
            r == clamp_level(
                match reading(actual_brightness) {
                    Some(l) => Some(l),
                    None => reading(brightness),
                },
                self.max,
            ),
    {
        let first = match actual_brightness {
            Some(t) => parse_trimmed_u32(t),
            None => None,
        };
        let level = match first {
            Some(l) => Some(l),
            None => match brightness {
                Some(t) => parse_trimmed_u32(t),
                None => None,
            },
        };
        match level {
            Some(l) => Some(if l <= self.max {
                l
            } else {
                self.max
            }),
            None => None,
        }
    }
}

/// A backlight directory whose maximum could be read, with its `type` text.
pub struct Candidate {
    pub device: Device,
    pub kind: String,
}

/// Preference of a device type: firmware, then platform, then raw, then
/// anything else.
pub open spec fn type_rank(kind: Seq<char>) -> nat {
    let k = trimmed(kind);
    if k == "firmware"@ {
        0
    } else if k == "platform"@ {
        1
    } else if k == "raw"@ {
        2
    } else {
        3
    }
}

pub fn rank_of(kind: &str) -> (r: usize)
    ensures
        r == type_rank(kind@),
{
    let v = chars_of(kind);
    let (a, b) = trim_window(&v, 0, v.len());
    assert(v@.subrange(0, v@.len() as int) =~= v@);
    if window_is(&v, a, b, "firmware") {
        0
    } else if window_is(&v, a, b, "platform") {
        1
    } else if window_is(&v, a, b, "raw") {
        2
    } else {
        3
    }
}

/// A candidate that may be chosen: a nonzero maximum and, when a device is
/// asked for by name, that name.
pub open spec fn eligible(c: Candidate, wanted: Option<&str>) -> bool {
    &&& c.device.max > 0
    &&& match wanted {
        Some(w) => c.device.name@ == w@,
        None => true,
    }
}

/// `a` is strictly preferred to `b`: a better type, or the same type and a
/// finer scale.
pub open spec fn preferred_to(a: Candidate, b: Candidate) -> bool {
    ||| type_rank(a.kind@) < type_rank(b.kind@)
    ||| type_rank(a.kind@) == type_rank(b.kind@) && a.device.max > b.device.max
}

/// The index of the device to drive: the eligible candidate no other
/// eligible one is preferred to, the first such on a tie. `None` when no
/// candidate is eligible.
pub fn choose_device(candidates: &Vec<Candidate>, wanted: Option<&str>) -> (r: Option<usize>)
    ensures
        r is None <==> forall|i: int|
            0 <= i < candidates@.len() ==> !eligible(#[trigger] candidates@[i], wanted),
        r matches Some(i) ==> {
            &&& i < candidates@.len()
            &&& eligible(candidates@[i as int], wanted)
            &&& forall|j: int|
                0 <= j < candidates@.len() && eligible(#[trigger] candidates@[j], wanted)
                    ==> !preferred_to(candidates@[j], candidates@[i as int])
            &&& forall|j: int|
                0 <= j < i && eligible(#[trigger] candidates@[j], wanted) ==> preferred_to(
                    candidates@[i as int],
                    candidates@[j],
                )
        },
{
    let wanted_chars = match wanted {
        Some(w) => Some(chars_of(w)),
        None => None,
    };
    let mut best: Option<usize> = None;
    let mut best_rank: usize = 0;
    for i in 0..candidates.len()
        invariant
            match wanted {
                Some(w) => wanted_chars matches Some(wc) && wc@ == w@,
                None => wanted_chars is None,
            },
            best is None <==> forall|k: int| 0 <= k < i ==> !eligible(#[trigger] candidates@[k], wanted),
            best matches Some(b) ==> {
                &&& b < i
                &&& eligible(candidates@[b as int], wanted)
                &&& best_rank == type_rank(candidates@[b as int].kind@)
                &&& forall|j: int|
                    0 <= j < i && eligible(#[trigger] candidates@[j], wanted)
                        ==> !preferred_to(candidates@[j], candidates@[b as int])
                &&& forall|j: int|
                    0 <= j < b && eligible(#[trigger] candidates@[j], wanted) ==> preferred_to(
                        candidates@[b as int],
                        candidates@[j],
                    )
            },
    {
        let c = &candidates[i];
        let name_ok = match &wanted_chars {
            Some(wc) => {
                let n = chars_of(c.device.name.as_str());
                n.len() == wc.len() && same_chars(&n, wc)
            },
            None => true,
        };
        if c.device.max > 0 && name_ok {
            let rank = rank_of(c.kind.as_str());
            let better = match best {
                None => true,
                Some(b) => rank < best_rank || (rank == best_rank && c.device.max
                    > candidates[b].device.max),
            };
            if better {
                best = Some(i);
                best_rank = rank;
            }
        }
    }
    best
}

fn same_chars(a: &Vec<char>, b: &Vec<char>) -> (r: bool)
    requires
        a@.len() == b@.len(),
    ensures
        r == (a@ == b@),
{
    let mut i: usize = 0;
    while i < a.len()
        invariant
            a@.len() == b@.len(),
            i <= a@.len(),
            forall|j: int| 0 <= j < i ==> a@[j] == b@[j],
        decreases a@.len() - i,
    {
        if a[i] != b[i] {
            return false;
        }
        i = i + 1;
    }
    assert(a@ =~= b@);
    true
}

/// The device types rank strictly in order: firmware before platform before
/// raw before any other type, whatever whitespace surrounds the type's name.
pub proof fn types_rank_in_order(
    firmware: Seq<char>,
    platform: Seq<char>,
    raw: Seq<char>,
    other: Seq<char>,
)
    requires
        trimmed(firmware) == "firmware"@,
        trimmed(platform) == "platform"@,
        trimmed(raw) == "raw"@,
        trimmed(other) != "firmware"@,
        trimmed(other) != "platform"@,
        trimmed(other) != "raw"@,
    ensures
        type_rank(firmware) < type_rank(platform),
        type_rank(platform) < type_rank(raw),
        type_rank(raw) < type_rank(other),
{
    reveal_strlit("firmware");
    reveal_strlit("platform");
    reveal_strlit("raw");
    assert("firmware"@ != "platform"@ && "firmware"@ != "raw"@ && "platform"@ != "raw"@) by {
        assert("firmware"@.len() != "platform"@.len() || "firmware"@[0] != "platform"@[0]);
        assert("firmware"@.len() != "raw"@.len());
        assert("platform"@.len() != "raw"@.len());
    }
}

/// Of two eligible candidates, one typed platform and one typed raw, the
/// platform one is preferred whatever their scales; a firmware one is
/// preferred to both.
pub proof fn platform_beats_raw_whatever_the_scale(
    firmware: Candidate,
    platform: Candidate,
    raw: Candidate,
)
    requires
        trimmed(firmware.kind@) == "firmware"@,
        trimmed(platform.kind@) == "platform"@,
        trimmed(raw.kind@) == "raw"@,
    ensures
        preferred_to(platform, raw),
        !preferred_to(raw, platform),
        preferred_to(firmware, platform),
        preferred_to(firmware, raw),
{
    reveal_strlit("firmware");
    reveal_strlit("platform");
    reveal_strlit("raw");
    assert("firmware"@.len() != "platform"@.len() || "firmware"@[0] != "platform"@[0]);
    assert("firmware"@.len() != "raw"@.len());
    assert("platform"@.len() != "raw"@.len());
}

} // verus!
