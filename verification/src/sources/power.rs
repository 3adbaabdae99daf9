//! What the power supplies of the machine say about mains power.
//!
//! Each supply is a directory of small text files (`type`, `online`, `scope`,
//! ...). The caller reads them; this module decides what they mean.

use crate::text::{trimmed, trimmed_is};
use vstd::prelude::*;

verus! {

/// One power supply, as far as mains power is concerned.
#[derive(Debug, Clone, Copy, PartialEq, Eq, Structural)]
pub enum Supply {
    /// A mains or USB charger, and whether it is plugged in.
    Mains { online: bool },
    /// A battery that powers the machine itself.
    Battery,
    /// Anything else, such as the battery of a wireless mouse.
    Ignored,
}

/// Whether an optional file text, trimmed, is exactly `lit`.
pub open spec fn reads_as(text: Option<&str>, lit: Seq<char>) -> bool {
    text matches Some(t) && trimmed(t@) == lit
}

/// The supply described by the texts of its `type`, `online` and `scope`
/// files (`None` where a file could not be read).
pub open spec fn supply_of(kind: Option<&str>, online: Option<&str>, scope: Option<&str>) -> Supply {
    if reads_as(kind, "Mains"@) || reads_as(kind, "USB"@) {
        Supply::Mains { online: reads_as(online, "1"@) }
    } else if reads_as(kind, "Battery"@) && !reads_as(scope, "Device"@) {
        Supply::Battery
    } else {
        Supply::Ignored
    }
}

fn text_is(text: Option<&str>, lit: &str) -> (b: bool)
    ensures
        b == reads_as(text, lit@),
{
    match text {
        Some(t) => trimmed_is(t, lit),
        None => false,
    }
}

/// Classifies a supply from the texts of its `type`, `online` and `scope` files.
pub fn classify(kind: Option<&str>, online: Option<&str>, scope: Option<&str>) -> (s: Supply)
    ensures
        s == supply_of(kind, online, scope),
{
    if text_is(kind, "Mains") || text_is(kind, "USB") {
        Supply::Mains { online: text_is(online, "1") }
    } else if text_is(kind, "Battery") && !text_is(scope, "Device") {
        Supply::Battery
    } else {
        Supply::Ignored
    }
}

/// Some supply is a charger.
pub open spec fn any_mains(supplies: Seq<Supply>) -> bool {
    exists|i: int| 0 <= i < supplies.len() && supplies[i] is Mains
}

/// Some charger is plugged in.
pub open spec fn any_online(supplies: Seq<Supply>) -> bool {
    exists|i: int| 0 <= i < supplies.len() && supplies[i] == (Supply::Mains { online: true })
}

/// Whether the machine runs on mains power: yes when a charger is plugged in,
/// no when chargers exist but none is. Without any charger it runs on mains
/// exactly when no battery could be read, and nothing is known when there is
/// neither a charger nor a readable battery.
pub open spec fn mains_power(supplies: Seq<Supply>, battery_known: bool) -> Option<bool> {
    if any_mains(supplies) {
        Some(any_online(supplies))
    } else if battery_known {
        Some(false)
    } else {
        None
    }
}

/// Whether the machine runs on mains power, from its supplies and whether the
/// charge of any battery among them could be read.
pub fn on_ac(supplies: &[Supply], battery_known: bool) -> (r: Option<bool>)
    ensures
        r == mains_power(supplies@, battery_known),
{
    let mut mains: Option<bool> = None;
    let mut i: usize = 0;
    while i < supplies.len()
        invariant
            i <= supplies@.len(),
            mains is None <==> !any_mains(supplies@.take(i as int)),
            mains == Some(true) <==> any_online(supplies@.take(i as int)),
        decreases supplies@.len() - i,
    {
        let ghost before = supplies@.take(i as int);
        assert(supplies@.take(i + 1) =~= before.push(supplies@[i as int]));
        match supplies[i] {
            Supply::Mains { online } => {
                if online {
                    mains = Some(true);
                } else if mains.is_none() {
                    mains = Some(false);
                }
            },
            _ => {},
        }
        proof {
            let after = supplies@.take(i + 1);
            assert(after[i as int] == supplies@[i as int]);
            if supplies@[i as int] is Mains {
                assert(after[i as int] is Mains);
            }
            if supplies@[i as int] == (Supply::Mains { online: true }) {
                assert(after[i as int] == (Supply::Mains { online: true }));
            }
            if any_mains(before) {
                let j = choose|j: int| 0 <= j < before.len() && before[j] is Mains;
                assert(after[j] is Mains);
            }
            if any_online(before) {
                let j = choose|j: int|
                    0 <= j < before.len() && before[j] == (Supply::Mains { online: true });
                assert(after[j] == (Supply::Mains { online: true }));
            }
            if any_mains(after) {
                let j = choose|j: int| 0 <= j < after.len() && after[j] is Mains;
                if j < i {
                    assert(before[j] is Mains);
                }
            }
            if any_online(after) {
                let j = choose|j: int|
                    0 <= j < after.len() && after[j] == (Supply::Mains { online: true });
                if j < i {
                    assert(before[j] == (Supply::Mains { online: true }));
                }
            }
        }
        i = i + 1;
    }
    assert(supplies@.take(supplies@.len() as int) =~= supplies@);
    match mains {
        Some(m) => Some(m),
        None => if battery_known {
            Some(false)
        } else {
            None
        },
    }
}

} // verus!
