//! Recognising video players among MPRIS bus names.

use crate::text::{chars_of, has_prefix, lowercase, starts_with, to_lowercase};
use vstd::prelude::*;

verus! {

/// Bus-name prefix of MPRIS players.
pub const PREFIX: &'static str = "org.mpris.MediaPlayer2.";

/// The player part of a bus name: what follows the MPRIS prefix, or the
/// whole name when it lacks the prefix.
pub open spec fn player_of(bus_name: Seq<char>) -> Seq<char> {
    if starts_with(bus_name, PREFIX@) {
        bus_name.skip(PREFIX@.len() as int)
    } else {
        bus_name
    }
}

/// Whether a (lowercase) player name starts with one of the known video
/// players.
pub open spec fn names_video_player(player: Seq<char>) -> bool {
    ||| starts_with(player, "mpv"@)
    ||| starts_with(player, "vlc"@)
    ||| starts_with(player, "celluloid"@)
    ||| starts_with(player, "totem"@)
    ||| starts_with(player, "haruna"@)
    ||| starts_with(player, "kodi"@)
    ||| starts_with(player, "jellyfin"@)
    ||| starts_with(player, "clapper"@)
    ||| starts_with(player, "showtime"@)
    ||| starts_with(player, "firefox"@)
    ||| starts_with(player, "chromium"@)
    ||| starts_with(player, "brave"@)
}

/// Whether `player`, already lowercase, names a known video player.
pub fn is_video_player_name(player: &str) -> (b: bool)
    ensures
        b == names_video_player(player@),
{
    let v = chars_of(player);
    has_prefix(&v, "mpv") || has_prefix(&v, "vlc") || has_prefix(&v, "celluloid") || has_prefix(
        &v,
        "totem",
    ) || has_prefix(&v, "haruna") || has_prefix(&v, "kodi") || has_prefix(&v, "jellyfin")
        || has_prefix(&v, "clapper") || has_prefix(&v, "showtime") || has_prefix(&v, "firefox")
        || has_prefix(&v, "chromium") || has_prefix(&v, "brave")
}

/// Whether the MPRIS bus name belongs to a video player: the player part,
/// lowercased, starts with a known player.
pub fn is_video_player(bus_name: &str) -> (b: bool)
    ensures
        b == names_video_player(lowercase(player_of(bus_name@))),
{
    let v = chars_of(bus_name);
    let p = chars_of(PREFIX).len();
    let player = if has_prefix(&v, PREFIX) {
        bus_name.substring_char(p, v.len())
    } else {
        bus_name
    };
    assert(player@ =~= player_of(bus_name@));
    let lower = to_lowercase(player);
    is_video_player_name(lower.as_str())
}

/// Whether a bus name is worth asking for its playback status: an MPRIS
/// player that is a video player.
pub open spec fn worth_asking(bus_name: Seq<char>) -> bool {
    starts_with(bus_name, PREFIX@) && names_video_player(lowercase(player_of(bus_name)))
}

/// The positions, in order, of the bus names worth asking.
pub open spec fn players_among(names: Seq<String>) -> Seq<int>
    decreases names.len(),
{
    if names.len() == 0 {
        Seq::empty()
    } else {
        let rest = players_among(names.drop_last());
        if worth_asking(names.last()@) {
            rest.push(names.len() - 1)
        } else {
            rest
        }
    }
}

/// The positions, in order, of the MPRIS video players among the bus names.
pub fn video_players(names: &[String]) -> (r: Vec<usize>)
    ensures
        r@.map_values(|i: usize| i as int) == players_among(names@),
{
    let mut r: Vec<usize> = Vec::new();
    let mut i: usize = 0;
    while i < names.len()
        invariant
            i <= names@.len(),
            r@.map_values(|k: usize| k as int) == players_among(names@.take(i as int)),
        decreases names@.len() - i,
    {
        let name = names[i].as_str();
        let v = chars_of(name);
        let asked = has_prefix(&v, PREFIX) && is_video_player(name);
        assert(names@.take(i + 1).drop_last() =~= names@.take(i as int));
        let ghost before = r@;
        if asked {
            r.push(i);
            assert(r@.map_values(|k: usize| k as int) =~= before.map_values(|k: usize| k as int).push(
                i as int,
            ));
        }
        i = i + 1;
    }
    assert(names@.take(names@.len() as int) =~= names@);
    r
}

/// A player name that starts with the name of any of the known video players
/// (mpv, vlc, celluloid, totem, haruna, kodi, jellyfin, clapper, showtime,
/// firefox, chromium, brave) is a video player, and nothing else is.
pub proof fn known_players_are_video_players(player: Seq<char>)
    ensures
        starts_with(player, "mpv"@) ==> names_video_player(player),
        starts_with(player, "vlc"@) ==> names_video_player(player),
        starts_with(player, "celluloid"@) ==> names_video_player(player),
        starts_with(player, "totem"@) ==> names_video_player(player),
        starts_with(player, "haruna"@) ==> names_video_player(player),
        starts_with(player, "kodi"@) ==> names_video_player(player),
        starts_with(player, "jellyfin"@) ==> names_video_player(player),
        starts_with(player, "clapper"@) ==> names_video_player(player),
        starts_with(player, "showtime"@) ==> names_video_player(player),
        starts_with(player, "firefox"@) ==> names_video_player(player),
        starts_with(player, "chromium"@) ==> names_video_player(player),
        starts_with(player, "brave"@) ==> names_video_player(player),
        names_video_player(player) ==> {
            ||| starts_with(player, "mpv"@)
            ||| starts_with(player, "vlc"@)
            ||| starts_with(player, "celluloid"@)
            ||| starts_with(player, "totem"@)
            ||| starts_with(player, "haruna"@)
            ||| starts_with(player, "kodi"@)
            ||| starts_with(player, "jellyfin"@)
            ||| starts_with(player, "clapper"@)
            ||| starts_with(player, "showtime"@)
            ||| starts_with(player, "firefox"@)
            ||| starts_with(player, "chromium"@)
            ||| starts_with(player, "brave"@)
        },
{
}

/// An MPRIS bus name whose player part, lowercased, starts with a known video
/// player is recognised; so is a name without the prefix whose lowercase form
/// does.
pub proof fn video_player_bus_names(bus_name: Seq<char>)
    ensures
        starts_with(lowercase(player_of(bus_name)), "chromium"@) ==> names_video_player(
            lowercase(player_of(bus_name)),
        ),
        starts_with(bus_name, PREFIX@) ==> player_of(bus_name) == bus_name.skip(
            PREFIX@.len() as int,
        ),
        !starts_with(bus_name, PREFIX@) ==> player_of(bus_name) == bus_name,
{
    known_players_are_video_players(lowercase(player_of(bus_name)));
}

} // verus!
