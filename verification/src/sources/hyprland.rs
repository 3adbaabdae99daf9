//! Lines of Hyprland's event socket and its active-window reply.

use crate::text::{
    chars_of, find, find_in_window, lemma_find_from, occurs_at, trim_window, trimmed, window_is,
};
use vstd::prelude::*;

verus! {

/// What a Hyprland event tells the daemon.
#[derive(Debug, Clone, PartialEq)]
pub enum WindowEvent {
    /// The focused window's class, `None` when it has none.
    ActiveApp(Option<String>),
    Fullscreen(bool),
    /// The whole screen changes (workspace, monitor or window switch).
    BreakMoment,
}

/// A `WindowEvent` with its text as characters.
pub enum WindowSignal {
    ActiveApp(Option<Seq<char>>),
    Fullscreen(bool),
    BreakMoment,
}

impl View for WindowEvent {
    type V = WindowSignal;

    open spec fn view(&self) -> WindowSignal {
        match self {
            WindowEvent::ActiveApp(Some(c)) => WindowSignal::ActiveApp(Some(c@)),
            WindowEvent::ActiveApp(None) => WindowSignal::ActiveApp(None),
            WindowEvent::Fullscreen(b) => WindowSignal::Fullscreen(*b),
            WindowEvent::BreakMoment => WindowSignal::BreakMoment,
        }
    }
}

pub open spec fn views(events: Seq<WindowEvent>) -> Seq<WindowSignal> {
    events.map_values(|e: WindowEvent| e@)
}

/// The class named by an `activewindow` event's data (`class,title`).
pub open spec fn class_of(data: Seq<char>) -> Seq<char> {
    trimmed(
        match find(data, ","@) {
            Some(j) => data.take(j),
            None => data,
        },
    )
}

/// The signals carried by one line of the event socket (`name>>data`).
pub open spec fn line_events(line: Seq<char>) -> Seq<WindowSignal> {
    match find(line, ">>"@) {
        None => seq![],
        Some(i) => {
            let name = line.take(i);
            let data = line.skip(i + 2);
            if name == "activewindow"@ {
                let class = class_of(data);
                seq![
                    WindowSignal::ActiveApp(if class.len() > 0 {
                        Some(class)
                    } else {
                        None
                    }),
                    WindowSignal::BreakMoment,
                ]
            } else if name == "fullscreen"@ {
                seq![WindowSignal::Fullscreen(trimmed(data) == "1"@)]
            } else if name == "workspace"@ || name == "focusedmon"@ || name == "activespecial"@ {
                seq![WindowSignal::BreakMoment]
            } else {
                seq![]
            }
        },
    }
}

pub fn parse_line(line: &str) -> (r: Vec<WindowEvent>)
    ensures
        views(r@) == line_events(line@),
{
    proof {
        reveal_strlit(">>");
    }
    let v = chars_of(line);
    let n = v.len();
    assert(v@.subrange(0, n as int) =~= line@);
    let mut out: Vec<WindowEvent> = Vec::new();
    let split = find_in_window(&v, 0, n, ">>");
    match split {
        None => {
            assert(views(out@) =~= seq![]);
        },
        Some(i) => {
            let data_lo = i + 2;
            let ghost name = line@.take(i as int);
            let ghost data = line@.skip(i + 2);
            assert(v@.subrange(0, i as int) =~= name);
            assert(v@.subrange(data_lo as int, n as int) =~= data);
            if window_is(&v, 0, i, "activewindow") {
                let comma = find_in_window(&v, data_lo, n, ",");
                let end = match comma {
                    Some(j) => j,
                    None => n,
                };
                proof {
                    match comma {
                        Some(j2) => {
                            assert(find(data, ","@) == Some(j2 - data_lo));
                            assert(v@.subrange(data_lo as int, j2 as int) =~= data.take(
                                j2 - data_lo,
                            ));
                        },
                        None => {
                            assert(find(data, ","@) is None);
                        },
                    }
                }
                assert(v@.subrange(data_lo as int, end as int) == match find(data, ","@) {
                    Some(j) => data.take(j),
                    None => data,
                });
                let (a, b) = trim_window(&v, data_lo, end);
                assert(v@.subrange(a as int, b as int) == class_of(data));
                let app = if a < b {
                    Some(line.substring_char(a, b).to_owned())
                } else {
                    None
                };
                assert(app matches Some(c) ==> c@ == class_of(data));
                out.push(WindowEvent::ActiveApp(app));
                out.push(WindowEvent::BreakMoment);
                assert(views(out@) =~= line_events(line@));
            } else if window_is(&v, 0, i, "fullscreen") {
                let (a, b) = trim_window(&v, data_lo, n);
                out.push(WindowEvent::Fullscreen(window_is(&v, a, b, "1")));
                assert(views(out@) =~= line_events(line@));
            } else if window_is(&v, 0, i, "workspace") || window_is(&v, 0, i, "focusedmon")
                || window_is(&v, 0, i, "activespecial") {
                out.push(WindowEvent::BreakMoment);
                assert(views(out@) =~= line_events(line@));
            } else {
                assert(views(out@) =~= line_events(line@));
            }
        },
    }
    out
}

/// The `fullscreen` field of Hyprland's `activewindow` JSON reply: a flag in
/// newer versions, a mode number in older ones.
#[derive(Debug, Clone, Copy, PartialEq)]
pub enum FullscreenField {
    Flag(bool),
    /// A number; `None` when it is not a non-negative integer.
    Number(Option<u64>),
    /// Missing, null, or of another type.
    Other,
}

/// The fields of Hyprland's `activewindow` reply that matter (`class` is
/// empty when missing).
#[derive(Debug, Clone, PartialEq)]
pub struct ActiveWindow {
    pub class: String,
    pub fullscreen: FullscreenField,
}

pub open spec fn is_fullscreen(f: FullscreenField) -> bool {
    match f {
        FullscreenField::Flag(b) => b,
        FullscreenField::Number(Some(n)) => n > 0,
        _ => false,
    }
}

/// The signals of the active-window reply; `None` stands for a reply that
/// could not be read, which reports no app and no fullscreen.
pub open spec fn window_signals(window: Option<ActiveWindow>) -> Seq<WindowSignal> {
    match window {
        None => seq![WindowSignal::ActiveApp(None), WindowSignal::Fullscreen(false)],
        Some(w) => seq![
            WindowSignal::ActiveApp(if w.class@.len() > 0 {
                Some(w.class@)
            } else {
                None
            }),
            WindowSignal::Fullscreen(is_fullscreen(w.fullscreen)),
        ],
    }
}

pub fn active_window_events(window: Option<ActiveWindow>) -> (r: Vec<WindowEvent>)
    ensures
        views(r@) == window_signals(window),
{
    let mut out: Vec<WindowEvent> = Vec::new();
    match window {
        None => {
            out.push(WindowEvent::ActiveApp(None));
            out.push(WindowEvent::Fullscreen(false));
        },
        Some(w) => {
            let fullscreen = match w.fullscreen {
                FullscreenField::Flag(b) => b,
                FullscreenField::Number(Some(n)) => n > 0,
                _ => false,
            };
            let empty = w.class.as_str().unicode_len() == 0;
            let app = if empty {
                None
            } else {
                Some(w.class)
            };
            out.push(WindowEvent::ActiveApp(app));
            out.push(WindowEvent::Fullscreen(fullscreen));
        },
    }
    assert(views(out@) =~= window_signals(window));
    out
}

/// The reply's fullscreen field is read as the flag it holds, or as a mode
/// number that is fullscreen when above zero; anything else is not
/// fullscreen. The reply reports that value after the app.
pub proof fn fullscreen_follows_the_reply(w: ActiveWindow, b: bool, n: u64)
    ensures
        is_fullscreen(FullscreenField::Flag(b)) == b,
        is_fullscreen(FullscreenField::Number(Some(n))) == (n > 0),
        !is_fullscreen(FullscreenField::Number(None)),
        !is_fullscreen(FullscreenField::Other),
        w.fullscreen == FullscreenField::Flag(b) ==> window_signals(Some(w))
            == seq![
            WindowSignal::ActiveApp(if w.class@.len() > 0 {
                Some(w.class@)
            } else {
                None
            }),
            WindowSignal::Fullscreen(b),
        ],
        window_signals(None) == seq![WindowSignal::ActiveApp(None), WindowSignal::Fullscreen(false)],
{
}

/// In `name>>data`, where the name holds no `>`, the first `>>` ends the name.
proof fn lemma_split_at_name(name: Seq<char>, data: Seq<char>)
    requires
        forall|i: int| 0 <= i < name.len() ==> name[i] != '>',
    ensures
        find(name + ">>"@ + data, ">>"@) == Some(name.len() as int),
        (name + ">>"@ + data).take(name.len() as int) == name,
        (name + ">>"@ + data).skip(name.len() as int + 2) == data,
{
    reveal_strlit(">>");
    let line = name + ">>"@ + data;
    let n = name.len() as int;
    assert(line.subrange(n, n + 2) =~= ">>"@);
    assert(occurs_at(line, ">>"@, n));
    lemma_find_from(line, ">>"@, 0);
    match find(line, ">>"@) {
        Some(i) => {
            if i < n {
                assert(line.subrange(i, i + 2)[0] == line[i]);
                assert(line[i] == name[i]);
            }
        },
        None => {},
    }
    assert(line.take(n) =~= name);
    assert(line.skip(n + 2) =~= data);
}

/// What the event lines that matter report: `fullscreen>>data` reports
/// fullscreen exactly when the data, trimmed, is `1`; `workspace>>`,
/// `focusedmon>>` and `activespecial>>` lines are break moments; an
/// `activewindow>>class,title` line reports the trimmed class (none when
/// empty) and then a break moment; a line without `>>` reports nothing.
pub proof fn event_lines_report(data: Seq<char>, class: Seq<char>, title: Seq<char>, line: Seq<char>)
    requires
        forall|i: int| 0 <= i < class.len() ==> class[i] != ',',
    ensures
        line_events("fullscreen"@ + ">>"@ + data) == seq![
            WindowSignal::Fullscreen(trimmed(data) == "1"@),
        ],
        line_events("workspace"@ + ">>"@ + data) == seq![WindowSignal::BreakMoment],
        line_events("focusedmon"@ + ">>"@ + data) == seq![WindowSignal::BreakMoment],
        line_events("activespecial"@ + ">>"@ + data) == seq![WindowSignal::BreakMoment],
        line_events("activewindow"@ + ">>"@ + class + ","@ + title) == seq![
            WindowSignal::ActiveApp(
                if trimmed(class).len() > 0 {
                    Some(trimmed(class))
                } else {
                    None
                },
            ),
            WindowSignal::BreakMoment,
        ],
        find(line, ">>"@) is None ==> line_events(line) == Seq::<WindowSignal>::empty(),
{
    reveal_strlit(">>");
    reveal_strlit(",");
    reveal_strlit("fullscreen");
    reveal_strlit("workspace");
    reveal_strlit("focusedmon");
    reveal_strlit("activespecial");
    reveal_strlit("activewindow");
    lemma_split_at_name("fullscreen"@, data);
    lemma_split_at_name("workspace"@, data);
    lemma_split_at_name("focusedmon"@, data);
    lemma_split_at_name("activespecial"@, data);
    let rest = class + ","@ + title;
    lemma_split_at_name("activewindow"@, rest);
    assert("activewindow"@ + ">>"@ + class + ","@ + title =~= "activewindow"@ + ">>"@ + rest);
    // the first comma of `class,title` ends the class
    let c = class.len() as int;
    assert(rest.subrange(c, c + 1) =~= ","@);
    assert(occurs_at(rest, ","@, c));
    lemma_find_from(rest, ","@, 0);
    match find(rest, ","@) {
        Some(i) => {
            if i < c {
                assert(rest.subrange(i, i + 1)[0] == rest[i]);
                assert(rest[i] == class[i]);
            }
        },
        None => {},
    }
    assert(rest.take(c) =~= class);
    assert("fullscreen"@ != "workspace"@ && "fullscreen"@ != "activewindow"@);
    assert("workspace"@ != "activewindow"@ && "workspace"@ != "fullscreen"@);
    assert("focusedmon"@[1] != "fullscreen"@[1]);
    assert("focusedmon"@ != "activewindow"@ && "focusedmon"@ != "fullscreen"@);
    assert("activespecial"@ != "activewindow"@ && "activespecial"@ != "fullscreen"@);
    assert("activewindow"@ != "fullscreen"@);
}

} // verus!
