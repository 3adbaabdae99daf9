use lumend::sources::hyprland::{
    active_window_events, parse_line, ActiveWindow, FullscreenField, WindowEvent,
};
use lumend::sources::media::{is_video_player, video_players};
use lumend::sources::nightlight::parse_temperature;

fn window(json: &str) -> Option<ActiveWindow> {
    let value: serde_json::Value = serde_json::from_str(json).ok()?;
    let object = value.as_object()?;
    let class = match object.get("class") {
        None => String::new(),
        Some(c) => c.as_str()?.to_owned(),
    };
    let fullscreen = match object.get("fullscreen") {
        Some(serde_json::Value::Bool(b)) => FullscreenField::Flag(*b),
        Some(serde_json::Value::Number(n)) => FullscreenField::Number(n.as_u64()),
        _ => FullscreenField::Other,
    };
    Some(ActiveWindow { class, fullscreen })
}

#[test]
fn parses_hyprsunset_output() {
    assert_eq!(parse_temperature("5000\n"), Some(5000));
    assert_eq!(parse_temperature("6000"), Some(6000));
    assert_eq!(parse_temperature("couldn't connect to hyprsunset"), None);
    assert_eq!(parse_temperature("0"), None);
}

#[test]
fn temperature_bounds_and_number_forms() {
    assert_eq!(parse_temperature("1000"), Some(1000));
    assert_eq!(parse_temperature("20000"), Some(20000));
    assert_eq!(parse_temperature("999"), None);
    assert_eq!(parse_temperature("20001"), None);
    assert_eq!(parse_temperature(" +4500\t\r\n"), Some(4500));
    assert_eq!(parse_temperature("\u{a0}3000\u{3000}"), Some(3000));
    assert_eq!(parse_temperature("-4500"), None);
    assert_eq!(parse_temperature("+"), None);
    assert_eq!(parse_temperature("45 00"), None);
    assert_eq!(parse_temperature("99999999999999999999"), None);
    assert_eq!(parse_temperature(""), None);
}

#[test]
fn recognises_video_players() {
    assert!(is_video_player("org.mpris.MediaPlayer2.mpv"));
    assert!(is_video_player(
        "org.mpris.MediaPlayer2.firefox.instance_1_42"
    ));
    assert!(is_video_player("org.mpris.MediaPlayer2.VLC"));
    assert!(!is_video_player("org.mpris.MediaPlayer2.spotify"));
    assert!(!is_video_player("org.mpris.MediaPlayer2.playerctld"));
}

#[test]
fn bare_player_names_and_case() {
    assert!(is_video_player("Celluloid"));
    assert!(is_video_player("org.mpris.MediaPlayer2.Brave.instance2"));
    assert!(!is_video_player("org.mpris.MediaPlayer2."));
    assert!(!is_video_player("org.mpris.MediaPlayer2.xmpv"));
}

#[test]
fn active_window_gives_class_and_a_break() {
    assert_eq!(
        parse_line("activewindow>>kitty,~/Projects: nvim"),
        vec![
            WindowEvent::ActiveApp(Some("kitty".into())),
            WindowEvent::BreakMoment
        ]
    );
    assert_eq!(
        parse_line("activewindow>>,"),
        vec![WindowEvent::ActiveApp(None), WindowEvent::BreakMoment]
    );
}

#[test]
fn titles_with_commas_keep_the_class() {
    assert_eq!(
        parse_line("activewindow>>firefox,a, b, c")[0],
        WindowEvent::ActiveApp(Some("firefox".into()))
    );
}

#[test]
fn fullscreen_and_workspace() {
    assert_eq!(
        parse_line("fullscreen>>1"),
        vec![WindowEvent::Fullscreen(true)]
    );
    assert_eq!(
        parse_line("fullscreen>>0"),
        vec![WindowEvent::Fullscreen(false)]
    );
    assert_eq!(parse_line("workspace>>3"), vec![WindowEvent::BreakMoment]);
}

#[test]
fn ignores_everything_else() {
    assert!(parse_line("windowtitle>>abc").is_empty());
    assert!(parse_line("activewindowv2>>55d1c1a0").is_empty());
    assert!(parse_line("garbage").is_empty());
}

#[test]
fn event_lines_edge_cases() {
    assert_eq!(
        parse_line("activewindow>> Code ,x>>y"),
        vec![
            WindowEvent::ActiveApp(Some("Code".into())),
            WindowEvent::BreakMoment
        ]
    );
    assert_eq!(
        parse_line("fullscreen>> 1\n"),
        vec![WindowEvent::Fullscreen(true)]
    );
    assert_eq!(
        parse_line("focusedmon>>eDP-1,2"),
        vec![WindowEvent::BreakMoment]
    );
    assert_eq!(
        parse_line("activespecial>>"),
        vec![WindowEvent::BreakMoment]
    );
    assert!(parse_line(">>activewindow").is_empty());
}

#[test]
fn initial_query_handles_old_and_new_fullscreen_fields() {
    assert_eq!(
        active_window_events(window(r#"{"class":"mpv","fullscreen":2}"#)),
        vec![
            WindowEvent::ActiveApp(Some("mpv".into())),
            WindowEvent::Fullscreen(true)
        ]
    );
    assert_eq!(
        active_window_events(window(r#"{"class":"code","fullscreen":false}"#)),
        vec![
            WindowEvent::ActiveApp(Some("code".into())),
            WindowEvent::Fullscreen(false)
        ]
    );
    assert_eq!(
        active_window_events(window("{}")),
        vec![WindowEvent::ActiveApp(None), WindowEvent::Fullscreen(false)]
    );
}

#[test]
fn unreadable_reply_reports_nothing() {
    assert_eq!(
        active_window_events(None),
        vec![WindowEvent::ActiveApp(None), WindowEvent::Fullscreen(false)]
    );
    assert_eq!(
        active_window_events(Some(ActiveWindow {
            class: "mpv".into(),
            fullscreen: FullscreenField::Number(None),
        })),
        vec![
            WindowEvent::ActiveApp(Some("mpv".into())),
            WindowEvent::Fullscreen(false)
        ]
    );
}

use lumend::sources::screen::{internal_output, sample_points, PixelOrder, Rgb};

fn image(width: usize, height: usize, stride: usize) -> Vec<u8> {
    let mut buf = vec![0u8; stride * height];
    for y in 0..height {
        for x in 0..width {
            let at = y * stride + x * 4;
            buf[at..at + 4].copy_from_slice(&[x as u8, y as u8, 7, 255]);
        }
    }
    buf
}

#[test]
fn rejects_short_buffers() {
    assert!(sample_points(&[0; 10], 64, 32, 256, PixelOrder::Bgrx).is_none());
    assert!(sample_points(&[], 0, 0, 0, PixelOrder::Bgrx).is_none());
}

#[test]
fn samples_every_eighth_pixel_from_four_in() {
    let buf = image(21, 13, 100);
    let points = sample_points(&buf, 21, 13, 100, PixelOrder::Rgbx).unwrap();
    let expected: Vec<Rgb> = [4u8, 12]
        .iter()
        .flat_map(|&y| [4u8, 12, 20].into_iter().map(move |x| Rgb { r: x, g: y, b: 7 }))
        .collect();
    assert_eq!(points, expected);
    let swapped = sample_points(&buf, 21, 13, 100, PixelOrder::Bgrx).unwrap();
    assert_eq!(swapped[0], Rgb { r: 7, g: 4, b: 4 });
}

#[test]
fn geometry_edges() {
    let buf = image(4, 4, 16);
    assert_eq!(sample_points(&buf, 4, 4, 16, PixelOrder::Rgbx), Some(Vec::new()));
    assert!(sample_points(&buf, 4, 4, 15, PixelOrder::Rgbx).is_none());
    assert!(sample_points(&buf[..63], 4, 4, 16, PixelOrder::Rgbx).is_none());
    assert_eq!(sample_points(&buf[..64], 4, 4, 16, PixelOrder::Rgbx), Some(Vec::new()));
}

#[test]
fn only_mpris_video_players_are_asked() {
    let names: Vec<String> = [
        "org.freedesktop.DBus",
        "org.mpris.MediaPlayer2.spotify",
        "org.mpris.MediaPlayer2.mpv",
        "mpv",
        "org.mpris.MediaPlayer2.Firefox.instance_1_42",
        ":1.42",
        "org.mpris.MediaPlayer2.playerctld",
        "org.mpris.MediaPlayer2.vlc",
    ]
    .iter()
    .map(|s| s.to_string())
    .collect();
    assert_eq!(video_players(&names), vec![2, 4, 7]);
    assert_eq!(video_players(&[]), Vec::<usize>::new());
}

#[test]
fn the_built_in_panel_is_captured() {
    let names = |list: &[Option<&str>]| -> Vec<Option<String>> {
        list.iter().map(|n| n.map(str::to_owned)).collect()
    };
    assert_eq!(
        internal_output(&names(&[Some("DP-1"), None, Some("eDP-1"), Some("LVDS-1")])),
        2
    );
    assert_eq!(internal_output(&names(&[Some("DSI-1")])), 0);
    assert_eq!(internal_output(&names(&[Some("HDMI-A-1"), Some("LVDS-2")])), 1);
    assert_eq!(internal_output(&names(&[Some("HDMI-A-1"), Some("edp-1")])), 0);
    assert_eq!(internal_output(&names(&[None, None])), 0);
    assert_eq!(internal_output(&[]), 0);
}
