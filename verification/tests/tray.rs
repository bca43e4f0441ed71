use convertbar::converter::Platform;
use convertbar::db::{init_settings, read_switch, write_setting};
use convertbar::tray::{
    clears_face, confine, encoding_title, encoding_tooltip, error_flag, read_tray_settings,
    tray_face, truncate_tray_title, Area, TraySettings, TrayUpdate,
};

fn update() -> TrayUpdate {
    TrayUpdate {
        status: "encoding".to_string(),
        percent: Some(42),
        file_name: Some("clip.mp4".to_string()),
        eta_seconds: Some(125),
        queue_count: Some(3),
        fps: Some(60),
    }
}

#[test]
fn tray_title_truncation_is_char_boundary_safe() {
    let umlauts = "ääääääääääääääääääääää.mp4";
    let truncated = truncate_tray_title(umlauts);
    assert!(truncated.ends_with('…'));
    assert_eq!(truncated.chars().count(), 20);

    let emoji = "🎬🎬🎬🎬🎬🎬🎬🎬🎬🎬🎬🎬🎬🎬🎬🎬🎬🎬🎬🎬🎬.mp4";
    assert!(truncate_tray_title(emoji).ends_with('…'));

    assert_eq!(truncate_tray_title("clip.mp4"), "clip.mp4");
    let exactly_20 = "a".repeat(20);
    assert_eq!(truncate_tray_title(&exactly_20), exactly_20);
}

#[test]
fn an_error_stays_until_the_next_run() {
    assert!(error_flag("error", false));
    assert!(!error_flag("encoding", true));
}

#[test]
fn a_window_is_brought_onto_the_screen() {
    let screen = Area {
        x: 0,
        y: 25,
        width: 1000,
        height: 800,
    };
    let window = |x: i32, y: i32| Area {
        x,
        y,
        width: 400,
        height: 600,
    };
    assert_eq!(confine(window(100, 100), screen), (100, 100));
    assert_eq!(confine(window(-900, 0), screen), (-200, 25));
    assert_eq!(confine(window(5000, 5000), screen), (800, 525));
}

#[test]
fn the_title_shows_what_the_user_wants() {
    assert_eq!(
        encoding_title(&update(), TraySettings::default(), 0),
        "42% · ETA 2:05"
    );
    let all = TraySettings {
        show_percent: true,
        show_eta: true,
        show_queue: true,
        show_filename: true,
        show_fps: true,
    };
    assert_eq!(
        encoding_title(&update(), all, 0),
        "42% · ETA 2:05 · +3 · clip.mp4 · 60fps"
    );
    let mut bare = update();
    bare.queue_count = None;
    bare.eta_seconds = Some(0);
    bare.fps = None;
    assert_eq!(encoding_title(&bare, all, 7), "42% · +7 · clip.mp4");
}

#[test]
fn the_tooltip_tells_of_the_job() {
    assert_eq!(
        encoding_tooltip(&update()),
        "ConvertBar — Converting clip.mp4 — 42% — ETA 2:05 — 3 queued"
    );
}

#[test]
fn each_status_has_its_face() {
    let mut u = update();
    assert_eq!(
        tray_face(&u, TraySettings::default(), 0).0,
        "42% · ETA 2:05"
    );
    for (status, title, tooltip) in [
        ("paused", "⏸", "ConvertBar — Paused"),
        ("error", "!", "ConvertBar — Error"),
        ("idle", "", "ConvertBar — No active conversions"),
    ] {
        u.status = status.to_string();
        assert_eq!(
            tray_face(&u, TraySettings::default(), 0),
            (title.to_string(), tooltip.to_string())
        );
    }
}

#[test]
fn an_error_is_cleared_when_the_user_looks() {
    assert!(clears_face(true, false));
    assert!(!clears_face(true, true));
    assert!(!clears_face(false, false));
    assert!(error_flag("idle", true));
}

#[test]
fn the_settings_say_what_is_shown() {
    assert_eq!(read_tray_settings(&Vec::new()), TraySettings::default());
    let mut rows = init_settings(&Vec::new(), Platform::Macos);
    assert_eq!(read_tray_settings(&rows), TraySettings::default());
    write_setting(&mut rows, "menubar_show_percent", "false");
    write_setting(&mut rows, "menubar_show_fps", "true");
    let settings = read_tray_settings(&rows);
    assert!(!settings.show_percent);
    assert!(settings.show_fps);
    assert_eq!(read_switch(&rows, "menubar_show_fps"), Some(true));
    assert_eq!(read_switch(&rows, "preset"), Some(false));
    assert_eq!(read_switch(&rows, "nothing"), None);
}
