use drift::connections::{ConnectionStatus, CONNECTIONS_WINDOW};
use drift::geometry::{Point, Size};
use drift::present::{cursor_shape, CursorBitmap, CursorShape, CursorUpdate};
use drift::present::{
    accessibility_label, close_action, close_needs_confirmation, display_name, find_autoconnect, greeter_hint,
    identity, session_item, status_for, status_glyph, surface_for, window_title, CloseAction, Hud, Surface,
};
use drift::view::{CertificateSubject, ConnectMode, Screen, SessionState, SessionView, StatsReadout};

fn view(mode: ConnectMode) -> SessionView {
    let user = if mode == ConnectMode::RemoteLogin { Some("drifttest".to_owned()) } else { None };
    SessionView::new("Homelab", mode, user)
}

fn view_in(mode: ConnectMode, state: SessionState) -> SessionView {
    let mut v = SessionView::new("Homelab", mode, Some("drifttest".to_owned()));
    v.apply_state(state);
    v
}

/// A view forced onto `screen` (the fields the surface rules read are set directly).
fn on_screen(screen: Screen) -> SessionView {
    let mut v = SessionView::new("Homelab", ConnectMode::RemoteLogin, None);
    v.screen = screen;
    v
}

fn connected() -> SessionState {
    SessionState::Connected { desktop: Size::new(1280, 800), scale: 100 }
}

fn prompt(v: &mut SessionView, subject: CertificateSubject) -> bool {
    v.prompt_certificate("10.1.2.40".into(), 3389, ["f3"; 32].join(":"), subject)
}

#[test]
fn initial_view_shows_profiles() {
    let v = view(ConnectMode::Headless);
    assert_eq!(v.screen, Screen::Profiles);
    assert_eq!(v.profile_name, "Homelab");
    assert_eq!(v.max_attempts, Some(20));
    assert!(!v.resuming && v.certificate.is_none() && v.stats.is_none() && !v.show_stats);
}

#[test]
fn screen_table() {
    let table = [
        (SessionState::AwaitingGreeterLogin, Screen::GreeterHint),
        (connected(), Screen::Live),
        (SessionState::Reconnecting, Screen::Reconnecting),
        (SessionState::Failed, Screen::Error),
        (SessionState::Disconnected, Screen::Error),
        (SessionState::Idle, Screen::Profiles),
    ];
    for (state, screen) in table {
        let mut v = view(ConnectMode::RemoteLogin);
        v.apply_state(SessionState::Connecting);
        assert!(v.apply_state(state), "{state:?} changes the view");
        assert_eq!(v.screen, screen, "{state:?}");
    }
    let mut v = view(ConnectMode::RemoteLogin);
    assert!(v.apply_state(SessionState::Connecting));
    assert_eq!(v.screen, Screen::Connecting);
}

#[test]
fn certificate_prompt_overrides_the_state_until_the_next_state() {
    let mut v = view(ConnectMode::RemoteLogin);
    v.apply_state(SessionState::Connecting);
    assert!(prompt(&mut v, CertificateSubject::Server));
    assert_eq!(v.screen, Screen::Certificate);
    let c = v.certificate.clone().unwrap();
    assert_eq!(c.fingerprint, ["f3"; 32].join(":"));
    assert_eq!((c.host.as_str(), c.port, c.subject), ("10.1.2.40", 3389, CertificateSubject::Server));
    assert_eq!(c.grdctl_command, "sudo grdctl --system status");
    assert!(!prompt(&mut v, CertificateSubject::Server), "the same prompt again is no change");

    v.apply_state(SessionState::Connecting);
    assert_eq!(v.screen, Screen::Connecting);
    assert!(v.certificate.is_none());

    prompt(&mut v, CertificateSubject::RedirectTarget);
    assert_eq!(v.certificate.as_ref().unwrap().subject, CertificateSubject::RedirectTarget);
    v.clear_certificate();
    assert_eq!(v.screen, Screen::Connecting);
    assert!(v.certificate.is_none());
}

#[test]
fn prompts_carry_the_grdctl_command_of_the_mode() {
    for (mode, cmd) in [
        (ConnectMode::RemoteLogin, "sudo grdctl --system status"),
        (ConnectMode::Headless, "grdctl --headless status"),
        (ConnectMode::DesktopSharing, "grdctl status"),
    ] {
        let mut v = view(mode);
        prompt(&mut v, CertificateSubject::Server);
        assert_eq!(v.certificate.unwrap().grdctl_command, cmd);
    }
}

#[test]
fn greeter_after_a_desktop_means_resuming() {
    let mut v = view(ConnectMode::RemoteLogin);
    v.apply_state(SessionState::Connecting);
    v.apply_state(SessionState::AwaitingGreeterLogin);
    assert!(!v.resuming, "first login: nothing to resume yet");
    assert_eq!(v.linux_username.as_deref(), Some("drifttest"));
    v.apply_state(connected());
    v.apply_state(SessionState::Reconnecting);
    v.apply_state(SessionState::Connecting);
    v.apply_state(SessionState::AwaitingGreeterLogin);
    assert!(v.resuming);
    assert_eq!(v.screen, Screen::GreeterHint);
    v.apply_state(SessionState::Idle);
    assert!(!v.resuming);
}

#[test]
fn the_same_state_again_is_not_a_change() {
    let mut v = view(ConnectMode::Headless);
    assert!(v.apply_state(connected()));
    assert!(!v.apply_state(connected()), "same state again is not a change");
    assert!(v.apply_state(SessionState::Connected { desktop: Size::new(1920, 1080), scale: 100 }));
}

fn sample(fps_tenths: u32) -> StatsReadout {
    StatsReadout { fps_tenths, mbit_tenths: 12, latency_p95_tenths_ms: 43, unacked_frames: 2 }
}

#[test]
fn statistics_reach_the_view_so_the_hud_can_show_them() {
    let mut v = view(ConnectMode::Headless);
    v.apply_state(connected());
    assert!(v.stats.is_none() && !v.show_stats, "no sample yet, HUD off");
    assert!(v.apply_stats(sample(589)), "a first sample changes the view");
    let s = v.stats.expect("a sample");
    assert_eq!((s.fps_tenths, s.mbit_tenths, s.latency_p95_tenths_ms, s.unacked_frames), (589, 12, 43, 2));
    assert!(!v.apply_stats(sample(589)), "the same displayed numbers are not a change");
    assert!(v.apply_stats(sample(600)));
}

#[test]
fn statistics_are_dropped_when_the_picture_goes_away() {
    let mut v = view(ConnectMode::Headless);
    v.apply_state(connected());
    v.apply_stats(sample(600));
    v.apply_state(SessionState::Reconnecting);
    assert!(v.stats.is_none(), "stale numbers must not linger under the reconnect overlay");
    assert!(!v.apply_stats(sample(600)), "no HUD without a picture");
    assert!(v.stats.is_none());
}

#[test]
fn the_statistics_hud_is_a_per_tab_toggle_that_survives_state_changes() {
    let mut v = view(ConnectMode::Headless);
    v.show_stats = true;
    v.apply_state(connected());
    v.apply_stats(sample(600));
    assert!(v.show_stats, "Show Statistics is not reset by session events");
    assert_eq!(v.stats.unwrap().unacked_frames, 2);
}

#[test]
fn webview_is_hidden_only_while_there_is_a_live_picture() {
    let table = [
        (Screen::Profiles, Surface::Webview),
        (Screen::Connecting, Surface::Webview),
        (Screen::Certificate, Surface::Webview),
        (Screen::Error, Surface::Webview),
        (Screen::Live, Surface::Remote),
        (Screen::Reconnecting, Surface::Overlay),
        (Screen::GreeterHint, Surface::Hud(Hud::Banner)),
    ];
    for (screen, surface) in table {
        assert_eq!(surface_for(&on_screen(screen)), surface, "{screen:?}");
    }
}

#[test]
fn the_statistics_hud_floats_over_the_live_picture() {
    let mut live = on_screen(Screen::Live);
    live.stats = Some(StatsReadout::default());
    assert_eq!(surface_for(&live), Surface::Remote, "off by default");
    live.show_stats = true;
    assert_eq!(surface_for(&live), Surface::Hud(Hud::Stats));
    live.stats = None;
    assert_eq!(surface_for(&live), Surface::Remote, "nothing to draw before the first sample");
    let mut form = on_screen(Screen::Profiles);
    form.show_stats = true;
    assert_eq!(surface_for(&form), Surface::Webview);
    let mut retry = on_screen(Screen::Reconnecting);
    retry.show_stats = true;
    assert_eq!(surface_for(&retry), Surface::Overlay);
}

#[test]
fn the_window_title_is_the_profile_name() {
    let states = [SessionState::Idle, SessionState::Connecting, SessionState::AwaitingGreeterLogin, connected(), SessionState::Failed];
    for state in states {
        assert_eq!(window_title(&view_in(ConnectMode::Headless, state)), "Homelab", "{state:?}");
    }
    let mut odd = SessionView::new("  Work\tbox ", ConnectMode::Headless, None);
    assert_eq!(window_title(&odd), "Work box");
    odd.profile_name = "   ".into();
    assert_eq!(window_title(&odd), "Untitled");
    assert_eq!(display_name("a\nb"), "a b");
}

#[test]
fn status_and_identity_follow_the_screen() {
    let table = [
        (Screen::Profiles, ConnectionStatus::Connecting),
        (Screen::Connecting, ConnectionStatus::Connecting),
        (Screen::Certificate, ConnectionStatus::Connecting),
        (Screen::Live, ConnectionStatus::Live),
        (Screen::GreeterHint, ConnectionStatus::Live),
        (Screen::Reconnecting, ConnectionStatus::Reconnecting),
        (Screen::Error, ConnectionStatus::Failed),
    ];
    for (screen, status) in table {
        assert_eq!(status_for(&on_screen(screen)), status, "{screen:?}");
    }
    let mut greeter = SessionView::new("Homelab", ConnectMode::RemoteLogin, Some("drifttest".into()));
    greeter.apply_state(SessionState::AwaitingGreeterLogin);
    greeter.show_stats = true;
    let id = identity(42, "10.1.2.40", &greeter);
    assert_eq!(id.profile_id, 42);
    assert_eq!((id.name.as_str(), id.host.as_str(), id.mode), ("Homelab", "10.1.2.40", ConnectMode::RemoteLogin));
    assert_eq!(id.status, ConnectionStatus::Live);
    assert_eq!(id.hint.as_deref(), Some("Log in as “drifttest” to start your session"), "tooltip");
    assert!(id.show_stats, "gauge pressed");
    let live = view_in(ConnectMode::RemoteLogin, connected());
    assert_eq!(identity(42, "10.1.2.40", &live).hint, None);
}

#[test]
fn session_items_carry_a_glyph_and_the_name() {
    let table = [
        (SessionState::Connecting, '◌', ConnectionStatus::Connecting),
        (SessionState::AwaitingGreeterLogin, '◐', ConnectionStatus::Live),
        (connected(), '●', ConnectionStatus::Live),
        (SessionState::Reconnecting, '↻', ConnectionStatus::Reconnecting),
        (SessionState::Failed, '⚠', ConnectionStatus::Failed),
    ];
    for (state, glyph, status) in table {
        let v = view_in(ConnectMode::Headless, state);
        assert_eq!(status_glyph(&v), glyph);
        let item = session_item("session-3", &v);
        assert_eq!(item.window, "session-3");
        assert_eq!((item.glyph, item.status, item.name.as_str()), (glyph, status, "Homelab"), "{state:?}");
        assert_eq!(item.title(), format!("{glyph} Homelab"));
    }
}

#[test]
fn closing_asks_only_while_a_desktop_is_held() {
    let table = [
        (Screen::Profiles, false),
        (Screen::Connecting, false),
        (Screen::Certificate, false),
        (Screen::Error, false),
        (Screen::Live, true),
        (Screen::GreeterHint, true),
        (Screen::Reconnecting, true),
    ];
    for (screen, ask) in table {
        assert_eq!(close_needs_confirmation(&on_screen(screen)), ask, "{screen:?}");
    }
}

#[test]
fn the_close_button_hides_connections_and_confirms_live_sessions() {
    assert_eq!(CONNECTIONS_WINDOW, "connections");
    assert_eq!(close_action(CONNECTIONS_WINDOW, None), CloseAction::Hide);
    assert_eq!(close_action(CONNECTIONS_WINDOW, Some(&on_screen(Screen::Live))), CloseAction::Hide);
    assert_eq!(close_action("session-4", Some(&on_screen(Screen::Live))), CloseAction::Confirm);
    assert_eq!(close_action("session-4", Some(&on_screen(Screen::Reconnecting))), CloseAction::Confirm);
    assert_eq!(close_action("session-4", Some(&on_screen(Screen::Connecting))), CloseAction::CloseNow);
    assert_eq!(close_action("session-4", Some(&on_screen(Screen::Error))), CloseAction::CloseNow);
    assert_eq!(close_action("session-4", None), CloseAction::CloseNow, "no session any more");
}

#[test]
fn the_greeter_hint_names_the_linux_user() {
    assert_eq!(greeter_hint(None), None);
    let live = view_in(ConnectMode::RemoteLogin, connected());
    assert_eq!(greeter_hint(Some(&live)), None);
    let greeter = view_in(ConnectMode::RemoteLogin, SessionState::AwaitingGreeterLogin);
    assert_eq!(greeter_hint(Some(&greeter)).as_deref(), Some("Log in as “drifttest” to start your session"));
    let mut resuming = live.clone();
    resuming.apply_state(SessionState::AwaitingGreeterLogin);
    assert!(resuming.resuming);
    assert_eq!(
        greeter_hint(Some(&resuming)).as_deref(),
        Some("Session is still running — log in as “drifttest” to resume")
    );
    let mut v = SessionView::new("Homelab", ConnectMode::RemoteLogin, None);
    v.apply_state(SessionState::Connecting);
    v.apply_state(SessionState::AwaitingGreeterLogin);
    assert_eq!(greeter_hint(Some(&v)).as_deref(), Some("Log in to start your session"));
    v.resuming = true;
    assert_eq!(greeter_hint(Some(&v)).as_deref(), Some("Session is still running — log in to resume"));
}

#[test]
fn the_picture_is_labelled_for_voiceover() {
    assert_eq!(accessibility_label(None), "Remote desktop");
    let live = view_in(ConnectMode::Headless, SessionState::Connected { desktop: Size::new(2560, 1600), scale: 200 });
    assert_eq!(accessibility_label(Some(&live)), "Homelab — remote desktop, 2560 by 1600 pixels");
    let greeter = view_in(ConnectMode::RemoteLogin, SessionState::AwaitingGreeterLogin);
    assert_eq!(accessibility_label(Some(&greeter)), "Homelab — remote desktop");
}

#[test]
fn autoconnect_finds_the_named_profile() {
    let all: Vec<String> = ["Homelab", "homelab login", "HOMELAB LOGIN"].iter().map(|s| s.to_string()).collect();
    assert_eq!(find_autoconnect(&all, "Homelab"), Some(0));
    assert_eq!(find_autoconnect(&all, "homelab"), Some(0), "unique case-insensitive");
    assert_eq!(find_autoconnect(&all, "HOMELAB LOGIN"), Some(2), "exact wins");
    assert_eq!(find_autoconnect(&all, "Homelab Login"), None, "ambiguous");
    assert_eq!(find_autoconnect(&all, "  Homelab "), Some(0), "trimmed");
    assert_eq!(find_autoconnect(&all, "nope"), None);
    assert_eq!(find_autoconnect(&all, ""), None);
}

#[test]
fn cursor_updates_map_to_shapes() {
    assert_eq!(cursor_shape(&CursorUpdate::Hidden), Some((CursorShape::Hidden, 100)));
    assert_eq!(cursor_shape(&CursorUpdate::Default), Some((CursorShape::Default, 100)));
    assert_eq!(cursor_shape(&CursorUpdate::Position(Point::new(3, 4))), None);
    let bitmap = CursorBitmap { size: Size::new(2, 1), hotspot: Point::new(1, 0), bgra: vec![1, 2, 3, 4, 5, 6, 7, 8], scale: 200 };
    match cursor_shape(&CursorUpdate::Bitmap(bitmap)) {
        Some((CursorShape::Image(img), scale)) => {
            assert_eq!(scale, 200);
            assert_eq!((img.size, img.hotspot), (Size::new(2, 1), Point::new(1, 0)));
            assert_eq!(img.bgra, [1, 2, 3, 4, 5, 6, 7, 8]);
        }
        other => panic!("{other:?}"),
    }
}
