use drift::geometry::Size;
use drift::strip::{strip_label, tab_item, TabItem, TabKind, TabStatus, TabStrip, CONNECTIONS_TITLE};
use drift::view::{CertificateSubject, ConnectMode, Screen, SessionState, SessionView};

fn view(mode: ConnectMode, name: &str, states: &[SessionState]) -> SessionView {
    let mut v = SessionView::new(name, mode, Some("hutson".into()));
    for s in states {
        v.apply_state(*s);
    }
    v
}

fn connected() -> SessionState {
    SessionState::Connected { desktop: Size::new(1280, 800), scale: 100 }
}

#[test]
fn a_window_without_a_session_is_a_connection_manager() {
    assert_eq!(CONNECTIONS_TITLE, "Connections");
    for item in [
        tab_item("session-0", None, None),
        tab_item("session-0", Some(&view(ConnectMode::Headless, "Homelab", &[])), Some(7)),
    ] {
        assert_eq!(item.id, "session-0");
        assert_eq!(item.kind, TabKind::Manager);
        assert_eq!(item.title, "Connections");
        assert_eq!(item.status, TabStatus::Idle);
        assert_eq!(item.mode, None, "the manager has its own neutral icon");
        assert_eq!(item.profile_id, None, "a manager tab is not connected to anything");
        assert_eq!(item.hint, None);
    }
}

#[test]
fn a_connecting_tab_shows_a_spinner_and_connecting_to_name() {
    let v = view(ConnectMode::RemoteLogin, "Homelab", &[SessionState::Connecting]);
    let item = tab_item("session-1", Some(&v), Some(9));
    assert_eq!(item.kind, TabKind::Session);
    assert_eq!(item.title, "Connecting to Homelab…");
    assert_eq!(item.status, TabStatus::Connecting);
    assert_eq!(item.mode, Some(ConnectMode::RemoteLogin));
    assert_eq!(item.profile_id, Some(9));
}

#[test]
fn the_certificate_prompt_keeps_the_spinner_with_the_plain_name() {
    let mut v = view(ConnectMode::RemoteLogin, "Homelab", &[SessionState::Connecting]);
    v.prompt_certificate("gnome.local".into(), 3389, ["07"; 32].join(":"), CertificateSubject::Server);
    assert_eq!(v.screen, Screen::Certificate);
    let item = tab_item("session-1", Some(&v), None);
    assert_eq!((item.title.as_str(), item.status), ("Homelab", TabStatus::Connecting));
}

#[test]
fn session_tabs_carry_a_status_dot() {
    let table = [
        (vec![SessionState::Connecting, connected()], TabStatus::Live),
        (vec![SessionState::Connecting, SessionState::AwaitingGreeterLogin], TabStatus::Live),
        (vec![SessionState::Connecting, connected(), SessionState::Reconnecting], TabStatus::Reconnecting),
        (vec![SessionState::Connecting, SessionState::Failed], TabStatus::Failed),
        (vec![SessionState::Connecting, SessionState::Disconnected], TabStatus::Failed),
    ];
    for (states, want) in table {
        let v = view(ConnectMode::Headless, "Studio Workstation", &states);
        let item = tab_item("session-2", Some(&v), None);
        assert_eq!(item.kind, TabKind::Session, "{states:?}");
        assert_eq!(item.title, "Studio Workstation", "{states:?}");
        assert_eq!(item.status, want, "{states:?}");
        assert_eq!(item.mode, Some(ConnectMode::Headless));
    }
}

#[test]
fn the_greeter_hint_is_the_tabs_tooltip() {
    let v = view(ConnectMode::RemoteLogin, "Homelab", &[SessionState::Connecting, SessionState::AwaitingGreeterLogin]);
    let item = tab_item("session-1", Some(&v), None);
    assert_eq!(item.hint.as_deref(), Some("Log in as “hutson” to start your session"));
    let live = view(ConnectMode::RemoteLogin, "Homelab", &[SessionState::Connecting, connected()]);
    assert_eq!(tab_item("session-1", Some(&live), None).hint, None);
}

#[test]
fn blank_or_control_character_names_are_cleaned() {
    let v = view(ConnectMode::Headless, " \t", &[SessionState::Connecting, connected()]);
    assert_eq!(tab_item("session-1", Some(&v), None).title, "Untitled");
    let v = view(ConnectMode::Headless, "Lab\nBox", &[SessionState::Connecting, connected()]);
    assert_eq!(tab_item("session-1", Some(&v), None).title, "Lab Box");
}

#[test]
fn the_strip_keeps_the_tab_group_order_and_marks_its_own_window_active() {
    let a: u128 = 2;
    let b: u128 = 1;
    let tabs: Vec<TabItem> = ["session-3", "session-0", "session-5"].iter().map(|id| tab_item(id, None, None)).collect();
    let strip = TabStrip::new(tabs, "session-0", vec![a, b, a]);
    let ids: Vec<&str> = strip.tabs.iter().map(|t| t.id.as_str()).collect();
    assert_eq!(ids, ["session-3", "session-0", "session-5"], "leading to trailing, as AppKit orders them");
    assert_eq!(strip.active, "session-0");
    assert_eq!(strip.live_profiles, [b, a], "sorted and de-duplicated");
    assert!(TabStrip::new(Vec::new(), "x", Vec::new()).live_profiles.is_empty());
    assert_eq!(TabStrip::new(Vec::new(), "x", vec![5, 3, 9, 3, 5]).live_profiles, [3, 5, 9]);
}

#[test]
fn strip_webviews_are_named_after_their_window() {
    assert_eq!(strip_label("session-3"), "session-3-strip");
}
