use drift::present::{close_confirmation, display_name, focus_for, quit_confirmation, Focus, Hud, Surface};
use drift::strip::strip_label;
use drift::view::{grdctl_status_command, ConnectMode};
use drift::windows::{session_labels, titlebar_label, window_label, window_number};

#[test]
fn confirmation_texts() {
    let c = close_confirmation(" Homelab ");
    assert_eq!(c.message, "Disconnect “Homelab”?");
    assert_eq!(c.informative, "The remote session keeps running on the host.");
    assert_eq!((c.confirm.as_str(), c.cancel.as_str()), ("Disconnect", "Cancel"));
    assert_eq!(quit_confirmation(0), None, "no sessions: quit at once");
    let one = quit_confirmation(1).unwrap();
    assert_eq!(one.message, "Quit Drift?");
    assert_eq!(one.informative, "1 session will be disconnected.");
    assert_eq!((one.confirm.as_str(), one.cancel.as_str()), ("Quit", "Cancel"));
    assert_eq!(quit_confirmation(3).unwrap().informative, "3 sessions will be disconnected.");
}

#[test]
fn keyboard_focus_follows_the_surface() {
    assert_eq!(focus_for(Surface::Remote), Focus::Remote);
    assert_eq!(focus_for(Surface::Hud(Hud::Banner)), Focus::Remote);
    assert_eq!(focus_for(Surface::Hud(Hud::Stats)), Focus::Remote);
    assert_eq!(focus_for(Surface::Webview), Focus::Page);
    assert_eq!(focus_for(Surface::Overlay), Focus::Page);
}

#[test]
fn display_names_are_cleaned() {
    assert_eq!(display_name("  Work\tbox "), "Work box");
    assert_eq!(display_name("   "), "Untitled");
    assert_eq!(display_name(""), "Untitled");
    assert_eq!(display_name("a\nb"), "a b");
    assert_eq!(display_name("Lab\u{7f}Box\u{85}"), "Lab Box");
    assert_eq!(display_name("\u{a0}Kiosk\u{3000}"), "Kiosk");
    assert_eq!(close_confirmation("\t").message, "Disconnect “Untitled”?");
    assert_eq!(quit_confirmation(12).unwrap().informative, "12 sessions will be disconnected.");
}

#[test]
fn each_window_has_its_own_strip_webview_label() {
    assert_eq!(strip_label("session-3"), "session-3-strip");
    // Covered by the `session-*` capability like its window.
    assert!(strip_label("session-3").starts_with("session-"));
}

#[test]
fn window_labels_number_the_sessions() {
    assert_eq!(window_label(0), "session-0");
    assert_eq!(window_label(10), "session-10");
    assert_eq!(window_label(u64::MAX), "session-18446744073709551615");
    assert_eq!(titlebar_label("session-7"), "session-7-titlebar");
}

#[test]
fn grdctl_command_depends_on_mode() {
    for (mode, cmd) in [
        (ConnectMode::RemoteLogin, "sudo grdctl --system status"),
        (ConnectMode::Headless, "grdctl --headless status"),
        (ConnectMode::DesktopSharing, "grdctl status"),
    ] {
        assert_eq!(grdctl_status_command(mode), cmd);
    }
}

#[test]
fn window_numbers_are_read_back_from_labels() {
    assert_eq!(window_number("session-0"), 0);
    assert_eq!(window_number("session-42"), 42);
    assert_eq!(window_number(&window_label(7)), 7);
    assert_eq!(window_number("session-18446744073709551615"), u64::MAX);
    assert_eq!(window_number("session-18446744073709551616"), u64::MAX);
    assert_eq!(window_number("connections"), u64::MAX);
    assert_eq!(window_number("session-"), u64::MAX);
    assert_eq!(window_number("session-x1"), u64::MAX);
    assert_eq!(window_number("session-+5"), 5);
}

#[test]
fn session_labels_come_in_opening_order() {
    let open: Vec<String> =
        ["session-10", "session-2", "other", "session-1", "session-2"].iter().map(|s| s.to_string()).collect();
    assert_eq!(
        session_labels(&open),
        vec!["session-1", "session-2", "session-2", "session-10", "other"]
    );
    assert!(session_labels(&[]).is_empty());
    // Labels with the same number keep the order they came in.
    let ties: Vec<String> = ["b", "session-3", "a"].iter().map(|s| s.to_string()).collect();
    assert_eq!(session_labels(&ties), vec!["session-3", "b", "a"]);
}
