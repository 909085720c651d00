use drift::connections::ConnectionStatus;
use drift::dock::{dock_menu, DockAction, DockItem};
use drift::menu::SessionItem;

fn item(window: &str, name: &str, glyph: char, status: ConnectionStatus) -> SessionItem {
    SessionItem { window: window.into(), name: name.into(), glyph, status }
}

#[test]
fn sessions_then_connections_and_new_connection() {
    let sessions = [
        item("session-2", "Homelab", '●', ConnectionStatus::Live),
        item("session-0", "Kiosk", '↻', ConnectionStatus::Reconnecting),
    ];
    assert_eq!(
        dock_menu(&sessions),
        [
            DockItem::Header("Sessions".into()),
            DockItem::Action { action: DockAction::Focus("session-2".into()), title: "● Homelab".into(), key: None },
            DockItem::Action { action: DockAction::Focus("session-0".into()), title: "↻ Kiosk".into(), key: None },
            DockItem::Separator,
            DockItem::Action { action: DockAction::ShowConnections, title: "Connections".into(), key: Some('0') },
            DockItem::Action { action: DockAction::NewConnection, title: "New Connection…".into(), key: Some('n') },
        ]
    );
}

#[test]
fn without_sessions_only_the_two_commands_remain() {
    assert_eq!(
        dock_menu(&[]),
        [
            DockItem::Action { action: DockAction::ShowConnections, title: "Connections".into(), key: Some('0') },
            DockItem::Action { action: DockAction::NewConnection, title: "New Connection…".into(), key: Some('n') },
        ]
    );
}

#[test]
fn clicks_route_back_by_id() {
    for action in [DockAction::Focus("session-12".into()), DockAction::ShowConnections, DockAction::NewConnection] {
        assert_eq!(DockAction::from_id(&action.id()), Some(action.clone()), "{action:?}");
    }
    for bad in ["", "drift.dock.focus.", "drift.dock.focus.connections", "drift.dock.nope", "session-1"] {
        assert_eq!(DockAction::from_id(bad), None, "{bad}");
    }
}

#[test]
fn focus_ids_carry_the_label() {
    assert_eq!(DockAction::Focus("session-3".into()).id(), "drift.dock.focus.session-3");
    assert_eq!(DockAction::ShowConnections.id(), "drift.dock.connections");
    assert_eq!(DockAction::NewConnection.id(), "drift.dock.new-connection");
    assert_eq!(
        DockAction::from_id("drift.dock.focus.session-"),
        Some(DockAction::Focus("session-".into()))
    );
    assert_eq!(DockAction::from_id("drift.dock.focus.session"), None);
}
