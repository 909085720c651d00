use drift::services::{
    most_permissive, rank, trigger_commands, ClipboardPrefs, ClipboardPump, LiveSession, SessionCommand,
    TriggerAction,
};

#[test]
fn most_permissive_level_wins_across_live_sessions() {
    let (off, text, images) = (ClipboardPrefs::Off, ClipboardPrefs::Text, ClipboardPrefs::TextAndImages);
    assert_eq!(most_permissive(&[]), off);
    assert_eq!(most_permissive(&[off, off]), off);
    assert_eq!(most_permissive(&[off, text]), text);
    assert_eq!(most_permissive(&[text, off]), text);
    assert_eq!(most_permissive(&[text, images, off]), images);
    assert_eq!(most_permissive(&[images]), images);
    assert_eq!((rank(off), rank(text), rank(images)), (0, 1, 2));
}

#[test]
fn trigger_actions_map_to_session_commands() {
    assert_eq!(
        trigger_commands(TriggerAction::PauseReconnect, false),
        vec![SessionCommand::NetworkReachable(false)]
    );
    assert_eq!(
        trigger_commands(TriggerAction::PauseReconnect, true),
        vec![SessionCommand::NetworkReachable(false)]
    );
    // A session that is waiting out a backoff is also told to skip it.
    assert_eq!(
        trigger_commands(TriggerAction::RetryNow, true),
        vec![SessionCommand::NetworkReachable(true), SessionCommand::ReconnectNow],
        "reachability must be restored before the actor is asked to skip its backoff"
    );
    // Any other session only learns that the network is back.
    assert_eq!(trigger_commands(TriggerAction::RetryNow, false), vec![SessionCommand::NetworkReachable(true)]);
}

/// One tick of the pump: who hears about the clipboard, given whether the user copied since the
/// last tick and what the pasteboard holds.
fn tick(pump: &mut ClipboardPump, live: &[LiveSession], copied: bool, pasteboard: &str) -> Vec<String> {
    if copied {
        return pump.changed(live);
    }
    let fresh = pump.unseeded(live);
    if fresh.is_empty() || pasteboard.is_empty() {
        return Vec::new();
    }
    fresh
}

fn sessions(list: &[(&str, ClipboardPrefs)]) -> Vec<LiveSession> {
    list.iter().map(|(w, c)| LiveSession::new(w, *c)).collect()
}

#[test]
fn a_local_copy_reaches_every_syncing_session() {
    let live = sessions(&[
        ("session-0", ClipboardPrefs::TextAndImages),
        ("session-1", ClipboardPrefs::Text),
        ("session-2", ClipboardPrefs::Off),
    ]);
    let mut pump = ClipboardPump::new();
    // Nothing on the pasteboard: the seeding tick has nothing to advertise.
    assert!(tick(&mut pump, &live, false, "").is_empty());
    assert_eq!(tick(&mut pump, &live, true, "copy-me"), vec!["session-0", "session-1"]);
    // No further change and nothing new to seed.
    assert!(tick(&mut pump, &live, false, "copy-me").is_empty());
}

#[test]
fn a_new_session_is_seeded_once_with_the_current_pasteboard() {
    let mut pump = ClipboardPump::new();
    assert!(tick(&mut pump, &[], true, "copied-before-connecting").is_empty());
    let live = sessions(&[("session-0", ClipboardPrefs::TextAndImages)]);
    assert_eq!(tick(&mut pump, &live, false, "copied-before-connecting"), vec!["session-0"]);
    assert!(tick(&mut pump, &live, false, "copied-before-connecting").is_empty());
}

#[test]
fn a_session_that_opens_later_is_seeded_and_the_others_are_not_told_again() {
    let mut pump = ClipboardPump::new();
    let one = sessions(&[("session-0", ClipboardPrefs::TextAndImages)]);
    assert_eq!(tick(&mut pump, &one, true, "shared"), vec!["session-0"]);
    let two = sessions(&[("session-0", ClipboardPrefs::TextAndImages), ("session-1", ClipboardPrefs::TextAndImages)]);
    assert_eq!(tick(&mut pump, &two, false, "shared"), vec!["session-1"]);
}

#[test]
fn a_replaced_actor_in_the_same_window_is_seeded_again() {
    let mut pump = ClipboardPump::new();
    let first = vec![LiveSession::new("tab-0", ClipboardPrefs::Text).generation(1)];
    assert_eq!(tick(&mut pump, &first, true, "one"), vec!["tab-0"]);
    let second = vec![LiveSession::new("tab-0", ClipboardPrefs::Text).generation(2)];
    assert_eq!(tick(&mut pump, &second, false, "one"), vec!["tab-0"], "the replacement actor must be seeded too");
    assert!(tick(&mut pump, &second, false, "one").is_empty(), "…but only once");
}

#[test]
fn a_session_that_ends_and_returns_is_seeded_again_by_the_pump() {
    let mut pump = ClipboardPump::new();
    let live = sessions(&[("session-0", ClipboardPrefs::Text)]);
    assert_eq!(tick(&mut pump, &live, true, "one"), vec!["session-0"]);
    assert!(tick(&mut pump, &[], false, "one").is_empty());
    assert_eq!(tick(&mut pump, &live, false, "one"), vec!["session-0"]);
}

#[test]
fn live_session_builders_set_one_field() {
    let s = LiveSession::new("session-3", ClipboardPrefs::Off).reconnecting(true).generation(9);
    assert_eq!(s.window, "session-3");
    assert_eq!(s.clipboard, ClipboardPrefs::Off);
    assert!(s.reconnecting);
    assert_eq!(s.generation, 9);
    assert!(!LiveSession::new("w", ClipboardPrefs::Text).reconnecting);
}
