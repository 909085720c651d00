//! The tab strip: every Drift window is one tab of a native tab group, drawn by a small webview
//! of its own above the page and the live picture. A tab is a Connection Manager ("Connections",
//! neutral icon) or a Session (mode glyph, name, status dot; a spinner and "Connecting to
//! <name>…" while connecting).
use vstd::prelude::*;

use crate::present::{display_name, display_name_of, greeter_hint, greeter_hint_of, opt_chars};
use crate::view::{ConnectMode, Screen, SessionView};

verus! {

/// Title of a Connection Manager tab (and of its window, which the Window menu lists).
pub const CONNECTIONS_TITLE: &'static str = "Connections";

/// The two kinds of tab.
#[derive(Debug, Clone, Copy, PartialEq, Eq, Hash, Structural)]
pub enum TabKind {
    /// Pick, edit and connect a saved connection.
    Manager,
    /// One session (connecting, live, reconnecting or failed).
    Session,
}

/// What a tab's status indicator shows.
#[derive(Debug, Clone, Copy, PartialEq, Eq, Hash, Structural)]
pub enum TabStatus {
    /// Nothing (a Connection Manager).
    Idle,
    /// A spinner instead of the glyph: connecting or waiting for a certificate decision.
    Connecting,
    /// Green dot: the picture (or the GNOME login screen) is live.
    Live,
    /// Amber dot: waiting out a reconnect backoff.
    Reconnecting,
    /// Red dot: the session failed or was disconnected with an explanation.
    Failed,
}

/// Label of window `window`'s strip webview: the window's label and `-strip`, so the
/// `session-*` capability covers it.
pub open spec fn strip_label_of(window: Seq<char>) -> Seq<char> {
    window + "-strip"@
}

/// Label of window `window`'s strip webview. It starts with the window's label, so the
/// `session-*` capability covers it.
pub fn strip_label(window: &str) -> (r: String)
    ensures
        r@ == strip_label_of(window@),
{
    String::from_str(window).concat("-strip")
}

/// One tab of the strip.
#[derive(Debug, Clone, PartialEq, Eq)]
pub struct TabItem {
    /// The tab's window label (`session-<n>`); intents from the strip name tabs by it.
    pub id: String,
    /// Connection Manager or Session.
    pub kind: TabKind,
    /// The text on the tab.
    pub title: String,
    /// The connection mode (picks the glyph); `None` for a Connection Manager.
    pub mode: Option<ConnectMode>,
    /// Spinner or dot.
    pub status: TabStatus,
    /// The session's profile id (a UUID as a number); `None` for a Connection Manager.
    pub profile_id: Option<u128>,
    /// Tooltip: the greeter hint while the GNOME login screen waits for the user.
    pub hint: Option<String>,
}

/// A tab with its texts as characters: id, kind, title, mode, status, profile and hint.
pub type TabView = (Seq<char>, TabKind, Seq<char>, Option<ConnectMode>, TabStatus, Option<u128>, Option<Seq<char>>);

impl View for TabItem {
    type V = TabView;

    open spec fn view(&self) -> TabView {
        (self.id@, self.kind, self.title@, self.mode, self.status, self.profile_id, opt_chars(self.hint))
    }
}

/// The tab of window `id` whose session view (if it ever had a session) is `view`, with session
/// profile `profile`: a Connection Manager until the window has a session, else the session's
/// name (with "Connecting to …" while connecting) and status.
pub open spec fn tab_item_of(id: Seq<char>, view: Option<SessionView>, profile: Option<u128>) -> TabView {
    match view {
        Some(v) => if v.screen == Screen::Profiles {
            (id, TabKind::Manager, CONNECTIONS_TITLE@, None, TabStatus::Idle, None, None)
        } else {
            let name = display_name_of(v.profile_name@);
            let title = if v.screen == Screen::Connecting {
                "Connecting to "@ + name + "…"@
            } else {
                name
            };
            let status = match v.screen {
                Screen::Connecting | Screen::Certificate => TabStatus::Connecting,
                Screen::Live | Screen::GreeterHint => TabStatus::Live,
                Screen::Reconnecting => TabStatus::Reconnecting,
                _ => TabStatus::Failed,
            };
            let hint = if v.screen == Screen::GreeterHint {
                Some(greeter_hint_of(opt_chars(v.linux_username), v.resuming))
            } else {
                None
            };
            (id, TabKind::Session, title, Some(v.mode), status, profile, hint)
        },
        None => (id, TabKind::Manager, CONNECTIONS_TITLE@, None, TabStatus::Idle, None, None),
    }
}

/// The tab of window `id`, whose session view (if it ever had a session) is `view` and whose
/// session profile is `profile`.
pub fn tab_item(id: &str, view: Option<&SessionView>, profile: Option<u128>) -> (r: TabItem)
    ensures
        r@ == tab_item_of(
            id@,
            match view {
                Some(v) => Some(*v),
                None => None,
            },
            profile,
        ),
{
    let manager = TabItem {
        id: String::from_str(id),
        kind: TabKind::Manager,
        title: String::from_str(CONNECTIONS_TITLE),
        mode: None,
        status: TabStatus::Idle,
        profile_id: None,
        hint: None,
    };
    let v = match view {
        Some(v) => v,
        None => return manager,
    };
    let (title, status) = match v.screen {
        Screen::Profiles => return manager,
        Screen::Connecting => (
            String::from_str("Connecting to ").concat(display_name(v.profile_name.as_str()).as_str()).concat("…"),
            TabStatus::Connecting,
        ),
        Screen::Certificate => (display_name(v.profile_name.as_str()), TabStatus::Connecting),
        Screen::Live | Screen::GreeterHint => (display_name(v.profile_name.as_str()), TabStatus::Live),
        Screen::Reconnecting => (display_name(v.profile_name.as_str()), TabStatus::Reconnecting),
        Screen::Error => (display_name(v.profile_name.as_str()), TabStatus::Failed),
    };
    TabItem {
        id: String::from_str(id),
        kind: TabKind::Session,
        title,
        mode: Some(v.mode),
        status,
        profile_id: profile,
        hint: greeter_hint(Some(v)),
    }
}

/// Whether `s` is strictly increasing (sorted, no value twice).
pub open spec fn strictly_increasing(s: Seq<u128>) -> bool {
    forall|i: int, j: int| 0 <= i < j < s.len() ==> s[i] < s[j]
}

/// Everything one window's strip draws.
#[derive(Debug, Clone, PartialEq, Eq)]
pub struct TabStrip {
    /// The tabs of the window's group, leading to trailing.
    pub tabs: Vec<TabItem>,
    /// The id of the window this strip belongs to: its own tab is the raised one.
    pub active: String,
    /// Profiles with a live session in some tab (sorted); the connection list marks them.
    pub live_profiles: Vec<u128>,
}

impl TabStrip {
    /// A strip of `tabs` (in group order) for window `active`; the live profiles come sorted,
    /// each once.
    pub fn new(tabs: Vec<TabItem>, active: &str, live_profiles: Vec<u128>) -> (r: Self)
        ensures
            r.tabs@ == tabs@,
            r.active@ == active@,
            strictly_increasing(r.live_profiles@),
            r.live_profiles@.to_set() == live_profiles@.to_set(),
    {
        let mut sorted: Vec<u128> = Vec::new();
        let mut i: usize = 0;
        while i < live_profiles.len()
            invariant
                i <= live_profiles@.len(),
                strictly_increasing(sorted@),
                sorted@.to_set() == live_profiles@.subrange(0, i as int).to_set(),
            decreases live_profiles@.len() - i,
        {
            let v = live_profiles[i];
            let mut p: usize = 0;
            while p < sorted.len() && sorted[p] < v
                invariant
                    p <= sorted@.len(),
                    forall|k: int| 0 <= k < p ==> sorted@[k] < v,
                decreases sorted@.len() - p,
            {
                p = p + 1;
            }
            let ghost before = sorted@;
            proof {
                assert(live_profiles@.subrange(0, i + 1) =~= live_profiles@.subrange(0, i as int).push(v));
                live_profiles@.subrange(0, i as int).lemma_push_to_set_commute(v);
            }
            if p < sorted.len() && sorted[p] == v {
                proof {
                    assert(before.to_set().contains(v));
                    assert(live_profiles@.subrange(0, i + 1).to_set() =~= live_profiles@.subrange(0, i as int).to_set().insert(v));
                }
            } else {
                sorted.insert(p, v);
                proof {
                    assert(sorted@ =~= before.insert(p as int, v));
                    assert forall|a: int, b: int| 0 <= a < b < sorted@.len() implies sorted@[a] < sorted@[b] by {
                        if b < p {
                        } else if a < p && b == p {
                        } else if a < p {
                            assert(sorted@[b] == before[b - 1]);
                        } else if a == p {
                            assert(sorted@[b] == before[b - 1]);
                            assert(p < before.len() ==> before[p as int] > v);
                        } else {
                            assert(sorted@[a] == before[a - 1] && sorted@[b] == before[b - 1]);
                        }
                    }
                    assert(sorted@.to_set() =~= before.to_set().insert(v)) by {
                        assert forall|x: u128| sorted@.to_set().contains(x) <==> before.to_set().insert(v).contains(x) by {
                            if sorted@.to_set().contains(x) {
                                let k = choose|k: int| 0 <= k < sorted@.len() && sorted@[k] == x;
                                if k < p {
                                    assert(before[k] == x);
                                } else if k > p {
                                    assert(before[k - 1] == x);
                                }
                            }
                            if before.to_set().contains(x) {
                                let k = choose|k: int| 0 <= k < before.len() && before[k] == x;
                                if k < p {
                                    assert(sorted@[k] == x);
                                } else {
                                    assert(sorted@[k + 1] == x);
                                }
                            }
                            if x == v {
                                assert(sorted@[p as int] == v);
                            }
                        }
                    }
                    assert(live_profiles@.subrange(0, i + 1).to_set() =~= live_profiles@.subrange(0, i as int).to_set().insert(v));
                }
            }
            i = i + 1;
        }
        proof {
            assert(live_profiles@.subrange(0, live_profiles@.len() as int) =~= live_profiles@);
        }
        TabStrip { tabs, active: String::from_str(active), live_profiles: sorted }
    }
}

} // verus!
