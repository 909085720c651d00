//! The Dock menu model.
//!
//! Pure data: the platform glue turns [`dock_menu`] into the native menu the application
//! delegate hands out, and routes clicks back by [`DockAction::id`].
use vstd::prelude::*;

use crate::menu::{item_title, items_view, ItemView, SessionItem};
use crate::text::{chars_of, eq_lit, string_between};

verus! {

/// What a Dock menu item does.
#[derive(Debug, Clone, PartialEq, Eq, Hash)]
pub enum DockAction {
    /// Bring session window `label` forward.
    Focus(String),
    /// Show the Connections window.
    ShowConnections,
    /// Show Connections with the New Connection sheet.
    NewConnection,
}

/// A Dock action with its window label as characters.
pub enum DockActionView {
    /// Bring a session window forward.
    Focus(Seq<char>),
    /// Show the Connections window.
    ShowConnections,
    /// Show Connections with the New Connection sheet.
    NewConnection,
}

impl View for DockAction {
    type V = DockActionView;

    open spec fn view(&self) -> DockActionView {
        match self {
            DockAction::Focus(label) => DockActionView::Focus(label@),
            DockAction::ShowConnections => DockActionView::ShowConnections,
            DockAction::NewConnection => DockActionView::NewConnection,
        }
    }
}

/// The id prefix of a Focus item.
pub open spec fn focus_prefix() -> Seq<char> {
    "drift.dock.focus."@
}

/// The prefix of every session window label.
pub open spec fn session_prefix() -> Seq<char> {
    "session-"@
}

/// `s` begins with `p`.
pub open spec fn starts_with(s: Seq<char>, p: Seq<char>) -> bool {
    p.len() <= s.len() && s.subrange(0, p.len() as int) == p
}

/// The item id of `a`.
pub open spec fn dock_id(a: DockActionView) -> Seq<char> {
    match a {
        DockActionView::Focus(label) => focus_prefix() + label,
        DockActionView::ShowConnections => "drift.dock.connections"@,
        DockActionView::NewConnection => "drift.dock.new-connection"@,
    }
}

/// The action of item id `id`: only session window labels can be focused.
pub open spec fn dock_action_of_id(id: Seq<char>) -> Option<DockActionView> {
    if starts_with(id, focus_prefix()) {
        let label = id.subrange(focus_prefix().len() as int, id.len() as int);
        if starts_with(label, session_prefix()) {
            Some(DockActionView::Focus(label))
        } else {
            None
        }
    } else if id == "drift.dock.connections"@ {
        Some(DockActionView::ShowConnections)
    } else if id == "drift.dock.new-connection"@ {
        Some(DockActionView::NewConnection)
    } else {
        None
    }
}

impl DockAction {
    /// The item id handed to AppKit.
    pub fn id(&self) -> (r: String)
        ensures
            r@ == dock_id(self@),
    {
        match self {
            DockAction::Focus(label) => String::from_str("drift.dock.focus.").concat(label.as_str()),
            DockAction::ShowConnections => String::from_str("drift.dock.connections"),
            DockAction::NewConnection => String::from_str("drift.dock.new-connection"),
        }
    }

    /// Parses an item id; only session window labels can be focused.
    pub fn from_id(id: &str) -> (r: Option<Self>)
        ensures
            match r {
                Some(a) => dock_action_of_id(id@) == Some(a@),
                None => dock_action_of_id(id@) is None,
            },
    {
        let cs = chars_of(id);
        let n = cs.len();
        proof {
            reveal_strlit("drift.dock.focus.");
            reveal_strlit("session-");
            assert(cs@.subrange(0, n as int) =~= cs@);
        }
        if 17 <= n && eq_lit(cs.as_slice(), 0, 17, "drift.dock.focus.") {
            proof {
                let label = cs@.subrange(17, n as int);
                if 8 <= label.len() {
                    assert(label.subrange(0, 8) =~= cs@.subrange(17, 25));
                }
            }
            if 25 <= n && eq_lit(cs.as_slice(), 17, 25, "session-") {
                return Some(DockAction::Focus(string_between(cs.as_slice(), 17, n)));
            }
            return None;
        }
        if eq_lit(cs.as_slice(), 0, n, "drift.dock.connections") {
            Some(DockAction::ShowConnections)
        } else if eq_lit(cs.as_slice(), 0, n, "drift.dock.new-connection") {
            Some(DockAction::NewConnection)
        } else {
            None
        }
    }
}

/// A click is routed back to the action it was made for: the id of a Focus action on a session
/// window label, of Show Connections or of New Connection reads back as that action.
pub proof fn lemma_dock_id_round_trip(a: DockActionView)
    requires
        a matches DockActionView::Focus(label) ==> starts_with(label, session_prefix()),
    ensures
        dock_action_of_id(dock_id(a)) == Some(a),
{
    reveal_strlit("drift.dock.focus.");
    reveal_strlit("session-");
    reveal_strlit("drift.dock.connections");
    reveal_strlit("drift.dock.new-connection");
    let id = dock_id(a);
    let p = focus_prefix();
    match a {
        DockActionView::Focus(label) => {
            assert(id.subrange(0, p.len() as int) =~= p);
            assert(id.subrange(p.len() as int, id.len() as int) =~= label);
        },
        _ => {
            assert(id.subrange(0, p.len() as int)[11] != p[11]);
        },
    }
}

/// One entry of the Dock menu.
#[derive(Debug, Clone, PartialEq, Eq)]
pub enum DockItem {
    /// A disabled section title.
    Header(String),
    /// A command; `key` is the key equivalent shown with Command.
    Action {
        /// What it does.
        action: DockAction,
        /// Title.
        title: String,
        /// Key equivalent shown with Command.
        key: Option<char>,
    },
    /// A separator.
    Separator,
}

/// A Dock menu entry with its texts as characters.
pub enum DockItemView {
    /// A disabled section title.
    Header(Seq<char>),
    /// A command.
    Action {
        /// What it does.
        action: DockActionView,
        /// Title.
        title: Seq<char>,
        /// Key equivalent.
        key: Option<char>,
    },
    /// A separator.
    Separator,
}

impl View for DockItem {
    type V = DockItemView;

    open spec fn view(&self) -> DockItemView {
        match self {
            DockItem::Header(t) => DockItemView::Header(t@),
            DockItem::Action { action, title, key } => DockItemView::Action {
                action: action@,
                title: title@,
                key: *key,
            },
            DockItem::Separator => DockItemView::Separator,
        }
    }
}

/// The views of `items`.
pub open spec fn dock_items_view(items: Seq<DockItem>) -> Seq<DockItemView> {
    items.map_values(|i: DockItem| i@)
}

/// The Focus entry of a session window.
pub open spec fn focus_item(item: ItemView) -> DockItemView {
    DockItemView::Action {
        action: DockActionView::Focus(item.0),
        title: item_title(item),
        key: None,
    }
}

/// The Dock menu for session windows `items`: a "Sessions" section (in opening order) when
/// sessions are open, then Connections (⌘0) and New Connection… (⌘N).
pub open spec fn dock_menu_of(items: Seq<ItemView>) -> Seq<DockItemView> {
    let commands = seq![
        DockItemView::Action {
            action: DockActionView::ShowConnections,
            title: "Connections"@,
            key: Some('0'),
        },
        DockItemView::Action {
            action: DockActionView::NewConnection,
            title: "New Connection…"@,
            key: Some('n'),
        },
    ];
    if items.len() == 0 {
        commands
    } else {
        seq![DockItemView::Header("Sessions"@)] + Seq::new(items.len(), |i: int| focus_item(items[i]))
            + seq![DockItemView::Separator] + commands
    }
}

/// The Dock menu: a "Sessions" section (glyph + name, opening order) when sessions are open,
/// then Connections (⌘0) and New Connection… (⌘N).
pub fn dock_menu(sessions: &[SessionItem]) -> (r: Vec<DockItem>)
    ensures
        dock_items_view(r@) == dock_menu_of(items_view(sessions@)),
{
    let ghost items = items_view(sessions@);
    let mut out: Vec<DockItem> = Vec::new();
    if sessions.len() > 0 {
        out.push(DockItem::Header(String::from_str("Sessions")));
        let mut i: usize = 0;
        while i < sessions.len()
            invariant
                i <= sessions@.len(),
                sessions@.len() > 0,
                items == items_view(sessions@),
                dock_items_view(out@) =~= seq![DockItemView::Header("Sessions"@)] + Seq::new(
                    i as nat,
                    |j: int| focus_item(items[j]),
                ),
            decreases sessions@.len() - i,
        {
            let s = &sessions[i];
            let item = DockItem::Action {
                action: DockAction::Focus(s.window.clone()),
                title: s.title(),
                key: None,
            };
            let ghost before = dock_items_view(out@);
            out.push(item);
            proof {
                assert(items[i as int] == s@);
                assert(item@ == focus_item(items[i as int]));
                assert(dock_items_view(out@) =~= before.push(item@));
                let f = |j: int| focus_item(items[j]);
                assert(Seq::new((i + 1) as nat, f) =~= Seq::new(i as nat, f).push(f(i as int)));
            }
            i = i + 1;
        }
        out.push(DockItem::Separator);
    }
    out.push(
        DockItem::Action {
            action: DockAction::ShowConnections,
            title: String::from_str("Connections"),
            key: Some('0'),
        },
    );
    out.push(
        DockItem::Action {
            action: DockAction::NewConnection,
            title: String::from_str("New Connection…"),
            key: Some('n'),
        },
    );
    assert(dock_items_view(out@) =~= dock_menu_of(items));
    out
}

} // verus!
