//! The native menu bar as plain data.
//!
//! [`menu_spec`] describes the menus; the window glue turns it into native menus and routes
//! clicks by [`MenuAction::id`]. Every keyboard shortcut is one of the allow-listed
//! [`MenuShortcut`]s, so the remote view lets it through to the menu instead of sending it to the
//! remote desktop. Session actions have no shortcut: every other Command combo belongs to the
//! remote desktop.
use vstd::prelude::*;

use crate::connections::ConnectionStatus;
use crate::text::{chars_of, decimal, decimal_string, eq_lit, lemma_decimal, parse_u32, push_char, unsigned_value};

verus! {

/// A keyboard shortcut that the remote view hands to the menu bar instead of the remote desktop.
#[derive(Debug, Clone, Copy, PartialEq, Eq, Hash, Structural)]
pub enum MenuShortcut {
    /// Cmd+N.
    NewConnection,
    /// Cmd+0.
    ShowConnections,
    /// Cmd+E.
    EditConnection,
    /// Shift+Cmd+D.
    Disconnect,
    /// Cmd+W.
    CloseWindow,
    /// Cmd+Q.
    Quit,
    /// Cmd+1 … Cmd+9.
    SelectSession(u8),
    /// Cmd+`.
    CycleWindows,
}

/// A session window as the Window and Dock menus list it.
#[derive(Debug, Clone, PartialEq, Eq)]
pub struct SessionItem {
    /// Window label (`session-<n>`).
    pub window: String,
    /// Cleaned profile name.
    pub name: String,
    /// Text stand-in for the status (`● ◐ ◌ ↻ ⚠`).
    pub glyph: char,
    /// Where the connection stands.
    pub status: ConnectionStatus,
}

/// A session item with its texts as characters: window label, name, glyph and status.
pub type ItemView = (Seq<char>, Seq<char>, char, ConnectionStatus);

impl View for SessionItem {
    type V = ItemView;

    open spec fn view(&self) -> ItemView {
        (self.window@, self.name@, self.glyph, self.status)
    }
}

/// The views of `items`.
pub open spec fn items_view(items: Seq<SessionItem>) -> Seq<ItemView> {
    items.map_values(|s: SessionItem| s@)
}

/// A menu title: the glyph, a space and the name.
pub open spec fn item_title(item: ItemView) -> Seq<char> {
    seq![item.2, ' '] + item.1
}

impl SessionItem {
    /// The menu title: glyph and name.
    pub fn title(&self) -> (r: String)
        ensures
            r@ == item_title(self@),
    {
        let mut s = String::new();
        push_char(&mut s, self.glyph);
        push_char(&mut s, ' ');
        s.append(self.name.as_str());
        assert(s@ =~= item_title(self@));
        s
    }
}

/// A Drift menu command.
#[derive(Debug, Clone, Copy, PartialEq, Eq, Hash, Structural)]
pub enum MenuAction {
    /// File ▸ New Connection… (Cmd+N): Connections with the New Connection sheet.
    NewConnection,
    /// File ▸ Show Connections, Window ▸ Connections (Cmd+0).
    ShowConnections,
    /// File ▸ Edit <name>… (Cmd+E): Connections with the key session's edit sheet.
    EditConnection,
    /// File ▸ Disconnect <name> (Shift+Cmd+D): closes the key session window without asking.
    Disconnect,
    /// File ▸ Close Window (Cmd+W): like the red button.
    CloseWindow,
    /// Window ▸ Sessions ▸ the n-th session window (1-based; Cmd+1 … Cmd+9 on the first nine).
    SelectSession(u32),
    /// Session ▸ Send Ctrl+Alt+Del.
    SendCtrlAltDel,
    /// Session ▸ Reconnect.
    Reconnect,
    /// Session ▸ Show Statistics: the fps HUD over the live picture.
    ToggleStats,
    /// Drift ▸ Quit Drift (Cmd+Q): asks once if sessions are open, then shuts every session down
    /// gracefully and exits.
    Quit,
    /// Debug ▸ Record Session (experimental).
    ToggleRecording,
}

/// The id prefix of [`MenuAction::SelectSession`].
pub open spec fn select_prefix() -> Seq<char> {
    "drift.select-session."@
}

/// The menu item id of `a`.
pub open spec fn action_id(a: MenuAction) -> Seq<char> {
    match a {
        MenuAction::NewConnection => "drift.new-connection"@,
        MenuAction::ShowConnections => "drift.show-connections"@,
        MenuAction::EditConnection => "drift.edit-connection"@,
        MenuAction::Disconnect => "drift.disconnect"@,
        MenuAction::CloseWindow => "drift.close-window"@,
        MenuAction::SelectSession(n) => select_prefix() + decimal(n as nat),
        MenuAction::SendCtrlAltDel => "drift.send-ctrl-alt-del"@,
        MenuAction::Reconnect => "drift.reconnect"@,
        MenuAction::ToggleStats => "drift.toggle-stats"@,
        MenuAction::Quit => "drift.quit"@,
        MenuAction::ToggleRecording => "drift.toggle-recording"@,
    }
}

/// The action whose id is `id`: an id with the `SelectSession` prefix names the session after
/// it (a number from 1 that fits `u32`, as `str::parse` reads it); the other ids are matched
/// exactly.
pub open spec fn action_of_id(id: Seq<char>) -> Option<MenuAction> {
    let p = select_prefix();
    if p.len() <= id.len() && id.subrange(0, p.len() as int) == p {
        match unsigned_value(id.subrange(p.len() as int, id.len() as int)) {
            Some(n) => if 1 <= n <= u32::MAX {
                Some(MenuAction::SelectSession(n as u32))
            } else {
                None
            },
            None => None,
        }
    } else if id == "drift.new-connection"@ {
        Some(MenuAction::NewConnection)
    } else if id == "drift.show-connections"@ {
        Some(MenuAction::ShowConnections)
    } else if id == "drift.edit-connection"@ {
        Some(MenuAction::EditConnection)
    } else if id == "drift.disconnect"@ {
        Some(MenuAction::Disconnect)
    } else if id == "drift.close-window"@ {
        Some(MenuAction::CloseWindow)
    } else if id == "drift.send-ctrl-alt-del"@ {
        Some(MenuAction::SendCtrlAltDel)
    } else if id == "drift.reconnect"@ {
        Some(MenuAction::Reconnect)
    } else if id == "drift.toggle-stats"@ {
        Some(MenuAction::ToggleStats)
    } else if id == "drift.quit"@ {
        Some(MenuAction::Quit)
    } else if id == "drift.toggle-recording"@ {
        Some(MenuAction::ToggleRecording)
    } else {
        None
    }
}

impl MenuAction {
    /// The menu item id.
    pub fn id(self) -> (r: String)
        ensures
            r@ == action_id(self),
    {
        match self {
            MenuAction::NewConnection => String::from_str("drift.new-connection"),
            MenuAction::ShowConnections => String::from_str("drift.show-connections"),
            MenuAction::EditConnection => String::from_str("drift.edit-connection"),
            MenuAction::Disconnect => String::from_str("drift.disconnect"),
            MenuAction::CloseWindow => String::from_str("drift.close-window"),
            MenuAction::SelectSession(n) => {
                let mut s = String::from_str("drift.select-session.");
                let d = decimal_string(n as u64);
                s.append(d.as_str());
                s
            },
            MenuAction::SendCtrlAltDel => String::from_str("drift.send-ctrl-alt-del"),
            MenuAction::Reconnect => String::from_str("drift.reconnect"),
            MenuAction::ToggleStats => String::from_str("drift.toggle-stats"),
            MenuAction::Quit => String::from_str("drift.quit"),
            MenuAction::ToggleRecording => String::from_str("drift.toggle-recording"),
        }
    }

    /// Parses a menu item id.
    pub fn from_id(id: &str) -> (r: Option<Self>)
        ensures
            r == action_of_id(id@),
    {
        let cs = chars_of(id);
        let n = cs.len();
        proof {
            reveal_strlit("drift.select-session.");
            assert(cs@.subrange(0, n as int) =~= cs@);
        }
        if 21 <= n && eq_lit(cs.as_slice(), 0, 21, "drift.select-session.") {
            return match parse_u32(cs.as_slice(), 21, n) {
                Some(v) => if v >= 1 {
                    Some(MenuAction::SelectSession(v))
                } else {
                    None
                },
                None => None,
            };
        }
        proof {
            if select_prefix().len() <= id@.len() {
                if id@.subrange(0, select_prefix().len() as int) == select_prefix() {
                    assert(cs@.subrange(0, 21) == select_prefix());
                }
            }
        }
        if eq_lit(cs.as_slice(), 0, n, "drift.new-connection") {
            Some(MenuAction::NewConnection)
        } else if eq_lit(cs.as_slice(), 0, n, "drift.show-connections") {
            Some(MenuAction::ShowConnections)
        } else if eq_lit(cs.as_slice(), 0, n, "drift.edit-connection") {
            Some(MenuAction::EditConnection)
        } else if eq_lit(cs.as_slice(), 0, n, "drift.disconnect") {
            Some(MenuAction::Disconnect)
        } else if eq_lit(cs.as_slice(), 0, n, "drift.close-window") {
            Some(MenuAction::CloseWindow)
        } else if eq_lit(cs.as_slice(), 0, n, "drift.send-ctrl-alt-del") {
            Some(MenuAction::SendCtrlAltDel)
        } else if eq_lit(cs.as_slice(), 0, n, "drift.reconnect") {
            Some(MenuAction::Reconnect)
        } else if eq_lit(cs.as_slice(), 0, n, "drift.toggle-stats") {
            Some(MenuAction::ToggleStats)
        } else if eq_lit(cs.as_slice(), 0, n, "drift.quit") {
            Some(MenuAction::Quit)
        } else if eq_lit(cs.as_slice(), 0, n, "drift.toggle-recording") {
            Some(MenuAction::ToggleRecording)
        } else {
            None
        }
    }
}

/// Every menu command is found again by its id, except `SelectSession(0)`, which names no
/// session (the sessions are numbered from 1).
pub proof fn lemma_action_id_round_trip(a: MenuAction)
    requires
        a != MenuAction::SelectSession(0),
    ensures
        action_of_id(action_id(a)) == Some(a),
{
    reveal_strlit("drift.select-session.");
    reveal_strlit("drift.new-connection");
    reveal_strlit("drift.show-connections");
    reveal_strlit("drift.edit-connection");
    reveal_strlit("drift.disconnect");
    reveal_strlit("drift.close-window");
    reveal_strlit("drift.send-ctrl-alt-del");
    reveal_strlit("drift.reconnect");
    reveal_strlit("drift.toggle-stats");
    reveal_strlit("drift.quit");
    reveal_strlit("drift.toggle-recording");
    let id = action_id(a);
    let p = select_prefix();
    match a {
        MenuAction::SelectSession(n) => {
            lemma_decimal(n as nat);
            assert(id.subrange(0, p.len() as int) =~= p);
            assert(id.subrange(p.len() as int, id.len() as int) =~= decimal(n as nat));
        },
        MenuAction::ToggleStats => {
            assert(id[6] != "drift.close-window"@[6]);
        },
        MenuAction::ToggleRecording => {
            assert(id[6] != "drift.show-connections"@[6]);
            assert(id.subrange(0, p.len() as int)[8] != p[8]);
        },
        _ => {
            if p.len() <= id.len() {
                assert(id.subrange(0, p.len() as int)[8] != p[8]);
            }
        },
    }
}

/// Standard AppKit items.
#[derive(Debug, Clone, Copy, PartialEq, Eq, Structural)]
pub enum Standard {
    /// About Drift.
    About,
    /// Services submenu.
    Services,
    /// Hide Drift.
    Hide,
    /// Hide Others.
    HideOthers,
    /// Show All.
    ShowAll,
    /// Undo (webview form).
    Undo,
    /// Redo.
    Redo,
    /// Cut.
    Cut,
    /// Copy.
    Copy,
    /// Paste.
    Paste,
    /// Select All.
    SelectAll,
    /// Minimize.
    Minimize,
    /// Zoom.
    Zoom,
    /// Enter/Exit Full Screen.
    Fullscreen,
}

/// One entry of a submenu.
#[derive(Debug, Clone, PartialEq, Eq)]
pub enum MenuEntry {
    /// A Drift command.
    Action {
        /// What it does.
        action: MenuAction,
        /// Title.
        title: String,
        /// Keyboard shortcut (always allow-listed).
        shortcut: Option<MenuShortcut>,
        /// Can be chosen.
        enabled: bool,
        /// `Some` for a check item (the Sessions list), with its state.
        checked: Option<bool>,
    },
    /// A disabled section title.
    Header(String),
    /// A standard item.
    Standard(Standard),
    /// A separator.
    Separator,
}

/// A menu entry with its texts as characters.
pub enum EntryView {
    /// A Drift command.
    Action {
        /// What it does.
        action: MenuAction,
        /// Title.
        title: Seq<char>,
        /// Keyboard shortcut.
        shortcut: Option<MenuShortcut>,
        /// Can be chosen.
        enabled: bool,
        /// Check state of a check item.
        checked: Option<bool>,
    },
    /// A disabled section title.
    Header(Seq<char>),
    /// A standard item.
    Standard(Standard),
    /// A separator.
    Separator,
}

impl View for MenuEntry {
    type V = EntryView;

    open spec fn view(&self) -> EntryView {
        match self {
            MenuEntry::Action { action, title, shortcut, enabled, checked } => EntryView::Action {
                action: *action,
                title: title@,
                shortcut: *shortcut,
                enabled: *enabled,
                checked: *checked,
            },
            MenuEntry::Header(t) => EntryView::Header(t@),
            MenuEntry::Standard(s) => EntryView::Standard(*s),
            MenuEntry::Separator => EntryView::Separator,
        }
    }
}

/// The views of `entries`.
pub open spec fn entries_view(entries: Seq<MenuEntry>) -> Seq<EntryView> {
    entries.map_values(|e: MenuEntry| e@)
}

/// An enabled command that is not a check item.
pub open spec fn command(action: MenuAction, title: Seq<char>, shortcut: Option<MenuShortcut>) -> EntryView {
    EntryView::Action { action, title, shortcut, enabled: true, checked: None }
}

fn command_entry(action: MenuAction, title: &str, shortcut: Option<MenuShortcut>) -> (r: MenuEntry)
    ensures
        r@ == command(action, title@, shortcut),
{
    MenuEntry::Action { action, title: String::from_str(title), shortcut, enabled: true, checked: None }
}

/// One top-level menu.
#[derive(Debug, Clone, PartialEq, Eq)]
pub struct SubmenuSpec {
    /// Title in the menu bar.
    pub title: String,
    /// Items.
    pub entries: Vec<MenuEntry>,
}

impl View for SubmenuSpec {
    type V = (Seq<char>, Seq<EntryView>);

    open spec fn view(&self) -> (Seq<char>, Seq<EntryView>) {
        (self.title@, entries_view(self.entries@))
    }
}

/// The views of `menus`.
pub open spec fn menus_view(menus: Seq<SubmenuSpec>) -> Seq<(Seq<char>, Seq<EntryView>)> {
    menus.map_values(|m: SubmenuSpec| m@)
}

/// The File menu's connection-specific titles.
#[derive(Debug, Clone, PartialEq, Eq)]
pub struct FileTitles {
    /// "Edit <name>…" or "Edit Connection…".
    pub edit: String,
    /// "Disconnect <name>" or "Disconnect".
    pub disconnect: String,
    /// A session window is key, so both apply to it.
    pub enabled: bool,
}

/// The File menu's Edit and Disconnect titles, and whether both apply, for the key session item.
pub open spec fn file_titles_of(key: Option<ItemView>) -> (Seq<char>, Seq<char>, bool) {
    match key {
        Some(item) => ("Edit "@ + item.1 + "…"@, "Disconnect "@ + item.1, true),
        None => ("Edit Connection…"@, "Disconnect"@, false),
    }
}

/// The File menu's Edit / Disconnect titles for the key session window (`None`: Connections or
/// nothing is key, and both items are disabled).
pub fn file_titles(key: Option<&SessionItem>) -> (r: FileTitles)
    ensures
        (r.edit@, r.disconnect@, r.enabled) == file_titles_of(
            match key {
                Some(item) => Some(item@),
                None => None,
            },
        ),
{
    match key {
        Some(item) => {
            let edit = String::from_str("Edit ").concat(item.name.as_str()).concat("…");
            let disconnect = String::from_str("Disconnect ").concat(item.name.as_str());
            FileTitles { edit, disconnect, enabled: true }
        },
        None => FileTitles {
            edit: String::from_str("Edit Connection…"),
            disconnect: String::from_str("Disconnect"),
            enabled: false,
        },
    }
}

/// The entry of the `n`-th session window (from 1): a check item, checked when its window is key,
/// with Cmd+n on the first nine.
pub open spec fn session_entry(item: ItemView, n: nat, key: Option<Seq<char>>) -> EntryView {
    EntryView::Action {
        action: MenuAction::SelectSession(n as u32),
        title: item_title(item),
        shortcut: if n <= 9 {
            Some(MenuShortcut::SelectSession(n as u8))
        } else {
            None
        },
        enabled: true,
        checked: Some(key == Some(item.0)),
    }
}

/// The Window menu's "Sessions" section: a header and one check item per session window in
/// opening order; empty without sessions.
pub open spec fn sessions_section(items: Seq<ItemView>, key: Option<Seq<char>>) -> Seq<EntryView> {
    if items.len() == 0 {
        seq![]
    } else {
        seq![EntryView::Header("Sessions"@)] + Seq::new(
            items.len(),
            |i: int| session_entry(items[i], (i + 1) as nat, key),
        )
    }
}

/// The view of an optional string.
pub open spec fn opt_str(key: Option<&str>) -> Option<Seq<char>> {
    match key {
        Some(k) => Some(k@),
        None => None,
    }
}

/// The Window menu's "Sessions" section: a header and one check item per session window in
/// opening order, Cmd+1…9 on the first nine, the key window checked. Empty without sessions.
pub fn window_sessions(sessions: &[SessionItem], key: Option<&str>) -> (r: Vec<MenuEntry>)
    requires
        sessions@.len() < u32::MAX,
    ensures
        entries_view(r@) == sessions_section(items_view(sessions@), opt_str(key)),
{
    let ghost items = items_view(sessions@);
    let mut entries: Vec<MenuEntry> = Vec::new();
    if sessions.len() == 0 {
        assert(entries_view(entries@) =~= sessions_section(items, opt_str(key)));
        return entries;
    }
    let key_string: Option<String> = match key {
        Some(k) => Some(k.to_owned()),
        None => None,
    };
    entries.push(MenuEntry::Header(String::from_str("Sessions")));
    let mut i: usize = 0;
    while i < sessions.len()
        invariant
            i <= sessions@.len() < u32::MAX,
            items == items_view(sessions@),
            match key_string {
                Some(k) => opt_str(key) == Some(k@),
                None => opt_str(key) is None,
            },
            entries_view(entries@) =~= seq![EntryView::Header("Sessions"@)] + Seq::new(
                i as nat,
                |j: int| session_entry(items[j], (j + 1) as nat, opt_str(key)),
            ),
        decreases sessions@.len() - i,
    {
        let item = &sessions[i];
        let n = (i + 1) as u32;
        let shortcut = if n <= 9 {
            Some(MenuShortcut::SelectSession(n as u8))
        } else {
            None
        };
        let checked = match &key_string {
            Some(k) => item.window == *k,
            None => false,
        };
        let title = item.title();
        let entry = MenuEntry::Action {
            action: MenuAction::SelectSession(n),
            title,
            shortcut,
            enabled: true,
            checked: Some(checked),
        };
        let ghost before = entries_view(entries@);
        entries.push(entry);
        proof {
            assert(items[i as int] == item@);
            assert(entry@ == session_entry(items[i as int], (i + 1) as nat, opt_str(key)));
            assert(entries_view(entries@) =~= before.push(entry@));
            let f = |j: int| session_entry(items[j], (j + 1) as nat, opt_str(key));
            assert(Seq::new((i + 1) as nat, f) =~= Seq::new(i as nat, f).push(f(i as int)));
        }
        i = i + 1;
    }
    entries
}

/// The position of the first item whose window is `key`, from `from`.
pub open spec fn key_index(items: Seq<ItemView>, key: Seq<char>, from: int) -> Option<int>
    decreases items.len() - from,
{
    if from < 0 || from >= items.len() {
        None
    } else if items[from].0 == key {
        Some(from)
    } else {
        key_index(items, key, from + 1)
    }
}

/// The session item of the key window, if a session window is key.
pub open spec fn key_item(items: Seq<ItemView>, key: Option<Seq<char>>) -> Option<ItemView> {
    match key {
        Some(k) => match key_index(items, k, 0) {
            Some(i) => Some(items[i]),
            None => None,
        },
        None => None,
    }
}

/// The menu bar: Drift, File, Edit, Session and Window, for session windows `items` (opening
/// order) and key window `key`.
pub open spec fn menu_bar(items: Seq<ItemView>, key: Option<Seq<char>>) -> Seq<(Seq<char>, Seq<EntryView>)> {
    let t = file_titles_of(key_item(items, key));
    seq![
        ("Drift"@, seq![
            EntryView::Standard(Standard::About),
            EntryView::Separator,
            EntryView::Standard(Standard::Services),
            EntryView::Separator,
            EntryView::Standard(Standard::Hide),
            EntryView::Standard(Standard::HideOthers),
            EntryView::Standard(Standard::ShowAll),
            EntryView::Separator,
            command(MenuAction::Quit, "Quit Drift"@, Some(MenuShortcut::Quit)),
        ]),
        ("File"@, seq![
            command(MenuAction::NewConnection, "New Connection…"@, Some(MenuShortcut::NewConnection)),
            command(MenuAction::ShowConnections, "Show Connections"@, Some(MenuShortcut::ShowConnections)),
            EntryView::Separator,
            EntryView::Action {
                action: MenuAction::EditConnection,
                title: t.0,
                shortcut: Some(MenuShortcut::EditConnection),
                enabled: t.2,
                checked: None,
            },
            EntryView::Action {
                action: MenuAction::Disconnect,
                title: t.1,
                shortcut: Some(MenuShortcut::Disconnect),
                enabled: t.2,
                checked: None,
            },
            EntryView::Separator,
            command(MenuAction::CloseWindow, "Close Window"@, Some(MenuShortcut::CloseWindow)),
        ]),
        ("Edit"@, seq![
            EntryView::Standard(Standard::Undo),
            EntryView::Standard(Standard::Redo),
            EntryView::Separator,
            EntryView::Standard(Standard::Cut),
            EntryView::Standard(Standard::Copy),
            EntryView::Standard(Standard::Paste),
            EntryView::Standard(Standard::SelectAll),
        ]),
        ("Session"@, seq![
            command(MenuAction::SendCtrlAltDel, "Send Ctrl+Alt+Del"@, None),
            command(MenuAction::Reconnect, "Reconnect"@, None),
            command(MenuAction::ToggleStats, "Show Statistics"@, None),
        ]),
        ("Window"@, seq![
            EntryView::Standard(Standard::Minimize),
            EntryView::Standard(Standard::Zoom),
            EntryView::Standard(Standard::Fullscreen),
            EntryView::Separator,
            command(MenuAction::ShowConnections, "Connections"@, Some(MenuShortcut::ShowConnections)),
            EntryView::Separator,
        ] + sessions_section(items, key)),
    ]
}

fn find_key<'a>(sessions: &'a [SessionItem], key: Option<&str>) -> (r: Option<&'a SessionItem>)
    ensures
        match r {
            Some(item) => key_item(items_view(sessions@), opt_str(key)) == Some(item@),
            None => key_item(items_view(sessions@), opt_str(key)) is None,
        },
{
    let ghost items = items_view(sessions@);
    let k = match key {
        Some(k) => k.to_owned(),
        None => {
            return None;
        },
    };
    let mut i: usize = 0;
    while i < sessions.len()
        invariant
            i <= sessions@.len(),
            items == items_view(sessions@),
            opt_str(key) == Some(k@),
            key_index(items, k@, 0) == key_index(items, k@, i as int),
        decreases sessions@.len() - i,
    {
        if sessions[i].window == k {
            return Some(&sessions[i]);
        }
        i = i + 1;
    }
    None
}

fn submenu(title: &str, entries: Vec<MenuEntry>) -> (r: SubmenuSpec)
    ensures
        r@ == (title@, entries_view(entries@)),
{
    SubmenuSpec { title: String::from_str(title), entries }
}

/// The menu bar: Drift, File, Edit, Session, Window, for the session windows `sessions` (opening
/// order) and the key window `key`, as a build without session recording has it
/// ([`menu_spec_for`] adds the Debug menu of a recording build).
pub fn menu_spec(sessions: &[SessionItem], key: Option<&str>) -> (r: Vec<SubmenuSpec>)
    requires
        sessions@.len() < u32::MAX,
    ensures
        menus_view(r@) == menu_bar(items_view(sessions@), opt_str(key)),
{
    let mut drift: Vec<MenuEntry> = Vec::new();
    drift.push(MenuEntry::Standard(Standard::About));
    drift.push(MenuEntry::Separator);
    drift.push(MenuEntry::Standard(Standard::Services));
    drift.push(MenuEntry::Separator);
    drift.push(MenuEntry::Standard(Standard::Hide));
    drift.push(MenuEntry::Standard(Standard::HideOthers));
    drift.push(MenuEntry::Standard(Standard::ShowAll));
    drift.push(MenuEntry::Separator);
    drift.push(command_entry(MenuAction::Quit, "Quit Drift", Some(MenuShortcut::Quit)));

    let titles = file_titles(find_key(sessions, key));
    let mut file: Vec<MenuEntry> = Vec::new();
    file.push(command_entry(MenuAction::NewConnection, "New Connection…", Some(MenuShortcut::NewConnection)));
    file.push(command_entry(MenuAction::ShowConnections, "Show Connections", Some(MenuShortcut::ShowConnections)));
    file.push(MenuEntry::Separator);
    file.push(
        MenuEntry::Action {
            action: MenuAction::EditConnection,
            title: titles.edit,
            shortcut: Some(MenuShortcut::EditConnection),
            enabled: titles.enabled,
            checked: None,
        },
    );
    file.push(
        MenuEntry::Action {
            action: MenuAction::Disconnect,
            title: titles.disconnect,
            shortcut: Some(MenuShortcut::Disconnect),
            enabled: titles.enabled,
            checked: None,
        },
    );
    file.push(MenuEntry::Separator);
    file.push(command_entry(MenuAction::CloseWindow, "Close Window", Some(MenuShortcut::CloseWindow)));

    let mut edit: Vec<MenuEntry> = Vec::new();
    edit.push(MenuEntry::Standard(Standard::Undo));
    edit.push(MenuEntry::Standard(Standard::Redo));
    edit.push(MenuEntry::Separator);
    edit.push(MenuEntry::Standard(Standard::Cut));
    edit.push(MenuEntry::Standard(Standard::Copy));
    edit.push(MenuEntry::Standard(Standard::Paste));
    edit.push(MenuEntry::Standard(Standard::SelectAll));

    let mut session: Vec<MenuEntry> = Vec::new();
    session.push(command_entry(MenuAction::SendCtrlAltDel, "Send Ctrl+Alt+Del", None));
    session.push(command_entry(MenuAction::Reconnect, "Reconnect", None));
    session.push(command_entry(MenuAction::ToggleStats, "Show Statistics", None));

    let mut window: Vec<MenuEntry> = Vec::new();
    window.push(MenuEntry::Standard(Standard::Minimize));
    window.push(MenuEntry::Standard(Standard::Zoom));
    window.push(MenuEntry::Standard(Standard::Fullscreen));
    window.push(MenuEntry::Separator);
    window.push(command_entry(MenuAction::ShowConnections, "Connections", Some(MenuShortcut::ShowConnections)));
    window.push(MenuEntry::Separator);
    let ghost head = entries_view(window@);
    let mut listed = window_sessions(sessions, key);
    window.append(&mut listed);
    proof {
        assert(entries_view(window@) =~= head + sessions_section(items_view(sessions@), opt_str(key)));
    }

    let mut menus: Vec<SubmenuSpec> = Vec::new();
    menus.push(submenu("Drift", drift));
    menus.push(submenu("File", file));
    menus.push(submenu("Edit", edit));
    menus.push(submenu("Session", session));
    menus.push(submenu("Window", window));
    proof {
        let want = menu_bar(items_view(sessions@), opt_str(key));
        assert(menus_view(menus@)[0] =~= want[0]);
        assert(menus_view(menus@)[1] =~= want[1]);
        assert(menus_view(menus@)[2] =~= want[2]);
        assert(menus_view(menus@)[3] =~= want[3]);
        assert(menus_view(menus@)[4] =~= want[4]);
        assert(menus_view(menus@) =~= want);
    }
    menus
}

/// The Debug menu of a build that can record sessions.
pub open spec fn debug_menu() -> (Seq<char>, Seq<EntryView>) {
    ("Debug"@, seq![command(MenuAction::ToggleRecording, "Record Session (experimental)"@, None)])
}

/// The menu bar of a build with session recording (`recording`) or without: the five menus of
/// [`menu_spec`], and a last Debug menu holding Record Session when the build records.
pub fn menu_spec_for(sessions: &[SessionItem], key: Option<&str>, recording: bool) -> (r: Vec<SubmenuSpec>)
    requires
        sessions@.len() < u32::MAX,
    ensures
        menus_view(r@) == menu_bar(items_view(sessions@), opt_str(key)) + if recording {
            seq![debug_menu()]
        } else {
            Seq::<(Seq<char>, Seq<EntryView>)>::empty()
        },
{
    let mut menus = menu_spec(sessions, key);
    let ghost before = menus_view(menus@);
    if recording {
        let mut debug: Vec<MenuEntry> = Vec::new();
        debug.push(command_entry(MenuAction::ToggleRecording, "Record Session (experimental)", None));
        let m = submenu("Debug", debug);
        proof {
            assert(m@ =~= debug_menu());
        }
        menus.push(m);
        proof {
            assert(menus_view(menus@) =~= before + seq![debug_menu()]);
        }
    } else {
        proof {
            assert(menus_view(menus@) =~= before + Seq::<(Seq<char>, Seq<EntryView>)>::empty());
        }
    }
    menus
}

/// The accelerator string of `shortcut`.
pub open spec fn accelerator_text(shortcut: MenuShortcut) -> Seq<char> {
    match shortcut {
        MenuShortcut::NewConnection => "CmdOrCtrl+N"@,
        MenuShortcut::ShowConnections => "CmdOrCtrl+0"@,
        MenuShortcut::EditConnection => "CmdOrCtrl+E"@,
        MenuShortcut::Disconnect => "CmdOrCtrl+Shift+D"@,
        MenuShortcut::CloseWindow => "CmdOrCtrl+W"@,
        MenuShortcut::Quit => "CmdOrCtrl+Q"@,
        MenuShortcut::SelectSession(n) => "CmdOrCtrl+"@ + decimal(n as nat),
        MenuShortcut::CycleWindows => "CmdOrCtrl+Backquote"@,
    }
}

/// Accelerator string for an allow-listed shortcut.
pub fn accelerator(shortcut: MenuShortcut) -> (r: String)
    ensures
        r@ == accelerator_text(shortcut),
{
    match shortcut {
        MenuShortcut::NewConnection => String::from_str("CmdOrCtrl+N"),
        MenuShortcut::ShowConnections => String::from_str("CmdOrCtrl+0"),
        MenuShortcut::EditConnection => String::from_str("CmdOrCtrl+E"),
        MenuShortcut::Disconnect => String::from_str("CmdOrCtrl+Shift+D"),
        MenuShortcut::CloseWindow => String::from_str("CmdOrCtrl+W"),
        MenuShortcut::Quit => String::from_str("CmdOrCtrl+Q"),
        MenuShortcut::SelectSession(n) => {
            let mut s = String::from_str("CmdOrCtrl+");
            let d = decimal_string(n as u64);
            s.append(d.as_str());
            s
        },
        MenuShortcut::CycleWindows => String::from_str("CmdOrCtrl+Backquote"),
    }
}

} // verus!
