//! Presentation rules for a session window: which surface is in front and who owns the
//! keyboard, how a profile name reads in titles and menus, the status a window shows, whether
//! closing asks first, the greeter hint, the VoiceOver label, and the words of the
//! confirmation alerts.
use vstd::prelude::*;

use crate::connections::{ConnectionStatus, WindowIdentity, CONNECTIONS_WINDOW};
use crate::geometry::{Point, Size};
use crate::menu::SessionItem;
use crate::text::{chars_of, decimal, decimal_string, eq_lit, string_between, trim, trim_bounds};
use crate::view::{Screen, SessionState, SessionView};

verus! {

/// Which view is in front of a session window.
#[derive(Debug, Clone, Copy, PartialEq, Eq, Structural)]
pub enum Surface {
    /// The webview fills the window and there is nothing to see behind it (form, certificate
    /// prompt, progress, error).
    Webview,
    /// The remote view with the live picture; the webview is hidden.
    Remote,
    /// The webview fills the window but paints only a dimming wash and a card over the last
    /// frame. It takes keyboard focus: the only thing the user can do is answer the overlay.
    Overlay,
    /// A small panel of the webview floats over a live picture; every event outside it still
    /// reaches the remote view, which keeps the keyboard.
    Hud(Hud),
}

/// Which panel a [`Surface::Hud`] draws.
#[derive(Debug, Clone, Copy, PartialEq, Eq, Structural)]
pub enum Hud {
    /// The greeter-wait hint, centred under the title bar.
    Banner,
    /// The statistics readouts in the bottom-right corner.
    Stats,
}

/// Edges a HUD panel may move away from when the window resizes (the other two pin it to the
/// window edge), in screen directions.
#[derive(Debug, Clone, Copy, PartialEq, Eq, Structural)]
pub struct Flexible {
    /// The space on the left may grow.
    pub left: bool,
    /// The space on the right may grow.
    pub right: bool,
    /// The space above may grow.
    pub top: bool,
    /// The space below may grow.
    pub bottom: bool,
}

/// Which view gets the keyboard in a window.
#[derive(Debug, Clone, Copy, PartialEq, Eq, Structural)]
pub enum Focus {
    /// The remote view (the remote desktop gets every key).
    Remote,
    /// The page's webview (forms, prompts, overlays).
    Page,
}

/// Who owns the keyboard for `surface`: the remote view while the live picture shows (also
/// under a HUD), the page otherwise.
pub open spec fn focus_of(surface: Surface) -> Focus {
    match surface {
        Surface::Remote | Surface::Hud(_) => Focus::Remote,
        Surface::Webview | Surface::Overlay => Focus::Page,
    }
}

/// Who owns the keyboard for `surface`. The title-bar webview never keeps it: when it gains
/// focus it hands the keyboard straight back to this.
pub fn focus_for(surface: Surface) -> (r: Focus)
    ensures
        r == focus_of(surface),
{
    match surface {
        Surface::Remote | Surface::Hud(_) => Focus::Remote,
        Surface::Webview | Surface::Overlay => Focus::Page,
    }
}

/// A control character (general category Cc: U+0000–U+001F and U+007F–U+009F).
pub open spec fn is_control(c: char) -> bool {
    c as u32 <= 0x1F || (0x7F <= c as u32 && c as u32 <= 0x9F)
}

/// `s` with every control character replaced by a space.
pub open spec fn controls_to_spaces(s: Seq<char>) -> Seq<char> {
    s.map_values(|c: char| if is_control(c) { ' ' } else { c })
}

/// A profile name as windows and menus show it: control characters become spaces, surrounding
/// whitespace is trimmed and a blank name reads "Untitled".
pub open spec fn display_name_of(s: Seq<char>) -> Seq<char> {
    let t = trim(controls_to_spaces(s));
    if t.len() == 0 {
        "Untitled"@
    } else {
        t
    }
}

/// A profile name as windows and menus show it: control characters become spaces, surrounding
/// whitespace is trimmed and a blank name reads "Untitled".
pub fn display_name(profile_name: &str) -> (r: String)
    ensures
        r@ == display_name_of(profile_name@),
{
    let cs = chars_of(profile_name);
    let mut cleaned: Vec<char> = Vec::new();
    let mut i: usize = 0;
    while i < cs.len()
        invariant
            i <= cs@.len(),
            cs@ == profile_name@,
            cleaned@ == controls_to_spaces(cs@.subrange(0, i as int)),
        decreases cs@.len() - i,
    {
        let c = cs[i];
        let v = c as u32;
        let d = if v <= 0x1F || (0x7F <= v && v <= 0x9F) {
            ' '
        } else {
            c
        };
        cleaned.push(d);
        proof {
            assert(controls_to_spaces(cs@.subrange(0, i + 1)) =~= controls_to_spaces(
                cs@.subrange(0, i as int),
            ).push(d));
        }
        i = i + 1;
    }
    proof {
        assert(cs@.subrange(0, i as int) =~= cs@);
        assert(cleaned@.subrange(0, cleaned@.len() as int) =~= cleaned@);
    }
    let (lo, hi) = trim_bounds(cleaned.as_slice(), 0, cleaned.len());
    if lo == hi {
        String::from_str("Untitled")
    } else {
        string_between(cleaned.as_slice(), lo, hi)
    }
}

/// What the close button (or Cmd+W) does to a window.
#[derive(Debug, Clone, Copy, PartialEq, Eq, Structural)]
pub enum CloseAction {
    /// The Connections window: hide it (it is only destroyed on quit).
    Hide,
    /// Ask first, then close the session and the window.
    Confirm,
    /// Close the session (if any) and the window at once.
    CloseNow,
}

/// The words of a two-button confirmation alert.
#[derive(Debug, Clone, PartialEq, Eq)]
pub struct Confirmation {
    /// Bold first line.
    pub message: String,
    /// Explanation.
    pub informative: String,
    /// Default button.
    pub confirm: String,
    /// Cancel button.
    pub cancel: String,
}

impl View for Confirmation {
    type V = (Seq<char>, Seq<char>, Seq<char>, Seq<char>);

    open spec fn view(&self) -> (Seq<char>, Seq<char>, Seq<char>, Seq<char>) {
        (self.message@, self.informative@, self.confirm@, self.cancel@)
    }
}

/// The sheet shown before closing a live session window of profile `name`.
pub open spec fn close_confirmation_of(name: Seq<char>) -> (Seq<char>, Seq<char>, Seq<char>, Seq<char>) {
    (
        "Disconnect “"@ + display_name_of(name) + "”?"@,
        "The remote session keeps running on the host."@,
        "Disconnect"@,
        "Cancel"@,
    )
}

/// The sheet shown before closing a live session window.
pub fn close_confirmation(profile_name: &str) -> (r: Confirmation)
    ensures
        r@ == close_confirmation_of(profile_name@),
{
    let name = display_name(profile_name);
    Confirmation {
        message: String::from_str("Disconnect “").concat(name.as_str()).concat("”?"),
        informative: String::from_str("The remote session keeps running on the host."),
        confirm: String::from_str("Disconnect"),
        cancel: String::from_str("Cancel"),
    }
}

/// The alert shown before quitting with `sessions` open; `None`: quit at once.
pub open spec fn quit_confirmation_of(sessions: nat) -> Option<(Seq<char>, Seq<char>, Seq<char>, Seq<char>)> {
    if sessions == 0 {
        None
    } else {
        Some(
            (
                "Quit Drift?"@,
                if sessions == 1 {
                    "1 session will be disconnected."@
                } else {
                    decimal(sessions) + " sessions will be disconnected."@
                },
                "Quit"@,
                "Cancel"@,
            ),
        )
    }
}

/// The alert shown before quitting with `sessions` open; `None` = quit at once.
pub fn quit_confirmation(sessions: usize) -> (r: Option<Confirmation>)
    ensures
        match r {
            Some(c) => quit_confirmation_of(sessions as nat) == Some(c@),
            None => quit_confirmation_of(sessions as nat) is None,
        },
{
    if sessions == 0 {
        return None;
    }
    let informative = if sessions == 1 {
        String::from_str("1 session will be disconnected.")
    } else {
        decimal_string(sessions as u64).concat(" sessions will be disconnected.")
    };
    Some(
        Confirmation {
            message: String::from_str("Quit Drift?"),
            informative,
            confirm: String::from_str("Quit"),
            cancel: String::from_str("Cancel"),
        },
    )
}

/// Which HUD (if any) belongs over the picture of a view on `screen`.
pub open spec fn hud_of(screen: Screen, show_stats: bool, has_stats: bool) -> Option<Hud> {
    match screen {
        Screen::GreeterHint => Some(Hud::Banner),
        Screen::Live => if show_stats && has_stats {
            Some(Hud::Stats)
        } else {
            None
        },
        _ => None,
    }
}

/// Which HUD (if any) belongs over the picture of `view`: the greeter banner over the login
/// screen, the statistics over a live picture once they are on and a sample arrived.
pub fn hud_for(view: &SessionView) -> (r: Option<Hud>)
    ensures
        r == hud_of(view.screen, view.show_stats, view.stats is Some),
{
    match view.screen {
        Screen::GreeterHint => Some(Hud::Banner),
        Screen::Live => if view.show_stats && view.stats.is_some() {
            Some(Hud::Stats)
        } else {
            None
        },
        _ => None,
    }
}

/// The surface for a view on `screen`.
pub open spec fn surface_of(screen: Screen, show_stats: bool, has_stats: bool) -> Surface {
    match hud_of(screen, show_stats, has_stats) {
        Some(h) => Surface::Hud(h),
        None => match screen {
            Screen::Live | Screen::GreeterHint => Surface::Remote,
            Screen::Reconnecting => Surface::Overlay,
            _ => Surface::Webview,
        },
    }
}

/// The surface for a view: the webview whenever there is no live picture; over a picture, a
/// HUD where one belongs, the dimming overlay while reconnecting, else the picture itself.
pub fn surface_for(view: &SessionView) -> (r: Surface)
    ensures
        r == surface_of(view.screen, view.show_stats, view.stats is Some),
{
    match hud_for(view) {
        Some(h) => Surface::Hud(h),
        None => match view.screen {
            Screen::Live | Screen::GreeterHint => Surface::Remote,
            Screen::Reconnecting => Surface::Overlay,
            _ => Surface::Webview,
        },
    }
}

/// The session window's title: the plain profile name.
pub fn window_title(view: &SessionView) -> (r: String)
    ensures
        r@ == display_name_of(view.profile_name@),
{
    display_name(view.profile_name.as_str())
}

/// Where the connection of a view on `screen` stands; a window that has not heard from its
/// session yet is connecting.
pub open spec fn status_of(screen: Screen) -> ConnectionStatus {
    match screen {
        Screen::Profiles | Screen::Connecting | Screen::Certificate => ConnectionStatus::Connecting,
        Screen::Live | Screen::GreeterHint => ConnectionStatus::Live,
        Screen::Reconnecting => ConnectionStatus::Reconnecting,
        Screen::Error => ConnectionStatus::Failed,
    }
}

/// Where the connection shown by `view` stands.
pub fn status_for(view: &SessionView) -> (r: ConnectionStatus)
    ensures
        r == status_of(view.screen),
{
    match view.screen {
        Screen::Profiles | Screen::Connecting | Screen::Certificate => ConnectionStatus::Connecting,
        Screen::Live | Screen::GreeterHint => ConnectionStatus::Live,
        Screen::Reconnecting => ConnectionStatus::Reconnecting,
        Screen::Error => ConnectionStatus::Failed,
    }
}

/// The text stand-in for the status of a view on `screen`: `●` live picture, `◐` live login
/// screen, `◌` connecting, `↻` reconnecting, `⚠` failed.
pub open spec fn glyph_of(screen: Screen) -> char {
    match status_of(screen) {
        ConnectionStatus::Live => if screen == Screen::GreeterHint {
            '◐'
        } else {
            '●'
        },
        ConnectionStatus::Connecting => '◌',
        ConnectionStatus::Reconnecting => '↻',
        ConnectionStatus::Failed => '⚠',
        ConnectionStatus::Idle => '○',
    }
}

/// The text stand-in for a session's status in the Window and Dock menus.
pub fn status_glyph(view: &SessionView) -> (r: char)
    ensures
        r == glyph_of(view.screen),
{
    match status_for(view) {
        ConnectionStatus::Live => match view.screen {
            Screen::GreeterHint => '◐',
            _ => '●',
        },
        ConnectionStatus::Connecting => '◌',
        ConnectionStatus::Reconnecting => '↻',
        ConnectionStatus::Failed => '⚠',
        ConnectionStatus::Idle => '○',
    }
}

/// Session window `window` as the Window and Dock menus list it.
pub fn session_item(window: &str, view: &SessionView) -> (r: SessionItem)
    ensures
        r@ == (window@, display_name_of(view.profile_name@), glyph_of(view.screen), status_of(
            view.screen,
        )),
{
    SessionItem {
        window: String::from_str(window),
        name: display_name(view.profile_name.as_str()),
        glyph: status_glyph(view),
        status: status_for(view),
    }
}

/// Whether closing a window on `screen` asks first: only while a desktop is held.
pub open spec fn needs_confirmation(screen: Screen) -> bool {
    screen == Screen::Live || screen == Screen::GreeterHint || screen == Screen::Reconnecting
}

/// Whether closing a window showing `view` asks first: only while a desktop is held (live,
/// greeter, reconnecting). Connecting, a certificate prompt and an error close at once.
pub fn close_needs_confirmation(view: &SessionView) -> (r: bool)
    ensures
        r == needs_confirmation(view.screen),
{
    match view.screen {
        Screen::Live | Screen::GreeterHint | Screen::Reconnecting => true,
        _ => false,
    }
}

/// The close decision for window `label`, whose session (if any) shows `view`.
pub open spec fn close_action_of(label: Seq<char>, screen: Option<Screen>) -> CloseAction {
    if label == CONNECTIONS_WINDOW@ {
        CloseAction::Hide
    } else if screen matches Some(s) && needs_confirmation(s) {
        CloseAction::Confirm
    } else {
        CloseAction::CloseNow
    }
}

/// The close decision for window `label`, whose session (if any) shows `view`: the
/// Connections window only hides; a session window asks first while it holds a desktop, else
/// closes at once.
pub fn close_action(label: &str, view: Option<&SessionView>) -> (r: CloseAction)
    ensures
        r == close_action_of(
            label@,
            match view {
                Some(v) => Some(v.screen),
                None => None,
            },
        ),
{
    let cs = chars_of(label);
    proof {
        assert(cs@.subrange(0, cs@.len() as int) =~= cs@);
    }
    if eq_lit(&cs, 0, cs.len(), CONNECTIONS_WINDOW) {
        CloseAction::Hide
    } else {
        match view {
            Some(v) => if close_needs_confirmation(v) {
                CloseAction::Confirm
            } else {
                CloseAction::CloseNow
            },
            None => CloseAction::CloseNow,
        }
    }
}

/// The greeter hint for a view on the login screen: who to log in as (when the profile names a
/// Linux user), and whether that resumes a running session.
pub open spec fn greeter_hint_of(user: Option<Seq<char>>, resuming: bool) -> Seq<char> {
    match user {
        Some(u) => if resuming {
            "Session is still running — log in as “"@ + u + "” to resume"@
        } else {
            "Log in as “"@ + u + "” to start your session"@
        },
        None => if resuming {
            "Session is still running — log in to resume"@
        } else {
            "Log in to start your session"@
        },
    }
}

/// The characters of an optional string.
pub open spec fn opt_chars(s: Option<String>) -> Option<Seq<char>> {
    match s {
        Some(t) => Some(t@),
        None => None,
    }
}

/// The greeter hint while the GNOME login screen is live, else `None`. It is the banner over the
/// login screen and the identity capsule's tooltip.
pub fn greeter_hint(view: Option<&SessionView>) -> (r: Option<String>)
    ensures
        match view {
            Some(v) => if v.screen == Screen::GreeterHint {
                r is Some && r->0@ == greeter_hint_of(opt_chars(v.linux_username), v.resuming)
            } else {
                r is None
            },
            None => r is None,
        },
{
    let v = match view {
        Some(v) => v,
        None => return None,
    };
    match v.screen {
        Screen::GreeterHint => {},
        _ => return None,
    }
    let text = match &v.linux_username {
        Some(user) => if v.resuming {
            String::from_str("Session is still running — log in as “").concat(user.as_str()).concat(
                "” to resume",
            )
        } else {
            String::from_str("Log in as “").concat(user.as_str()).concat("” to start your session")
        },
        None => if v.resuming {
            String::from_str("Session is still running — log in to resume")
        } else {
            String::from_str("Log in to start your session")
        },
    };
    Some(text)
}

/// What VoiceOver announces for the live picture of a view named `name` in `state` (`None`:
/// no session).
pub open spec fn accessibility_label_of(name: Option<Seq<char>>, state: SessionState) -> Seq<char> {
    match name {
        None => "Remote desktop"@,
        Some(n) => match state {
            SessionState::Connected { desktop, .. } => n + " — remote desktop, "@ + decimal(
                desktop.width as nat,
            ) + " by "@ + decimal(desktop.height as nat) + " pixels"@,
            _ => n + " — remote desktop"@,
        },
    }
}

/// What VoiceOver announces for the live picture: the connection and, while connected, the
/// desktop size, so two session windows can be told apart.
pub fn accessibility_label(view: Option<&SessionView>) -> (r: String)
    ensures
        r@ == match view {
            Some(v) => accessibility_label_of(Some(v.profile_name@), v.state),
            None => accessibility_label_of(None, SessionState::Idle),
        },
{
    let v = match view {
        Some(v) => v,
        None => return String::from_str("Remote desktop"),
    };
    match v.state {
        SessionState::Connected { desktop, .. } => {
            let w = decimal_string(desktop.width as u64);
            let h = decimal_string(desktop.height as u64);
            v.profile_name.clone().concat(" — remote desktop, ").concat(w.as_str()).concat(" by ").concat(
                h.as_str(),
            ).concat(" pixels")
        },
        _ => v.profile_name.clone().concat(" — remote desktop"),
    }
}

/// `c` with an ASCII upper-case letter made lower-case.
pub open spec fn ascii_lower(c: char) -> char {
    if 'A' <= c && c <= 'Z' {
        ((c as u32) + 32) as char
    } else {
        c
    }
}

/// Whether `a` and `b` are equal but for ASCII letter case (`str::eq_ignore_ascii_case`).
pub open spec fn eq_ignore_ascii_case(a: Seq<char>, b: Seq<char>) -> bool {
    a.len() == b.len() && forall|i: int| 0 <= i < a.len() ==> ascii_lower(#[trigger] a[i]) == ascii_lower(b[i])
}

fn lower(c: char) -> (r: char)
    ensures
        r == ascii_lower(c),
{
    if 'A' <= c && c <= 'Z' {
        ((c as u32 + 32) as u8) as char
    } else {
        c
    }
}

fn same_ignoring_case(a: &[char], b: &[char]) -> (r: bool)
    ensures
        r == eq_ignore_ascii_case(a@, b@),
{
    if a.len() != b.len() {
        return false;
    }
    let mut i: usize = 0;
    while i < a.len()
        invariant
            a@.len() == b@.len(),
            i <= a@.len(),
            forall|k: int| 0 <= k < i ==> ascii_lower(#[trigger] a@[k]) == ascii_lower(b@[k]),
        decreases a@.len() - i,
    {
        if lower(a[i]) != lower(b[i]) {
            return false;
        }
        i = i + 1;
    }
    true
}

/// Whether one of `names` is exactly `t`.
pub open spec fn has_exact(names: Seq<String>, t: Seq<char>) -> bool {
    exists|i: int| 0 <= i < names.len() && #[trigger] names[i]@ == t
}

/// The profile (by index in `names`, the saved profiles' names) that `DRIFT_AUTOCONNECT` value
/// `name` picks: the first exact match of the trimmed name, else the only name equal to it but
/// for ASCII case; a blank name, no match or several case-insensitive matches pick none.
pub fn find_autoconnect(names: &[String], name: &str) -> (r: Option<usize>)
    ensures
        trim(name@).len() == 0 ==> r is None,
        trim(name@).len() > 0 && has_exact(names@, trim(name@)) ==> (r matches Some(i) && i
            < names@.len() && names@[i as int]@ == trim(name@) && forall|j: int|
            0 <= j < i ==> #[trigger] names@[j]@ != trim(name@)),
        trim(name@).len() > 0 && !has_exact(names@, trim(name@)) ==> match r {
            Some(i) => i < names@.len() && eq_ignore_ascii_case(names@[i as int]@, trim(name@))
                && forall|j: int|
                0 <= j < names@.len() && j != i ==> !eq_ignore_ascii_case(
                    #[trigger] names@[j]@,
                    trim(name@),
                ),
            None => forall|i: int|
                0 <= i < names@.len() && eq_ignore_ascii_case(#[trigger] names@[i]@, trim(name@))
                    ==> exists|j: int|
                    0 <= j < names@.len() && j != i && eq_ignore_ascii_case(
                        #[trigger] names@[j]@,
                        trim(name@),
                    ),
        },
{
    let cs = chars_of(name);
    let (lo, hi) = trim_bounds(&cs, 0, cs.len());
    proof {
        assert(cs@.subrange(0, cs@.len() as int) =~= cs@);
    }
    let ghost t = trim(name@);
    if lo == hi {
        return None;
    }
    let want = string_between(&cs, lo, hi);
    assert(t.len() > 0);
    let mut i: usize = 0;
    while i < names.len()
        invariant
            want@ == t,
            t == trim(name@),
            t.len() > 0,
            i <= names@.len(),
            forall|j: int| 0 <= j < i ==> #[trigger] names@[j]@ != t,
        decreases names@.len() - i,
    {
        if names[i] == want {
            proof {
                assert(names@[i as int]@ == t);
            }
            return Some(i);
        }
        i = i + 1;
    }
    let wcs = chars_of(want.as_str());
    let mut found: Option<usize> = None;
    let mut k: usize = 0;
    while k < names.len()
        invariant
            wcs@ == t,
            t == trim(name@),
            t.len() > 0,
            k <= names@.len(),
            forall|j: int| 0 <= j < names@.len() ==> #[trigger] names@[j]@ != t,
            match found {
                Some(f) => f < k && eq_ignore_ascii_case(names@[f as int]@, t) && forall|j: int|
                    0 <= j < k && j != f ==> !eq_ignore_ascii_case(#[trigger] names@[j]@, t),
                None => forall|j: int| 0 <= j < k ==> !eq_ignore_ascii_case(#[trigger] names@[j]@, t),
            },
        decreases names@.len() - k,
    {
        let ncs = chars_of(names[k].as_str());
        if same_ignoring_case(&ncs, &wcs) {
            match found {
                Some(f) => {
                    proof {
                        assert(eq_ignore_ascii_case(names@[k as int]@, t));
                        assert(eq_ignore_ascii_case(names@[f as int]@, t));
                        assert forall|m: int|
                            0 <= m < names@.len() && eq_ignore_ascii_case(#[trigger] names@[m]@, t) implies exists|j: int|
                                0 <= j < names@.len() && j != m && eq_ignore_ascii_case(#[trigger] names@[j]@, t) by {
                            if m == f {
                                assert(eq_ignore_ascii_case(names@[k as int]@, t));
                            } else {
                                assert(eq_ignore_ascii_case(names@[f as int]@, t));
                            }
                        }
                        assert(!has_exact(names@, t));
                    }
                    return None;
                },
                None => {
                    found = Some(k);
                },
            }
        }
        k = k + 1;
    }
    found
}

/// The title bar's identity capsule for the window of profile `profile_id` (saved with host
/// `host`) showing `view`: the cleaned name, the host, the mode's glyph, the status, the
/// greeter hint as tooltip and whether the statistics gauge is pressed.
pub fn identity(profile_id: u128, host: &str, view: &SessionView) -> (r: WindowIdentity)
    ensures
        r.profile_id == profile_id,
        r.name@ == display_name_of(view.profile_name@),
        r.host@ == host@,
        r.mode == view.mode,
        r.status == status_of(view.screen),
        opt_chars(r.hint) == (if view.screen == Screen::GreeterHint {
            Some(greeter_hint_of(opt_chars(view.linux_username), view.resuming))
        } else {
            None
        }),
        r.show_stats == view.show_stats,
{
    WindowIdentity {
        profile_id,
        name: display_name(view.profile_name.as_str()),
        host: String::from_str(host),
        mode: view.mode,
        status: status_for(view),
        hint: greeter_hint(Some(view)),
        show_stats: view.show_stats,
    }
}

/// The remote desktop owns the keyboard exactly while a picture is live (the desktop or the
/// GNOME login screen); the webview is in front everywhere else, and a window asks before
/// closing exactly while it holds a desktop (live, login screen or reconnecting).
pub proof fn lemma_keyboard_follows_the_picture(screen: Screen, show_stats: bool, has_stats: bool)
    ensures
        focus_of(surface_of(screen, show_stats, has_stats)) == Focus::Remote <==> (screen
            == Screen::Live || screen == Screen::GreeterHint),
        needs_confirmation(screen) <==> (status_of(screen) == ConnectionStatus::Live || status_of(
            screen,
        ) == ConnectionStatus::Reconnecting),
{
}

/// A pointer image the remote desktop sent.
#[derive(Debug, Clone, PartialEq, Eq)]
pub struct CursorBitmap {
    /// Image size in pixels.
    pub size: Size,
    /// The hot spot inside the image.
    pub hotspot: Point,
    /// BGRA pixels, row by row.
    pub bgra: Vec<u8>,
    /// The desktop scale the image was drawn for, in percent.
    pub scale: u32,
}

/// A pointer update from the session.
#[derive(Debug, Clone, PartialEq, Eq)]
pub enum CursorUpdate {
    /// Hide the pointer.
    Hidden,
    /// The system default pointer.
    Default,
    /// A custom image.
    Bitmap(CursorBitmap),
    /// The remote pointer moved.
    Position(Point),
}

/// A pointer image for the picture's view.
#[derive(Debug, Clone, PartialEq, Eq)]
pub struct CursorImage {
    /// Image size in pixels.
    pub size: Size,
    /// The hot spot inside the image.
    pub hotspot: Point,
    /// BGRA pixels, row by row.
    pub bgra: Vec<u8>,
}

/// The pointer the picture's view shows.
#[derive(Debug, Clone, PartialEq, Eq)]
pub enum CursorShape {
    /// No pointer.
    Hidden,
    /// The system default pointer.
    Default,
    /// A custom image.
    Image(CursorImage),
}

/// Converts a pointer update into the view's pointer and its desktop scale (percent). Position
/// updates do not change the shape (`None`); the Mac pointer is never warped.
pub fn cursor_shape(update: &CursorUpdate) -> (r: Option<(CursorShape, u32)>)
    ensures
        match update {
            CursorUpdate::Hidden => r matches Some((CursorShape::Hidden, 100)),
            CursorUpdate::Default => r matches Some((CursorShape::Default, 100)),
            CursorUpdate::Bitmap(b) => r matches Some((CursorShape::Image(img), scale)) && img.size
                == b.size && img.hotspot == b.hotspot && img.bgra@ == b.bgra@ && scale == b.scale,
            CursorUpdate::Position(_) => r is None,
        },
{
    match update {
        CursorUpdate::Hidden => Some((CursorShape::Hidden, 100)),
        CursorUpdate::Default => Some((CursorShape::Default, 100)),
        CursorUpdate::Bitmap(b) => Some(
            (CursorShape::Image(CursorImage { size: b.size, hotspot: b.hotspot, bgra: b.bgra.clone() }), b.scale),
        ),
        CursorUpdate::Position(_) => None,
    }
}

} // verus!
