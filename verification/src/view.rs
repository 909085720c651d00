//! The per-window view model: which screen a session window shows, folded from the session's
//! state changes, certificate prompts and statistics samples.
use vstd::prelude::*;

use crate::geometry::Size;

verus! {

/// How Drift reaches a GNOME desktop.
#[derive(Debug, Clone, Copy, PartialEq, Eq, Hash, Structural)]
pub enum ConnectMode {
    /// The system daemon's login screen, then the user's own session (Server Redirection).
    RemoteLogin,
    /// A headless session of the user's daemon.
    Headless,
    /// The user's running desktop, shared.
    DesktopSharing,
}

/// Which screen the webview shows for a session window.
#[derive(Debug, Clone, Copy, PartialEq, Eq, Hash, Structural)]
pub enum Screen {
    /// No session: the connect / profiles form.
    Profiles,
    /// Connecting progress.
    Connecting,
    /// An unknown certificate needs a decision.
    Certificate,
    /// Remote Login greeter is live: a non-modal hint banner over the picture.
    GreeterHint,
    /// Backoff overlay over the dimmed last frame: "Reconnecting in N s… [Now] [Cancel]".
    Reconnecting,
    /// Ended with an explanation and next steps.
    Error,
    /// Live desktop: the webview is hidden.
    Live,
}

/// Which certificate a prompt is about.
#[derive(Debug, Clone, Copy, PartialEq, Eq, Hash, Structural)]
pub enum CertificateSubject {
    /// The host in the profile.
    Server,
    /// A Server Redirection target (Remote Login legs after the first).
    RedirectTarget,
}

/// The command that prints the TLS fingerprint on the host for `mode`.
pub open spec fn grdctl_command_of(mode: ConnectMode) -> Seq<char> {
    match mode {
        ConnectMode::RemoteLogin => "sudo grdctl --system status"@,
        ConnectMode::Headless => "grdctl --headless status"@,
        ConnectMode::DesktopSharing => "grdctl status"@,
    }
}

/// Command that prints the TLS fingerprint on the host for `mode`.
pub fn grdctl_status_command(mode: ConnectMode) -> (r: &'static str)
    ensures
        r@ == grdctl_command_of(mode),
{
    match mode {
        ConnectMode::RemoteLogin => "sudo grdctl --system status",
        ConnectMode::Headless => "grdctl --headless status",
        ConnectMode::DesktopSharing => "grdctl status",
    }
}

/// Where a session stands, as far as the view needs it.
#[derive(Debug, Clone, Copy, PartialEq, Eq, Structural)]
pub enum SessionState {
    /// No session.
    Idle,
    /// Connecting (any leg, any stage).
    Connecting,
    /// Remote Login: the GNOME login screen is live and waits for the user.
    AwaitingGreeterLogin,
    /// The desktop is live.
    Connected {
        /// Desktop size in pixels.
        desktop: Size,
        /// Desktop scale in percent.
        scale: u32,
    },
    /// Waiting out a reconnect backoff.
    Reconnecting,
    /// Ended by a disconnect with an explanation.
    Disconnected,
    /// Failed.
    Failed,
}

/// The screen for a session in `state`; a pending certificate prompt wins over the state.
pub open spec fn screen_of(state: SessionState, prompt: bool) -> Screen {
    if prompt {
        Screen::Certificate
    } else {
        match state {
            SessionState::Idle => Screen::Profiles,
            SessionState::Connecting => Screen::Connecting,
            SessionState::AwaitingGreeterLogin => Screen::GreeterHint,
            SessionState::Connected { .. } => Screen::Live,
            SessionState::Reconnecting => Screen::Reconnecting,
            SessionState::Disconnected => Screen::Error,
            SessionState::Failed => Screen::Error,
        }
    }
}

/// The screen for a session in `state`; a pending certificate prompt wins over the state.
pub fn screen_for(state: SessionState, prompt: bool) -> (r: Screen)
    ensures
        r == screen_of(state, prompt),
{
    if prompt {
        return Screen::Certificate;
    }
    match state {
        SessionState::Idle => Screen::Profiles,
        SessionState::Connecting => Screen::Connecting,
        SessionState::AwaitingGreeterLogin => Screen::GreeterHint,
        SessionState::Connected { .. } => Screen::Live,
        SessionState::Reconnecting => Screen::Reconnecting,
        SessionState::Disconnected => Screen::Error,
        SessionState::Failed => Screen::Error,
    }
}

/// The statistics readouts in the units the HUD shows, in tenths: "58.9 fps · 1.2 Mbit/s ·
/// 4.3 ms · 2 unacked".
#[derive(Debug, Clone, Copy, PartialEq, Eq, Default, Structural)]
pub struct StatsReadout {
    /// Frames per second, in tenths.
    pub fps_tenths: u32,
    /// Megabits per second, in tenths.
    pub mbit_tenths: u32,
    /// 95th-percentile frame latency, in tenths of a millisecond.
    pub latency_p95_tenths_ms: u32,
    /// Frames not acknowledged yet.
    pub unacked_frames: u32,
}

/// A pending certificate decision.
#[derive(Debug, Clone, PartialEq, Eq)]
pub struct CertificatePrompt {
    /// Host as shown to the user.
    pub host: String,
    /// Port.
    pub port: u16,
    /// SHA-256 of the leaf certificate, in `grdctl status` format.
    pub fingerprint: String,
    /// Which certificate.
    pub subject: CertificateSubject,
    /// The command that prints the same fingerprint on the host, for this mode.
    pub grdctl_command: String,
}

/// A certificate prompt with its texts as characters: host, port, fingerprint, subject and
/// command.
pub type PromptView = (Seq<char>, u16, Seq<char>, CertificateSubject, Seq<char>);

/// The prompt `p`, if any, with its texts as characters.
pub open spec fn prompt_view(p: Option<CertificatePrompt>) -> Option<PromptView> {
    match p {
        Some(c) => Some((c.host@, c.port, c.fingerprint@, c.subject, c.grdctl_command@)),
        None => None,
    }
}

/// Reconnect attempts before a session gives up, as the reconnect overlay counts them.
pub const DEFAULT_MAX_ATTEMPTS: u32 = 20;

/// Everything a session window's webview needs to render.
#[derive(Debug, Clone, PartialEq, Eq)]
pub struct SessionView {
    /// Profile display name.
    pub profile_name: String,
    /// Profile mode.
    pub mode: ConnectMode,
    /// Remote Login: the Linux user to log in as (greeter hint).
    pub linux_username: Option<String>,
    /// Current session state.
    pub state: SessionState,
    /// What to render.
    pub screen: Screen,
    /// Set while a certificate prompt is pending.
    pub certificate: Option<CertificatePrompt>,
    /// Remote Login: the greeter appeared after this window had already shown a desktop, so
    /// the session is still running ("log in to resume").
    pub resuming: bool,
    /// Reconnect attempt budget shown in the overlay (`None` = unlimited).
    pub max_attempts: Option<u32>,
    /// The statistics HUD is switched on for this window.
    pub show_stats: bool,
    /// The latest statistics sample, while the picture is live.
    pub stats: Option<StatsReadout>,
}

/// What a view's fields say once its screen was worked out again: the screen follows the state
/// and the prompt, and the statistics go when the picture goes.
pub open spec fn refreshed_stats(screen: Screen, stats: Option<StatsReadout>) -> Option<StatsReadout> {
    if screen == Screen::Live {
        stats
    } else {
        None
    }
}

impl SessionView {
    /// The fields a state change, a prompt or a sample never touch are those of `other`.
    /// Everything the webview is shown, as values: two views that agree here render alike.
    pub open spec fn rendered(&self) -> (
        Seq<char>,
        ConnectMode,
        Option<Seq<char>>,
        SessionState,
        Screen,
        Option<PromptView>,
        bool,
        Option<u32>,
        bool,
        Option<StatsReadout>,
    ) {
        (
            self.profile_name@,
            self.mode,
            match self.linux_username {
                Some(u) => Some(u@),
                None => None,
            },
            self.state,
            self.screen,
            prompt_view(self.certificate),
            self.resuming,
            self.max_attempts,
            self.show_stats,
            self.stats,
        )
    }

    pub open spec fn same_profile(&self, other: &SessionView) -> bool {
        &&& self.profile_name@ == other.profile_name@
        &&& self.mode == other.mode
        &&& self.linux_username == other.linux_username
        &&& self.max_attempts == other.max_attempts
        &&& self.show_stats == other.show_stats
    }

    /// Initial view for a window that is about to connect the profile `profile_name` in `mode`
    /// (`linux_username`: the Linux user of a Remote Login profile).
    pub fn new(profile_name: &str, mode: ConnectMode, linux_username: Option<String>) -> (r: Self)
        ensures
            r.profile_name@ == profile_name@,
            r.mode == mode,
            r.linux_username == linux_username,
            r.state == SessionState::Idle,
            r.screen == Screen::Profiles,
            r.certificate is None,
            !r.resuming,
            r.max_attempts == Some(DEFAULT_MAX_ATTEMPTS),
            !r.show_stats,
            r.stats is None,
    {
        SessionView {
            profile_name: String::from_str(profile_name),
            mode,
            linux_username,
            state: SessionState::Idle,
            screen: Screen::Profiles,
            certificate: None,
            resuming: false,
            max_attempts: Some(DEFAULT_MAX_ATTEMPTS),
            show_stats: false,
            stats: None,
        }
    }

    fn refresh(&mut self)
        ensures
            final(self).same_profile(old(self)),
            final(self).state == old(self).state,
            final(self).resuming == old(self).resuming,
            prompt_view(final(self).certificate) == prompt_view(old(self).certificate),
            final(self).screen == screen_of(old(self).state, old(self).certificate is Some),
            final(self).stats == refreshed_stats(final(self).screen, old(self).stats),
    {
        self.screen = screen_for(self.state, self.certificate.is_some());
        let live = match self.screen {
            Screen::Live => true,
            _ => false,
        };
        if !live {
            self.stats = None;
        }
    }

    /// Folds a state change of the session into the view; returns whether the view changed.
    /// A desktop makes a later greeter a resumption, `Idle` forgets it, and any state change
    /// ends a pending certificate prompt.
    pub fn apply_state(&mut self, state: SessionState) -> (changed: bool)
        ensures
            final(self).same_profile(old(self)),
            final(self).state == state,
            final(self).resuming == (if state is Connected {
                true
            } else if state == SessionState::Idle {
                false
            } else {
                old(self).resuming
            }),
            final(self).certificate is None,
            final(self).screen == screen_of(state, false),
            final(self).stats == refreshed_stats(screen_of(state, false), old(self).stats),
            changed == (final(self).state != old(self).state || final(self).resuming
                != old(self).resuming || old(self).certificate is Some || final(self).screen
                != old(self).screen || final(self).stats != old(self).stats),
            changed == (final(self).rendered() != old(self).rendered()),
    {
        let old_state = self.state;
        let old_resuming = self.resuming;
        let had_prompt = self.certificate.is_some();
        let old_screen = self.screen;
        let old_stats = self.stats;
        match state {
            SessionState::Connected { .. } => {
                self.resuming = true;
            },
            SessionState::Idle => {
                self.resuming = false;
            },
            _ => {},
        }
        self.state = state;
        self.certificate = None;
        self.refresh();
        let stats_changed = match (old_stats, self.stats) {
            (None, None) => false,
            (Some(a), Some(b)) => a != b,
            _ => true,
        };
        old_state != self.state || old_resuming != self.resuming || had_prompt || old_screen
            != self.screen || stats_changed
    }

    /// A certificate needs a decision: the prompt (with the `grdctl` command for this
    /// profile's mode) covers the state until the next state change. Returns whether the view
    /// changed.
    pub fn prompt_certificate(
        &mut self,
        host: String,
        port: u16,
        fingerprint: String,
        subject: CertificateSubject,
    ) -> (changed: bool)
        ensures
            final(self).same_profile(old(self)),
            final(self).state == old(self).state,
            final(self).resuming == old(self).resuming,
            prompt_view(final(self).certificate) == Some(
                (host@, port, fingerprint@, subject, grdctl_command_of(old(self).mode)),
            ),
            final(self).screen == Screen::Certificate,
            final(self).stats is None,
            changed == (prompt_view(final(self).certificate) != prompt_view(old(self).certificate)
                || final(self).screen != old(self).screen || old(self).stats is Some),
            changed == (final(self).rendered() != old(self).rendered()),
    {
        let command = String::from_str(grdctl_status_command(self.mode));
        let same = match &self.certificate {
            Some(c) => c.host == host && c.port == port && c.fingerprint == fingerprint && c.subject
                == subject && c.grdctl_command == command,
            None => false,
        };
        let old_screen = self.screen;
        let had_stats = self.stats.is_some();
        let ghost old_prompt = prompt_view(self.certificate);
        self.certificate = Some(CertificatePrompt { host, port, fingerprint, subject, grdctl_command: command });
        self.refresh();
        proof {
            if same {
                assert(prompt_view(self.certificate) == old_prompt);
            }
        }
        !same || old_screen != self.screen || had_stats
    }

    /// The user answered the certificate prompt (the session continues or fails).
    pub fn clear_certificate(&mut self)
        ensures
            final(self).same_profile(old(self)),
            final(self).state == old(self).state,
            final(self).resuming == old(self).resuming,
            final(self).certificate is None,
            final(self).screen == screen_of(old(self).state, false),
            final(self).stats == refreshed_stats(screen_of(old(self).state, false), old(self).stats),
    {
        self.certificate = None;
        self.refresh();
    }

    /// A statistics sample arrived: it is kept while the picture is live (anything else has no
    /// HUD to show it). Returns whether the view changed: the same displayed numbers are no
    /// change.
    pub fn apply_stats(&mut self, stats: StatsReadout) -> (changed: bool)
        ensures
            final(self).same_profile(old(self)),
            final(self).state == old(self).state,
            final(self).resuming == old(self).resuming,
            prompt_view(final(self).certificate) == prompt_view(old(self).certificate),
            final(self).screen == old(self).screen,
            final(self).stats == (if old(self).screen == Screen::Live {
                Some(stats)
            } else {
                old(self).stats
            }),
            changed == (final(self).stats != old(self).stats),
            changed == (final(self).rendered() != old(self).rendered()),
    {
        let live = match self.screen {
            Screen::Live => true,
            _ => false,
        };
        if !live {
            return false;
        }
        let changed = match self.stats {
            Some(s) => s != stats,
            None => true,
        };
        self.stats = Some(stats);
        changed
    }
}

/// A session event as far as its window needs it.
pub enum WindowEvent {
    /// The session's state changed.
    State(SessionState),
    /// A certificate needs a decision.
    CertificatePrompt {
        /// Host as shown to the user.
        host: String,
        /// Port.
        port: u16,
        /// SHA-256 of the leaf certificate, in `grdctl status` format.
        fingerprint: String,
        /// Which certificate.
        subject: CertificateSubject,
    },
    /// The user's decision pinned a certificate (the fingerprint goes to the profile store).
    CertificatePinned,
    /// A statistics sample.
    Stats(StatsReadout),
    /// Anything else the window is told about (cursor, capabilities, clipboard, …).
    Other,
}

/// What folding `event` into the view `before` leaves, as `after`: a state change, a
/// certificate prompt and a statistics sample as [`SessionView::apply_state`],
/// [`SessionView::prompt_certificate`] and [`SessionView::apply_stats`] say; any other event
/// leaves the view as it was.
pub open spec fn applied(before: SessionView, event: WindowEvent, after: SessionView) -> bool {
    &&& after.same_profile(&before)
    &&& match event {
        WindowEvent::State(state) => {
            &&& after.state == state
            &&& after.resuming == (if state is Connected {
                true
            } else if state == SessionState::Idle {
                false
            } else {
                before.resuming
            })
            &&& after.certificate is None
            &&& after.screen == screen_of(state, false)
            &&& after.stats == refreshed_stats(screen_of(state, false), before.stats)
        },
        WindowEvent::CertificatePrompt { host, port, fingerprint, subject } => {
            &&& after.state == before.state
            &&& after.resuming == before.resuming
            &&& prompt_view(after.certificate) == Some(
                (host@, port, fingerprint@, subject, grdctl_command_of(before.mode)),
            )
            &&& after.screen == Screen::Certificate
            &&& after.stats is None
        },
        WindowEvent::Stats(stats) => {
            &&& after.state == before.state
            &&& after.resuming == before.resuming
            &&& prompt_view(after.certificate) == prompt_view(before.certificate)
            &&& after.screen == before.screen
            &&& after.stats == (if before.screen == Screen::Live {
                Some(stats)
            } else {
                before.stats
            })
        },
        _ => after.rendered() == before.rendered(),
    }
}

impl SessionView {
    /// Folds one session event into the view; returns `true` exactly when the view changed
    /// (and should be sent to the window again).
    pub fn apply(&mut self, event: WindowEvent) -> (changed: bool)
        ensures
            applied(*old(self), event, *final(self)),
            changed == (final(self).rendered() != old(self).rendered()),
    {
        match event {
            WindowEvent::State(state) => self.apply_state(state),
            WindowEvent::CertificatePrompt { host, port, fingerprint, subject } => self.prompt_certificate(
                host,
                port,
                fingerprint,
                subject,
            ),
            WindowEvent::Stats(stats) => self.apply_stats(stats),
            WindowEvent::CertificatePinned => false,
            WindowEvent::Other => false,
        }
    }

    /// A copy of the view: the same in everything it shows.
    pub fn copy(&self) -> (r: Self)
        ensures
            r.rendered() == self.rendered(),
            r.same_profile(self),
            r.state == self.state,
            r.screen == self.screen,
            r.resuming == self.resuming,
            r.stats == self.stats,
            prompt_view(r.certificate) == prompt_view(self.certificate),
    {
        let certificate = match &self.certificate {
            Some(c) => Some(
                CertificatePrompt {
                    host: c.host.clone(),
                    port: c.port,
                    fingerprint: c.fingerprint.clone(),
                    subject: c.subject,
                    grdctl_command: c.grdctl_command.clone(),
                },
            ),
            None => None,
        };
        let linux_username = match &self.linux_username {
            Some(u) => Some(u.clone()),
            None => None,
        };
        SessionView {
            profile_name: self.profile_name.clone(),
            mode: self.mode,
            linux_username,
            state: self.state,
            screen: self.screen,
            certificate,
            resuming: self.resuming,
            max_attempts: self.max_attempts,
            show_stats: self.show_stats,
            stats: self.stats,
        }
    }
}

/// The same state twice in a row: the second time the view does not change.
pub proof fn lemma_repeated_state_changes_nothing(
    v0: SessionView,
    v1: SessionView,
    v2: SessionView,
    state: SessionState,
)
    requires
        applied(v0, WindowEvent::State(state), v1),
        applied(v1, WindowEvent::State(state), v2),
    ensures
        v2.rendered() == v1.rendered(),
{
}

/// Events the view does not show (a pinned certificate, capabilities, clipboard, …) never
/// change it.
pub proof fn lemma_other_events_change_nothing(v0: SessionView, event: WindowEvent, v1: SessionView)
    requires
        applied(v0, event, v1),
        event is CertificatePinned || event is Other,
    ensures
        v1.rendered() == v0.rendered(),
{
}

} // verus!
