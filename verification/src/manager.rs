//! The window side of a session's event pump: which events still reach a window, what its
//! view becomes, where each event goes next, and what happens when the session's event stream
//! ends. The pump's loop (receiving events, calling the host) runs around these steps.
use vstd::prelude::*;

use crate::view::{applied, ConnectMode, SessionState, SessionView, Screen, WindowEvent, DEFAULT_MAX_ATTEMPTS};

verus! {

/// One window's session record, kept after the session ends so the window can reconnect.
pub struct WindowSlot {
    /// The profile's display name.
    pub profile_name: String,
    /// The profile's mode.
    pub mode: ConnectMode,
    /// Remote Login: the Linux user of the profile.
    pub linux_username: Option<String>,
    /// What the window shows.
    pub view: SessionView,
    /// The generation of the session that owns the window, while one runs.
    pub live_generation: Option<u64>,
    /// The user disconnected: when the session ends, the window goes back to the profiles.
    pub back_to_profiles: bool,
}

/// Where the pump hands an event on after the view has seen it.
#[derive(Debug, Clone, Copy, PartialEq, Eq)]
pub enum Route {
    /// Nowhere: the view is all there is to it (state changes, certificate prompts).
    ViewOnly,
    /// To the profile store (a pinned certificate).
    CertificatePinned,
    /// To the window as a session event.
    SessionEvent,
}

/// The route of `event`.
pub open spec fn route_of(event: WindowEvent) -> Route {
    match event {
        WindowEvent::State(_) => Route::ViewOnly,
        WindowEvent::CertificatePrompt { .. } => Route::ViewOnly,
        WindowEvent::CertificatePinned => Route::CertificatePinned,
        _ => Route::SessionEvent,
    }
}

/// What the pump does with one event.
pub enum PumpAction {
    /// The window belongs to another session, or to none: the event is dropped.
    Drop,
    /// The event goes on along `route`; `changed_view` is the view to send to the window
    /// again when it changed.
    Deliver {
        /// Where the event goes.
        route: Route,
        /// The new view, when the event changed it.
        changed_view: Option<SessionView>,
    },
}

/// The texts and flags of a fresh view for the slot's profile (what `SessionView::new` gives).
pub open spec fn fresh_rendered(slot: WindowSlot) -> (
    Seq<char>,
    ConnectMode,
    Option<Seq<char>>,
    SessionState,
    Screen,
    Option<crate::view::PromptView>,
    bool,
    Option<u32>,
    bool,
    Option<crate::view::StatsReadout>,
) {
    (
        slot.profile_name@,
        slot.mode,
        match slot.linux_username {
            Some(u) => Some(u@),
            None => None,
        },
        SessionState::Idle,
        Screen::Profiles,
        None,
        false,
        Some(DEFAULT_MAX_ATTEMPTS),
        false,
        None,
    )
}

/// Whether `after` is `before` with the view replaced (or kept) and the rest as it was.
pub open spec fn same_record(before: WindowSlot, after: WindowSlot) -> bool {
    &&& after.profile_name@ == before.profile_name@
    &&& after.mode == before.mode
    &&& after.linux_username == before.linux_username
}

/// One event of the session of generation `generation` for the window of `slot`: dropped
/// unless that session still owns the window; otherwise folded into the view, and passed on
/// along its route, with the new view when it changed.
pub fn pump_step(slot: &mut WindowSlot, generation: u64, event: WindowEvent) -> (a: PumpAction)
    ensures
        old(slot).live_generation != Some(generation) ==> a is Drop && *final(slot) == *old(slot),
        old(slot).live_generation == Some(generation) ==> {
            &&& same_record(*old(slot), *final(slot))
            &&& final(slot).live_generation == old(slot).live_generation
            &&& final(slot).back_to_profiles == old(slot).back_to_profiles
            &&& applied(old(slot).view, event, final(slot).view)
            &&& a is Deliver
            &&& a->route == route_of(event)
            &&& (a->changed_view is Some <==> final(slot).view.rendered() != old(slot).view.rendered())
            &&& (a->changed_view matches Some(v) ==> v.rendered() == final(slot).view.rendered())
        },
{
    let owns = match slot.live_generation {
        Some(g) => g == generation,
        None => false,
    };
    if !owns {
        return PumpAction::Drop;
    }
    let route = match &event {
        WindowEvent::State(_) => Route::ViewOnly,
        WindowEvent::CertificatePrompt { .. } => Route::ViewOnly,
        WindowEvent::CertificatePinned => Route::CertificatePinned,
        WindowEvent::Stats(_) => Route::SessionEvent,
        WindowEvent::Other => Route::SessionEvent,
    };
    let changed = slot.view.apply(event);
    let changed_view = if changed { Some(slot.view.copy()) } else { None };
    PumpAction::Deliver { route, changed_view }
}

/// The event stream of the session of generation `generation` ended: `None` when another
/// session (or none) owns the window; otherwise the window has no session any more, and
/// `Some(Some(view))` when the user had disconnected, whose window goes back to a fresh view
/// of the profile (sent as `view`), else `Some(None)`.
pub fn pump_end(slot: &mut WindowSlot, generation: u64) -> (r: Option<Option<SessionView>>)
    ensures
        old(slot).live_generation != Some(generation) ==> r is None && *final(slot) == *old(slot),
        old(slot).live_generation == Some(generation) ==> {
            &&& same_record(*old(slot), *final(slot))
            &&& final(slot).live_generation is None
            &&& !final(slot).back_to_profiles
            &&& old(slot).back_to_profiles ==> {
                &&& final(slot).view.rendered() == fresh_rendered(*old(slot))
                &&& r matches Some(Some(v)) && v.rendered() == final(slot).view.rendered()
            }
            &&& !old(slot).back_to_profiles ==> r == Some(None::<SessionView>) && final(slot).view == old(slot).view
        },
{
    let owns = match slot.live_generation {
        Some(g) => g == generation,
        None => false,
    };
    if !owns {
        return None;
    }
    slot.live_generation = None;
    if slot.back_to_profiles {
        slot.back_to_profiles = false;
        let user = match &slot.linux_username {
            Some(u) => Some(u.clone()),
            None => None,
        };
        slot.view = SessionView::new(slot.profile_name.as_str(), slot.mode, user);
        Some(Some(slot.view.copy()))
    } else {
        Some(None)
    }
}

} // verus!
