use drift::manager::{pump_end, pump_step, PumpAction, Route, WindowSlot};
use drift::view::{ConnectMode, Screen, SessionState, SessionView, StatsReadout, WindowEvent};

fn slot(live: Option<u64>) -> WindowSlot {
    WindowSlot {
        profile_name: "Lab".into(),
        mode: ConnectMode::Headless,
        linux_username: None,
        view: SessionView::new("Lab", ConnectMode::Headless, None),
        live_generation: live,
        back_to_profiles: false,
    }
}

#[test]
fn events_of_a_replaced_session_are_dropped() {
    let mut s = slot(Some(3));
    assert!(matches!(pump_step(&mut s, 2, WindowEvent::State(SessionState::Connecting)), PumpAction::Drop));
    assert_eq!(s.view.screen, Screen::Profiles);
    let mut none = slot(None);
    assert!(matches!(pump_step(&mut none, 3, WindowEvent::Other), PumpAction::Drop));
    assert_eq!(pump_end(&mut s, 2), None);
    assert_eq!(s.live_generation, Some(3));
}

#[test]
fn events_of_the_owning_session_reach_the_view_and_their_route() {
    let mut s = slot(Some(3));
    match pump_step(&mut s, 3, WindowEvent::State(SessionState::Connecting)) {
        PumpAction::Deliver { route, changed_view: Some(v) } => {
            assert_eq!(route, Route::ViewOnly);
            assert_eq!(v.screen, Screen::Connecting);
        }
        _ => panic!("a state change reaches the window"),
    }
    match pump_step(&mut s, 3, WindowEvent::State(SessionState::Connecting)) {
        PumpAction::Deliver { route: Route::ViewOnly, changed_view: None } => {}
        _ => panic!("the same state again changes nothing"),
    }
    match pump_step(&mut s, 3, WindowEvent::CertificatePinned) {
        PumpAction::Deliver { route: Route::CertificatePinned, changed_view: None } => {}
        _ => panic!("a pinned certificate goes to the profile store"),
    }
    match pump_step(&mut s, 3, WindowEvent::Stats(StatsReadout::default())) {
        PumpAction::Deliver { route: Route::SessionEvent, changed_view: None } => {}
        _ => panic!("statistics without a picture change nothing"),
    }
    match pump_step(&mut s, 3, WindowEvent::Other) {
        PumpAction::Deliver { route: Route::SessionEvent, changed_view: None } => {}
        _ => panic!("other events go to the window"),
    }
}

#[test]
fn the_end_of_a_disconnected_session_shows_the_profiles_again() {
    let mut s = slot(Some(5));
    pump_step(&mut s, 5, WindowEvent::State(SessionState::Connecting));
    assert_eq!(pump_end(&mut s, 5), Some(None));
    assert_eq!(s.live_generation, None);
    assert_eq!(s.view.screen, Screen::Connecting);

    let mut s = slot(Some(6));
    pump_step(&mut s, 6, WindowEvent::State(SessionState::Failed));
    s.back_to_profiles = true;
    let fresh = SessionView::new("Lab", ConnectMode::Headless, None);
    assert_eq!(pump_end(&mut s, 6), Some(Some(fresh.clone())));
    assert_eq!(s.view, fresh);
    assert!(!s.back_to_profiles);
    assert_eq!(pump_end(&mut s, 6), None);
}
