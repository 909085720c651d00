use std::time::Duration;

use drift::e2e::{Script, Step, GREETER_TEST_USER_TILE};
use drift::input::{InputEvent, MouseButton};

#[test]
fn parses_probe2_steps() {
    let s = Script::parse(
        "wait:1.5|click:640,427|text:@PW|key:Enter|ctrl:c|super|scroll:-12|move:1,2",
        &[("@PW", "Fake9")],
    )
    .unwrap();
    assert_eq!(
        s.steps(),
        &[
            Step::Wait(Duration::from_millis(1500)),
            Step::Click { x: 640, y: 427 },
            Step::Text("Fake9".into()),
            Step::Key { scancode: 0x1C, extended: false },
            Step::Chord(vec![(0x1D, false), (0x2E, false)]),
            Step::Chord(vec![(0x5B, true)]),
            Step::Scroll(-12),
            Step::Move { x: 1, y: 2 },
        ]
    );
}

#[test]
fn rejects_bad_steps_without_echoing_secrets() {
    for bad in ["wait:x", "click:1", "key:F13", "ctrl:q", "nope", "wait:-1"] {
        let err = Script::parse(bad, &[]).unwrap_err();
        assert_eq!(err.0, bad);
    }
}

#[test]
fn debug_never_shows_typed_text() {
    let s = Script::parse("text:@PW", &[("@PW", "Secret9-Fake")]).unwrap();
    assert!(!format!("{s:?}").contains("Secret9"));
}

#[test]
fn gdm_login_clicks_the_tile_types_and_presses_enter() {
    let s = Script::gdm_login("Fake9");
    let (x, y) = GREETER_TEST_USER_TILE;
    assert!(s.steps().contains(&Step::Click { x, y }));
    assert!(s.steps().contains(&Step::Text("Fake9".into())));
    assert_eq!(s.steps().last(), Some(&Step::Key { scancode: 0x1C, extended: false }));
}

#[test]
fn pieces_are_trimmed_and_blank_pieces_skipped() {
    let s = Script::parse(" wait:0.25 || scroll:9000 |ctrlalt:t| click: 3 , 4 ", &[]).unwrap();
    assert_eq!(
        s.steps(),
        &[
            Step::Wait(Duration::from_millis(250)),
            Step::Scroll(255),
            Step::Chord(vec![(0x1D, false), (0x38, false), (0x14, false)]),
            Step::Click { x: 3, y: 4 },
        ]
    );
    assert_eq!(Script::parse("wait:3600.5", &[]).unwrap_err().0, "wait:3600.5");
    assert_eq!(Script::parse("wait:3600", &[]).unwrap().steps(), &[Step::Wait(Duration::from_secs(3600))]);
    assert_eq!(Script::parse("click:70000,1", &[]).unwrap_err().0, "click:70000,1");
}

#[test]
fn every_placeholder_occurrence_is_substituted() {
    let s = Script::parse("text:@U:@PW@PW", &[("@U", "me"), ("@PW", "x")]).unwrap();
    assert_eq!(s.steps(), &[Step::Text("me:xx".into())]);
}

#[test]
fn steps_expand_to_input_events() {
    assert_eq!(
        Step::Click { x: 5, y: 6 }.input_events(),
        vec![
            InputEvent::MouseMove { x: 5, y: 6 },
            InputEvent::MouseButton { button: MouseButton::Left, down: true, x: 5, y: 6 },
            InputEvent::MouseButton { button: MouseButton::Left, down: false, x: 5, y: 6 },
        ]
    );
    // Surrogate pairs go out as two UTF-16 units, each pressed and released.
    let ev = Step::Text("a😀".into()).input_events();
    assert_eq!(ev.len(), 6);
    assert_eq!(ev[0], InputEvent::Unicode { ch: u16::from(b'a'), down: true });
    assert_eq!(ev[2], InputEvent::Unicode { ch: 0xD83D, down: true });
    assert_eq!(ev[4], InputEvent::Unicode { ch: 0xDE00, down: true });
    assert_eq!(
        Step::Chord(vec![(0x1D, false), (0x38, false)]).input_events(),
        vec![
            InputEvent::Key { scancode: 0x1D, extended: false, down: true },
            InputEvent::Key { scancode: 0x38, extended: false, down: true },
            InputEvent::Key { scancode: 0x38, extended: false, down: false },
            InputEvent::Key { scancode: 0x1D, extended: false, down: false },
        ]
    );
    assert!(Step::Wait(Duration::from_secs(1)).input_events().is_empty());
}

#[test]
fn keys_moves_and_scrolls_expand_to_their_events() {
    assert_eq!(
        Step::Key { scancode: 0x50, extended: true }.input_events(),
        vec![
            InputEvent::Key { scancode: 0x50, extended: true, down: true },
            InputEvent::Key { scancode: 0x50, extended: true, down: false },
        ]
    );
    assert_eq!(Step::Move { x: 1, y: 2 }.input_events(), vec![InputEvent::MouseMove { x: 1, y: 2 }]);
    assert_eq!(Step::Scroll(-12).input_events(), vec![InputEvent::Wheel { horizontal: false, units: -12 }]);
    assert!(Step::Text(String::new()).input_events().is_empty());
    assert!(Step::Chord(Vec::new()).input_events().is_empty());
}

#[test]
fn waits_accept_exponent_notation() {
    let wait = |text: &str| match Script::parse(text, &[]).map(|s| s.steps().to_vec()) {
        Ok(steps) => match steps.as_slice() {
            [Step::Wait(d)] => Some(*d),
            _ => None,
        },
        Err(_) => None,
    };
    assert_eq!(wait("wait:1e2"), Some(Duration::from_secs(100)));
    assert_eq!(wait("wait:2.5E-1"), Some(Duration::from_millis(250)));
    assert_eq!(wait("wait:+.5e1"), Some(Duration::from_secs(5)));
    assert_eq!(wait("wait:3.6e3"), Some(Duration::from_secs(3600)));
    assert_eq!(wait("wait:36e+2"), Some(Duration::from_secs(3600)));
    assert_eq!(wait("wait:1e-9"), Some(Duration::from_nanos(1)));
    assert_eq!(wait("wait:0e999999999999999999999"), Some(Duration::ZERO));
    assert_eq!(wait("wait:1e-99999999999999999999"), Some(Duration::ZERO));
    assert_eq!(wait("wait:-0e5"), Some(Duration::ZERO));
    for bad in ["wait:1e4", "wait:3.6000001e3", "wait:1e99999999999999999999", "wait:-1e-30", "wait:e5", "wait:1e", "wait:1e+", "wait:.e1", "wait:1.2.3e1", "wait:1e2.5"] {
        assert_eq!(wait(bad), None, "{bad}");
    }
}

#[test]
fn steps_describe_themselves_without_typed_text() {
    assert_eq!(format!("{:?}", Step::Text("hunter2".into())), "Text(<7 chars>)");
    assert_eq!(Step::Text("héllo".into()).describe(), "Text(<5 chars>)");
    assert_eq!(format!("{:?}", Step::Wait(Duration::from_millis(1500))), "Wait(1.5s)");
    assert_eq!(format!("{:?}", Step::Wait(Duration::from_millis(300))), "Wait(300ms)");
    assert_eq!(format!("{:?}", Step::Click { x: 640, y: 427 }), "Click(640,427)");
    assert_eq!(format!("{:?}", Step::Move { x: 1, y: 2 }), "Move(1,2)");
    assert_eq!(format!("{:?}", Step::Key { scancode: 0x1C, extended: false }), "Key(0x1c, ext=false)");
    assert_eq!(format!("{:?}", Step::Key { scancode: 0x5B, extended: true }), "Key(0x5b, ext=true)");
    assert_eq!(format!("{:?}", Step::Chord(vec![(0x1D, false), (0x2E, false)])), "Chord([(29, false), (46, false)])");
    assert_eq!(format!("{:?}", Step::Chord(vec![])), "Chord([])");
    assert_eq!(format!("{:?}", Step::Scroll(-12)), "Scroll(-12)");
    assert_eq!(format!("{:?}", Step::Scroll(i16::MIN)), "Scroll(-32768)");
    let s = Script::parse("text:@PW|key:Enter", &[("@PW", "Fake9")]).unwrap();
    assert!(!format!("{s:?}").contains("Fake9"));
}
