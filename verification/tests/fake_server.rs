use std::time::Duration;
use drift::fake_server::{
    acceptor_protocol, negotiate, read_rdstls_auth_request, rdstls_auth_response, redirection_pdu, routing_record,
    LegAuth, Negotiation, NegoToken, RdstlsRead, RdstlsRequest, TestCert, PROTOCOL_HYBRID, PROTOCOL_RDSTLS,
    PROTOCOL_SSL, RDSTLS_CAPABILITIES, tpkt_frame_len, LegScript, ServerAction, ClipboardHold,
    IoChannelRecord, ShareDataRequest, ActionCursor, LegStep,
};
use drift::fake_channels::Channels;
use drift::fake_channels::{ChannelState, GfxCommand, MonitorSize, RecordedLayout};

fn nla() -> LegAuth {
    LegAuth::Nla { username: "drifttest".into(), password: "pw-Fake1".into() }
}

#[test]
fn redirection_pdu_has_the_grd_shape() {
    let cert = TestCert::generate("127.0.0.1").unwrap();
    let pdu = redirection_pdu(123, cert.der(), 1);
    assert_eq!(pdu.redirection_flags, 0x1C016);
    assert_eq!(pdu.load_balance_info.as_slice(), &b"Cookie: msts=123\r\n"[..]);
    assert_eq!(pdu.username.chars().count(), 16);
    assert_eq!(pdu.password.len(), 34);
    assert_eq!(pdu.redirection_guid.len(), 50);
    assert_eq!(pdu.target_certificate.as_slice(), cert.der());
    assert_ne!(redirection_pdu(123, cert.der(), 2).password, pdu.password);
}

#[test]
fn redirection_credentials_follow_the_seed() {
    let pdu = redirection_pdu(7, &[0x30, 0x82], 0);
    assert_eq!(pdu.session_id, 0);
    assert_eq!(pdu.username, "ahovcjqxelszgnub");
    assert!(pdu.username.chars().all(|c| c.is_ascii_lowercase()));
    assert_eq!(pdu.password, (0u8..34).collect::<Vec<_>>());
    assert_eq!(&pdu.redirection_guid[..3], b"ABC");
    assert!(pdu.redirection_guid.iter().all(|b| b.is_ascii_uppercase()));
    assert_eq!(redirection_pdu(4294967295, &[], 0).load_balance_info, b"Cookie: msts=4294967295\r\n".to_vec());
}

#[test]
fn legs_select_their_protocol_and_refuse_clients_that_do_not_offer_it() {
    let rdstls = LegAuth::Rdstls { result: 0 };
    assert_eq!(negotiate(&nla(), PROTOCOL_SSL | PROTOCOL_HYBRID), Negotiation::Confirm(PROTOCOL_HYBRID));
    assert_eq!(
        negotiate(&nla(), PROTOCOL_SSL),
        Negotiation::Refuse { selected: PROTOCOL_HYBRID, requested: PROTOCOL_SSL }
    );
    assert_eq!(negotiate(&rdstls, 0x7), Negotiation::Confirm(PROTOCOL_RDSTLS));
    assert_eq!(negotiate(&rdstls, 0xB), Negotiation::Refuse { selected: PROTOCOL_RDSTLS, requested: 0xB });
    assert_eq!(negotiate(&rdstls, 0x3), Negotiation::Refuse { selected: PROTOCOL_RDSTLS, requested: 0x3 });
    assert_eq!(acceptor_protocol(&nla()), PROTOCOL_HYBRID);
    assert_eq!(acceptor_protocol(&rdstls), PROTOCOL_SSL);
    assert_eq!(RDSTLS_CAPABILITIES, [0x01, 0x00, 0x01, 0x00, 0x01, 0x00, 0x03, 0x00]);
}

#[test]
fn rdstls_answers_carry_the_result_code() {
    assert_eq!(rdstls_auth_response(0), vec![1, 0, 4, 0, 1, 0, 0, 0, 0, 0]);
    assert_eq!(rdstls_auth_response(0x52E), vec![1, 0, 4, 0, 1, 0, 0x2E, 0x05, 0, 0]);
}

#[test]
fn routing_tokens_are_recorded_as_cookies() {
    assert_eq!(routing_record(&NegoToken::RoutingToken("123".into())), "Cookie: msts=123");
    assert_eq!(routing_record(&NegoToken::Cookie("user".into())), "Cookie: mstshash=user");
}

fn utf16le(s: &str) -> Vec<u8> {
    s.encode_utf16().flat_map(u16::to_le_bytes).collect()
}

fn field(bytes: &[u8]) -> Vec<u8> {
    let mut v = (bytes.len() as u16).to_le_bytes().to_vec();
    v.extend_from_slice(bytes);
    v
}

fn request(user: &[u8]) -> Vec<u8> {
    let mut v = vec![1, 0, 2, 0, 1, 0];
    v.extend(field(&[0xAA, 0xBB, 0xCC]));
    v.extend(field(user));
    v.extend(field(&utf16le("")));
    v.extend(field(&[9, 8, 7]));
    v
}

#[test]
fn rdstls_requests_read_as_their_fields() {
    let mut user = utf16le("drifttest");
    user.extend_from_slice(&[0, 0]);
    let wire = request(&user);
    let want = RdstlsRequest {
        redirection_guid: vec![0xAA, 0xBB, 0xCC],
        username: "drifttest".into(),
        domain: String::new(),
        password: vec![9, 8, 7],
    };
    assert_eq!(read_rdstls_auth_request(&wire), RdstlsRead::Done(want.clone(), wire.len()));
    // Bytes after the request are not part of it.
    let mut more = wire.clone();
    more.extend_from_slice(&[0x03, 0x00]);
    assert_eq!(read_rdstls_auth_request(&more), RdstlsRead::Done(want, wire.len()));
}

#[test]
fn reading_exactly_what_is_asked_for_ends_at_the_request() {
    let wire = request(&utf16le("a😀"));
    let mut got = Vec::new();
    let mut steps = 0;
    loop {
        match read_rdstls_auth_request(&got) {
            RdstlsRead::Need(n) => {
                assert!(n >= 1);
                got.extend_from_slice(&wire[got.len()..got.len() + n]);
                steps += 1;
            }
            RdstlsRead::Done(req, k) => {
                assert_eq!(k, wire.len());
                assert_eq!(req.username, "a😀");
                break;
            }
            other => panic!("{other:?}"),
        }
    }
    assert_eq!(steps, 8);
}

#[test]
fn other_rdstls_pdus_and_lone_surrogates() {
    assert_eq!(
        read_rdstls_auth_request(&[1, 0, 4, 0, 1, 0]),
        RdstlsRead::BadHeader { version: 1, pdu_type: 4, data_type: 1 }
    );
    assert_eq!(read_rdstls_auth_request(&[1, 0]), RdstlsRead::Need(4));
    let wire = request(&[0x00, 0xD8, 0x41, 0x00]);
    match read_rdstls_auth_request(&wire) {
        RdstlsRead::Done(req, _) => assert_eq!(req.username, "\u{FFFD}A"),
        other => panic!("{other:?}"),
    }
}

#[test]
fn tpkt_headers_announce_the_frame_length() {
    assert_eq!(tpkt_frame_len(&[3, 0, 0, 19]), Ok(19));
    assert_eq!(tpkt_frame_len(&[3, 0, 0x01, 0x02]), Ok(258));
    assert_eq!(tpkt_frame_len(&[3, 0, 0, 4]), Ok(4));
    assert_eq!(tpkt_frame_len(&[3, 0, 0, 3]), Err("bad TPKT length 3".to_owned()));
    assert_eq!(tpkt_frame_len(&[3, 0, 0, 0]), Err("bad TPKT length 0".to_owned()));
}

#[test]
fn each_layout_is_recorded_and_queued_for_a_redraw() {
    let mut s = ChannelState::new();
    assert_eq!(s.monitor_layout(&[]), Err("empty monitor layout".to_owned()));
    assert!(s.layouts.is_empty() && s.pending_resets.is_empty());
    let primary = MonitorSize { width: 2560, height: 1440, desktop_scale: Some(200) };
    let second = MonitorSize { width: 800, height: 600, desktop_scale: None };
    assert_eq!(s.monitor_layout(&[primary, second]), Ok(()));
    assert_eq!(s.monitor_layout(&[second]), Ok(()));
    assert_eq!(
        s.layouts,
        vec![
            RecordedLayout { width: 2560, height: 1440, desktop_scale: 200 },
            RecordedLayout { width: 800, height: 600, desktop_scale: 100 },
        ]
    );
    assert_eq!(s.pending_resets, vec![(2560, 1440), (800, 600)]);
}

#[test]
fn graphics_answer_the_caps_and_every_redraw_gets_a_new_surface() {
    let mut s = ChannelState::new();
    let first = s.capabilities_advertised(1280, 800);
    assert!(s.gfx_caps_advertised);
    assert_eq!(
        first,
        vec![
            GfxCommand::CapabilitiesConfirmAvc420,
            GfxCommand::ResetGraphics { width: 1280, height: 800 },
            GfxCommand::CreateSurface { surface_id: 1, width: 1280, height: 800 },
            GfxCommand::MapSurfaceToOutput { surface_id: 1 },
            GfxCommand::StartFrame { frame_id: 1 },
            GfxCommand::SolidFill { surface_id: 1, right: 1280, bottom: 800 },
            GfxCommand::EndFrame { frame_id: 1 },
        ]
    );
    let second = s.redraw(70_000, 600);
    assert_eq!(second[0], GfxCommand::ResetGraphics { width: 70_000, height: 600 });
    assert_eq!(second[1], GfxCommand::CreateSurface { surface_id: 2, width: u16::MAX, height: 600 });
    assert_eq!(second[5], GfxCommand::EndFrame { frame_id: 2 });
    assert_eq!(s.gfx_resets_sent, vec![(1280, 800), (70_000, 600)]);

    s.frame_acknowledged(1, false);
    s.frame_acknowledged(2, true);
    assert_eq!(s.gfx_frame_acks, vec![1, 2]);
    assert_eq!(s.gfx_suspend_acks, 1);
}

#[test]
fn leg_scripts_build_up_their_actions() {
    let cert = TestCert::from_parts(vec![1], vec![2], vec![3]);
    let leg = LegScript::nla(cert.clone(), "drifttest", "pw-Fake1");
    assert!(matches!(&leg.auth, LegAuth::Nla { username, password } if username == "drifttest" && password == "pw-Fake1"));
    assert_eq!(leg.desktop, (1280, 800));
    assert!(leg.actions.is_empty() && !leg.stall);
    assert_eq!(leg.channels, Channels::default());

    let leg = LegScript::rdstls(cert.clone(), 7)
        .with_channels(Channels::desktop_sharing())
        .then(ServerAction::ClipboardPaste(13))
        .then(ServerAction::Close);
    assert!(matches!(leg.auth, LegAuth::Rdstls { result: 7 }));
    assert_eq!(leg.channels, Channels::desktop_sharing());
    assert!(matches!(leg.actions.as_slice(), [ServerAction::ClipboardPaste(13), ServerAction::Close]));

    let stall = LegScript::stall(cert);
    assert!(stall.stall);
    assert!(matches!(stall.auth, LegAuth::Rdstls { result: 0 }));
    assert_eq!(stall.cert.der(), &[1]);
}

#[test]
fn a_generated_certificate_carries_its_uncompressed_p256_key() {
    let cert = TestCert::generate("localhost").unwrap();
    let pk = cert.public_key();
    assert_eq!(pk.len(), 65);
    assert_eq!(pk[0], 4);
    assert!(cert.der().windows(pk.len()).any(|w| w == pk));
    assert!(cert.key_pkcs8().windows(pk.len()).any(|w| w == pk));
    let other = TestCert::generate("localhost").unwrap();
    assert_ne!(other.public_key(), pk);
}

#[test]
fn a_generated_certificate_names_its_host() {
    let dns = TestCert::generate("leg-1.drift.test").unwrap();
    assert!(dns.der().windows(16).any(|w| w == b"leg-1.drift.test"));
    let ip = TestCert::generate("127.0.0.1").unwrap();
    assert!(ip.der().windows(4).any(|w| w == [127, 0, 0, 1]));
    assert!(!ip.der().windows(9).any(|w| w == b"127.0.0.1"));
}

#[test]
fn held_clipboard_requests_are_answered_in_order_when_holding_stops() {
    let mut hold = ClipboardHold::new();
    assert_eq!(hold.data_request(1), Some(1));
    assert!(hold.set_hold(true).is_empty());
    assert_eq!(hold.data_request(7), None);
    assert_eq!(hold.data_request(3), None);
    assert_eq!(hold.set_hold(false), vec![7, 3]);
    assert_eq!(hold.data_request(4), Some(4));
    assert!(hold.set_hold(false).is_empty());
}

#[test]
fn shutdown_requests_are_denied_and_suppress_output_is_recorded() {
    let mut rec = IoChannelRecord::new();
    assert!(!rec.receive(ShareDataRequest::Other));
    assert!(!rec.receive(ShareDataRequest::SuppressOutput(None)));
    assert!(!rec.receive(ShareDataRequest::SuppressOutput(Some([0, 0, 1279, 799]))));
    assert!(!rec.shutdown_requested);
    assert!(rec.receive(ShareDataRequest::ShutdownRequest));
    assert!(rec.shutdown_requested);
    assert_eq!(rec.suppress_output, vec![None, Some([0, 0, 1279, 799])]);
}

#[test]
fn scripted_actions_run_in_order_around_their_waits() {
    let actions = vec![
        ServerAction::Wait(Duration::ZERO),
        ServerAction::ClipboardPaste(1),
        ServerAction::Wait(Duration::from_millis(500)),
        ServerAction::HoldClipboardResponses(true),
        ServerAction::Close,
        ServerAction::ClipboardPaste(2),
    ];
    let mut c = ActionCursor::new();
    assert_eq!(c.step(&actions, 10), LegStep::Run(1));
    assert_eq!(c.done(), 1, "the empty wait is done");
    c.performed();
    assert_eq!(c.step(&actions, 20), LegStep::Sleep(Some(500_000_020)));
    assert_eq!(c.step(&actions, 30), LegStep::Sleep(Some(500_000_020)), "still waiting");
    assert_eq!(c.step(&actions, 500_000_020), LegStep::Run(3));
    c.performed();
    assert_eq!(c.step(&actions, 500_000_021), LegStep::Close(4));
    assert_eq!(c.done(), 5);
}

#[test]
fn a_last_wait_leaves_the_leg_reading() {
    let actions = vec![ServerAction::Wait(Duration::from_secs(1))];
    let mut c = ActionCursor::new();
    assert_eq!(c.step(&actions, 0), LegStep::Sleep(None));
    assert_eq!(c.step(&actions, 5), LegStep::Sleep(None));
    assert_eq!(c.step(&actions, 2_000_000_000), LegStep::Sleep(None));
    assert_eq!(c.done(), 1);
    let mut empty = ActionCursor::new();
    assert_eq!(empty.step(&[], 0), LegStep::Sleep(None));
}
