use drift::annexb::AccessUnit;
use drift::params::{picture_plan, ParamDecision, ParameterSetTracker, ParameterSets};

fn au(sps: &[&[u8]], pps: &[&[u8]], picture: bool) -> AccessUnit {
    AccessUnit {
        sps: sps.iter().map(|s| s.to_vec()).collect(),
        pps: pps.iter().map(|s| s.to_vec()).collect(),
        avcc: if picture { vec![0, 0, 0, 1, 0x41] } else { Vec::new() },
        is_idr: !sps.is_empty(),
    }
}

const SPS_A: &[u8] = &[0x67, 0x64, 0x00, 0x28];
const SPS_B: &[u8] = &[0x67, 0x64, 0x00, 0x1E];
const PPS: &[u8] = &[0x68, 0xEE];

#[test]
fn slice_before_parameter_sets_is_not_ready() {
    let mut t = ParameterSetTracker::new();
    assert_eq!(t.observe(&au(&[], &[], true)), ParamDecision::NotReady);
    assert_eq!(t.observe(&au(&[SPS_A], &[], true)), ParamDecision::NotReady);
    assert!(t.active().is_none());
}

#[test]
fn first_pair_builds_then_identical_resend_keeps() {
    let mut t = ParameterSetTracker::new();
    let pair = ParameterSets { sps: SPS_A.to_vec(), pps: PPS.to_vec() };
    assert_eq!(t.observe(&au(&[SPS_A], &[PPS], true)), ParamDecision::Rebuild(pair.clone()));
    assert_eq!(t.active(), Some(&pair));
    assert_eq!(t.observe(&au(&[], &[], true)), ParamDecision::Keep);
    assert_eq!(t.observe(&au(&[SPS_A], &[PPS], true)), ParamDecision::Keep);
}

#[test]
fn sps_change_triggers_rebuild() {
    let mut t = ParameterSetTracker::new();
    t.observe(&au(&[SPS_A], &[PPS], true));
    let d = t.observe(&au(&[SPS_B], &[PPS], true));
    assert_eq!(d, ParamDecision::Rebuild(ParameterSets { sps: SPS_B.to_vec(), pps: PPS.to_vec() }));
}

#[test]
fn pps_only_update_combines_with_active_sps() {
    let mut t = ParameterSetTracker::new();
    t.observe(&au(&[SPS_A], &[PPS], true));
    let pps2: &[u8] = &[0x68, 0xCE];
    let d = t.observe(&au(&[], &[pps2], true));
    assert_eq!(d, ParamDecision::Rebuild(ParameterSets { sps: SPS_A.to_vec(), pps: pps2.to_vec() }));
}

#[test]
fn reset_forgets() {
    let mut t = ParameterSetTracker::new();
    t.observe(&au(&[SPS_A], &[PPS], true));
    t.reset();
    assert!(t.active().is_none());
    assert_eq!(t.observe(&au(&[], &[], true)), ParamDecision::NotReady);
}

#[test]
fn the_decoder_rebuilds_when_asked_and_retries_a_failed_build() {
    let ps = ParameterSets { sps: SPS_A.to_vec(), pps: PPS.to_vec() };
    let skip = picture_plan(ParamDecision::NotReady, true, Some(&ps), true);
    assert!(skip.rebuild.is_none() && !skip.decode);
    let fresh = picture_plan(ParamDecision::Rebuild(ps.clone()), true, Some(&ps), false);
    assert_eq!(fresh.rebuild, Some(ps.clone()));
    assert!(!fresh.decode);
    let keep = picture_plan(ParamDecision::Keep, true, Some(&ps), true);
    assert!(keep.rebuild.is_none() && keep.decode);
    let retry = picture_plan(ParamDecision::Keep, false, Some(&ps), true);
    assert_eq!(retry.rebuild, Some(ps));
    assert!(retry.decode);
    let none = picture_plan(ParamDecision::Keep, false, None, true);
    assert!(none.rebuild.is_none() && !none.decode);
}
