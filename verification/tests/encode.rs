use std::time::{Duration, Instant};

use drift::encode::{keyframe_gaps, EncodeError, EncodedFrame, EncoderConfig, Timeline};
use drift::geometry::Size;
use drift::params::ParameterSets;

#[test]
fn timeline_starts_at_zero_and_is_variable_rate() {
    let t0 = Instant::now();
    let mut tl = Timeline::new();
    assert_eq!(tl.pts(t0 + Duration::from_millis(500)).unwrap(), Duration::ZERO);
    assert_eq!(tl.pts(t0 + Duration::from_millis(516)).unwrap(), Duration::from_millis(16));
    assert_eq!(tl.pts(t0 + Duration::from_millis(900)).unwrap(), Duration::from_millis(400));
}

#[test]
fn timeline_rejects_non_increasing_times() {
    let t0 = Instant::now();
    let mut tl = Timeline::new();
    tl.pts(t0).unwrap();
    tl.pts(t0 + Duration::from_millis(10)).unwrap();
    assert_eq!(
        tl.pts(t0 + Duration::from_millis(10)),
        Err(EncodeError::NonMonotonic { pts: Duration::from_millis(10), previous: Duration::from_millis(10) })
    );
    // an instant before the origin saturates to zero, which is not after the last pts
    assert!(tl.pts(t0 - Duration::from_millis(1)).is_err());
    assert_eq!(tl.pts(t0 + Duration::from_millis(11)).unwrap(), Duration::from_millis(11));
}

#[test]
fn gaps() {
    let ms = Duration::from_millis;
    assert_eq!(keyframe_gaps(&[ms(0), ms(2000), ms(3500)]), vec![ms(2000), ms(1500)]);
    assert!(keyframe_gaps(&[ms(5)]).is_empty());
}

#[test]
fn gaps_never_go_negative() {
    let ms = Duration::from_millis;
    assert_eq!(keyframe_gaps(&[ms(10), ms(4)]), vec![Duration::ZERO]);
    assert!(keyframe_gaps(&[]).is_empty());
}

#[test]
fn keyframes_become_annex_b_with_parameter_sets() {
    let sps = vec![0x67, 0x64, 0x00, 0x28];
    let pps = vec![0x68, 0xEE];
    let avcc = vec![0, 0, 0, 2, 0x65, 0x88];
    let key = EncodedFrame::new(
        Duration::from_millis(40),
        true,
        Some(ParameterSets { sps: sps.clone(), pps: pps.clone() }),
        avcc.clone(),
    );
    assert_eq!(key.pts(), Duration::from_millis(40));
    assert!(key.is_keyframe());
    assert_eq!(key.parameter_sets().unwrap(), ParameterSets { sps: sps.clone(), pps: pps.clone() });
    assert_eq!(
        key.to_annex_b().unwrap(),
        vec![0, 0, 0, 1, 0x09, 0x30, 0, 0, 0, 1, 0x67, 0x64, 0x00, 0x28, 0, 0, 0, 1, 0x68, 0xEE, 0, 0, 0, 1, 0x65, 0x88]
    );
    let delta = EncodedFrame::new(Duration::from_millis(56), false, None, vec![0, 0, 0, 1, 0x41]);
    assert_eq!(delta.to_annex_b().unwrap(), vec![0, 0, 0, 1, 0x09, 0x30, 0, 0, 0, 1, 0x41]);
    assert!(matches!(delta.parameter_sets(), Err(EncodeError::BadSample(_))));
    let broken = EncodedFrame::new(Duration::ZERO, false, None, vec![0, 0, 0, 9, 1]);
    assert!(matches!(broken.to_annex_b(), Err(EncodeError::BadSample(_))));
}

#[test]
fn config_matches_plan() {
    let c = EncoderConfig::new(Size::new(1280, 800));
    assert_eq!(c.average_bitrate, 8_000_000);
    assert_eq!(c.max_keyframe_interval, Duration::from_secs(2));
    assert_eq!(c.expected_fps, 60);
    assert_eq!(c.size, Size::new(1280, 800));
}
