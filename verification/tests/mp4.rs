use drift::geometry::Size;
use drift::mp4::{RecorderStep, RecordingLoop};
use drift::mp4::{
    after_write, low_space, stop_reason, RecorderState, RecordingError, StopReason, DEFAULT_MIN_FREE_BYTES,
};

#[test]
fn state_machine() {
    let s = RecorderState::Idle;
    assert_eq!(s.stop(), Err(RecordingError::NotStarted));
    let r = s.start().unwrap();
    assert_eq!(r, RecorderState::Recording);
    assert_eq!(r.start(), Err(RecordingError::AlreadyStarted));
    assert_eq!(r.stop(), Ok(RecorderState::Idle));
}

#[test]
fn low_disk_space_stops_a_recording_and_a_failed_probe_does_not() {
    assert_eq!(DEFAULT_MIN_FREE_BYTES, 268_435_456);
    assert!(low_space(Some(0), DEFAULT_MIN_FREE_BYTES));
    assert!(low_space(Some(DEFAULT_MIN_FREE_BYTES - 1), DEFAULT_MIN_FREE_BYTES));
    assert!(!low_space(Some(DEFAULT_MIN_FREE_BYTES), DEFAULT_MIN_FREE_BYTES));
    assert!(!low_space(None, DEFAULT_MIN_FREE_BYTES));
}

#[test]
fn writer_failures_finalise_and_other_errors_pass_through() {
    assert_eq!(after_write(Ok(())), Ok(None));
    assert_eq!(
        after_write(Err(RecordingError::Writer("disk gone".into()))),
        Ok(Some(StopReason::WriterFailed("disk gone".into())))
    );
    assert_eq!(after_write(Err(RecordingError::NotStarted)), Err(RecordingError::NotStarted));
}

#[test]
fn stop_reports_why_the_file_ended() {
    assert_eq!(stop_reason(&Ok(())), StopReason::Requested);
    assert_eq!(
        stop_reason(&Err(RecordingError::Writer("busy".into()))),
        StopReason::WriterFailed("MP4 writer error: busy".into())
    );
    assert_eq!(RecordingError::NotStarted.message(), "no recording in progress");
    assert_eq!(RecordingError::AlreadyStarted.message(), "a recording is already in progress");
}

#[test]
fn the_recording_thread_builds_encodes_flushes_and_finalises() {
    let small = Size { width: 640, height: 400 };
    let big = Size { width: 1280, height: 800 };
    let mut rec = RecordingLoop::new();
    assert_eq!(rec.frames_ended(), RecorderStep::Finalise, "no encoder: nothing to flush");
    assert_eq!(rec.frame(small), RecorderStep::BuildEncoder(small));
    assert_eq!(rec.encoder_built(small, true), RecorderStep::Encode);
    assert_eq!(rec.frame(small), RecorderStep::Encode);
    assert_eq!(rec.appended(false), RecorderStep::NextFrame);
    assert_eq!(rec.frame(big), RecorderStep::BuildEncoder(big));
    assert_eq!(rec.encoder_built(big, false), RecorderStep::Flush, "the old encoder is flushed");
    assert_eq!(rec.frame(small), RecorderStep::Encode, "and still takes its size");
    assert_eq!(rec.encode_failed(), RecorderStep::Flush);
    assert_eq!(rec.appended(true), RecorderStep::Quit);
    assert_eq!(rec.flushed(None), RecorderStep::Finalise);
    assert_eq!(rec.flushed(Some(false)), RecorderStep::Finalise);
    assert_eq!(rec.flushed(Some(true)), RecorderStep::Quit);
    let mut fresh = RecordingLoop::new();
    assert_eq!(fresh.encoder_built(big, false), RecorderStep::Finalise);
}
