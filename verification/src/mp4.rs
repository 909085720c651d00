//! The recording lifecycle as a pure state machine, the decisions a recorder takes around the
//! free-space probe and the MP4 writer, and what it reports.
use vstd::prelude::*;

use crate::geometry::Size;

verus! {

broadcast use vstd::string::group_string_axioms;

/// Errors from the recorder API.
#[derive(Debug, Clone, PartialEq, Eq)]
pub enum RecordingError {
    /// `stop` or `append` without a running recording.
    NotStarted,
    /// `start` while a recording is running.
    AlreadyStarted,
    /// The MP4 writer (or file I/O) failed.
    Writer(String),
}

/// Why a recording ended.
#[derive(Debug, Clone, PartialEq, Eq)]
pub enum StopReason {
    /// The user stopped it.
    Requested,
    /// Free disk space fell below the threshold.
    DiskFull,
    /// The writer failed; the message comes from the writer.
    WriterFailed(String),
}

/// Recording state.
#[derive(Debug, Clone, Copy, PartialEq, Eq, Default)]
pub enum RecorderState {
    /// Nothing running.
    #[default]
    Idle,
    /// Writing samples.
    Recording,
}

impl RecorderState {
    /// Transition for `start`.
    pub fn start(self) -> (r: Result<Self, RecordingError>)
        ensures
            self == RecorderState::Idle ==> r == Ok::<Self, RecordingError>(RecorderState::Recording),
            self == RecorderState::Recording ==> r == Err::<Self, RecordingError>(RecordingError::AlreadyStarted),
    {
        match self {
            RecorderState::Idle => Ok(RecorderState::Recording),
            RecorderState::Recording => Err(RecordingError::AlreadyStarted),
        }
    }

    /// Transition for `stop` / an automatic stop.
    pub fn stop(self) -> (r: Result<Self, RecordingError>)
        ensures
            self == RecorderState::Idle ==> r == Err::<Self, RecordingError>(RecordingError::NotStarted),
            self == RecorderState::Recording ==> r == Ok::<Self, RecordingError>(RecorderState::Idle),
    {
        match self {
            RecorderState::Idle => Err(RecordingError::NotStarted),
            RecorderState::Recording => Ok(RecorderState::Idle),
        }
    }
}

/// Result of appending one frame to a recording.
#[derive(Debug, Clone, PartialEq, Eq)]
pub enum AppendOutcome {
    /// Sample written; still recording.
    Recording,
    /// The recording stopped (the event was already sent).
    Stopped(StopReason),
}

/// Default free-space floor: stop when less than this remains (256 MiB).
pub const DEFAULT_MIN_FREE_BYTES: u64 = 256 * 1024 * 1024;

/// What a recorder error says.
pub open spec fn recording_error_text(e: RecordingError) -> Seq<char> {
    match e {
        RecordingError::NotStarted => "no recording in progress"@,
        RecordingError::AlreadyStarted => "a recording is already in progress"@,
        RecordingError::Writer(msg) => "MP4 writer error: "@ + msg@,
    }
}

impl RecordingError {
    /// The error's text.
    pub fn message(&self) -> (r: String)
        ensures
            r@ == recording_error_text(*self),
    {
        match self {
            RecordingError::NotStarted => String::from_str("no recording in progress"),
            RecordingError::AlreadyStarted => String::from_str("a recording is already in progress"),
            RecordingError::Writer(msg) => String::from_str("MP4 writer error: ").concat(msg.as_str()),
        }
    }
}

/// Lifecycle notifications for the UI.
#[derive(Debug, Clone, PartialEq, Eq)]
pub enum RecordingEvent {
    /// A recording started writing to `path`.
    Started {
        /// Output file.
        path: String,
    },
    /// A recording ended; the file at `path` is finalised and playable.
    Stopped {
        /// Output file.
        path: String,
        /// Why it ended.
        reason: StopReason,
        /// Number of samples written.
        frames: u64,
    },
}

/// Summary of a recording that was stopped on request.
#[derive(Debug, Clone, PartialEq, Eq)]
pub struct RecordingSummary {
    /// Output file.
    pub path: String,
    /// Samples written.
    pub frames: u64,
}

/// Whether a recording must stop before the next frame: the free-space probe answered (`None`
/// when it failed, which never stops a recording) with less than `min_free_bytes`.
pub fn low_space(available: Option<u64>, min_free_bytes: u64) -> (r: bool)
    ensures
        r == (available is Some && available->0 < min_free_bytes),
{
    match available {
        Some(n) => n < min_free_bytes,
        None => false,
    }
}

/// What appending a frame comes to once the writer answered `written`: the recording goes on
/// (`Ok(None)`), or it must be finalised for the given reason (a writer failure), or the call
/// fails with the error.
pub fn after_write(written: Result<(), RecordingError>) -> (r: Result<Option<StopReason>, RecordingError>)
    ensures
        match written {
            Ok(()) => r == Ok::<Option<StopReason>, RecordingError>(None),
            Err(RecordingError::Writer(msg)) => r == Ok::<Option<StopReason>, RecordingError>(
                Some(StopReason::WriterFailed(msg)),
            ),
            Err(e) => r == Err::<Option<StopReason>, RecordingError>(e),
        },
{
    match written {
        Ok(()) => Ok(None),
        Err(RecordingError::Writer(msg)) => Ok(Some(StopReason::WriterFailed(msg))),
        Err(e) => Err(e),
    }
}

/// Why a recording stopped on request ended, from what finalising the file answered.
pub fn stop_reason(finished: &Result<(), RecordingError>) -> (r: StopReason)
    ensures
        match finished {
            Ok(()) => r == StopReason::Requested,
            Err(e) => r matches StopReason::WriterFailed(m) && m@ == recording_error_text(*e),
        },
{
    match finished {
        Ok(()) => StopReason::Requested,
        Err(e) => StopReason::WriterFailed(e.message()),
    }
}

/// What the recording thread does next.
#[derive(Debug, Clone, Copy, PartialEq, Eq)]
pub enum RecorderStep {
    /// Build an encoder for frames of this size.
    BuildEncoder(Size),
    /// Encode the frame with the current encoder and append what comes out.
    Encode,
    /// Take the next frame.
    NextFrame,
    /// Flush the encoder and append what it still holds.
    Flush,
    /// Finalise the file.
    Finalise,
    /// End without finalising: the recorder already stopped by itself (and finalised what it
    /// had).
    Quit,
}

/// The recording thread's sequence: an encoder for the size of the frames (built again when
/// the size changes), each frame encoded and appended, and at the end (the frames stop, or an
/// encoder cannot be built or fails) the encoder flushed and the file finalised; whenever the
/// recorder stops by itself (disk full, writer error) the thread ends at once.
pub struct RecordingLoop {
    encoder: Option<Size>,
}

impl RecordingLoop {
    /// The size of the frames the current encoder takes, if there is one.
    pub closed spec fn encoder_size(&self) -> Option<Size> {
        self.encoder
    }

    /// No encoder yet.
    pub fn new() -> (r: Self)
        ensures
            r.encoder_size() is None,
    {
        RecordingLoop { encoder: None }
    }

    /// After the end of the frames, or a failure: flush the encoder if there is one, else
    /// finalise.
    fn wind_down(&self) -> (s: RecorderStep)
        ensures
            s == (if self.encoder_size() is Some { RecorderStep::Flush } else { RecorderStep::Finalise }),
    {
        match self.encoder {
            Some(_) => RecorderStep::Flush,
            None => RecorderStep::Finalise,
        }
    }

    /// A frame of `size` arrived: encode it, or first build an encoder for its size when there
    /// is none or the current one takes another size.
    pub fn frame(&self, size: Size) -> (s: RecorderStep)
        ensures
            s == (if self.encoder_size() == Some(size) {
                RecorderStep::Encode
            } else {
                RecorderStep::BuildEncoder(size)
            }),
    {
        match self.encoder {
            Some(current) => if current == size {
                RecorderStep::Encode
            } else {
                RecorderStep::BuildEncoder(size)
            },
            None => RecorderStep::BuildEncoder(size),
        }
    }

    /// Building the encoder for `size` succeeded (`built`) or failed: on success it takes the
    /// frame; a failure ends the frames, keeping the encoder there was.
    pub fn encoder_built(&mut self, size: Size, built: bool) -> (s: RecorderStep)
        ensures
            built ==> final(self).encoder_size() == Some(size) && s == RecorderStep::Encode,
            !built ==> final(self).encoder_size() == old(self).encoder_size() && s == (if old(
                self,
            ).encoder_size() is Some {
                RecorderStep::Flush
            } else {
                RecorderStep::Finalise
            }),
    {
        if built {
            self.encoder = Some(size);
            RecorderStep::Encode
        } else {
            self.wind_down()
        }
    }

    /// Encoding the frame failed: the frames end.
    pub fn encode_failed(&self) -> (s: RecorderStep)
        ensures
            s == (if self.encoder_size() is Some { RecorderStep::Flush } else { RecorderStep::Finalise }),
    {
        self.wind_down()
    }

    /// The encoded frames were appended; `stopped` when the recorder stopped by itself on the
    /// way (an early stop or an append error).
    pub fn appended(&self, stopped: bool) -> (s: RecorderStep)
        ensures
            s == (if stopped { RecorderStep::Quit } else { RecorderStep::NextFrame }),
    {
        if stopped { RecorderStep::Quit } else { RecorderStep::NextFrame }
    }

    /// The frames ended (recording was switched off).
    pub fn frames_ended(&self) -> (s: RecorderStep)
        ensures
            s == (if self.encoder_size() is Some { RecorderStep::Flush } else { RecorderStep::Finalise }),
    {
        self.wind_down()
    }

    /// The encoder was flushed: `None` when flushing failed, else whether the recorder stopped
    /// by itself while the tail was appended. The file is finalised unless it stopped.
    pub fn flushed(&self, tail_stopped: Option<bool>) -> (s: RecorderStep)
        ensures
            s == (if tail_stopped == Some(true) { RecorderStep::Quit } else { RecorderStep::Finalise }),
    {
        match tail_stopped {
            Some(true) => RecorderStep::Quit,
            _ => RecorderStep::Finalise,
        }
    }
}

} // verus!
