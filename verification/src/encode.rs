//! The pure half of session recording: presentation times of encoded frames, keyframe spacing,
//! and encoded pictures as Annex-B access units.
use std::time::{Duration, Instant};
use vstd::prelude::*;

use crate::annexb::{annex_b_encode, avcc_parse, avcc_to_annex_b, push_all};
use crate::params::ParameterSets;
use crate::geometry::Size;
use crate::time::{duration_nanos, duration_new, duration_saturating_sub, elapsed_since, nanos_of, saturating_since};

verus! {

/// Errors from the encoder.
#[derive(Debug, Clone, PartialEq, Eq)]
pub enum EncodeError {
    /// A platform encoder call failed.
    Os {
        /// The failing call.
        call: &'static str,
        /// Its status code.
        status: i32,
    },
    /// Timestamps must strictly increase.
    NonMonotonic {
        /// The rejected presentation time.
        pts: Duration,
        /// The previous presentation time.
        previous: Duration,
    },
    /// The frame is not usable (zero or odd size, …).
    InvalidFrame(String),
    /// An encoded sample could not be read back.
    BadSample(String),
}

/// Encoder settings. [`EncoderConfig::new`] gives the fixed values recordings use.
#[derive(Debug, Clone, Copy, PartialEq, Eq)]
pub struct EncoderConfig {
    /// Frame size in pixels.
    pub size: Size,
    /// Average bit rate in bits per second (8 Mbit/s).
    pub average_bitrate: u32,
    /// Maximum time between keyframes (2 s).
    pub max_keyframe_interval: Duration,
    /// Expected frame rate, a hint for rate control (60).
    pub expected_fps: u32,
}

impl EncoderConfig {
    /// The recording configuration for a given frame size: 8 Mbit/s, a keyframe at least every
    /// 2 s, 60 frames per second expected.
    pub fn new(size: Size) -> (r: Self)
        ensures
            r.size == size,
            r.average_bitrate == 8_000_000,
            duration_nanos(r.max_keyframe_interval) == 2_000_000_000,
            r.expected_fps == 60,
    {
        EncoderConfig {
            size,
            average_bitrate: 8_000_000,
            max_keyframe_interval: duration_new(2, 0),
            expected_fps: 60,
        }
    }
}

/// Maps clock instants to presentation times: the first frame is at zero, and times must
/// strictly increase.
#[derive(Debug, Clone, Default)]
pub struct Timeline {
    origin: Option<Instant>,
    last: Option<Duration>,
}

impl Timeline {
    /// The first instant seen, if any.
    pub closed spec fn origin_view(&self) -> Option<Instant> {
        self.origin
    }

    /// The last presentation time handed out, if any.
    pub closed spec fn last_view(&self) -> Option<Duration> {
        self.last
    }

    /// A timeline whose origin is the first instant it sees.
    pub fn new() -> (r: Self)
        ensures
            r.origin_view() is None,
            r.last_view() is None,
    {
        Timeline { origin: None, last: None }
    }

    /// The presentation time of a frame captured at `at`: the time since the first instant
    /// (zero for an instant before it), rejected unless it is after the previous one.
    pub fn pts(&mut self, at: Instant) -> (r: Result<Duration, EncodeError>)
        ensures
            ({
                let origin = match old(self).origin_view() {
                    Some(o) => o,
                    None => at,
                };
                let d = elapsed_since(at, origin);
                &&& final(self).origin_view() == Some(origin)
                &&& old(self).origin_view() is None ==> duration_nanos(d) == 0
                &&& match old(self).last_view() {
                    Some(l) => if duration_nanos(d) <= duration_nanos(l) {
                        &&& r == Err::<Duration, EncodeError>(EncodeError::NonMonotonic { pts: d, previous: l })
                        &&& final(self).last_view() == old(self).last_view()
                    } else {
                        r == Ok::<Duration, EncodeError>(d) && final(self).last_view() == Some(d)
                    },
                    None => r == Ok::<Duration, EncodeError>(d) && final(self).last_view() == Some(d),
                }
            }),
    {
        let origin = match self.origin {
            Some(o) => o,
            None => at,
        };
        self.origin = Some(origin);
        let d = saturating_since(at, origin);
        match self.last {
            Some(l) => {
                if nanos_of(&d) <= nanos_of(&l) {
                    return Err(EncodeError::NonMonotonic { pts: d, previous: l });
                }
            },
            None => {},
        }
        self.last = Some(d);
        Ok(d)
    }
}

/// Gaps between consecutive keyframe presentation times (zero where a time is not after the
/// one before it).
pub fn keyframe_gaps(keyframe_pts: &[Duration]) -> (r: Vec<Duration>)
    ensures
        r@.len() == if keyframe_pts@.len() == 0 { 0 } else { keyframe_pts@.len() - 1 },
        forall|i: int| 0 <= i < r@.len() ==> duration_nanos(#[trigger] r@[i]) == if duration_nanos(keyframe_pts@[i + 1])
            >= duration_nanos(keyframe_pts@[i]) {
            (duration_nanos(keyframe_pts@[i + 1]) - duration_nanos(keyframe_pts@[i])) as nat
        } else {
            0nat
        },
{
    let mut out: Vec<Duration> = Vec::new();
    let n = keyframe_pts.len();
    if n == 0 {
        return out;
    }
    let mut i: usize = 1;
    while i < n
        invariant
            n == keyframe_pts@.len(),
            1 <= i <= n,
            out@.len() == i - 1,
            forall|k: int| 0 <= k < out@.len() ==> duration_nanos(#[trigger] out@[k]) == if duration_nanos(keyframe_pts@[k + 1])
                >= duration_nanos(keyframe_pts@[k]) {
                (duration_nanos(keyframe_pts@[k + 1]) - duration_nanos(keyframe_pts@[k])) as nat
            } else {
                0nat
            },
        decreases n - i,
    {
        out.push(duration_saturating_sub(keyframe_pts[i], keyframe_pts[i - 1]));
        i = i + 1;
    }
    out
}

/// One encoded picture: an AVCC sample (4-byte lengths), the SPS/PPS of its format
/// description, its presentation time and keyframe flag.
#[derive(Debug)]
pub struct EncodedFrame {
    pts: Duration,
    keyframe: bool,
    parameter_sets: Option<ParameterSets>,
    avcc: Vec<u8>,
}

/// The access unit delimiter the server puts first in every access unit.
pub open spec fn aud_unit() -> Seq<u8> {
    seq![0u8, 0u8, 0u8, 1u8, 0x09u8, 0x30u8]
}

impl EncodedFrame {
    /// Presentation time (view).
    pub closed spec fn pts_view(&self) -> Duration {
        self.pts
    }

    /// Keyframe flag (view).
    pub closed spec fn keyframe_view(&self) -> bool {
        self.keyframe
    }

    /// Parameter sets (view).
    pub closed spec fn parameter_sets_view(&self) -> Option<(Seq<u8>, Seq<u8>)> {
        match self.parameter_sets {
            Some(p) => Some(p@),
            None => None,
        }
    }

    /// The AVCC sample (view).
    pub closed spec fn avcc_view(&self) -> Seq<u8> {
        self.avcc@
    }

    /// An encoded picture from its parts.
    pub fn new(pts: Duration, keyframe: bool, parameter_sets: Option<ParameterSets>, avcc: Vec<u8>) -> (r: Self)
        ensures
            r.pts_view() == pts,
            r.keyframe_view() == keyframe,
            r.parameter_sets_view() == match parameter_sets {
                Some(p) => Some(p@),
                None => None::<(Seq<u8>, Seq<u8>)>,
            },
            r.avcc_view() == avcc@,
    {
        EncodedFrame { pts, keyframe, parameter_sets, avcc }
    }

    /// Presentation time relative to the first frame of the recording.
    pub fn pts(&self) -> (r: Duration)
        ensures
            r == self.pts_view(),
    {
        self.pts
    }

    /// Whether this is a sync sample (IDR).
    pub fn is_keyframe(&self) -> (r: bool)
        ensures
            r == self.keyframe_view(),
    {
        self.keyframe
    }

    /// The SPS/PPS of the sample's format description.
    pub fn parameter_sets(&self) -> (r: Result<ParameterSets, EncodeError>)
        ensures
            match self.parameter_sets_view() {
                Some(p) => r matches Ok(q) && q@ == p,
                None => r matches Err(EncodeError::BadSample(_)),
            },
    {
        match &self.parameter_sets {
            Some(p) => Ok(ParameterSets {
                sps: vstd::slice::slice_to_vec(p.sps.as_slice()),
                pps: vstd::slice::slice_to_vec(p.pps.as_slice()),
            }),
            None => Err(EncodeError::BadSample(String::from_str("the sample has no parameter sets"))),
        }
    }

    /// The picture as an Annex-B access unit (AUD first; SPS/PPS included on keyframes), the
    /// same shape the server sends, so it can be fed to the decoder.
    pub fn to_annex_b(&self) -> (r: Result<Vec<u8>, EncodeError>)
        ensures
            match avcc_parse(self.avcc_view(), 4, 0) {
                Ok(nals) => if self.keyframe_view() {
                    match self.parameter_sets_view() {
                        Some(p) => r matches Ok(v) && v@ == aud_unit() + seq![0u8, 0u8, 0u8, 1u8] + p.0
                            + seq![0u8, 0u8, 0u8, 1u8] + p.1 + annex_b_encode(nals),
                        None => r matches Err(EncodeError::BadSample(_)),
                    }
                } else {
                    r matches Ok(v) && v@ == aud_unit() + annex_b_encode(nals)
                },
                Err(_) => r matches Err(EncodeError::BadSample(_)),
            },
    {
        let body = match avcc_to_annex_b(self.avcc.as_slice(), 4) {
            Ok(b) => b,
            Err(_) => return Err(EncodeError::BadSample(String::from_str("truncated AVCC sample"))),
        };
        let mut out: Vec<u8> = Vec::new();
        push_all(&mut out, &[0u8, 0u8, 0u8, 1u8, 0x09u8, 0x30u8]);
        if self.keyframe {
            match &self.parameter_sets {
                Some(p) => {
                    push_all(&mut out, &[0u8, 0u8, 0u8, 1u8]);
                    push_all(&mut out, p.sps.as_slice());
                    push_all(&mut out, &[0u8, 0u8, 0u8, 1u8]);
                    push_all(&mut out, p.pps.as_slice());
                },
                None => return Err(EncodeError::BadSample(String::from_str("a keyframe without parameter sets"))),
            }
        }
        push_all(&mut out, body.as_slice());
        Ok(out)
    }
}

} // verus!
