//! Parameter-set tracking: decides when the decoding session must be rebuilt.
//!
//! A decompression session is bound to one format description, which is built from exactly one
//! SPS/PPS pair. The server resends the parameter sets with every IDR; when they change (e.g.
//! after a resize the new surface starts a new stream), the format description and session are
//! rebuilt. Identical resends keep the session.
use vstd::prelude::*;

use crate::annexb::{vecs_view, AccessUnit};

verus! {

/// One SPS/PPS pair, as raw NAL units (with header byte, emulation prevention intact).
#[derive(Debug, Clone, PartialEq, Eq)]
pub struct ParameterSets {
    /// Sequence parameter set NAL unit.
    pub sps: Vec<u8>,
    /// Picture parameter set NAL unit.
    pub pps: Vec<u8>,
}

impl View for ParameterSets {
    type V = (Seq<u8>, Seq<u8>);

    open spec fn view(&self) -> (Seq<u8>, Seq<u8>) {
        (self.sps@, self.pps@)
    }
}

/// What the decoder must do before decoding an access unit.
#[derive(Debug, Clone, PartialEq, Eq)]
pub enum ParamDecision {
    /// Keep the current session.
    Keep,
    /// Build a new format description + session from these parameter sets.
    Rebuild(ParameterSets),
    /// No complete SPS/PPS pair seen yet; the access unit cannot be decoded.
    NotReady,
}

/// Tracks the active SPS/PPS pair.
#[derive(Debug, Clone, Default)]
pub struct ParameterSetTracker {
    active: Option<ParameterSets>,
}

/// The view of an optional pair.
pub open spec fn opt_view(p: Option<ParameterSets>) -> Option<(Seq<u8>, Seq<u8>)> {
    match p {
        Some(x) => Some(x@),
        None => None,
    }
}

/// The pair an access unit asks for: its last SPS and last PPS, each falling back to the
/// active one; `None` while either is unknown.
pub open spec fn wanted_pair(
    active: Option<(Seq<u8>, Seq<u8>)>,
    sps: Seq<Seq<u8>>,
    pps: Seq<Seq<u8>>,
) -> Option<(Seq<u8>, Seq<u8>)> {
    let s: Option<Seq<u8>> = if sps.len() > 0 {
        Some(sps.last())
    } else {
        match active {
            Some(a) => Some(a.0),
            None => None,
        }
    };
    let p: Option<Seq<u8>> = if pps.len() > 0 {
        Some(pps.last())
    } else {
        match active {
            Some(a) => Some(a.1),
            None => None,
        }
    };
    match (s, p) {
        (Some(s), Some(p)) => Some((s, p)),
        _ => None,
    }
}

/// `true` when both byte strings are equal.
pub(crate) fn bytes_eq(a: &[u8], b: &[u8]) -> (r: bool)
    ensures
        r == (a@ == b@),
{
    if a.len() != b.len() {
        return false;
    }
    let mut i: usize = 0;
    while i < a.len()
        invariant
            a@.len() == b@.len(),
            i <= a@.len(),
            forall|k: int| 0 <= k < i ==> a@[k] == b@[k],
        decreases a@.len() - i,
    {
        if a[i] != b[i] {
            return false;
        }
        i = i + 1;
    }
    proof {
        assert(a@ =~= b@);
    }
    true
}

impl ParameterSetTracker {
    /// The view of the active pair.
    pub closed spec fn active_view(&self) -> Option<(Seq<u8>, Seq<u8>)> {
        opt_view(self.active)
    }

    /// A tracker with no active parameter sets.
    pub fn new() -> (r: Self)
        ensures
            r.active_view() is None,
    {
        ParameterSetTracker { active: None }
    }

    /// Observes an access unit and decides whether the session can be kept.
    ///
    /// A decision of [`ParamDecision::Rebuild`] makes the new pair active.
    pub fn observe(&mut self, au: &AccessUnit) -> (r: ParamDecision)
        ensures
            ({
                let want = wanted_pair(old(self).active_view(), vecs_view(au.sps@), vecs_view(au.pps@));
                match want {
                    None => r is NotReady && final(self).active_view() == old(self).active_view(),
                    Some(w) => if Some(w) == old(self).active_view() {
                        r is Keep && final(self).active_view() == old(self).active_view()
                    } else {
                        r matches ParamDecision::Rebuild(p) && p@ == w && final(self).active_view() == Some(w)
                    },
                }
            }),
    {
        let sps: Option<&Vec<u8>> = if au.sps.len() > 0 {
            Some(&au.sps[au.sps.len() - 1])
        } else {
            match &self.active {
                Some(a) => Some(&a.sps),
                None => None,
            }
        };
        let pps: Option<&Vec<u8>> = if au.pps.len() > 0 {
            Some(&au.pps[au.pps.len() - 1])
        } else {
            match &self.active {
                Some(a) => Some(&a.pps),
                None => None,
            }
        };
        let (sps, pps) = match (sps, pps) {
            (Some(s), Some(p)) => (s, p),
            _ => return ParamDecision::NotReady,
        };
        let same = match &self.active {
            Some(a) => bytes_eq(a.sps.as_slice(), sps.as_slice()) && bytes_eq(a.pps.as_slice(), pps.as_slice()),
            None => false,
        };
        if same {
            return ParamDecision::Keep;
        }
        let pair = ParameterSets {
            sps: vstd::slice::slice_to_vec(sps.as_slice()),
            pps: vstd::slice::slice_to_vec(pps.as_slice()),
        };
        let copy = ParameterSets {
            sps: vstd::slice::slice_to_vec(sps.as_slice()),
            pps: vstd::slice::slice_to_vec(pps.as_slice()),
        };
        self.active = Some(copy);
        ParamDecision::Rebuild(pair)
    }

    /// The active parameter sets, if any.
    pub fn active(&self) -> (r: Option<&ParameterSets>)
        ensures
            match r {
                Some(p) => self.active_view() == Some(p@),
                None => self.active_view() is None,
            },
    {
        match &self.active {
            Some(p) => Some(p),
            None => None,
        }
    }

    /// Forgets the active parameter sets (e.g. after `ResetGraphics` or a failed rebuild).
    pub fn reset(&mut self)
        ensures
            final(self).active_view() is None,
    {
        self.active = None;
    }
}

/// What the decoder does with one access unit, given the tracker's decision: build a new
/// session from `rebuild` first (when set), then decode the picture (when `decode`).
pub struct PicturePlan {
    /// Parameter sets to build a session from before anything else.
    pub rebuild: Option<ParameterSets>,
    /// Whether the access unit's picture is then decoded.
    pub decode: bool,
}

/// The decoder's rule for an access unit with tracker decision `decision`: nothing while no
/// parameter sets are known; a new session when the tracker asks for one, and also when it
/// keeps the parameter sets but there is no session (an earlier build failed), retried with the
/// active sets; the picture (if the unit has one) is decoded whenever a session is there or has
/// just been built.
pub fn picture_plan(
    decision: ParamDecision,
    has_session: bool,
    active: Option<&ParameterSets>,
    has_picture: bool,
) -> (r: PicturePlan)
    ensures
        match decision {
            ParamDecision::NotReady => r.rebuild is None && !r.decode,
            ParamDecision::Rebuild(ps) => opt_view(r.rebuild) == Some(ps@) && r.decode == has_picture,
            ParamDecision::Keep => if has_session {
                r.rebuild is None && r.decode == has_picture
            } else {
                match active {
                    Some(ps) => opt_view(r.rebuild) == Some(ps@) && r.decode == has_picture,
                    None => r.rebuild is None && !r.decode,
                }
            },
        },
{
    match decision {
        ParamDecision::NotReady => PicturePlan { rebuild: None, decode: false },
        ParamDecision::Rebuild(ps) => PicturePlan { rebuild: Some(ps), decode: has_picture },
        ParamDecision::Keep => {
            if has_session {
                PicturePlan { rebuild: None, decode: has_picture }
            } else {
                match active {
                    Some(ps) => {
                        let copy = ParameterSets {
                            sps: vstd::slice::slice_to_vec(ps.sps.as_slice()),
                            pps: vstd::slice::slice_to_vec(ps.pps.as_slice()),
                        };
                        PicturePlan { rebuild: Some(copy), decode: has_picture }
                    },
                    None => PicturePlan { rebuild: None, decode: false },
                }
            }
        },
    }
}

} // verus!
