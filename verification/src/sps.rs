//! H.264 sequence parameter sets: the fields Drift reads, and the colour signalling rewrite.
//!
//! An SPS without `video_signal_type` in its VUI makes decoders assume video range. The rewrite
//! gives the VUI a `video_signal_type` that says BT.709 full range; every other syntax element
//! is copied bit for bit, so slices that refer to the SPS are unaffected.
//!
//! The payload is read as a sequence of bits (`rbsp::bits_of`), and every syntax element is a
//! spec function from a bit position to the element and the position after it.
use vstd::arithmetic::power2::{lemma2_to64, lemma_pow2_strictly_increases, lemma_pow2_unfold, pow2};
use vstd::prelude::*;

use crate::annexb::spec_nal_type;
use crate::rbsp::{bits_of, escape, escape_onto, lemma_unescape_len, pack, pack_bits, unescape, unescape_onto, unpack};

verus! {

/// Errors from SPS parsing.
#[derive(Debug, Clone, Copy, PartialEq, Eq)]
pub enum SpsError {
    /// The NAL unit is not an SPS.
    NotSps,
    /// The bitstream ends early or holds an out-of-range Exp-Golomb code.
    Malformed,
}

/// Fields of an SPS that Drift inspects.
#[derive(Debug, Clone, Copy, PartialEq, Eq)]
pub struct SpsInfo {
    /// `profile_idc` (100 = High).
    pub profile_idc: u8,
    /// `level_idc` (40 = level 4.0).
    pub level_idc: u8,
    /// Decoded picture width after cropping.
    pub width: u32,
    /// Decoded picture height after cropping.
    pub height: u32,
    /// `video_full_range_flag`, if the VUI signals it.
    pub full_range: Option<bool>,
    /// `matrix_coefficients`, if the VUI carries a colour description.
    pub matrix_coefficients: Option<u8>,
}

// ---------------------------------------------------------------------------------------------
// Elementary syntax elements. Each gives the element and the position just after it.
// ---------------------------------------------------------------------------------------------

/// The value of the `n` bits of `b` from `pos`, most significant first.
pub open spec fn bits_value(b: Seq<bool>, pos: int, n: nat) -> nat
    decreases n,
{
    if n == 0 {
        0
    } else {
        2 * bits_value(b, pos, (n - 1) as nat) + if b[pos + n - 1] {
            1nat
        } else {
            0nat
        }
    }
}

/// `u(n)`: an unsigned number of `n` bits.
pub open spec fn u_at(b: Seq<bool>, pos: int, n: nat) -> Option<(nat, int)> {
    if 0 <= pos && pos + n <= b.len() {
        Some((bits_value(b, pos, n), pos + n))
    } else {
        None
    }
}

/// `u(1)` read as a flag.
pub open spec fn flag_at(b: Seq<bool>, pos: int) -> Option<(bool, int)> {
    if 0 <= pos < b.len() {
        Some((b[pos], pos + 1))
    } else {
        None
    }
}

/// The number of 0 bits from `pos` before the next 1 bit, when that 1 bit is in `b` and fewer
/// than `limit` zeros precede it.
pub open spec fn zero_run(b: Seq<bool>, pos: int, limit: nat) -> Option<nat>
    decreases limit,
{
    if limit == 0 || pos < 0 || pos >= b.len() {
        None
    } else if b[pos] {
        Some(0)
    } else {
        match zero_run(b, pos + 1, (limit - 1) as nat) {
            Some(k) => Some(k + 1),
            None => None,
        }
    }
}

/// `ue(v)`: `k` zero bits (`k < 32`), a one bit, and `k` bits `v`, for the number `2^k - 1 + v`.
pub open spec fn ue_at(b: Seq<bool>, pos: int) -> Option<(nat, int)> {
    match zero_run(b, pos, 32) {
        None => None,
        Some(k) => match u_at(b, pos + k + 1, k) {
            None => None,
            Some((v, end)) => Some(((pow2(k) - 1 + v) as nat, end)),
        },
    }
}

/// `se(v)`: the `ue(v)` code number `k` read as `(k + 1) / 2` when odd and `-(k / 2)` when even.
pub open spec fn se_at(b: Seq<bool>, pos: int) -> Option<(int, int)> {
    match ue_at(b, pos) {
        None => None,
        Some((k, end)) => Some(
            (
                if k % 2 == 1 {
                    ((k + 1) / 2) as int
                } else {
                    -(k / 2)
                },
                end,
            ),
        ),
    }
}

// ---------------------------------------------------------------------------------------------
// The SPS syntax up to `vui_parameters_present_flag`.
// ---------------------------------------------------------------------------------------------

/// The end of the rest of a `scaling_list` of `size` entries from entry `j`, with `last` and
/// `next` scale as the syntax defines them. A `delta_scale` outside -128..=127 is out of range.
pub open spec fn scaling_list_end(
    b: Seq<bool>,
    pos: int,
    size: nat,
    j: nat,
    last: int,
    next: int,
) -> Option<int>
    decreases size - j,
{
    if j >= size || next == 0 {
        Some(pos)
    } else {
        match se_at(b, pos) {
            None => None,
            Some((d, p)) => if d < -128 || d > 127 {
                None
            } else {
                let nx = (last + d + 256) % 256;
                scaling_list_end(
                    b,
                    p,
                    size,
                    j + 1,
                    if nx == 0 {
                        last
                    } else {
                        nx
                    },
                    nx,
                )
            },
        }
    }
}

/// The end of the scaling lists `i..count` of a scaling matrix (`seq_scaling_list_present_flag`
/// and, when set, the list: 16 entries for the first six, 64 after).
pub open spec fn scaling_matrix_end(b: Seq<bool>, pos: int, i: nat, count: nat) -> Option<int>
    decreases count - i,
{
    if i >= count {
        Some(pos)
    } else {
        match flag_at(b, pos) {
            None => None,
            Some((present, p)) => if present {
                match scaling_list_end(
                    b,
                    p,
                    if i < 6 {
                        16
                    } else {
                        64
                    },
                    0,
                    8,
                    8,
                ) {
                    None => None,
                    Some(q) => scaling_matrix_end(b, q, i + 1, count),
                }
            } else {
                scaling_matrix_end(b, p, i + 1, count)
            },
        }
    }
}

/// The profiles whose SPS carries `chroma_format_idc` and the fields after it.
pub open spec fn has_chroma_info(profile: nat) -> bool {
    profile == 100 || profile == 110 || profile == 122 || profile == 244 || profile == 44
        || profile == 83 || profile == 86 || profile == 118 || profile == 128 || profile == 138
        || profile == 139 || profile == 134 || profile == 135
}

/// `chroma_format_idc` (at most 3), `separate_colour_plane_flag`, the bit depths, the
/// transform bypass flag and the scaling matrix.
pub open spec fn chroma_info_at(b: Seq<bool>, pos: int) -> Option<(nat, bool, int)> {
    match ue_at(b, pos) {
        None => None,
        Some((cfi, p1)) => if cfi > 3 {
            None
        } else {
            match (if cfi == 3 {
                flag_at(b, p1)
            } else {
                Some((false, p1))
            }) {
                None => None,
                Some((sep, p2)) => match ue_at(b, p2) {
                    None => None,
                    Some((_luma, p3)) => match ue_at(b, p3) {
                        None => None,
                        Some((_chroma, p4)) => match flag_at(b, p4) {
                            None => None,
                            Some((_bypass, p5)) => match flag_at(b, p5) {
                                None => None,
                                Some((matrix, p6)) => if matrix {
                                    match scaling_matrix_end(
                                        b,
                                        p6,
                                        0,
                                        if cfi != 3 {
                                            8
                                        } else {
                                            12
                                        },
                                    ) {
                                        None => None,
                                        Some(p7) => Some((cfi, sep, p7)),
                                    }
                                } else {
                                    Some((cfi, sep, p6))
                                },
                            },
                        },
                    },
                },
            }
        },
    }
}

/// `profile_idc`, the constraint flags, `level_idc`, `seq_parameter_set_id` and the chroma
/// information: profile, level, `chroma_format_idc` (1 when absent) and
/// `separate_colour_plane_flag`.
pub open spec fn intro_at(b: Seq<bool>) -> Option<(nat, nat, nat, bool, int)> {
    match u_at(b, 0, 8) {
        None => None,
        Some((profile, p1)) => match u_at(b, p1, 8) {
            None => None,
            Some((_constraints, p2)) => match u_at(b, p2, 8) {
                None => None,
                Some((level, p3)) => match ue_at(b, p3) {
                    None => None,
                    Some((_id, p4)) => if has_chroma_info(profile) {
                        match chroma_info_at(b, p4) {
                            None => None,
                            Some((cfi, sep, p5)) => Some((profile, level, cfi, sep, p5)),
                        }
                    } else {
                        Some((profile, level, 1, false, p4))
                    },
                },
            },
        },
    }
}

/// The end of `n` `se(v)` elements.
pub open spec fn se_run_end(b: Seq<bool>, pos: int, n: nat) -> Option<int>
    decreases n,
{
    if n == 0 {
        Some(pos)
    } else {
        match se_at(b, pos) {
            None => None,
            Some((_v, p)) => se_run_end(b, p, (n - 1) as nat),
        }
    }
}

/// The end of the picture order count fields (`pic_order_cnt_type` 0, 1 or 2; a cycle of at
/// most 255 reference frames).
pub open spec fn poc_end(b: Seq<bool>, pos: int) -> Option<int> {
    match ue_at(b, pos) {
        None => None,
        Some((t, p1)) => if t == 0 {
            match ue_at(b, p1) {
                None => None,
                Some((_lsb, p2)) => Some(p2),
            }
        } else if t == 1 {
            match flag_at(b, p1) {
                None => None,
                Some((_zero, p2)) => match se_at(b, p2) {
                    None => None,
                    Some((_non_ref, p3)) => match se_at(b, p3) {
                        None => None,
                        Some((_fields, p4)) => match ue_at(b, p4) {
                            None => None,
                            Some((n, p5)) => if n > 255 {
                                None
                            } else {
                                se_run_end(b, p5, n)
                            },
                        },
                    },
                },
            }
        } else if t == 2 {
            Some(p1)
        } else {
            None
        },
    }
}

/// The end of `log2_max_frame_num_minus4`, the picture order count fields,
/// `max_num_ref_frames` and `gaps_in_frame_num_value_allowed_flag`.
pub open spec fn frames_end(b: Seq<bool>, pos: int) -> Option<int> {
    match ue_at(b, pos) {
        None => None,
        Some((_frame_num, p1)) => match poc_end(b, p1) {
            None => None,
            Some(p2) => match ue_at(b, p2) {
                None => None,
                Some((_refs, p3)) => match flag_at(b, p3) {
                    None => None,
                    Some((_gaps, p4)) => Some(p4),
                },
            },
        },
    }
}

/// The frame cropping offsets (left, right, top, bottom; all 0 without `frame_cropping_flag`).
pub open spec fn cropping_at(b: Seq<bool>, pos: int) -> Option<(nat, nat, nat, nat, int)> {
    match flag_at(b, pos) {
        None => None,
        Some((crop, p1)) => if !crop {
            Some((0, 0, 0, 0, p1))
        } else {
            match ue_at(b, p1) {
                None => None,
                Some((l, p2)) => match ue_at(b, p2) {
                    None => None,
                    Some((r, p3)) => match ue_at(b, p3) {
                        None => None,
                        Some((t, p4)) => match ue_at(b, p4) {
                            None => None,
                            Some((bo, p5)) => Some((l, r, t, bo, p5)),
                        },
                    },
                },
            }
        },
    }
}

/// Horizontal crop unit: 1 without chroma subsampling across columns, else 2.
pub open spec fn crop_unit_x(cfi: nat, sep: bool) -> nat {
    if sep || cfi == 0 || cfi == 3 {
        1
    } else {
        2
    }
}

/// Vertical crop unit: the chroma row subsampling, doubled for field coding.
pub open spec fn crop_unit_y(cfi: nat, sep: bool, frame_mbs_only: bool) -> nat {
    let unit: nat = if sep || cfi != 1 {
        1
    } else {
        2
    };
    if frame_mbs_only {
        unit
    } else {
        2 * unit
    }
}

/// The picture size after cropping, which must be at least one sample and fit in `u32`.
pub open spec fn cropped(full: nat, unit: nat, a: nat, b: nat) -> Option<nat> {
    let cut = unit * (a + b);
    if cut < full && full - cut <= u32::MAX {
        Some((full - cut) as nat)
    } else {
        None
    }
}

/// The picture dimensions: width and height in macroblocks, `frame_mbs_only_flag`,
/// `mb_adaptive_frame_field_flag`, `direct_8x8_inference_flag` and the cropping.
pub open spec fn size_at(b: Seq<bool>, pos: int, cfi: nat, sep: bool) -> Option<(nat, nat, int)> {
    match ue_at(b, pos) {
        None => None,
        Some((wm1, p1)) => match ue_at(b, p1) {
            None => None,
            Some((hm1, p2)) => match flag_at(b, p2) {
                None => None,
                Some((fmo, p3)) => match (if fmo {
                    Some((false, p3))
                } else {
                    flag_at(b, p3)
                }) {
                    None => None,
                    Some((_mbaff, p4)) => match flag_at(b, p4) {
                        None => None,
                        Some((_direct, p5)) => match cropping_at(b, p5) {
                            None => None,
                            Some((l, r, t, bo, p6)) => {
                                let full_w = (wm1 + 1) * 16;
                                let full_h = if fmo {
                                    (hm1 + 1) * 16
                                } else {
                                    (hm1 + 1) * 32
                                };
                                match cropped(full_w, crop_unit_x(cfi, sep), l, r) {
                                    None => None,
                                    Some(w) => match cropped(
                                        full_h,
                                        crop_unit_y(cfi, sep, fmo),
                                        t,
                                        bo,
                                    ) {
                                        None => None,
                                        Some(h) => Some((w, h, p6)),
                                    },
                                }
                            },
                        },
                    },
                },
            },
        },
    }
}

/// The picture-size fields as written at `pos` (where `pic_width_in_mbs_minus1` starts):
/// `pic_width_in_mbs_minus1`, `pic_height_in_map_units_minus1`, `frame_mbs_only_flag` and the
/// crop offsets left, right, top and bottom (0 without `frame_cropping_flag`).
pub open spec fn size_fields_at(b: Seq<bool>, pos: int) -> Option<(nat, nat, bool, nat, nat, nat, nat)> {
    match ue_at(b, pos) {
        None => None,
        Some((wm1, p1)) => match ue_at(b, p1) {
            None => None,
            Some((hm1, p2)) => match flag_at(b, p2) {
                None => None,
                Some((fmo, p3)) => match (if fmo {
                    Some((false, p3))
                } else {
                    flag_at(b, p3)
                }) {
                    None => None,
                    Some((_mbaff, p4)) => match flag_at(b, p4) {
                        None => None,
                        Some((_direct, p5)) => match cropping_at(b, p5) {
                            None => None,
                            Some((l, r, t, bo, _p6)) => Some((wm1, hm1, fmo, l, r, t, bo)),
                        },
                    },
                },
            },
        },
    }
}

/// The SPS up to `vui_parameters_present_flag`: profile, level, cropped width and height, and
/// the position of that flag.
#[verifier::opaque]
pub open spec fn header_at(b: Seq<bool>) -> Option<(nat, nat, nat, nat, int)> {
    match intro_at(b) {
        None => None,
        Some((profile, level, cfi, sep, p1)) => match frames_end(b, p1) {
            None => None,
            Some(p2) => match size_at(b, p2, cfi, sep) {
                None => None,
                Some((w, h, p3)) => Some((profile, level, w, h, p3)),
            },
        },
    }
}

// ---------------------------------------------------------------------------------------------
// The VUI fields up to `video_signal_type`.
// ---------------------------------------------------------------------------------------------

/// Skips `aspect_ratio_info` and `overscan_info`: the position of
/// `video_signal_type_present_flag`.
pub open spec fn vui_lead_end(b: Seq<bool>, pos: int) -> Option<int> {
    match flag_at(b, pos) {
        None => None,
        Some((aspect, p1)) => match (if aspect {
            match u_at(b, p1, 8) {
                None => None,
                Some((idc, p2)) => if idc == 255 {
                    match u_at(b, p2, 32) {
                        None => None,
                        Some((_sar, p3)) => Some(p3),
                    }
                } else {
                    Some(p2)
                },
            }
        } else {
            Some(p1)
        }) {
            None => None,
            Some(p4) => match flag_at(b, p4) {
                None => None,
                Some((overscan, p5)) => if overscan {
                    match flag_at(b, p5) {
                        None => None,
                        Some((_appropriate, p6)) => Some(p6),
                    }
                } else {
                    Some(p5)
                },
            },
        },
    }
}

/// `video_signal_type`: the full-range flag and matrix coefficients it signals (if any), and the
/// position after it.
pub open spec fn video_signal_at(b: Seq<bool>, pos: int) -> Option<
    (Option<bool>, Option<nat>, int),
> {
    match flag_at(b, pos) {
        None => None,
        Some((present, p1)) => if !present {
            Some((None, None, p1))
        } else {
            match u_at(b, p1, 3) {
                None => None,
                Some((_format, p2)) => match flag_at(b, p2) {
                    None => None,
                    Some((full, p3)) => match flag_at(b, p3) {
                        None => None,
                        Some((described, p4)) => if !described {
                            Some((Some(full), None, p4))
                        } else {
                            match u_at(b, p4, 8) {
                                None => None,
                                Some((_primaries, p5)) => match u_at(b, p5, 8) {
                                    None => None,
                                    Some((_transfer, p6)) => match u_at(b, p6, 8) {
                                        None => None,
                                        Some((matrix, p7)) => Some((Some(full), Some(matrix), p7)),
                                    },
                                },
                            }
                        },
                    },
                },
            }
        },
    }
}

/// The info read from the bits of an SPS payload.
pub open spec fn info_of(bits: Seq<bool>) -> Result<SpsInfo, SpsError> {
    match header_at(bits) {
        None => Err(SpsError::Malformed),
        Some((profile, level, w, h, vp)) => match flag_at(bits, vp) {
            None => Err(SpsError::Malformed),
            Some((vui, p)) => if !vui {
                Ok(
                    SpsInfo {
                        profile_idc: profile as u8,
                        level_idc: level as u8,
                        width: w as u32,
                        height: h as u32,
                        full_range: None,
                        matrix_coefficients: None,
                    },
                )
            } else {
                match vui_lead_end(bits, p) {
                    None => Err(SpsError::Malformed),
                    Some(q) => match video_signal_at(bits, q) {
                        None => Err(SpsError::Malformed),
                        Some((full, matrix, _e)) => Ok(
                            SpsInfo {
                                profile_idc: profile as u8,
                                level_idc: level as u8,
                                width: w as u32,
                                height: h as u32,
                                full_range: full,
                                matrix_coefficients: match matrix {
                                    Some(m) => Some(m as u8),
                                    None => None,
                                },
                            },
                        ),
                    },
                }
            },
        },
    }
}

/// `true` for a NAL unit whose header says it is an SPS.
pub open spec fn is_sps(nal: Seq<u8>) -> bool {
    nal.len() > 0 && spec_nal_type(nal[0]) == 7
}

/// The bits of the payload of NAL unit `nal` (its header byte excluded).
pub open spec fn payload_bits(nal: Seq<u8>) -> Seq<bool> {
    bits_of(unescape(nal.skip(1)))
}

/// What `parse` gives for NAL unit `nal`.
pub open spec fn spec_parse(nal: Seq<u8>) -> Result<SpsInfo, SpsError> {
    if !is_sps(nal) {
        Err(SpsError::NotSps)
    } else {
        info_of(payload_bits(nal))
    }
}

// ---------------------------------------------------------------------------------------------
// Locality: a syntax element depends only on the bits it spans.
// ---------------------------------------------------------------------------------------------

/// `b1` and `b2` both hold at least `e` bits, and the same bits below `e`.
pub open spec fn agree(b1: Seq<bool>, b2: Seq<bool>, e: int) -> bool {
    &&& e <= b1.len()
    &&& e <= b2.len()
    &&& forall|i: int| 0 <= i < e ==> #[trigger] b1[i] == b2[i]
}

proof fn lemma_bits_value_local(b1: Seq<bool>, b2: Seq<bool>, pos: int, n: nat, e: int)
    requires
        0 <= pos,
        pos + n <= e,
        agree(b1, b2, e),
    ensures
        bits_value(b1, pos, n) == bits_value(b2, pos, n),
    decreases n,
{
    if n > 0 {
        lemma_bits_value_local(b1, b2, pos, (n - 1) as nat, e);
        assert(b1[pos + n - 1] == b2[pos + n - 1]);
    }
}

proof fn lemma_u_local(b1: Seq<bool>, b2: Seq<bool>, pos: int, n: nat)
    requires
        u_at(b1, pos, n) is Some,
    ensures
        pos <= u_at(b1, pos, n).unwrap().1 <= b1.len(),
        agree(b1, b2, u_at(b1, pos, n).unwrap().1) ==> u_at(b2, pos, n) == u_at(b1, pos, n),
{
    if agree(b1, b2, pos + n) {
        lemma_bits_value_local(b1, b2, pos, n, pos + n);
    }
}

proof fn lemma_flag_local(b1: Seq<bool>, b2: Seq<bool>, pos: int)
    requires
        flag_at(b1, pos) is Some,
    ensures
        pos <= flag_at(b1, pos).unwrap().1 <= b1.len(),
        agree(b1, b2, flag_at(b1, pos).unwrap().1) ==> flag_at(b2, pos) == flag_at(b1, pos),
{
    if agree(b1, b2, pos + 1) {
        assert(b1[pos] == b2[pos]);
    }
}

proof fn lemma_zero_run_local(b1: Seq<bool>, b2: Seq<bool>, pos: int, limit: nat)
    requires
        zero_run(b1, pos, limit) is Some,
    ensures
        0 <= pos,
        pos + zero_run(b1, pos, limit).unwrap() < b1.len(),
        agree(b1, b2, pos + zero_run(b1, pos, limit).unwrap() + 1) ==> zero_run(b2, pos, limit)
            == zero_run(b1, pos, limit),
    decreases limit,
{
    if !b1[pos] {
        lemma_zero_run_local(b1, b2, pos + 1, (limit - 1) as nat);
    }
    if agree(b1, b2, pos + zero_run(b1, pos, limit).unwrap() + 1) {
        assert(b1[pos] == b2[pos]);
    }
}

proof fn lemma_ue_local(b1: Seq<bool>, b2: Seq<bool>, pos: int)
    requires
        ue_at(b1, pos) is Some,
    ensures
        pos <= ue_at(b1, pos).unwrap().1 <= b1.len(),
        agree(b1, b2, ue_at(b1, pos).unwrap().1) ==> ue_at(b2, pos) == ue_at(b1, pos),
{
    let k = zero_run(b1, pos, 32).unwrap();
    lemma_zero_run_local(b1, b2, pos, 32);
    lemma_u_local(b1, b2, pos + k + 1, k);
}

proof fn lemma_se_local(b1: Seq<bool>, b2: Seq<bool>, pos: int)
    requires
        se_at(b1, pos) is Some,
    ensures
        pos <= se_at(b1, pos).unwrap().1 <= b1.len(),
        agree(b1, b2, se_at(b1, pos).unwrap().1) ==> se_at(b2, pos) == se_at(b1, pos),
{
    lemma_ue_local(b1, b2, pos);
}

proof fn lemma_scaling_list_local(
    b1: Seq<bool>,
    b2: Seq<bool>,
    pos: int,
    size: nat,
    j: nat,
    last: int,
    next: int,
)
    requires
        scaling_list_end(b1, pos, size, j, last, next) is Some,
    ensures
        pos <= scaling_list_end(b1, pos, size, j, last, next).unwrap(),
        scaling_list_end(b1, pos, size, j, last, next).unwrap() <= b1.len() || scaling_list_end(
            b1,
            pos,
            size,
            j,
            last,
            next,
        ).unwrap() == pos,
        agree(b1, b2, scaling_list_end(b1, pos, size, j, last, next).unwrap()) ==> scaling_list_end(
            b2,
            pos,
            size,
            j,
            last,
            next,
        ) == scaling_list_end(b1, pos, size, j, last, next),
    decreases size - j,
{
    if !(j >= size || next == 0) {
        let (d, p) = se_at(b1, pos).unwrap();
        lemma_se_local(b1, b2, pos);
        let nx = (last + d + 256) % 256;
        lemma_scaling_list_local(
            b1,
            b2,
            p,
            size,
            j + 1,
            if nx == 0 {
                last
            } else {
                nx
            },
            nx,
        );
    }
}

proof fn lemma_scaling_matrix_local(b1: Seq<bool>, b2: Seq<bool>, pos: int, i: nat, count: nat)
    requires
        scaling_matrix_end(b1, pos, i, count) is Some,
        pos <= b1.len(),
    ensures
        pos <= scaling_matrix_end(b1, pos, i, count).unwrap() <= b1.len(),
        agree(b1, b2, scaling_matrix_end(b1, pos, i, count).unwrap()) ==> scaling_matrix_end(
            b2,
            pos,
            i,
            count,
        ) == scaling_matrix_end(b1, pos, i, count),
    decreases count - i,
{
    if i < count {
        let (present, p) = flag_at(b1, pos).unwrap();
        lemma_flag_local(b1, b2, pos);
        if present {
            let size: nat = if i < 6 {
                16
            } else {
                64
            };
            let q = scaling_list_end(b1, p, size, 0, 8, 8).unwrap();
            lemma_scaling_list_local(b1, b2, p, size, 0, 8, 8);
            lemma_scaling_matrix_local(b1, b2, q, i + 1, count);
        } else {
            lemma_scaling_matrix_local(b1, b2, p, i + 1, count);
        }
    }
}

proof fn lemma_chroma_info_local(b1: Seq<bool>, b2: Seq<bool>, pos: int)
    requires
        chroma_info_at(b1, pos) is Some,
    ensures
        pos <= chroma_info_at(b1, pos).unwrap().2 <= b1.len(),
        agree(b1, b2, chroma_info_at(b1, pos).unwrap().2) ==> chroma_info_at(b2, pos)
            == chroma_info_at(b1, pos),
{
    let (cfi, p1) = ue_at(b1, pos).unwrap();
    lemma_ue_local(b1, b2, pos);
    let p2 = if cfi == 3 {
        lemma_flag_local(b1, b2, p1);
        flag_at(b1, p1).unwrap().1
    } else {
        p1
    };
    let p3 = ue_at(b1, p2).unwrap().1;
    lemma_ue_local(b1, b2, p2);
    let p4 = ue_at(b1, p3).unwrap().1;
    lemma_ue_local(b1, b2, p3);
    let p5 = flag_at(b1, p4).unwrap().1;
    lemma_flag_local(b1, b2, p4);
    let (matrix, p6) = flag_at(b1, p5).unwrap();
    lemma_flag_local(b1, b2, p5);
    if matrix {
        lemma_scaling_matrix_local(
            b1,
            b2,
            p6,
            0,
            if cfi != 3 {
                8
            } else {
                12
            },
        );
    }
}

proof fn lemma_intro_local(b1: Seq<bool>, b2: Seq<bool>)
    requires
        intro_at(b1) is Some,
    ensures
        0 <= intro_at(b1).unwrap().4 <= b1.len(),
        agree(b1, b2, intro_at(b1).unwrap().4) ==> intro_at(b2) == intro_at(b1),
{
    let (profile, p1) = u_at(b1, 0, 8).unwrap();
    lemma_u_local(b1, b2, 0, 8);
    let p2 = u_at(b1, p1, 8).unwrap().1;
    lemma_u_local(b1, b2, p1, 8);
    let p3 = u_at(b1, p2, 8).unwrap().1;
    lemma_u_local(b1, b2, p2, 8);
    let p4 = ue_at(b1, p3).unwrap().1;
    lemma_ue_local(b1, b2, p3);
    if has_chroma_info(profile) {
        lemma_chroma_info_local(b1, b2, p4);
    }
}

proof fn lemma_se_run_local(b1: Seq<bool>, b2: Seq<bool>, pos: int, n: nat)
    requires
        se_run_end(b1, pos, n) is Some,
        pos <= b1.len(),
    ensures
        pos <= se_run_end(b1, pos, n).unwrap() <= b1.len(),
        agree(b1, b2, se_run_end(b1, pos, n).unwrap()) ==> se_run_end(b2, pos, n) == se_run_end(
            b1,
            pos,
            n,
        ),
    decreases n,
{
    if n > 0 {
        let p = se_at(b1, pos).unwrap().1;
        lemma_se_local(b1, b2, pos);
        lemma_se_run_local(b1, b2, p, (n - 1) as nat);
    }
}

proof fn lemma_poc_local(b1: Seq<bool>, b2: Seq<bool>, pos: int)
    requires
        poc_end(b1, pos) is Some,
    ensures
        pos <= poc_end(b1, pos).unwrap() <= b1.len(),
        agree(b1, b2, poc_end(b1, pos).unwrap()) ==> poc_end(b2, pos) == poc_end(b1, pos),
{
    let (t, p1) = ue_at(b1, pos).unwrap();
    lemma_ue_local(b1, b2, pos);
    if t == 0 {
        lemma_ue_local(b1, b2, p1);
    } else if t == 1 {
        let p2 = flag_at(b1, p1).unwrap().1;
        lemma_flag_local(b1, b2, p1);
        let p3 = se_at(b1, p2).unwrap().1;
        lemma_se_local(b1, b2, p2);
        let p4 = se_at(b1, p3).unwrap().1;
        lemma_se_local(b1, b2, p3);
        let (n, p5) = ue_at(b1, p4).unwrap();
        lemma_ue_local(b1, b2, p4);
        lemma_se_run_local(b1, b2, p5, n);
    }
}

proof fn lemma_frames_local(b1: Seq<bool>, b2: Seq<bool>, pos: int)
    requires
        frames_end(b1, pos) is Some,
    ensures
        pos <= frames_end(b1, pos).unwrap() <= b1.len(),
        agree(b1, b2, frames_end(b1, pos).unwrap()) ==> frames_end(b2, pos) == frames_end(b1, pos),
{
    let p1 = ue_at(b1, pos).unwrap().1;
    lemma_ue_local(b1, b2, pos);
    let p2 = poc_end(b1, p1).unwrap();
    lemma_poc_local(b1, b2, p1);
    let p3 = ue_at(b1, p2).unwrap().1;
    lemma_ue_local(b1, b2, p2);
    lemma_flag_local(b1, b2, p3);
}

proof fn lemma_cropping_local(b1: Seq<bool>, b2: Seq<bool>, pos: int)
    requires
        cropping_at(b1, pos) is Some,
    ensures
        pos <= cropping_at(b1, pos).unwrap().4 <= b1.len(),
        agree(b1, b2, cropping_at(b1, pos).unwrap().4) ==> cropping_at(b2, pos) == cropping_at(
            b1,
            pos,
        ),
{
    let (crop, p1) = flag_at(b1, pos).unwrap();
    lemma_flag_local(b1, b2, pos);
    if crop {
        let p2 = ue_at(b1, p1).unwrap().1;
        lemma_ue_local(b1, b2, p1);
        let p3 = ue_at(b1, p2).unwrap().1;
        lemma_ue_local(b1, b2, p2);
        let p4 = ue_at(b1, p3).unwrap().1;
        lemma_ue_local(b1, b2, p3);
        lemma_ue_local(b1, b2, p4);
    }
}

proof fn lemma_size_local(b1: Seq<bool>, b2: Seq<bool>, pos: int, cfi: nat, sep: bool)
    requires
        size_at(b1, pos, cfi, sep) is Some,
    ensures
        pos <= size_at(b1, pos, cfi, sep).unwrap().2 <= b1.len(),
        agree(b1, b2, size_at(b1, pos, cfi, sep).unwrap().2) ==> size_at(b2, pos, cfi, sep)
            == size_at(b1, pos, cfi, sep),
{
    let p1 = ue_at(b1, pos).unwrap().1;
    lemma_ue_local(b1, b2, pos);
    let p2 = ue_at(b1, p1).unwrap().1;
    lemma_ue_local(b1, b2, p1);
    let (fmo, p3) = flag_at(b1, p2).unwrap();
    lemma_flag_local(b1, b2, p2);
    let p4 = if fmo {
        p3
    } else {
        lemma_flag_local(b1, b2, p3);
        flag_at(b1, p3).unwrap().1
    };
    let p5 = flag_at(b1, p4).unwrap().1;
    lemma_flag_local(b1, b2, p4);
    lemma_cropping_local(b1, b2, p5);
}

proof fn lemma_header_local(b1: Seq<bool>, b2: Seq<bool>)
    requires
        header_at(b1) is Some,
    ensures
        0 <= header_at(b1).unwrap().4 <= b1.len(),
        agree(b1, b2, header_at(b1).unwrap().4) ==> header_at(b2) == header_at(b1),
{
    reveal(header_at);
    let (_profile, _level, cfi, sep, p1) = intro_at(b1).unwrap();
    lemma_intro_local(b1, b2);
    let p2 = frames_end(b1, p1).unwrap();
    lemma_frames_local(b1, b2, p1);
    lemma_size_local(b1, b2, p2, cfi, sep);
}

proof fn lemma_vui_lead_local(b1: Seq<bool>, b2: Seq<bool>, pos: int)
    requires
        vui_lead_end(b1, pos) is Some,
    ensures
        pos <= vui_lead_end(b1, pos).unwrap() <= b1.len(),
        agree(b1, b2, vui_lead_end(b1, pos).unwrap()) ==> vui_lead_end(b2, pos) == vui_lead_end(
            b1,
            pos,
        ),
{
    let (aspect, p1) = flag_at(b1, pos).unwrap();
    lemma_flag_local(b1, b2, pos);
    let p4 = if aspect {
        let (idc, p2) = u_at(b1, p1, 8).unwrap();
        lemma_u_local(b1, b2, p1, 8);
        if idc == 255 {
            lemma_u_local(b1, b2, p2, 32);
            u_at(b1, p2, 32).unwrap().1
        } else {
            p2
        }
    } else {
        p1
    };
    let (overscan, p5) = flag_at(b1, p4).unwrap();
    lemma_flag_local(b1, b2, p4);
    if overscan {
        lemma_flag_local(b1, b2, p5);
    }
}

// ---------------------------------------------------------------------------------------------
// The rewrite.
// ---------------------------------------------------------------------------------------------

/// The bits of the byte value 1.
pub open spec fn byte_one() -> Seq<bool> {
    seq![false, false, false, false, false, false, false, true]
}

/// A `video_signal_type` for BT.709 full range: present, `video_format` 5 (unspecified),
/// `video_full_range_flag` set, and a colour description whose primaries, transfer
/// characteristics and matrix coefficients are all 1.
pub open spec fn bt709_full_range_bits() -> Seq<bool> {
    seq![true, true, false, true, true, true] + byte_one() + byte_one() + byte_one()
}

/// A VUI that holds nothing but that `video_signal_type`: no aspect ratio or overscan
/// information before it, and no chroma location, timing, HRD, picture structure or bitstream
/// restriction after it.
pub open spec fn bare_vui_bits() -> Seq<bool> {
    seq![false, false] + bt709_full_range_bits() + seq![false, false, false, false, false, false]
}

/// The position of the last 1 bit of `b` (the `rbsp_stop_one_bit`), or -1.
pub open spec fn last_one(b: Seq<bool>) -> int
    decreases b.len(),
{
    if b.len() == 0 {
        -1
    } else if b.last() {
        b.len() - 1
    } else {
        last_one(b.drop_last())
    }
}

/// `body` followed by `rbsp_trailing_bits`: a 1 bit and 0 bits up to a byte boundary.
pub open spec fn with_trailing(body: Seq<bool>) -> Seq<bool> {
    let m = body.len() + 1;
    body.push(true) + Seq::new(((8 - m % 8) % 8) as nat, |i: int| false)
}

/// The payload bits with the VUI signalling BT.709 full range: without a VUI, `bare_vui_bits`
/// after a set `vui_parameters_present_flag`; with one, its `video_signal_type` replaced by
/// `bt709_full_range_bits`. The bits between the rewritten part and the stop bit are copied, and
/// fresh trailing bits end the payload (a payload whose stop bit is missing, or falls inside the
/// rewritten part, gets one after it).
pub open spec fn rewritten_bits(b: Seq<bool>) -> Option<Seq<bool>> {
    match header_at(b) {
        None => None,
        Some((_profile, _level, _w, _h, vp)) => rewritten_from(b, vp),
    }
}

/// The bits of `b` from `from` up to its stop bit (`rbsp_stop_one_bit`); none when the stop bit
/// comes before `from` or is missing.
pub open spec fn kept_tail(b: Seq<bool>, from: int) -> Seq<bool> {
    if last_one(b) >= from {
        b.subrange(from, last_one(b))
    } else {
        Seq::<bool>::empty()
    }
}

/// `rewritten_bits` for a payload whose `vui_parameters_present_flag` is at `vp`.
pub open spec fn rewritten_from(b: Seq<bool>, vp: int) -> Option<Seq<bool>> {
    match flag_at(b, vp) {
        None => None,
        Some((vui, p)) => if !vui {
            Some(with_trailing(b.take(vp) + seq![true] + bare_vui_bits() + kept_tail(b, p)))
        } else {
            match vui_lead_end(b, p) {
                None => None,
                Some(q) => match video_signal_at(b, q) {
                    None => None,
                    Some((_full, _matrix, e)) => Some(
                        with_trailing(b.take(q) + bt709_full_range_bits() + kept_tail(b, e)),
                    ),
                },
            }
        },
    }
}

/// What `with_bt709_full_range` gives for NAL unit `nal`: the same header byte, then the
/// rewritten payload with emulation prevention.
pub open spec fn spec_rewrite(nal: Seq<u8>) -> Result<Seq<u8>, SpsError> {
    if !is_sps(nal) {
        Err(SpsError::NotSps)
    } else {
        match rewritten_bits(payload_bits(nal)) {
            None => Err(SpsError::Malformed),
            Some(nb) => Ok(seq![nal[0]] + escape(pack(nb))),
        }
    }
}

// ---------------------------------------------------------------------------------------------
// Laws of the rewrite.
// ---------------------------------------------------------------------------------------------

proof fn lemma_last_one_after_zeros(x: Seq<bool>, n: nat)
    requires
        x.len() > 0,
        x.last(),
    ensures
        last_one(x + Seq::new(n, |i: int| false)) == x.len() - 1,
    decreases n,
{
    let z = Seq::new(n, |i: int| false);
    if n == 0 {
        assert(x + z =~= x);
    } else {
        let z1 = Seq::new((n - 1) as nat, |i: int| false);
        assert((x + z).drop_last() =~= x + z1);
        lemma_last_one_after_zeros(x, (n - 1) as nat);
    }
}

proof fn lemma_with_trailing(body: Seq<bool>)
    ensures
        with_trailing(body).len() % 8 == 0,
        with_trailing(body).len() > body.len(),
        with_trailing(body)[body.len() as int],
        last_one(with_trailing(body)) == body.len(),
        forall|i: int| 0 <= i < body.len() ==> #[trigger] with_trailing(body)[i] == body[i],
{
    let m = body.len() + 1;
    let n = ((8 - m % 8) % 8) as nat;
    lemma_last_one_after_zeros(body.push(true), n);
    assert((m + (8 - m % 8) % 8) % 8 == 0);
}

/// Reads the BT.709 full range `video_signal_type` written at `at`.
proof fn lemma_read_bt709(nb: Seq<bool>, at: int)
    requires
        0 <= at,
        at + 30 <= nb.len(),
        forall|k: int| 0 <= k < 30 ==> nb[at + k] == #[trigger] bt709_full_range_bits()[k],
    ensures
        video_signal_at(nb, at) == Some((Some(true), Some(1nat), at + 30)),
{
    let v = bt709_full_range_bits();
    assert(v =~= seq![
        true, true, false, true, true, true,
        false, false, false, false, false, false, false, true,
        false, false, false, false, false, false, false, true,
        false, false, false, false, false, false, false, true,
    ]);
    assert(nb[at] == v[0]);
    assert(nb[at + 1] == v[1]);
    assert(nb[at + 2] == v[2]);
    assert(nb[at + 3] == v[3]);
    assert(nb[at + 4] == v[4]);
    assert(nb[at + 5] == v[5]);
    assert forall|k: int| 6 <= k < 30 implies #[trigger] nb[at + k] == ((k - 6) % 8 == 7) by {
        assert(nb[at + k] == v[k]);
    }
    reveal_with_fuel(bits_value, 9);
    assert(bits_value(nb, at + 1, 3) == 5);
    assert(bits_value(nb, at + 6, 8) == 1);
    assert(bits_value(nb, at + 14, 8) == 1);
    assert(bits_value(nb, at + 22, 8) == 1);
}

/// A payload with a VUI whose `video_signal_type` (at `q`, ending at `e`) is replaced: the new
/// bits read the same up to `q`, then the BT.709 full range signal.
#[verifier::spinoff_prover]
#[verifier::rlimit(30)]
proof fn lemma_signal_case(b: Seq<bool>, vp: int, p: int, q: int, e: int)
    requires
        header_at(b) is Some,
        header_at(b).unwrap().4 == vp,
        flag_at(b, vp) == Some((true, p)),
        vui_lead_end(b, p) == Some(q),
        video_signal_at(b, q) is Some,
        video_signal_at(b, q).unwrap().2 == e,
    ensures
        ({
            let nb = with_trailing(b.take(q) + bt709_full_range_bits() + kept_tail(b, e));
            &&& nb.len() % 8 == 0
            &&& header_at(nb) == header_at(b)
            &&& flag_at(nb, vp) == Some((true, p))
            &&& vui_lead_end(nb, p) == Some(q)
            &&& video_signal_at(nb, q) == Some((Some(true), Some(1nat), q + 30))
            &&& forall|k: int| 0 <= k < 30 ==> nb[q + k] == #[trigger] bt709_full_range_bits()[k]
            &&& q + 30 <= last_one(nb)
            &&& with_trailing(nb.take(q) + bt709_full_range_bits() + kept_tail(nb, q + 30)) == nb
        }),
{
    let stop = last_one(b);
    lemma_header_local(b, b);
    lemma_flag_local(b, b, vp);
    lemma_vui_lead_local(b, b, p);
    let body = b.take(q) + bt709_full_range_bits() + kept_tail(b, e);
    let nb = with_trailing(body);
    lemma_with_trailing(body);
    assert(bt709_full_range_bits().len() == 30);
    assert forall|i: int| 0 <= i < q implies #[trigger] b[i] == nb[i] by {
        assert(nb[i] == body[i]);
    }
    lemma_flag_local(b, nb, vp);
    lemma_header_local(b, nb);
    lemma_vui_lead_local(b, nb, p);
    assert forall|k: int| 0 <= k < 30 implies nb[q + k] == #[trigger] bt709_full_range_bits()[k] by {
        assert(nb[q + k] == body[q + k]);
    }
    lemma_read_bt709(nb, q);
    let body2 = nb.take(q) + bt709_full_range_bits() + nb.subrange(q + 30, body.len() as int);
    assert forall|i: int| 0 <= i < body.len() implies #[trigger] body2[i] == body[i] by {
        if i < q {
            assert(body2[i] == nb[i]);
        } else if i >= q + 30 {
            assert(body2[i] == nb[i]);
        }
    }
    assert(body2 =~= body);
}

/// A payload without a VUI gets `bare_vui_bits`: the new bits read the same up to the
/// `vui_parameters_present_flag`, which is set, then the BT.709 full range signal.
proof fn lemma_bare_case(b: Seq<bool>, vp: int)
    requires
        header_at(b) is Some,
        header_at(b).unwrap().4 == vp,
        flag_at(b, vp) == Some((false, vp + 1)),
    ensures
        ({
            let nb = with_trailing(b.take(vp) + seq![true] + bare_vui_bits() + kept_tail(b, vp + 1));
            &&& nb.len() % 8 == 0
            &&& header_at(nb) == header_at(b)
            &&& flag_at(nb, vp) == Some((true, vp + 1))
            &&& vui_lead_end(nb, vp + 1) == Some(vp + 3)
            &&& video_signal_at(nb, vp + 3) == Some((Some(true), Some(1nat), vp + 33))
            &&& forall|k: int| 0 <= k < 30 ==> nb[vp + 3 + k] == #[trigger] bt709_full_range_bits()[k]
            &&& vp + 33 <= last_one(nb)
            &&& with_trailing(nb.take(vp + 3) + bt709_full_range_bits() + kept_tail(nb, vp + 33)) == nb
        }),
{
    let stop = last_one(b);
    lemma_header_local(b, b);
    let body = b.take(vp) + seq![true] + bare_vui_bits() + kept_tail(b, vp + 1);
    let nb = with_trailing(body);
    lemma_with_trailing(body);
    assert(bare_vui_bits().len() == 38);
    assert forall|i: int| 0 <= i < vp implies #[trigger] b[i] == nb[i] by {
        assert(nb[i] == body[i]);
    }
    lemma_header_local(b, nb);
    assert(nb[vp] == body[vp]);
    assert(nb[vp + 1] == body[vp + 1]);
    assert(nb[vp + 2] == body[vp + 2]);
    assert(body[vp + 1] == bare_vui_bits()[0]);
    assert(body[vp + 2] == bare_vui_bits()[1]);
    assert(vui_lead_end(nb, vp + 1) == Some(vp + 3));
    assert forall|k: int| 0 <= k < 30 implies nb[vp + 3 + k] == #[trigger] bt709_full_range_bits()[k] by {
        assert(nb[vp + 3 + k] == body[vp + 3 + k]);
        assert(body[vp + 3 + k] == bare_vui_bits()[2 + k]);
    }
    lemma_read_bt709(nb, vp + 3);
    let body2 = nb.take(vp + 3) + bt709_full_range_bits() + nb.subrange(vp + 33, body.len() as int);
    assert forall|i: int| 0 <= i < body.len() implies #[trigger] body2[i] == body[i] by {
        if i < vp + 3 {
            assert(body2[i] == nb[i]);
        } else if i < vp + 33 {
            assert(body2[i] == bt709_full_range_bits()[i - vp - 3]);
            assert(body[i] == bare_vui_bits()[i - vp - 1]);
        } else {
            assert(body2[i] == nb[i]);
        }
    }
    assert(body2 =~= body);
}

/// The parts of a successful rewrite of payload bits `b`.
proof fn lemma_rewrite_parts(b: Seq<bool>)
    requires
        rewritten_bits(b) is Some,
    ensures
        ({
            let nb = rewritten_bits(b).unwrap();
            &&& nb.len() % 8 == 0
            &&& info_of(b) is Ok
            &&& info_of(nb) == Ok::<SpsInfo, SpsError>(
                SpsInfo {
                    profile_idc: info_of(b).unwrap().profile_idc,
                    level_idc: info_of(b).unwrap().level_idc,
                    width: info_of(b).unwrap().width,
                    height: info_of(b).unwrap().height,
                    full_range: Some(true),
                    matrix_coefficients: Some(1u8),
                },
            )
            &&& rewritten_bits(nb) == Some(nb)
        }),
{
    let vp = header_at(b).unwrap().4;
    let (vui, p) = flag_at(b, vp).unwrap();
    let nb = rewritten_bits(b).unwrap();
    if !vui {
        lemma_bare_case(b, vp);
        lemma_signal_case(nb, vp, vp + 1, vp + 3, vp + 33);
    } else {
        let q = vui_lead_end(b, p).unwrap();
        let e = video_signal_at(b, q).unwrap().2;
        lemma_signal_case(b, vp, p, q, e);
        lemma_signal_case(nb, vp, p, q, q + 30);
    }
}

/// The payload bits of the NAL unit written for rewritten bits `nb`.
proof fn lemma_payload_of_rewrite(h: u8, nb: Seq<bool>)
    requires
        nb.len() % 8 == 0,
    ensures
        payload_bits(seq![h] + escape(pack(nb))) == nb,
{
    let out = seq![h] + escape(pack(nb));
    assert(out.skip(1) =~= escape(pack(nb)));
    crate::rbsp::lemma_unescape_escape(pack(nb));
    crate::rbsp::lemma_bits_of_pack(nb);
}

/// What the rewrite gives parses as the SPS it came from with BT.709 full range signalled: the
/// same profile, level, width and height, `video_full_range_flag` set and matrix coefficients 1.
/// In particular an SPS that the rewrite accepts also parses.
pub proof fn lemma_rewrite_then_parse(nal: Seq<u8>)
    requires
        spec_rewrite(nal) is Ok,
    ensures
        spec_parse(nal) is Ok,
        spec_parse(spec_rewrite(nal).unwrap()) == Ok::<SpsInfo, SpsError>(
            SpsInfo {
                profile_idc: spec_parse(nal).unwrap().profile_idc,
                level_idc: spec_parse(nal).unwrap().level_idc,
                width: spec_parse(nal).unwrap().width,
                height: spec_parse(nal).unwrap().height,
                full_range: Some(true),
                matrix_coefficients: Some(1u8),
            },
        ),
{
    let b = payload_bits(nal);
    let nb = rewritten_bits(b).unwrap();
    lemma_rewrite_parts(b);
    lemma_payload_of_rewrite(nal[0], nb);
    let out = seq![nal[0]] + escape(pack(nb));
    assert(out[0] == nal[0]);
}

/// The rewrite is idempotent: rewriting what it gives gives the same bytes.
pub proof fn lemma_rewrite_idempotent(nal: Seq<u8>)
    requires
        spec_rewrite(nal) is Ok,
    ensures
        spec_rewrite(spec_rewrite(nal).unwrap()) == spec_rewrite(nal),
{
    let b = payload_bits(nal);
    let nb = rewritten_bits(b).unwrap();
    lemma_rewrite_parts(b);
    lemma_payload_of_rewrite(nal[0], nb);
    let out = seq![nal[0]] + escape(pack(nb));
    assert(out[0] == nal[0]);
}

/// Every SPS that parses can be rewritten, and only those: what the rewrite gives parses as the
/// same SPS with BT.709 full range signalled, and rewriting it again changes nothing.
pub proof fn lemma_parsed_sps_rewrites(nal: Seq<u8>)
    requires
        spec_parse(nal) is Ok,
    ensures
        spec_rewrite(nal) is Ok,
        spec_parse(spec_rewrite(nal).unwrap()) == Ok::<SpsInfo, SpsError>(
            SpsInfo {
                profile_idc: spec_parse(nal).unwrap().profile_idc,
                level_idc: spec_parse(nal).unwrap().level_idc,
                width: spec_parse(nal).unwrap().width,
                height: spec_parse(nal).unwrap().height,
                full_range: Some(true),
                matrix_coefficients: Some(1u8),
            },
        ),
        spec_rewrite(spec_rewrite(nal).unwrap()) == spec_rewrite(nal),
{
    let b = payload_bits(nal);
    assert(rewritten_bits(b) is Some);
    lemma_rewrite_then_parse(nal);
    lemma_rewrite_idempotent(nal);
}

/// What a `video_signal_type` at `pos` signals when it carries a colour description:
/// `video_full_range_flag`, `colour_primaries`, `transfer_characteristics` and
/// `matrix_coefficients`.
pub open spec fn colour_signal_at(b: Seq<bool>, pos: int) -> Option<(bool, nat, nat, nat)> {
    match flag_at(b, pos) {
        Some((true, p1)) => match u_at(b, p1, 3) {
            Some((_format, p2)) => match flag_at(b, p2) {
                Some((full, p3)) => match flag_at(b, p3) {
                    Some((true, p4)) => match u_at(b, p4, 8) {
                        Some((primaries, p5)) => match u_at(b, p5, 8) {
                            Some((transfer, p6)) => match u_at(b, p6, 8) {
                                Some((matrix, _p7)) => Some((full, primaries, transfer, matrix)),
                                None => None,
                            },
                            None => None,
                        },
                        None => None,
                    },
                    _ => None,
                },
                None => None,
            },
            _ => None,
        },
        _ => None,
    }
}

/// The colour signal of an SPS payload's VUI ([`colour_signal_at`]); `None` without a VUI.
pub open spec fn colour_signal(b: Seq<bool>) -> Option<(bool, nat, nat, nat)> {
    match header_at(b) {
        None => None,
        Some((_profile, _level, _w, _h, vp)) => match flag_at(b, vp) {
            Some((true, p)) => match vui_lead_end(b, p) {
                Some(q) => colour_signal_at(b, q),
                None => None,
            },
            _ => None,
        },
    }
}

/// Bits that hold the written BT.709 full range signal read as full range with BT.709
/// primaries, transfer characteristics and matrix (all 1).
proof fn lemma_written_signal_colours(nb: Seq<bool>, at: int)
    requires
        0 <= at,
        at + 30 <= nb.len(),
        forall|k: int| 0 <= k < 30 ==> nb[at + k] == #[trigger] bt709_full_range_bits()[k],
    ensures
        colour_signal_at(nb, at) == Some((true, 1nat, 1nat, 1nat)),
{
    let w = seq![
        true, true, false, true, true, true, false, false, false, false, false, false, false, true, false,
        false, false, false, false, false, false, true, false, false, false, false, false, false, false, true,
    ];
    assert(bt709_full_range_bits() =~= w);
    assert forall|j: int| 0 <= j < 30 implies #[trigger] nb[at + j] == w[j] by {
        assert(nb[at + j] == bt709_full_range_bits()[j]);
    }
    assert(nb[at] == w[0] && nb[at + 4] == w[4] && nb[at + 5] == w[5]);
    assert(nb[at + 1] == w[1] && nb[at + 2] == w[2] && nb[at + 3] == w[3]);
    assert forall|j: int| 6 <= j < 30 implies #[trigger] nb[at + j] == (j == 13 || j == 21 || j == 29) by {
        assert(nb[at + j] == w[j]);
    }
    reveal_with_fuel(bits_value, 9);
    assert(bits_value(nb, at + 6, 8) == 1nat);
    assert(bits_value(nb, at + 14, 8) == 1nat);
    assert(bits_value(nb, at + 22, 8) == 1nat);
}

/// What the rewrite gives signals BT.709 in full: full range, and colour primaries, transfer
/// characteristics and matrix coefficients all 1.
#[verifier::spinoff_prover]
pub proof fn lemma_rewrite_signals_bt709(nal: Seq<u8>)
    requires
        spec_rewrite(nal) is Ok,
    ensures
        colour_signal(payload_bits(spec_rewrite(nal).unwrap())) == Some((true, 1nat, 1nat, 1nat)),
{
    let b = payload_bits(nal);
    let nb = rewritten_bits(b).unwrap();
    lemma_rewrite_parts(b);
    lemma_payload_of_rewrite(nal[0], nb);
    let out = seq![nal[0]] + escape(pack(nb));
    assert(spec_rewrite(nal) == Ok::<Seq<u8>, SpsError>(out));
    assert(payload_bits(out) == nb);
    lemma_rewritten_bits_signal_bt709(b);
}

/// [`lemma_rewrite_signals_bt709`] on payload bits.
#[verifier::spinoff_prover]
proof fn lemma_rewritten_bits_signal_bt709(b: Seq<bool>)
    requires
        rewritten_bits(b) is Some,
    ensures
        colour_signal(rewritten_bits(b).unwrap()) == Some((true, 1nat, 1nat, 1nat)),
{
    let nb = rewritten_bits(b).unwrap();
    let vp = header_at(b).unwrap().4;
    let (vui, p) = flag_at(b, vp).unwrap();
    if !vui {
        lemma_bare_case(b, vp);
        lemma_written_signal_colours(nb, vp + 3);
        assert(header_at(nb).unwrap().4 == vp);
        assert(flag_at(nb, vp) == Some((true, vp + 1)));
        assert(vui_lead_end(nb, vp + 1) == Some(vp + 3));
    } else {
        let q = vui_lead_end(b, p).unwrap();
        let e = video_signal_at(b, q).unwrap().2;
        lemma_signal_case(b, vp, p, q, e);
        lemma_written_signal_colours(nb, q);
        assert(header_at(nb).unwrap().4 == vp);
        assert(flag_at(nb, vp) == Some((true, p)));
        assert(vui_lead_end(nb, p) == Some(q));
    }
}

/// The crop offsets count in chroma samples (H.264 7.4.2.1.1): the parsed width is the coded
/// width, 16 luma samples per macroblock, less the left and right offsets times `SubWidthC`,
/// which is 2 for 4:2:0 and 4:2:2 coded together and 1 for monochrome, 4:4:4 or separate colour
/// planes. The height is 16 rows per map unit (32 for field coding) less the top and bottom
/// offsets times `SubHeightC` (2 for 4:2:0, else 1), doubled for field coding.
#[verifier::spinoff_prover]
pub proof fn lemma_crop_counts_chroma_samples(nal: Seq<u8>)
    requires
        spec_parse(nal) is Ok,
    ensures
        ({
            let b = payload_bits(nal);
            let cfi = intro_at(b).unwrap().2;
            let sep = intro_at(b).unwrap().3;
            let f = size_fields_at(b, frames_end(b, intro_at(b).unwrap().4).unwrap()).unwrap();
            let info = spec_parse(nal).unwrap();
            &&& intro_at(b) is Some
            &&& frames_end(b, intro_at(b).unwrap().4) is Some
            &&& size_fields_at(b, frames_end(b, intro_at(b).unwrap().4).unwrap()) is Some
            &&& (!sep && (cfi == 1 || cfi == 2)) ==> info.width == 16 * (f.0 + 1) - 2 * (f.3 + f.4)
            &&& (sep || cfi == 0 || cfi == 3) ==> info.width == 16 * (f.0 + 1) - (f.3 + f.4)
            &&& (!sep && cfi == 1 && f.2) ==> info.height == 16 * (f.1 + 1) - 2 * (f.5 + f.6)
            &&& (!sep && cfi == 1 && !f.2) ==> info.height == 32 * (f.1 + 1) - 4 * (f.5 + f.6)
            &&& ((sep || cfi != 1) && f.2) ==> info.height == 16 * (f.1 + 1) - (f.5 + f.6)
            &&& ((sep || cfi != 1) && !f.2) ==> info.height == 32 * (f.1 + 1) - 2 * (f.5 + f.6)
        }),
{
    reveal(header_at);
    let b = payload_bits(nal);
    let (_profile, _level, cfi, sep, p1) = intro_at(b).unwrap();
    let p2 = frames_end(b, p1).unwrap();
    assert(size_at(b, p2, cfi, sep) is Some);
}

// ---------------------------------------------------------------------------------------------
// Readers.
// ---------------------------------------------------------------------------------------------

/// `r` reads as spec result `s`.
pub open spec fn nat_read(r: Option<(u64, usize)>, s: Option<(nat, int)>) -> bool {
    match r {
        None => s is None,
        Some((v, p)) => s == Some((v as nat, p as int)),
    }
}

/// `r` reads as spec result `s`.
pub open spec fn int_read(r: Option<(i64, usize)>, s: Option<(int, int)>) -> bool {
    match r {
        None => s is None,
        Some((v, p)) => s == Some((v as int, p as int)),
    }
}

/// `r` reads as spec result `s`.
pub open spec fn flag_read(r: Option<(bool, usize)>, s: Option<(bool, int)>) -> bool {
    match r {
        None => s is None,
        Some((v, p)) => s == Some((v, p as int)),
    }
}

/// `r` reads as spec result `s`.
pub open spec fn pos_read(r: Option<usize>, s: Option<int>) -> bool {
    match r {
        None => s is None,
        Some(p) => s == Some(p as int),
    }
}

proof fn lemma_zero_run_skip(b: Seq<bool>, pos: int, limit: nat, k: nat)
    requires
        k <= limit,
        pos >= 0,
        pos + k <= b.len(),
        forall|j: int| pos <= j < pos + k ==> !#[trigger] b[j],
    ensures
        zero_run(b, pos, limit) == (match zero_run(b, pos + k, (limit - k) as nat) {
            Some(m) => Some(m + k),
            None => None,
        }),
    decreases k,
{
    if k > 0 {
        assert(!b[pos]);
        lemma_zero_run_skip(b, pos + 1, (limit - 1) as nat, (k - 1) as nat);
        assert(pos + 1 + (k - 1) == pos + k);
    }
}

fn read_u(b: &Vec<bool>, pos: usize, n: usize) -> (r: Option<(u64, usize)>)
    requires
        n <= 32,
    ensures
        nat_read(r, u_at(b@, pos as int, n as nat)),
        r matches Some((v, p)) ==> v < pow2(n as nat) && p <= b@.len(),
{
    if pos > b.len() || n > b.len() - pos {
        return None;
    }
    let mut v: u64 = 0;
    let mut i: usize = 0;
    proof {
        lemma2_to64();
    }
    while i < n
        invariant
            i <= n <= 32,
            pos + n <= b.len(),
            v == bits_value(b@, pos as int, i as nat),
            v < pow2(i as nat),
            pow2(32) == 0x1_0000_0000,
        decreases n - i,
    {
        proof {
            lemma_pow2_unfold((i + 1) as nat);
            if i + 1 < 32 {
                lemma_pow2_strictly_increases((i + 1) as nat, 32);
            }
        }
        v = 2 * v + if b[pos + i] {
            1
        } else {
            0
        };
        i = i + 1;
    }
    Some((v, pos + n))
}

fn read_flag(b: &Vec<bool>, pos: usize) -> (r: Option<(bool, usize)>)
    ensures
        flag_read(r, flag_at(b@, pos as int)),
        r matches Some((_, p)) ==> p <= b@.len(),
{
    if pos < b.len() {
        Some((b[pos], pos + 1))
    } else {
        None
    }
}

fn read_ue(b: &Vec<bool>, pos: usize) -> (r: Option<(u64, usize)>)
    ensures
        nat_read(r, ue_at(b@, pos as int)),
        r matches Some((v, p)) ==> v < 0x1_0000_0000 && p <= b@.len(),
{
    if pos > b.len() {
        proof {
            assert(zero_run(b@, pos as int, 32) is None);
        }
        return None;
    }
    let mut k: usize = 0;
    let mut p2: u64 = 1;
    proof {
        lemma2_to64();
    }
    while k < 32 && k < b.len() - pos && !b[pos + k]
        invariant
            k <= 32,
            pos <= b@.len(),
            k <= b@.len() - pos,
            p2 == pow2(k as nat),
            pow2(31) == 0x8000_0000,
            forall|j: int| pos <= j < pos + k ==> !#[trigger] b@[j],
        decreases 32 - k,
    {
        proof {
            lemma_pow2_unfold((k + 1) as nat);
            if k + 1 < 31 {
                lemma_pow2_strictly_increases((k + 1) as nat, 31);
            }
        }
        k = k + 1;
        p2 = p2 * 2;
    }
    proof {
        lemma_zero_run_skip(b@, pos as int, 32, k as nat);
    }
    if k >= 32 || k >= b.len() - pos {
        return None;
    }
    proof {
        assert(zero_run(b@, pos + k, (32 - k) as nat) == Some(0nat));
        if k < 31 {
            lemma_pow2_strictly_increases(k as nat, 31);
        }
    }
    match read_u(b, pos + k + 1, k) {
        None => None,
        Some((v, end)) => Some((p2 - 1 + v, end)),
    }
}

fn read_se(b: &Vec<bool>, pos: usize) -> (r: Option<(i64, usize)>)
    ensures
        int_read(r, se_at(b@, pos as int)),
        r matches Some((_, p)) ==> p <= b@.len(),
{
    match read_ue(b, pos) {
        None => None,
        Some((k, end)) => {
            let v: i64 = if k % 2 == 1 {
                ((k + 1) / 2) as i64
            } else {
                -((k / 2) as i64)
            };
            Some((v, end))
        },
    }
}

fn skip_scaling_list(b: &Vec<bool>, pos: usize, size: usize) -> (r: Option<usize>)
    ensures
        pos_read(r, scaling_list_end(b@, pos as int, size as nat, 0, 8, 8)),
        r matches Some(p) ==> p <= b@.len() || p == pos,
{
    let mut p = pos;
    let mut j: usize = 0;
    let mut last: u32 = 8;
    let mut next: u32 = 8;
    while j < size && next != 0
        invariant
            j <= size,
            last < 256,
            next < 256,
            p <= b@.len() || (p == pos && j == 0),
            scaling_list_end(b@, p as int, size as nat, j as nat, last as int, next as int)
                == scaling_list_end(b@, pos as int, size as nat, 0, 8, 8),
        decreases size - j,
    {
        match read_se(b, p) {
            None => {
                return None;
            },
            Some((d, q)) => {
                if d < -128 || d > 127 {
                    return None;
                }
                let dd = (d + 128) as u32;
                let nx = (last + dd + 128) % 256;
                if nx != 0 {
                    last = nx;
                }
                next = nx;
                p = q;
                j = j + 1;
            },
        }
    }
    Some(p)
}

fn skip_scaling_matrix(b: &Vec<bool>, pos: usize, count: usize) -> (r: Option<usize>)
    requires
        pos <= b@.len(),
    ensures
        pos_read(r, scaling_matrix_end(b@, pos as int, 0, count as nat)),
        r matches Some(p) ==> p <= b@.len(),
{
    let mut p = pos;
    let mut i: usize = 0;
    while i < count
        invariant
            i <= count,
            p <= b@.len(),
            scaling_matrix_end(b@, p as int, i as nat, count as nat) == scaling_matrix_end(
                b@,
                pos as int,
                0,
                count as nat,
            ),
        decreases count - i,
    {
        match read_flag(b, p) {
            None => {
                return None;
            },
            Some((present, q)) => {
                if present {
                    let size: usize = if i < 6 {
                        16
                    } else {
                        64
                    };
                    match skip_scaling_list(b, q, size) {
                        None => {
                            return None;
                        },
                        Some(e) => {
                            p = e;
                        },
                    }
                } else {
                    p = q;
                }
            },
        }
        i = i + 1;
    }
    Some(p)
}

fn read_chroma_info(b: &Vec<bool>, pos: usize) -> (r: Option<(u64, bool, usize)>)
    ensures
        match r {
            None => chroma_info_at(b@, pos as int) is None,
            Some((cfi, sep, p)) => chroma_info_at(b@, pos as int) == Some(
                (cfi as nat, sep, p as int),
            ) && p <= b@.len(),
        },
{
    let (cfi, p1) = match read_ue(b, pos) {
        None => {
            return None;
        },
        Some(x) => x,
    };
    if cfi > 3 {
        return None;
    }
    let (sep, p2) = if cfi == 3 {
        match read_flag(b, p1) {
            None => {
                return None;
            },
            Some(x) => x,
        }
    } else {
        (false, p1)
    };
    let p3 = match read_ue(b, p2) {
        None => {
            return None;
        },
        Some((_, p)) => p,
    };
    let p4 = match read_ue(b, p3) {
        None => {
            return None;
        },
        Some((_, p)) => p,
    };
    let p5 = match read_flag(b, p4) {
        None => {
            return None;
        },
        Some((_, p)) => p,
    };
    let (matrix, p6) = match read_flag(b, p5) {
        None => {
            return None;
        },
        Some(x) => x,
    };
    if matrix {
        let count: usize = if cfi != 3 {
            8
        } else {
            12
        };
        match skip_scaling_matrix(b, p6, count) {
            None => None,
            Some(p7) => Some((cfi, sep, p7)),
        }
    } else {
        Some((cfi, sep, p6))
    }
}

fn read_intro(b: &Vec<bool>) -> (r: Option<(u64, u64, u64, bool, usize)>)
    ensures
        match r {
            None => intro_at(b@) is None,
            Some((profile, level, cfi, sep, p)) => intro_at(b@) == Some(
                (profile as nat, level as nat, cfi as nat, sep, p as int),
            ) && p <= b@.len() && profile < 256 && level < 256,
        },
{
    proof {
        lemma2_to64();
    }
    let (profile, p1) = match read_u(b, 0, 8) {
        None => {
            return None;
        },
        Some(x) => x,
    };
    let p2 = match read_u(b, p1, 8) {
        None => {
            return None;
        },
        Some((_, p)) => p,
    };
    let (level, p3) = match read_u(b, p2, 8) {
        None => {
            return None;
        },
        Some(x) => x,
    };
    let p4 = match read_ue(b, p3) {
        None => {
            return None;
        },
        Some((_, p)) => p,
    };
    if profile == 100 || profile == 110 || profile == 122 || profile == 244 || profile == 44
        || profile == 83 || profile == 86 || profile == 118 || profile == 128 || profile == 138
        || profile == 139 || profile == 134 || profile == 135 {
        match read_chroma_info(b, p4) {
            None => None,
            Some((cfi, sep, p5)) => Some((profile, level, cfi, sep, p5)),
        }
    } else {
        Some((profile, level, 1, false, p4))
    }
}

fn skip_se_run(b: &Vec<bool>, pos: usize, n: u64) -> (r: Option<usize>)
    requires
        pos <= b@.len(),
    ensures
        pos_read(r, se_run_end(b@, pos as int, n as nat)),
        r matches Some(p) ==> p <= b@.len(),
{
    let mut p = pos;
    let mut k: u64 = n;
    while k > 0
        invariant
            p <= b@.len(),
            se_run_end(b@, p as int, k as nat) == se_run_end(b@, pos as int, n as nat),
        decreases k,
    {
        match read_se(b, p) {
            None => {
                return None;
            },
            Some((_, q)) => {
                p = q;
            },
        }
        k = k - 1;
    }
    Some(p)
}

fn skip_poc(b: &Vec<bool>, pos: usize) -> (r: Option<usize>)
    requires
        pos <= b@.len(),
    ensures
        pos_read(r, poc_end(b@, pos as int)),
        r matches Some(p) ==> p <= b@.len(),
{
    let (t, p1) = match read_ue(b, pos) {
        None => {
            return None;
        },
        Some(x) => x,
    };
    if t == 0 {
        match read_ue(b, p1) {
            None => None,
            Some((_, p2)) => Some(p2),
        }
    } else if t == 1 {
        let p2 = match read_flag(b, p1) {
            None => {
                return None;
            },
            Some((_, p)) => p,
        };
        let p3 = match read_se(b, p2) {
            None => {
                return None;
            },
            Some((_, p)) => p,
        };
        let p4 = match read_se(b, p3) {
            None => {
                return None;
            },
            Some((_, p)) => p,
        };
        let (n, p5) = match read_ue(b, p4) {
            None => {
                return None;
            },
            Some(x) => x,
        };
        if n > 255 {
            None
        } else {
            skip_se_run(b, p5, n)
        }
    } else if t == 2 {
        Some(p1)
    } else {
        None
    }
}

fn skip_frames(b: &Vec<bool>, pos: usize) -> (r: Option<usize>)
    requires
        pos <= b@.len(),
    ensures
        pos_read(r, frames_end(b@, pos as int)),
        r matches Some(p) ==> p <= b@.len(),
{
    let p1 = match read_ue(b, pos) {
        None => {
            return None;
        },
        Some((_, p)) => p,
    };
    let p2 = match skip_poc(b, p1) {
        None => {
            return None;
        },
        Some(p) => p,
    };
    let p3 = match read_ue(b, p2) {
        None => {
            return None;
        },
        Some((_, p)) => p,
    };
    match read_flag(b, p3) {
        None => None,
        Some((_, p4)) => Some(p4),
    }
}

fn read_cropping(b: &Vec<bool>, pos: usize) -> (r: Option<(u64, u64, u64, u64, usize)>)
    ensures
        match r {
            None => cropping_at(b@, pos as int) is None,
            Some((l, rr, t, bo, p)) => cropping_at(b@, pos as int) == Some(
                (l as nat, rr as nat, t as nat, bo as nat, p as int),
            ) && p <= b@.len() && l < 0x1_0000_0000 && rr < 0x1_0000_0000 && t < 0x1_0000_0000
                && bo < 0x1_0000_0000,
        },
{
    let (crop, p1) = match read_flag(b, pos) {
        None => {
            return None;
        },
        Some(x) => x,
    };
    if !crop {
        return Some((0, 0, 0, 0, p1));
    }
    let (l, p2) = match read_ue(b, p1) {
        None => {
            return None;
        },
        Some(x) => x,
    };
    let (rr, p3) = match read_ue(b, p2) {
        None => {
            return None;
        },
        Some(x) => x,
    };
    let (t, p4) = match read_ue(b, p3) {
        None => {
            return None;
        },
        Some(x) => x,
    };
    match read_ue(b, p4) {
        None => None,
        Some((bo, p5)) => Some((l, rr, t, bo, p5)),
    }
}

fn crop_size(full: u64, unit: u64, a: u64, c: u64) -> (r: Option<u32>)
    requires
        unit <= 4,
        a < 0x1_0000_0000,
        c < 0x1_0000_0000,
    ensures
        match r {
            None => cropped(full as nat, unit as nat, a as nat, c as nat) is None,
            Some(v) => cropped(full as nat, unit as nat, a as nat, c as nat) == Some(v as nat),
        },
{
    let s = a + c;
    assert(unit * s <= 4 * 0x2_0000_0000) by (nonlinear_arith)
        requires
            unit <= 4,
            s < 0x2_0000_0000,
    ;
    let cut = unit * s;
    if cut < full && full - cut <= 0xFFFF_FFFF {
        Some((full - cut) as u32)
    } else {
        None
    }
}

fn read_size(b: &Vec<bool>, pos: usize, cfi: u64, sep: bool) -> (r: Option<(u32, u32, usize)>)
    requires
        pos <= b@.len(),
    ensures
        match r {
            None => size_at(b@, pos as int, cfi as nat, sep) is None,
            Some((w, h, p)) => size_at(b@, pos as int, cfi as nat, sep) == Some(
                (w as nat, h as nat, p as int),
            ) && p <= b@.len(),
        },
{
    let (wm1, p1) = match read_ue(b, pos) {
        None => {
            return None;
        },
        Some(x) => x,
    };
    let (hm1, p2) = match read_ue(b, p1) {
        None => {
            return None;
        },
        Some(x) => x,
    };
    let (fmo, p3) = match read_flag(b, p2) {
        None => {
            return None;
        },
        Some(x) => x,
    };
    let p4 = if fmo {
        p3
    } else {
        match read_flag(b, p3) {
            None => {
                return None;
            },
            Some((_, p)) => p,
        }
    };
    let p5 = match read_flag(b, p4) {
        None => {
            return None;
        },
        Some((_, p)) => p,
    };
    let (l, rr, t, bo, p6) = match read_cropping(b, p5) {
        None => {
            return None;
        },
        Some(x) => x,
    };
    let full_w = (wm1 + 1) * 16;
    let full_h = if fmo {
        (hm1 + 1) * 16
    } else {
        (hm1 + 1) * 32
    };
    let unit_x: u64 = if sep || cfi == 0 || cfi == 3 {
        1
    } else {
        2
    };
    let unit: u64 = if sep || cfi != 1 {
        1
    } else {
        2
    };
    let unit_y: u64 = if fmo {
        unit
    } else {
        2 * unit
    };
    match crop_size(full_w, unit_x, l, rr) {
        None => None,
        Some(w) => match crop_size(full_h, unit_y, t, bo) {
            None => None,
            Some(h) => Some((w, h, p6)),
        },
    }
}

fn read_header(b: &Vec<bool>) -> (r: Option<(u8, u8, u32, u32, usize)>)
    ensures
        match r {
            None => header_at(b@) is None,
            Some((profile, level, w, h, p)) => header_at(b@) == Some(
                (profile as nat, level as nat, w as nat, h as nat, p as int),
            ) && p <= b@.len(),
        },
{
    reveal(header_at);
    let (profile, level, cfi, sep, p1) = match read_intro(b) {
        None => {
            return None;
        },
        Some(x) => x,
    };
    let p2 = match skip_frames(b, p1) {
        None => {
            return None;
        },
        Some(p) => p,
    };
    match read_size(b, p2, cfi, sep) {
        None => None,
        Some((w, h, p3)) => Some((profile as u8, level as u8, w, h, p3)),
    }
}

fn skip_vui_lead(b: &Vec<bool>, pos: usize) -> (r: Option<usize>)
    ensures
        pos_read(r, vui_lead_end(b@, pos as int)),
        r matches Some(p) ==> p <= b@.len(),
{
    let (aspect, p1) = match read_flag(b, pos) {
        None => {
            return None;
        },
        Some(x) => x,
    };
    let p4 = if aspect {
        let (idc, p2) = match read_u(b, p1, 8) {
            None => {
                return None;
            },
            Some(x) => x,
        };
        if idc == 255 {
            match read_u(b, p2, 32) {
                None => {
                    return None;
                },
                Some((_, p3)) => p3,
            }
        } else {
            p2
        }
    } else {
        p1
    };
    let (overscan, p5) = match read_flag(b, p4) {
        None => {
            return None;
        },
        Some(x) => x,
    };
    if overscan {
        match read_flag(b, p5) {
            None => None,
            Some((_, p6)) => Some(p6),
        }
    } else {
        Some(p5)
    }
}

fn read_video_signal(b: &Vec<bool>, pos: usize) -> (r: Option<(Option<bool>, Option<u8>, usize)>)
    ensures
        match r {
            None => video_signal_at(b@, pos as int) is None,
            Some((full, matrix, p)) => match video_signal_at(b@, pos as int) {
                None => false,
                Some((f, m, e)) => f == full && e == p as int && p <= b@.len() && match m {
                    None => matrix is None,
                    Some(mv) => matrix == Some(mv as u8) && mv < 256,
                },
            },
        },
{
    proof {
        lemma2_to64();
    }
    let (present, p1) = match read_flag(b, pos) {
        None => {
            return None;
        },
        Some(x) => x,
    };
    if !present {
        return Some((None, None, p1));
    }
    let p2 = match read_u(b, p1, 3) {
        None => {
            return None;
        },
        Some((_, p)) => p,
    };
    let (full, p3) = match read_flag(b, p2) {
        None => {
            return None;
        },
        Some(x) => x,
    };
    let (described, p4) = match read_flag(b, p3) {
        None => {
            return None;
        },
        Some(x) => x,
    };
    if !described {
        return Some((Some(full), None, p4));
    }
    let p5 = match read_u(b, p4, 8) {
        None => {
            return None;
        },
        Some((_, p)) => p,
    };
    let p6 = match read_u(b, p5, 8) {
        None => {
            return None;
        },
        Some((_, p)) => p,
    };
    match read_u(b, p6, 8) {
        None => None,
        Some((m, p7)) => Some((Some(full), Some(m as u8), p7)),
    }
}

fn info_from_bits(b: &Vec<bool>) -> (r: Result<SpsInfo, SpsError>)
    ensures
        r == info_of(b@),
{
    let (profile, level, w, h, vp) = match read_header(b) {
        None => {
            return Err(SpsError::Malformed);
        },
        Some(x) => x,
    };
    let (vui, p) = match read_flag(b, vp) {
        None => {
            return Err(SpsError::Malformed);
        },
        Some(x) => x,
    };
    if !vui {
        return Ok(
            SpsInfo {
                profile_idc: profile,
                level_idc: level,
                width: w,
                height: h,
                full_range: None,
                matrix_coefficients: None,
            },
        );
    }
    let q = match skip_vui_lead(b, p) {
        None => {
            return Err(SpsError::Malformed);
        },
        Some(q) => q,
    };
    match read_video_signal(b, q) {
        None => Err(SpsError::Malformed),
        Some((full, matrix, _)) => Ok(
            SpsInfo {
                profile_idc: profile,
                level_idc: level,
                width: w,
                height: h,
                full_range: full,
                matrix_coefficients: matrix,
            },
        ),
    }
}

/// The bits of the payload of `nal` (header byte excluded).
fn payload_of(nal: &[u8]) -> (r: Vec<bool>)
    requires
        nal@.len() >= 1,
        nal@.len() * 8 <= usize::MAX,
    ensures
        r@ == payload_bits(nal@),
{
    let mut rbsp: Vec<u8> = Vec::new();
    unescape_onto(&mut rbsp, nal, 1);
    proof {
        assert(rbsp@ =~= unescape(nal@.skip(1)));
        lemma_unescape_len(nal@.skip(1));
    }
    unpack(rbsp.as_slice())
}

/// Parses the fields in [`SpsInfo`] from an SPS NAL unit (header byte included).
pub fn parse(sps: &[u8]) -> (r: Result<SpsInfo, SpsError>)
    requires
        sps@.len() * 8 <= usize::MAX,
    ensures
        r == spec_parse(sps@),
{
    if sps.len() == 0 || (sps[0] & 0x1F) != 7 {
        return Err(SpsError::NotSps);
    }
    let bits = payload_of(sps);
    info_from_bits(&bits)
}

fn last_one_bit(b: &Vec<bool>) -> (r: Option<usize>)
    ensures
        match r {
            None => last_one(b@) == -1,
            Some(i) => last_one(b@) == i as int && i < b@.len(),
        },
{
    let mut i = b.len();
    assert(b@.take(i as int) =~= b@);
    while i > 0 && !b[i - 1]
        invariant
            i <= b@.len(),
            last_one(b@) == last_one(b@.take(i as int)),
        decreases i,
    {
        assert(b@.take(i as int).drop_last() =~= b@.take(i - 1));
        i = i - 1;
    }
    if i == 0 {
        assert(b@.take(0) =~= Seq::<bool>::empty());
        None
    } else {
        Some(i - 1)
    }
}

fn push_range(out: &mut Vec<bool>, b: &Vec<bool>, from: usize, to: usize)
    requires
        from <= to <= b@.len(),
    ensures
        final(out)@ == old(out)@ + b@.subrange(from as int, to as int),
{
    let mut i = from;
    while i < to
        invariant
            from <= i <= to <= b@.len(),
            out@ == old(out)@ + b@.subrange(from as int, i as int),
        decreases to - i,
    {
        out.push(b[i]);
        assert(b@.subrange(from as int, i + 1) =~= b@.subrange(from as int, i as int).push(b@[i as int]));
        i = i + 1;
    }
}

fn push_byte_one(out: &mut Vec<bool>)
    ensures
        final(out)@ == old(out)@ + byte_one(),
{
    let mut k: usize = 0;
    while k < 7
        invariant
            k <= 7,
            out@ == old(out)@ + Seq::new(k as nat, |i: int| false),
        decreases 7 - k,
    {
        out.push(false);
        assert(Seq::new((k + 1) as nat, |i: int| false) =~= Seq::new(k as nat, |i: int| false).push(false));
        k = k + 1;
    }
    out.push(true);
    assert(Seq::new(7, |i: int| false).push(true) =~= byte_one());
}

fn push_bt709_full_range(out: &mut Vec<bool>)
    ensures
        final(out)@ == old(out)@ + bt709_full_range_bits(),
{
    let ghost start = out@;
    out.push(true);
    out.push(true);
    out.push(false);
    out.push(true);
    out.push(true);
    out.push(true);
    assert(out@ =~= start + seq![true, true, false, true, true, true]);
    push_byte_one(out);
    push_byte_one(out);
    push_byte_one(out);
    assert(out@ =~= start + bt709_full_range_bits());
}

fn push_trailing(out: &mut Vec<bool>)
    ensures
        final(out)@ == with_trailing(old(out)@),
        final(out)@.len() % 8 == 0,
{
    let ghost body = old(out)@;
    out.push(true);
    let m = out.len();
    let pad = (8 - m % 8) % 8;
    let mut k: usize = 0;
    while k < pad
        invariant
            k <= pad,
            pad == (8 - m % 8) % 8,
            m == body.len() + 1,
            out@ == body.push(true) + Seq::new(k as nat, |i: int| false),
        decreases pad - k,
    {
        out.push(false);
        assert(Seq::new((k + 1) as nat, |i: int| false) =~= Seq::new(k as nat, |i: int| false).push(false));
        k = k + 1;
    }
    assert(out@.len() == m + pad);
    assert((m + (8 - m % 8) % 8) % 8 == 0);
}

/// Appends `kept_tail(b, from)`; `stop` is where `last_one_bit` found the stop bit.
fn push_tail(out: &mut Vec<bool>, b: &Vec<bool>, from: usize, stop: Option<usize>)
    requires
        from <= b@.len(),
        match stop {
            None => last_one(b@) == -1,
            Some(i) => last_one(b@) == i as int && i < b@.len(),
        },
    ensures
        final(out)@ == old(out)@ + kept_tail(b@, from as int),
{
    match stop {
        Some(s) => {
            if s >= from {
                push_range(out, b, from, s);
            } else {
                assert(old(out)@ + Seq::<bool>::empty() =~= old(out)@);
            }
        },
        None => {
            assert(old(out)@ + Seq::<bool>::empty() =~= old(out)@);
        },
    }
}

fn rewrite_from(b: &Vec<bool>, vp: usize) -> (r: Option<Vec<bool>>)
    requires
        vp <= b@.len(),
    ensures
        match r {
            None => rewritten_from(b@, vp as int) is None,
            Some(v) => rewritten_from(b@, vp as int) == Some(v@) && v@.len() % 8 == 0,
        },
{
    let (vui, p) = match read_flag(b, vp) {
        None => {
            return None;
        },
        Some(x) => x,
    };
    let stop = last_one_bit(b);
    let mut out: Vec<bool> = Vec::new();
    if !vui {
        push_range(&mut out, b, 0, vp);
        out.push(true);
        out.push(false);
        out.push(false);
        push_bt709_full_range(&mut out);
        let mut k: usize = 0;
        while k < 6
            invariant
                k <= 6,
                out@ == b@.subrange(0, vp as int) + seq![true] + seq![false, false]
                    + bt709_full_range_bits() + Seq::new(k as nat, |i: int| false),
            decreases 6 - k,
        {
            out.push(false);
            assert(Seq::new((k + 1) as nat, |i: int| false) =~= Seq::new(k as nat, |i: int| false).push(false));
            k = k + 1;
        }
        assert(out@ =~= b@.take(vp as int) + seq![true] + bare_vui_bits());
        push_tail(&mut out, b, p, stop);
        push_trailing(&mut out);
    } else {
        let q = match skip_vui_lead(b, p) {
            None => {
                return None;
            },
            Some(q) => q,
        };
        let e = match read_video_signal(b, q) {
            None => {
                return None;
            },
            Some((_, _, e)) => e,
        };
        push_range(&mut out, b, 0, q);
        push_bt709_full_range(&mut out);
        push_tail(&mut out, b, e, stop);
        assert(b@.subrange(0, q as int) =~= b@.take(q as int));
        push_trailing(&mut out);
    }
    Some(out)
}

fn rewrite_payload(b: &Vec<bool>) -> (r: Option<Vec<bool>>)
    ensures
        match r {
            None => rewritten_bits(b@) is None,
            Some(v) => rewritten_bits(b@) == Some(v@) && v@.len() % 8 == 0,
        },
{
    match read_header(b) {
        None => None,
        Some((_, _, _, _, vp)) => rewrite_from(b, vp),
    }
}

/// Returns the SPS with its VUI signalling BT.709 full range (`video_format` unspecified,
/// `video_full_range_flag = 1`, colour primaries / transfer / matrix = 1).
pub fn with_bt709_full_range(sps: &[u8]) -> (r: Result<Vec<u8>, SpsError>)
    requires
        sps@.len() * 8 <= usize::MAX,
    ensures
        match r {
            Ok(v) => spec_rewrite(sps@) == Ok::<Seq<u8>, SpsError>(v@),
            Err(e) => spec_rewrite(sps@) == Err::<Seq<u8>, SpsError>(e),
        },
{
    if sps.len() == 0 || (sps[0] & 0x1F) != 7 {
        return Err(SpsError::NotSps);
    }
    let bits = payload_of(sps);
    match rewrite_payload(&bits) {
        None => Err(SpsError::Malformed),
        Some(nb) => {
            let bytes = pack_bits(nb.as_slice());
            let mut out: Vec<u8> = Vec::new();
            out.push(sps[0]);
            escape_onto(&mut out, bytes.as_slice());
            Ok(out)
        },
    }
}

} // verus!
