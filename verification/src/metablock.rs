//! `RFX_AVC420_BITMAP_STREAM` parsing (MS-RDPEGFX 2.2.4.4).
//!
//! ```text
//! RFX_AVC420_METABLOCK
//!   u32 numRegionRects
//!   RDPGFX_RECT16 regionRects[numRegionRects]        (left, top, right, bottom: u16 LE; right/bottom exclusive)
//!   RDPGFX_H264_QUANT_QUALITY quantQualityVals[...]  (qpVal: u8 = qp:6 | r:1 | p:1, qualityVal: u8)
//! avc420EncodedBitstream                             (the rest: an Annex-B access unit)
//! ```
use vstd::prelude::*;

use crate::geometry::Rect;

verus! {

/// Quantisation and quality of one region (`RDPGFX_H264_QUANT_QUALITY`).
#[derive(Debug, Clone, Copy, PartialEq, Eq)]
pub struct QuantQuality {
    /// Quantisation parameter (0..=63).
    pub qp: u8,
    /// Progressive-encoding flag (`p` bit).
    pub progressive: bool,
    /// Quality level (0..=100).
    pub quality: u8,
}

/// A parsed `RFX_AVC420_METABLOCK`.
#[derive(Debug, Clone, PartialEq, Eq, Default)]
pub struct Avc420Metablock {
    /// Changed regions of the picture (exclusive right/bottom converted to width/height).
    pub regions: Vec<Rect>,
    /// Per-region quantisation/quality values, same length as `regions`.
    pub quant_quality: Vec<QuantQuality>,
}

/// Errors from [`parse_avc420_bitmap_stream`].
#[derive(Debug, Clone, PartialEq, Eq)]
pub enum MetablockError {
    /// The buffer ends inside the metablock.
    Truncated {
        /// Bytes required by the declared region count.
        needed: usize,
        /// Bytes available.
        available: usize,
    },
    /// A rectangle has `right < left` or `bottom < top`.
    InvertedRect {
        /// Index of the bad rectangle.
        index: usize,
    },
}

/// Little-endian `u16` at `off`.
pub open spec fn le16(s: Seq<u8>, off: int) -> nat {
    s[off] as nat + 256 * s[off + 1] as nat
}

/// Little-endian `u32` at `off`.
pub open spec fn le32(s: Seq<u8>, off: int) -> nat {
    le16(s, off) + 65536 * le16(s, off + 2)
}

/// Bytes the metablock of `s` needs: the count, ten bytes per region.
pub open spec fn metablock_len(s: Seq<u8>) -> int {
    4 + 10 * le32(s, 0) as int
}

/// Whether region `i` has `right >= left` and `bottom >= top`.
pub open spec fn region_upright(s: Seq<u8>, i: int) -> bool {
    le16(s, 4 + 8 * i + 4) >= le16(s, 4 + 8 * i) && le16(s, 4 + 8 * i + 6) >= le16(s, 4 + 8 * i + 2)
}

/// Region `i` of the metablock.
pub open spec fn region_at(s: Seq<u8>, i: int) -> Rect {
    let l = le16(s, 4 + 8 * i);
    let t = le16(s, 4 + 8 * i + 2);
    let r = le16(s, 4 + 8 * i + 4);
    let b = le16(s, 4 + 8 * i + 6);
    Rect { x: l as u32, y: t as u32, width: (r - l) as u32, height: (b - t) as u32 }
}

/// An upright region's rectangle starts at its left/top edge and ends at its exclusive
/// right/bottom edge: `x + width == right` and `y + height == bottom`.
pub proof fn lemma_region_spans_its_edges(s: Seq<u8>, i: int)
    requires
        0 <= i,
        4 + 8 * i + 8 <= s.len(),
        region_upright(s, i),
    ensures
        region_at(s, i).x == le16(s, 4 + 8 * i),
        region_at(s, i).y == le16(s, 4 + 8 * i + 2),
        region_at(s, i).x + region_at(s, i).width == le16(s, 4 + 8 * i + 4),
        region_at(s, i).y + region_at(s, i).height == le16(s, 4 + 8 * i + 6),
{
    assert(le16(s, 4 + 8 * i + 4) <= u16::MAX) by {
        assert(s[4 + 8 * i + 4] <= 255 && s[4 + 8 * i + 5] <= 255);
    }
    assert(le16(s, 4 + 8 * i + 6) <= u16::MAX) by {
        assert(s[4 + 8 * i + 6] <= 255 && s[4 + 8 * i + 7] <= 255);
    }
    assert(le16(s, 4 + 8 * i) <= u16::MAX) by {
        assert(s[4 + 8 * i] <= 255 && s[4 + 8 * i + 1] <= 255);
    }
    assert(le16(s, 4 + 8 * i + 2) <= u16::MAX) by {
        assert(s[4 + 8 * i + 2] <= 255 && s[4 + 8 * i + 3] <= 255);
    }
}

/// Quantisation/quality value `i` of a metablock with `count` regions.
pub open spec fn quant_at(s: Seq<u8>, count: int, i: int) -> QuantQuality {
    let qp_val = s[4 + 8 * count + 2 * i];
    QuantQuality { qp: qp_val & 0x3F, progressive: qp_val & 0x80 != 0, quality: s[4 + 8 * count + 2 * i + 1] }
}

fn read_le16(s: &[u8], off: usize) -> (r: u32)
    requires
        off + 2 <= s@.len(),
    ensures
        r == le16(s@, off as int),
{
    s[off] as u32 + 256 * (s[off + 1] as u32)
}

/// Parses an `RFX_AVC420_BITMAP_STREAM` into its metablock and the H.264 bitstream that follows.
pub fn parse_avc420_bitmap_stream(data: &[u8]) -> (r: Result<(Avc420Metablock, &[u8]), MetablockError>)
    ensures
        data@.len() < 4 ==> r == Err::<(Avc420Metablock, &[u8]), MetablockError>(
            MetablockError::Truncated { needed: 4, available: data@.len() as usize },
        ),
        data@.len() >= 4 && metablock_len(data@) > usize::MAX ==> r == Err::<(Avc420Metablock, &[u8]), MetablockError>(
            MetablockError::Truncated { needed: usize::MAX, available: data@.len() as usize },
        ),
        data@.len() >= 4 && metablock_len(data@) <= usize::MAX && data@.len() < metablock_len(data@)
            ==> r == Err::<(Avc420Metablock, &[u8]), MetablockError>(
            MetablockError::Truncated { needed: metablock_len(data@) as usize, available: data@.len() as usize },
        ),
        data@.len() >= 4 && metablock_len(data@) <= data@.len() ==> {
            let count = le32(data@, 0) as int;
            match r {
                Ok((meta, rest)) => {
                    &&& forall|i: int| 0 <= i < count ==> #[trigger] region_upright(data@, i)
                    &&& meta.regions@.len() == count
                    &&& meta.quant_quality@.len() == count
                    &&& forall|i: int| 0 <= i < count ==> #[trigger] meta.regions@[i] == region_at(data@, i)
                    &&& forall|i: int|
                        0 <= i < count ==> {
                            let rect = #[trigger] meta.regions@[i];
                            &&& rect.x == le16(data@, 4 + 8 * i)
                            &&& rect.y == le16(data@, 4 + 8 * i + 2)
                            &&& rect.x + rect.width == le16(data@, 4 + 8 * i + 4)
                            &&& rect.y + rect.height == le16(data@, 4 + 8 * i + 6)
                        }
                    &&& forall|i: int| 0 <= i < count ==> #[trigger] meta.quant_quality@[i] == quant_at(data@, count, i)
                    &&& rest@ == data@.subrange(metablock_len(data@), data@.len() as int)
                },
                Err(e) => e matches MetablockError::InvertedRect { index } && index < count
                    && !region_upright(data@, index as int)
                    && forall|i: int| 0 <= i < index ==> #[trigger] region_upright(data@, i),
            }
        },
{
    let len = data.len();
    if len < 4 {
        return Err(MetablockError::Truncated { needed: 4, available: len });
    }
    let count64: u64 = read_le16(data, 0) as u64 + 65536 * (read_le16(data, 2) as u64);
    let needed64: u64 = 4 + 10 * count64;
    proof {
        assert(le32(data@, 0) == count64);
    }
    if needed64 > usize::MAX as u64 {
        return Err(MetablockError::Truncated { needed: usize::MAX, available: len });
    }
    let needed = needed64 as usize;
    if len < needed {
        return Err(MetablockError::Truncated { needed, available: len });
    }
    let count = count64 as usize;
    let mut regions: Vec<Rect> = Vec::new();
    let mut i: usize = 0;
    while i < count
        invariant
            len == data@.len(),
            count == le32(data@, 0),
            4 + 10 * count <= len,
            i <= count,
            regions@.len() == i,
            forall|k: int| 0 <= k < i ==> #[trigger] region_upright(data@, k),
            forall|k: int| 0 <= k < i ==> #[trigger] regions@[k] == region_at(data@, k),
        decreases count - i,
    {
        let off = 4 + 8 * i;
        let left = read_le16(data, off);
        let top = read_le16(data, off + 2);
        let right = read_le16(data, off + 4);
        let bottom = read_le16(data, off + 6);
        match Rect::from_ltrb(left, top, right, bottom) {
            Some(rect) => regions.push(rect),
            None => return Err(MetablockError::InvertedRect { index: i }),
        }
        i = i + 1;
    }
    proof {
        assert forall|k: int| 0 <= k < count implies {
            let rect = #[trigger] regions@[k];
            &&& rect.x == le16(data@, 4 + 8 * k)
            &&& rect.y == le16(data@, 4 + 8 * k + 2)
            &&& rect.x + rect.width == le16(data@, 4 + 8 * k + 4)
            &&& rect.y + rect.height == le16(data@, 4 + 8 * k + 6)
        } by {
            lemma_region_spans_its_edges(data@, k);
        }
    }
    let quant_start = 4 + 8 * count;
    let mut quant_quality: Vec<QuantQuality> = Vec::new();
    let mut i: usize = 0;
    while i < count
        invariant
            len == data@.len(),
            count == le32(data@, 0),
            quant_start == 4 + 8 * count,
            4 + 10 * count <= len,
            i <= count,
            quant_quality@.len() == i,
            forall|k: int| 0 <= k < i ==> #[trigger] quant_quality@[k] == quant_at(data@, count as int, k),
        decreases count - i,
    {
        let off = quant_start + 2 * i;
        let qp_val = data[off];
        quant_quality.push(QuantQuality { qp: qp_val & 0x3F, progressive: qp_val & 0x80 != 0, quality: data[off + 1] });
        i = i + 1;
    }
    let rest = vstd::slice::slice_subrange(data, needed, len);
    Ok((Avc420Metablock { regions, quant_quality }, rest))
}

} // verus!
