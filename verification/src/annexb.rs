//! H.264 byte-stream handling: Annex-B start codes, NAL units, AVCC length prefixes.
use vstd::prelude::*;

verus! {

/// `true` when a three-byte start code `00 00 01` begins at `j`.
pub open spec fn is_start_code(s: Seq<u8>, j: int) -> bool {
    0 <= j && j + 3 <= s.len() && s[j] == 0 && s[j + 1] == 0 && s[j + 2] == 1
}

/// The position of the first start code at or after `from`, or `s.len()` if there is none.
pub open spec fn first_start_code(s: Seq<u8>, from: int) -> int
    decreases s.len() - from,
{
    if from < 0 || from + 3 > s.len() {
        s.len() as int
    } else if is_start_code(s, from) {
        from
    } else {
        first_start_code(s, from + 1)
    }
}

/// `t` without its trailing zero bytes.
pub open spec fn strip_trailing_zeros(t: Seq<u8>) -> Seq<u8>
    decreases t.len(),
{
    if t.len() > 0 && t.last() == 0 {
        strip_trailing_zeros(t.drop_last())
    } else {
        t
    }
}

/// The NAL units of `s` whose payload starts at `pos` (just after a start code).
pub open spec fn nals_from(s: Seq<u8>, pos: int) -> Seq<Seq<u8>>
    decreases s.len() - pos,
{
    if pos < 0 || pos > s.len() {
        seq![]
    } else {
        let j = first_start_code(s, pos);
        proof {
            lemma_first_start_code_bounds(s, pos);
        }
        let nal = strip_trailing_zeros(s.subrange(pos, j));
        let head: Seq<Seq<u8>> = if nal.len() > 0 { seq![nal] } else { seq![] };
        if j < s.len() {
            head + nals_from(s, j + 3)
        } else {
            head
        }
    }
}

/// The NAL units of an Annex-B byte stream: everything before the first start code is ignored,
/// each unit runs up to the next start code (or the end), trailing zero bytes are stripped and
/// empty units are skipped.
pub open spec fn spec_split_nals(s: Seq<u8>) -> Seq<Seq<u8>> {
    let j = first_start_code(s, 0);
    if j < s.len() {
        nals_from(s, j + 3)
    } else {
        seq![]
    }
}

/// The views of a list of byte slices.
pub open spec fn slices_view(v: Seq<&[u8]>) -> Seq<Seq<u8>> {
    v.map_values(|x: &[u8]| x@)
}

pub proof fn lemma_first_start_code_bounds(s: Seq<u8>, from: int)
    requires
        0 <= from <= s.len(),
    ensures
        from <= first_start_code(s, from) <= s.len(),
        first_start_code(s, from) < s.len() ==> is_start_code(s, first_start_code(s, from)),
    decreases s.len() - from,
{
    if from + 3 <= s.len() && !is_start_code(s, from) {
        lemma_first_start_code_bounds(s, from + 1);
    }
}

proof fn lemma_strip_step(s: Seq<u8>, pos: int, end: int)
    requires
        0 <= pos < end <= s.len(),
        s[end - 1] == 0,
    ensures
        strip_trailing_zeros(s.subrange(pos, end)) == strip_trailing_zeros(s.subrange(pos, end - 1)),
{
    assert(s.subrange(pos, end).drop_last() =~= s.subrange(pos, end - 1));
}

/// Splits an Annex-B byte stream into NAL unit payloads (without start codes).
///
/// Accepts 3-byte (`00 00 01`) and 4-byte (`00 00 00 01`) start codes, ignores leading zero
/// bytes before the first start code and strips `trailing_zero_8bits` from each NAL unit.
/// Bytes before the first start code that are not zero are ignored. Empty NAL units are skipped.
pub fn split_nals(data: &[u8]) -> (r: Vec<&[u8]>)
    ensures
        slices_view(r@) == spec_split_nals(data@),
{
    let n = data.len();
    let mut out: Vec<&[u8]> = Vec::new();
    // find the first start code
    let mut j: usize = 0;
    while 3 <= n - j && !(data[j] == 0 && data[j + 1] == 0 && data[j + 2] == 1)
        invariant
            n == data@.len(),
            j <= n,
            first_start_code(data@, j as int) == first_start_code(data@, 0),
        decreases n - j,
    {
        j = j + 1;
    }
    if n - j < 3 {
        proof {
            assert(first_start_code(data@, j as int) == data@.len());
            assert(slices_view(out@) =~= seq![]);
        }
        return out;
    }
    let mut pos: usize = j + 3;
    proof {
        assert(slices_view(out@) + nals_from(data@, pos as int) =~= spec_split_nals(data@));
    }
    loop
        invariant
            n == data@.len(),
            pos <= n,
            slices_view(out@) + nals_from(data@, pos as int) == spec_split_nals(data@),
        decreases n - pos,
    {
        let ghost old_out = out@;
        // search the next start code
        let mut k: usize = pos;
        while 3 <= n - k && !(data[k] == 0 && data[k + 1] == 0 && data[k + 2] == 1)
            invariant
                n == data@.len(),
                pos <= k <= n,
                first_start_code(data@, k as int) == first_start_code(data@, pos as int),
            decreases n - k,
        {
            k = k + 1;
        }
        let found = 3 <= n - k;
        let stop: usize = if found { k } else { n };
        proof {
            if !found {
                assert(first_start_code(data@, k as int) == data@.len());
            }
            assert(first_start_code(data@, pos as int) == stop);
        }
        // strip trailing zero bytes
        let mut end: usize = stop;
        while end > pos && data[end - 1] == 0
            invariant
                n == data@.len(),
                pos <= end <= stop <= n,
                strip_trailing_zeros(data@.subrange(pos as int, end as int))
                    == strip_trailing_zeros(data@.subrange(pos as int, stop as int)),
            decreases end,
        {
            proof {
                lemma_strip_step(data@, pos as int, end as int);
            }
            end = end - 1;
        }
        proof {
            let t = data@.subrange(pos as int, end as int);
            assert(end > pos ==> t.last() == data@[end - 1]);
            assert(strip_trailing_zeros(t) == t);
        }
        if end > pos {
            let nal = vstd::slice::slice_subrange(data, pos, end);
            out.push(nal);
        }
        proof {
            assert(slices_view(out@) =~= slices_view(old_out) + (if end > pos {
                seq![data@.subrange(pos as int, end as int)]
            } else {
                seq![]
            }));
        }
        if !found {
            proof {
                assert(slices_view(out@) =~= spec_split_nals(data@));
            }
            return out;
        }
        proof {
            assert(slices_view(out@) + nals_from(data@, k + 3) =~= spec_split_nals(data@));
        }
        pos = k + 3;
    }
}

/// The `nal_unit_type` of a NAL header byte: its low five bits.
pub open spec fn spec_nal_type(header: u8) -> u8 {
    header & 0x1F
}

/// Returns the `nal_unit_type` of a NAL unit (low 5 bits of the header byte).
pub fn nal_unit_type(nal: &[u8]) -> (r: Option<u8>)
    ensures
        nal@.len() == 0 ==> r is None,
        nal@.len() > 0 ==> r == Some(spec_nal_type(nal@[0])),
{
    if nal.len() == 0 {
        None
    } else {
        Some(nal[0] & 0x1F)
    }
}


/// Errors from byte-stream conversion.
#[derive(Debug, Clone, PartialEq, Eq)]
pub enum AnnexBError {
    /// The input contains no NAL unit at all.
    Empty,
    /// An AVCC length prefix points past the end of the buffer (`len` is 0 when the prefix
    /// itself is cut short).
    Truncated {
        /// Offset of the length prefix.
        offset: usize,
        /// Declared NAL length.
        len: usize,
    },
    /// A NAL unit is too large for a 32-bit length prefix.
    TooLarge,
}

/// The type of a NAL unit (low five bits of its header byte).
pub open spec fn type_of(n: Seq<u8>) -> u8 {
    spec_nal_type(n[0])
}

/// Whether a NAL unit goes into the AVCC sample (everything but SPS, PPS and AUD).
pub open spec fn is_picture_nal(n: Seq<u8>) -> bool {
    type_of(n) != 7 && type_of(n) != 8 && type_of(n) != 9
}

/// Big-endian value of a byte string.
pub open spec fn be_value(b: Seq<u8>) -> nat
    decreases b.len(),
{
    if b.len() == 0 {
        0
    } else {
        be_value(b.drop_last()) * 256 + b.last() as nat
    }
}

/// The four big-endian bytes of `v`.
pub open spec fn be32(v: u32) -> Seq<u8> {
    seq![(v >> 24u32) as u8, (v >> 16u32) as u8, (v >> 8u32) as u8, v as u8]
}

/// The SPS units of a NAL list, in order.
pub open spec fn sps_units(nals: Seq<Seq<u8>>) -> Seq<Seq<u8>>
    decreases nals.len(),
{
    if nals.len() == 0 {
        seq![]
    } else if type_of(nals.last()) == 7 {
        sps_units(nals.drop_last()).push(nals.last())
    } else {
        sps_units(nals.drop_last())
    }
}

/// The PPS units of a NAL list, in order.
pub open spec fn pps_units(nals: Seq<Seq<u8>>) -> Seq<Seq<u8>>
    decreases nals.len(),
{
    if nals.len() == 0 {
        seq![]
    } else if type_of(nals.last()) == 8 {
        pps_units(nals.drop_last()).push(nals.last())
    } else {
        pps_units(nals.drop_last())
    }
}

/// The picture units of a NAL list (no SPS, PPS or AUD), in order.
pub open spec fn picture_units(nals: Seq<Seq<u8>>) -> Seq<Seq<u8>>
    decreases nals.len(),
{
    if nals.len() == 0 {
        seq![]
    } else if is_picture_nal(nals.last()) {
        picture_units(nals.drop_last()).push(nals.last())
    } else {
        picture_units(nals.drop_last())
    }
}

/// An AVCC sample: each unit preceded by its length as four big-endian bytes.
pub open spec fn avcc_encode(nals: Seq<Seq<u8>>) -> Seq<u8>
    decreases nals.len(),
{
    if nals.len() == 0 {
        seq![]
    } else {
        avcc_encode(nals.drop_last()) + be32(nals.last().len() as u32) + nals.last()
    }
}

/// An Annex-B stream: each unit preceded by a four-byte start code.
pub open spec fn annex_b_encode(nals: Seq<Seq<u8>>) -> Seq<u8>
    decreases nals.len(),
{
    if nals.len() == 0 {
        seq![]
    } else {
        annex_b_encode(nals.drop_last()) + seq![0u8, 0u8, 0u8, 1u8] + nals.last()
    }
}

/// Whether some unit of the list is an IDR slice.
pub open spec fn has_idr(nals: Seq<Seq<u8>>) -> bool {
    exists|i: int| 0 <= i < nals.len() && type_of(#[trigger] nals[i]) == 5
}

/// Whether some picture unit is too long for a 32-bit length prefix.
pub open spec fn has_oversized_picture(nals: Seq<Seq<u8>>) -> bool {
    exists|i: int| 0 <= i < nals.len() && is_picture_nal(#[trigger] nals[i]) && nals[i].len() > u32::MAX
}

/// Parses the AVCC units of `s` from offset `off` on: `Err((offset, len))` names the first
/// length prefix that runs past the end (`len` 0 when the prefix itself is cut short).
pub open spec fn avcc_parse(s: Seq<u8>, size: int, off: int) -> Result<Seq<Seq<u8>>, (int, int)>
    decreases s.len() - off,
{
    if off < 0 || off >= s.len() || size <= 0 {
        Ok(seq![])
    } else if off + size > s.len() {
        Err((off, 0))
    } else {
        let n = be_value(s.subrange(off, off + size)) as int;
        if off + size + n > s.len() {
            Err((off, n))
        } else {
            match avcc_parse(s, size, off + size + n) {
                Ok(rest) => Ok(seq![s.subrange(off + size, off + size + n)] + rest),
                Err(e) => Err(e),
            }
        }
    }
}

/// `acc` followed by a parse result.
pub open spec fn prepend_ok(acc: Seq<Seq<u8>>, r: Result<Seq<Seq<u8>>, (int, int)>) -> Result<Seq<Seq<u8>>, (int, int)> {
    match r {
        Ok(x) => Ok(acc + x),
        Err(e) => Err(e),
    }
}

/// The error an AVCC parse failure is reported as.
pub open spec fn truncated(e: (int, int)) -> AnnexBError {
    AnnexBError::Truncated { offset: e.0 as usize, len: e.1 as usize }
}

proof fn lemma_be_step(b: Seq<u8>, k: int)
    requires
        0 <= k < b.len(),
    ensures
        be_value(b.subrange(0, k + 1)) == be_value(b.subrange(0, k)) * 256 + b[k],
{
    assert(b.subrange(0, k + 1).drop_last() =~= b.subrange(0, k));
}

proof fn lemma_be_bound(b: Seq<u8>)
    ensures
        be_value(b) < pow256(b.len()),
    decreases b.len(),
{
    if b.len() > 0 {
        lemma_be_bound(b.drop_last());
        let p = pow256((b.len() - 1) as nat);
        let v = be_value(b.drop_last());
        assert(v * 256 + b.last() < p * 256) by (nonlinear_arith)
            requires
                v < p,
                b.last() < 256,
        ;
    }
}

/// `256^k`.
pub open spec fn pow256(k: nat) -> nat
    decreases k,
{
    if k == 0 {
        1
    } else {
        pow256((k - 1) as nat) * 256
    }
}

proof fn lemma_be32(v: u32)
    ensures
        be_value(be32(v)) == v,
{
    let s = be32(v);
    let b0 = (v >> 24u32) as u8;
    let b1 = (v >> 16u32) as u8;
    let b2 = (v >> 8u32) as u8;
    let b3 = v as u8;
    assert(s.drop_last().drop_last().drop_last().drop_last() =~= Seq::<u8>::empty());
    assert(s.drop_last().drop_last().drop_last() =~= seq![b0]);
    assert(s.drop_last().drop_last() =~= seq![b0, b1]);
    assert(s.drop_last() =~= seq![b0, b1, b2]);
    assert(be_value(s) == ((b0 as nat * 256 + b1 as nat) * 256 + b2 as nat) * 256 + b3 as nat) by {
        reveal_with_fuel(be_value, 5);
    }
    assert((((b0 as u64) * 256 + (b1 as u64)) * 256 + (b2 as u64)) * 256 + (b3 as u64) == v as u64) by (bit_vector)
        requires
            b0 == (v >> 24u32) as u8,
            b1 == (v >> 16u32) as u8,
            b2 == (v >> 8u32) as u8,
            b3 == v as u8,
    ;
}

/// Reads the big-endian number of `size` bytes at `off`.
fn read_be(s: &[u8], off: usize, size: usize) -> (r: usize)
    requires
        1 <= size <= 4,
        off + size <= s@.len(),
    ensures
        r == be_value(s@.subrange(off as int, off + size)),
{
    let mut v: usize = 0;
    let mut k: usize = 0;
    proof {
        assert(s@.subrange(off as int, off as int) =~= Seq::<u8>::empty());
    }
    while k < size
        invariant
            1 <= size <= 4,
            off + size <= s@.len(),
            off + size <= s.len(),
            k <= size,
            v == be_value(s@.subrange(off as int, off + k)),
            v < pow256(k as nat),
        decreases size - k,
    {
        proof {
            let w = s@.subrange(off as int, off + size);
            assert(w.subrange(0, k as int) =~= s@.subrange(off as int, off + k));
            assert(w.subrange(0, k + 1) =~= s@.subrange(off as int, off + k + 1));
            lemma_be_step(w, k as int);
            lemma_be_bound(s@.subrange(off as int, off + k + 1));
            assert(pow256((k + 1) as nat) <= 0x1_0000_0000) by {
                reveal_with_fuel(pow256, 5);
            }
        }
        v = v * 256 + s[off + k] as usize;
        k = k + 1;
    }
    v
}

/// Iterates the NAL units of an AVCC sample (`length_size`-byte big-endian prefixes).
pub fn avcc_nals(avcc: &[u8], length_size: usize) -> (r: Result<Vec<&[u8]>, AnnexBError>)
    requires
        1 <= length_size <= 4,
    ensures
        match avcc_parse(avcc@, length_size as int, 0) {
            Ok(nals) => r matches Ok(v) && slices_view(v@) == nals,
            Err(e) => r == Err::<Vec<&[u8]>, AnnexBError>(truncated(e)),
        },
{
    let n = avcc.len();
    let mut out: Vec<&[u8]> = Vec::new();
    let mut off: usize = 0;
    proof {
        assert(slices_view(out@) =~= Seq::<Seq<u8>>::empty());
        assert(prepend_ok(slices_view(out@), avcc_parse(avcc@, length_size as int, 0))
            =~= avcc_parse(avcc@, length_size as int, 0)) by {
            match avcc_parse(avcc@, length_size as int, 0) {
                Ok(x) => { assert(Seq::<Seq<u8>>::empty() + x =~= x); }
                Err(e) => {}
            }
        }
    }
    while off < n
        invariant
            n == avcc@.len(),
            1 <= length_size <= 4,
            off <= n,
            prepend_ok(slices_view(out@), avcc_parse(avcc@, length_size as int, off as int))
                == avcc_parse(avcc@, length_size as int, 0),
        decreases n - off,
    {
        if n - off < length_size {
            return Err(AnnexBError::Truncated { offset: off, len: 0 });
        }
        let len = read_be(avcc, off, length_size);
        if n - off - length_size < len {
            return Err(AnnexBError::Truncated { offset: off, len: len });
        }
        let start = off + length_size;
        let nal = vstd::slice::slice_subrange(avcc, start, start + len);
        let ghost old_out = slices_view(out@);
        out.push(nal);
        proof {
            assert(slices_view(out@) =~= old_out.push(nal@));
            match avcc_parse(avcc@, length_size as int, (start + len) as int) {
                Ok(x) => { assert(old_out + (seq![nal@] + x) =~= old_out.push(nal@) + x); }
                Err(e) => {}
            }
        }
        off = start + len;
    }
    proof {
        assert(slices_view(out@) + Seq::<Seq<u8>>::empty() =~= slices_view(out@));
    }
    Ok(out)
}


/// Appends the bytes of `b` to `out`.
pub(crate) fn push_all(out: &mut Vec<u8>, b: &[u8])
    ensures
        final(out)@ == old(out)@ + b@,
{
    let mut i: usize = 0;
    while i < b.len()
        invariant
            i <= b@.len(),
            out@ == old(out)@ + b@.subrange(0, i as int),
        decreases b@.len() - i,
    {
        proof {
            assert(b@.subrange(0, i + 1) =~= b@.subrange(0, i as int).push(b@[i as int]));
        }
        out.push(b[i]);
        i = i + 1;
    }
    proof {
        assert(b@.subrange(0, i as int) =~= b@);
    }
}

/// Converts an AVCC sample (big-endian length prefixes of `length_size` bytes, 1..=4) into an
/// Annex-B byte stream with 4-byte start codes.
pub fn avcc_to_annex_b(avcc: &[u8], length_size: usize) -> (r: Result<Vec<u8>, AnnexBError>)
    requires
        1 <= length_size <= 4,
    ensures
        match avcc_parse(avcc@, length_size as int, 0) {
            Ok(nals) => r matches Ok(v) && v@ == annex_b_encode(nals),
            Err(e) => r == Err::<Vec<u8>, AnnexBError>(truncated(e)),
        },
{
    let nals = match avcc_nals(avcc, length_size) {
        Ok(v) => v,
        Err(e) => return Err(e),
    };
    let ghost all = slices_view(nals@);
    let mut out: Vec<u8> = Vec::new();
    let mut i: usize = 0;
    while i < nals.len()
        invariant
            all == slices_view(nals@),
            i <= nals@.len(),
            out@ == annex_b_encode(all.take(i as int)),
        decreases nals@.len() - i,
    {
        proof {
            assert(all.take(i + 1).drop_last() =~= all.take(i as int));
        }
        push_all(&mut out, &[0u8, 0u8, 0u8, 1u8]);
        push_all(&mut out, nals[i]);
        i = i + 1;
    }
    proof {
        assert(all.take(i as int) =~= all);
    }
    Ok(out)
}

/// `profile_idc` of an SPS unit: its second byte.
pub open spec fn spec_profile_idc(sps: Seq<u8>) -> Option<u8> {
    if sps.len() >= 2 && spec_nal_type(sps[0]) == 7 {
        Some(sps[1])
    } else {
        None
    }
}

/// `profile_idc` of an SPS NAL unit (byte after the NAL header). 100 = High.
pub fn sps_profile_idc(sps: &[u8]) -> (r: Option<u8>)
    ensures
        r == spec_profile_idc(sps@),
{
    if sps.len() >= 2 && sps[0] & 0x1F == 7 {
        Some(sps[1])
    } else {
        None
    }
}

/// The views of a list of byte vectors.
pub open spec fn vecs_view(v: Seq<Vec<u8>>) -> Seq<Seq<u8>> {
    v.map_values(|x: Vec<u8>| x@)
}

/// One Annex-B access unit converted for VideoToolbox.
#[derive(Debug, Clone, PartialEq, Eq, Default)]
pub struct AccessUnit {
    /// Sequence parameter sets found in the access unit (usually zero or one).
    pub sps: Vec<Vec<u8>>,
    /// Picture parameter sets found in the access unit.
    pub pps: Vec<Vec<u8>>,
    /// Remaining NAL units (slices, SEI, …) as an AVCC sample with 4-byte lengths.
    /// Access unit delimiters and parameter sets are not included.
    pub avcc: Vec<u8>,
    /// Whether the access unit contains an IDR slice.
    pub is_idr: bool,
}

/// Every unit that `nals_from` yields is non-empty.
pub proof fn lemma_nals_from_nonempty(s: Seq<u8>, pos: int)
    ensures
        forall|i: int| 0 <= i < nals_from(s, pos).len() ==> #[trigger] nals_from(s, pos)[i].len() > 0,
    decreases s.len() - pos,
{
    if 0 <= pos <= s.len() {
        lemma_first_start_code_bounds(s, pos);
        let j = first_start_code(s, pos);
        let nal = strip_trailing_zeros(s.subrange(pos, j));
        let head: Seq<Seq<u8>> = if nal.len() > 0 { seq![nal] } else { seq![] };
        if j < s.len() {
            lemma_nals_from_nonempty(s, j + 3);
            let rest = nals_from(s, j + 3);
            assert(nals_from(s, pos) == head + rest);
            assert forall|i: int| 0 <= i < nals_from(s, pos).len() implies #[trigger] nals_from(s, pos)[i].len() > 0 by {
                if i >= head.len() {
                    assert(nals_from(s, pos)[i] == rest[i - head.len()]);
                }
            }
        }
    }
}

/// Every unit that [`split_nals`] returns is non-empty.
pub proof fn lemma_split_nonempty(s: Seq<u8>)
    ensures
        forall|i: int| 0 <= i < spec_split_nals(s).len() ==> #[trigger] spec_split_nals(s)[i].len() > 0,
{
    lemma_first_start_code_bounds(s, 0);
    let j = first_start_code(s, 0);
    if j < s.len() {
        lemma_nals_from_nonempty(s, j + 3);
    }
}

impl AccessUnit {
    /// Converts one Annex-B access unit: drops AUDs, extracts SPS/PPS and length-prefixes the
    /// remaining NAL units.
    pub fn from_annex_b(data: &[u8]) -> (r: Result<Self, AnnexBError>)
        ensures
            ({
                let nals = spec_split_nals(data@);
                &&& (r == Err::<Self, AnnexBError>(AnnexBError::Empty) <==> nals.len() == 0)
                &&& (r == Err::<Self, AnnexBError>(AnnexBError::TooLarge) <==> nals.len() > 0
                    && has_oversized_picture(nals))
                &&& (r is Ok <==> nals.len() > 0 && !has_oversized_picture(nals))
                &&& r matches Ok(au) ==> {
                    &&& vecs_view(au.sps@) == sps_units(nals)
                    &&& vecs_view(au.pps@) == pps_units(nals)
                    &&& au.avcc@ == avcc_encode(picture_units(nals))
                    &&& au.is_idr == has_idr(nals)
                }
            }),
    {
        let nals = split_nals(data);
        let ghost all = slices_view(nals@);
        proof {
            lemma_split_nonempty(data@);
        }
        if nals.len() == 0 {
            return Err(AnnexBError::Empty);
        }
        let mut sps: Vec<Vec<u8>> = Vec::new();
        let mut pps: Vec<Vec<u8>> = Vec::new();
        let mut avcc: Vec<u8> = Vec::new();
        let mut is_idr = false;
        let mut i: usize = 0;
        proof {
            assert(all.take(0) =~= Seq::<Seq<u8>>::empty());
            assert(vecs_view(sps@) =~= Seq::<Seq<u8>>::empty());
            assert(vecs_view(pps@) =~= Seq::<Seq<u8>>::empty());
        }
        while i < nals.len()
            invariant
                all == slices_view(nals@),
                all == spec_split_nals(data@),
                forall|k: int| 0 <= k < all.len() ==> #[trigger] all[k].len() > 0,
                i <= nals@.len(),
                vecs_view(sps@) == sps_units(all.take(i as int)),
                vecs_view(pps@) == pps_units(all.take(i as int)),
                avcc@ == avcc_encode(picture_units(all.take(i as int))),
                is_idr == has_idr(all.take(i as int)),
                !has_oversized_picture(all.take(i as int)),
            decreases nals@.len() - i,
        {
            let nal = nals[i];
            let ghost pre = all.take(i as int);
            let ghost cur = all.take(i + 1);
            proof {
                assert(cur.drop_last() =~= pre);
                assert(cur.last() == nal@);
                assert(nal@.len() > 0);
            }
            let t = nal[0] & 0x1F;
            if t == 7 {
                let ghost old_sps = vecs_view(sps@);
                sps.push(vstd::slice::slice_to_vec(nal));
                proof { assert(vecs_view(sps@) =~= old_sps.push(nal@)); }
            } else if t == 8 {
                let ghost old_pps = vecs_view(pps@);
                pps.push(vstd::slice::slice_to_vec(nal));
                proof { assert(vecs_view(pps@) =~= old_pps.push(nal@)); }
            } else if t != 9 {
                if nal.len() > 0xFFFF_FFFF {
                    proof {
                        assert(is_picture_nal(all[i as int]) && all[i as int].len() > u32::MAX);
                    }
                    return Err(AnnexBError::TooLarge);
                }
                let len = nal.len() as u32;
                push_all(&mut avcc, &[(len >> 24u32) as u8, (len >> 16u32) as u8, (len >> 8u32) as u8, len as u8]);
                push_all(&mut avcc, nal);
                proof {
                    assert(picture_units(cur) == picture_units(pre).push(nal@));
                    assert(picture_units(cur).drop_last() =~= picture_units(pre));
                }
            }
            if t == 5 {
                is_idr = true;
            }
            proof {
                if t == 5 {
                    assert(type_of(cur[i as int]) == 5);
                }
                if has_idr(cur) {
                    let w = choose|w: int| 0 <= w < cur.len() && type_of(#[trigger] cur[w]) == 5;
                    if w < i {
                        assert(pre[w] == cur[w]);
                    }
                }
                if has_idr(pre) {
                    let w = choose|w: int| 0 <= w < pre.len() && type_of(#[trigger] pre[w]) == 5;
                    assert(pre[w] == cur[w]);
                }
                if has_oversized_picture(cur) {
                    let w = choose|w: int| 0 <= w < cur.len() && is_picture_nal(#[trigger] cur[w]) && cur[w].len() > u32::MAX;
                    if w < i {
                        assert(pre[w] == cur[w]);
                    }
                }
            }
            i = i + 1;
        }
        proof {
            assert(all.take(i as int) =~= all);
        }
        Ok(AccessUnit { sps, pps, avcc, is_idr })
    }

    /// Whether the access unit carries picture data (at least one NAL besides parameter sets).
    pub fn has_picture(&self) -> (r: bool)
        ensures
            r == (self.avcc@.len() > 0),
    {
        self.avcc.len() > 0
    }
}

} // verus!

verus! {

/// A NAL unit that an Annex-B stream can carry unambiguously: non-empty, not ending in a zero
/// byte, and holding no start code (emulation prevention guarantees this).
pub open spec fn is_framable(n: Seq<u8>) -> bool {
    &&& n.len() > 0
    &&& n.last() != 0
    &&& forall|j: int| 0 <= j && j + 3 <= n.len() ==> !#[trigger] is_start_code(n, j)
}

/// `k` zero bytes.
pub open spec fn zeros(k: nat) -> Seq<u8> {
    Seq::new(k, |i: int| 0u8)
}

/// One NAL unit behind a three- or four-byte start code, followed by `trailing` zero bytes.
pub open spec fn framed(n: Seq<u8>, four: bool, trailing: nat) -> Seq<u8> {
    (if four { seq![0u8] } else { Seq::<u8>::empty() }) + seq![0u8, 0u8, 1u8] + n + zeros(trailing)
}

/// An Annex-B stream of `nals`, the `i`th behind a four-byte start code when `four[i]`, and
/// followed by `trailing[i]` zero bytes.
pub open spec fn annex_b_stream(nals: Seq<Seq<u8>>, four: Seq<bool>, trailing: Seq<nat>) -> Seq<u8>
    decreases nals.len(),
{
    if nals.len() == 0 || four.len() == 0 || trailing.len() == 0 {
        seq![]
    } else {
        framed(nals[0], four[0], trailing[0]) + annex_b_stream(
            nals.drop_first(),
            four.drop_first(),
            trailing.drop_first(),
        )
    }
}

proof fn lemma_first_start_code_shift(a: Seq<u8>, b: Seq<u8>, k: int)
    requires
        0 <= k <= b.len(),
    ensures
        first_start_code(a + b, a.len() + k) == a.len() + first_start_code(b, k),
    decreases b.len() - k,
{
    let s = a + b;
    if k + 3 <= b.len() {
        assert(is_start_code(s, a.len() + k) == is_start_code(b, k)) by {
            assert(s[a.len() + k] == b[k]);
            assert(s[a.len() + k + 1] == b[k + 1]);
            assert(s[a.len() + k + 2] == b[k + 2]);
        }
        if !is_start_code(b, k) {
            lemma_first_start_code_shift(a, b, k + 1);
        }
    }
}

proof fn lemma_nals_from_shift(a: Seq<u8>, b: Seq<u8>, k: int)
    requires
        0 <= k <= b.len(),
    ensures
        nals_from(a + b, a.len() + k) == nals_from(b, k),
    decreases b.len() - k,
{
    let s = a + b;
    lemma_first_start_code_shift(a, b, k);
    lemma_first_start_code_bounds(b, k);
    let j = first_start_code(b, k);
    assert(s.subrange(a.len() + k, a.len() + j) =~= b.subrange(k, j));
    if j < b.len() {
        lemma_nals_from_shift(a, b, j + 3);
    }
}

proof fn lemma_first_start_code_skip(s: Seq<u8>, k: int, m: int)
    requires
        0 <= k <= m <= s.len(),
        forall|p: int| k <= p < m ==> !#[trigger] is_start_code(s, p),
    ensures
        first_start_code(s, k) == first_start_code(s, m),
    decreases m - k,
{
    if k < m {
        assert(!is_start_code(s, k));
        lemma_first_start_code_skip(s, k + 1, m);
    }
}

proof fn lemma_strip_zeros(n: Seq<u8>, m: nat)
    requires
        n.len() > 0,
        n.last() != 0,
    ensures
        strip_trailing_zeros(n + zeros(m)) == n,
    decreases m,
{
    if m == 0 {
        assert(n + zeros(0) =~= n);
    } else {
        let t = n + zeros(m);
        assert(t.last() == 0);
        assert(t.drop_last() =~= n + zeros((m - 1) as nat));
        lemma_strip_zeros(n, (m - 1) as nat);
    }
}

/// A stream that begins with a three- or four-byte start code.
pub open spec fn opens_with_start_code(r: Seq<u8>) -> bool {
    ||| is_start_code(r, 0)
    ||| (r.len() >= 4 && r[0] == 0 && is_start_code(r, 1))
}

proof fn lemma_stream_opens(nals: Seq<Seq<u8>>, four: Seq<bool>, trailing: Seq<nat>)
    requires
        nals.len() > 0,
        four.len() > 0,
        trailing.len() > 0,
    ensures
        opens_with_start_code(annex_b_stream(nals, four, trailing)),
{
    let r = annex_b_stream(nals, four, trailing);
    let e = framed(nals[0], four[0], trailing[0]);
    assert(r == e + annex_b_stream(nals.drop_first(), four.drop_first(), trailing.drop_first()));
    if four[0] {
        assert(r[0] == 0 && r[1] == 0 && r[2] == 0 && r[3] == 1);
    } else {
        assert(r[0] == 0 && r[1] == 0 && r[2] == 1);
    }
}

proof fn lemma_split_framed(n: Seq<u8>, four: bool, t: nat, r: Seq<u8>)
    requires
        is_framable(n),
        r.len() == 0 || opens_with_start_code(r),
    ensures
        spec_split_nals(framed(n, four, t) + r) == seq![n] + spec_split_nals(r),
{
    let e = framed(n, four, t);
    let s = e + r;
    let f: int = if four { 1 } else { 0 };
    let p = f + 3;
    let end = p + n.len();
    assert(e.len() == end + t);
    assert forall|i: int| 0 <= i < n.len() implies s[p + i] == n[i] by {
        assert(e[p + i] == n[i]);
    }
    assert forall|i: int| end <= i < e.len() implies s[i] == 0 by {
        assert(e[i] == zeros(t)[i - end]);
    }
    // the first start code of the stream
    assert(is_start_code(s, f));
    if four {
        assert(!is_start_code(s, 0));
        lemma_first_start_code_skip(s, 0, 1);
    }
    assert(first_start_code(s, f) == f);
    assert(first_start_code(s, 0) == f);
    // no start code between the unit and the end of its trailing zeros
    assert forall|q: int| p <= q < e.len() implies !#[trigger] is_start_code(s, q) by {
        if is_start_code(s, q) {
            if q + 2 < end {
                assert(is_start_code(n, q - p)) by {
                    assert(s[q] == n[q - p]);
                    assert(s[q + 1] == n[q - p + 1]);
                    assert(s[q + 2] == n[q - p + 2]);
                }
            } else if q + 2 == end {
                assert(s[q + 1] == n.last());
            } else if q + 1 == end {
                assert(s[q] == n.last());
            } else {
                // q sits in the trailing zeros; the bytes up to the next start code are zeros
                if q + 2 < e.len() {
                    assert(s[q + 2] == 0);
                } else {
                    assert(r.len() > 0);
                    assert(s[q + 2] == r[q + 2 - e.len()]);
                    assert(r[0] == 0 && r[1] == 0);
                }
            }
        }
    }
    lemma_first_start_code_bounds(s, p);
    lemma_first_start_code_skip(s, p, e.len() as int);
    lemma_first_start_code_shift(e, r, 0);
    lemma_first_start_code_bounds(r, 0);
    let fr = first_start_code(r, 0);
    let j = first_start_code(s, p);
    assert(j == e.len() + fr);
    if r.len() > 0 {
        if is_start_code(r, 0) {
            assert(fr == 0);
        } else {
            lemma_first_start_code_skip(r, 0, 1);
            assert(fr == 1);
            assert(r[0] == 0);
        }
    } else {
        assert(fr == 0);
    }
    assert(s.subrange(p, j) =~= n + zeros((t + fr) as nat)) by {
        assert forall|i: int| 0 <= i < j - p implies s.subrange(p, j)[i] == (n + zeros((t + fr) as nat))[i] by {
            if i < n.len() {
            } else if p + i < e.len() {
            } else {
                assert(s[p + i] == r[p + i - e.len()]);
            }
        }
    }
    lemma_strip_zeros(n, (t + fr) as nat);
    if r.len() > 0 {
        assert(fr < r.len());
        lemma_nals_from_shift(e, r, fr + 3);
        assert(nals_from(s, p) == seq![n] + nals_from(s, j + 3));
    } else {
        assert(s =~= e);
        assert(j == s.len());
        assert(nals_from(s, p) == seq![n]);
        assert(spec_split_nals(r) =~= Seq::<Seq<u8>>::empty());
        assert(seq![n] + spec_split_nals(r) =~= seq![n]);
    }
}

/// Splitting an Annex-B stream gives back the NAL units it was built from, whatever mix of
/// three- and four-byte start codes and trailing zero bytes separates them.
pub proof fn lemma_split_recovers_nals(nals: Seq<Seq<u8>>, four: Seq<bool>, trailing: Seq<nat>)
    requires
        forall|i: int| 0 <= i < nals.len() ==> is_framable(#[trigger] nals[i]),
        four.len() >= nals.len(),
        trailing.len() >= nals.len(),
    ensures
        spec_split_nals(annex_b_stream(nals, four, trailing)) == nals,
    decreases nals.len(),
{
    if nals.len() == 0 {
        assert(annex_b_stream(nals, four, trailing) =~= Seq::<u8>::empty());
        assert(first_start_code(Seq::<u8>::empty(), 0) == 0);
    } else {
        let rest = annex_b_stream(nals.drop_first(), four.drop_first(), trailing.drop_first());
        assert forall|i: int| 0 <= i < nals.drop_first().len() implies is_framable(
            #[trigger] nals.drop_first()[i],
        ) by {
            assert(nals.drop_first()[i] == nals[i + 1]);
        }
        lemma_split_recovers_nals(nals.drop_first(), four.drop_first(), trailing.drop_first());
        if nals.len() > 1 {
            lemma_stream_opens(nals.drop_first(), four.drop_first(), trailing.drop_first());
        } else {
            assert(rest =~= Seq::<u8>::empty());
        }
        assert(is_framable(nals[0]));
        lemma_split_framed(nals[0], four[0], trailing[0], rest);
        assert(seq![nals[0]] + nals.drop_first() =~= nals);
    }
}


/// One unit of an AVCC sample: its four-byte big-endian length, then the unit.
pub open spec fn avcc_piece(n: Seq<u8>) -> Seq<u8> {
    be32(n.len() as u32) + n
}

proof fn lemma_avcc_encode_front(nals: Seq<Seq<u8>>)
    requires
        nals.len() > 0,
    ensures
        avcc_encode(nals) == avcc_piece(nals[0]) + avcc_encode(nals.drop_first()),
    decreases nals.len(),
{
    if nals.len() == 1 {
        assert(nals.drop_last() =~= Seq::<Seq<u8>>::empty());
        assert(nals.drop_first() =~= Seq::<Seq<u8>>::empty());
        assert(avcc_encode(nals) =~= avcc_piece(nals[0]) + avcc_encode(nals.drop_first()));
    } else {
        let d = nals.drop_last();
        lemma_avcc_encode_front(d);
        assert(d.drop_first() =~= nals.drop_first().drop_last());
        assert(nals.drop_first().last() == nals.last());
        assert(d[0] == nals[0]);
        assert(avcc_encode(nals) =~= avcc_piece(nals[0]) + avcc_encode(nals.drop_first()));
    }
}

proof fn lemma_avcc_parse_encode(pre: Seq<u8>, nals: Seq<Seq<u8>>)
    requires
        forall|i: int| 0 <= i < nals.len() ==> #[trigger] nals[i].len() <= u32::MAX,
    ensures
        avcc_parse(pre + avcc_encode(nals), 4, pre.len() as int) == Ok::<Seq<Seq<u8>>, (int, int)>(nals),
    decreases nals.len(),
{
    let s = pre + avcc_encode(nals);
    if nals.len() == 0 {
        assert(s =~= pre);
        assert(nals =~= Seq::<Seq<u8>>::empty());
    } else {
        let n0 = nals[0];
        lemma_avcc_encode_front(nals);
        let pre2 = pre + avcc_piece(n0);
        assert(s =~= pre2 + avcc_encode(nals.drop_first()));
        let off = pre.len() as int;
        assert(s.subrange(off, off + 4) =~= be32(n0.len() as u32));
        lemma_be32(n0.len() as u32);
        assert(s.subrange(off + 4, off + 4 + n0.len()) =~= n0);
        assert forall|i: int| 0 <= i < nals.drop_first().len() implies #[trigger] nals.drop_first()[i].len() <= u32::MAX by {
            assert(nals.drop_first()[i] == nals[i + 1]);
        }
        lemma_avcc_parse_encode(pre2, nals.drop_first());
        assert(nals[0].len() <= u32::MAX);
        assert((n0.len() as u32) as int == n0.len());
        assert(pre2.len() == off + 4 + n0.len());
        assert(off < s.len());
        assert(off + 4 + n0.len() <= s.len());
        assert(be_value(s.subrange(off, off + 4)) == n0.len());
        assert(seq![n0] + nals.drop_first() =~= nals);
        assert(avcc_parse(s, 4, off) == Ok::<Seq<Seq<u8>>, (int, int)>(seq![s.subrange(off + 4, off + 4 + n0.len())] + nals.drop_first()));
    }
}

/// An AVCC sample parses back into the units it was built from.
pub proof fn lemma_avcc_round_trip(nals: Seq<Seq<u8>>)
    requires
        forall|i: int| 0 <= i < nals.len() ==> #[trigger] nals[i].len() <= u32::MAX,
    ensures
        avcc_parse(avcc_encode(nals), 4, 0) == Ok::<Seq<Seq<u8>>, (int, int)>(nals),
{
    lemma_avcc_parse_encode(Seq::<u8>::empty(), nals);
    assert(Seq::<u8>::empty() + avcc_encode(nals) =~= avcc_encode(nals));
}

proof fn lemma_annex_b_encode_is_stream(nals: Seq<Seq<u8>>)
    ensures
        annex_b_encode(nals) == annex_b_stream(
            nals,
            Seq::new(nals.len(), |i: int| true),
            Seq::new(nals.len(), |i: int| 0nat),
        ),
    decreases nals.len(),
{
    let four = Seq::new(nals.len(), |i: int| true);
    let tr = Seq::new(nals.len(), |i: int| 0nat);
    if nals.len() > 0 {
        let d = nals.drop_last();
        lemma_annex_b_encode_is_stream(d);
        lemma_annex_b_stream_push(d, nals.last());
        assert(d.push(nals.last()) =~= nals);
        assert(Seq::new(d.len(), |i: int| true).push(true) =~= four);
        assert(Seq::new(d.len(), |i: int| 0nat).push(0nat) =~= tr);
        assert(framed(nals.last(), true, 0) =~= seq![0u8, 0u8, 0u8, 1u8] + nals.last());
    }
}

proof fn lemma_annex_b_stream_push(nals: Seq<Seq<u8>>, n: Seq<u8>)
    ensures
        annex_b_stream(
            nals.push(n),
            Seq::new(nals.len(), |i: int| true).push(true),
            Seq::new(nals.len(), |i: int| 0nat).push(0nat),
        ) == annex_b_stream(
            nals,
            Seq::new(nals.len(), |i: int| true),
            Seq::new(nals.len(), |i: int| 0nat),
        ) + framed(n, true, 0),
    decreases nals.len(),
{
    let four = Seq::new(nals.len(), |i: int| true);
    let tr = Seq::new(nals.len(), |i: int| 0nat);
    if nals.len() == 0 {
        assert(nals.push(n).drop_first() =~= Seq::<Seq<u8>>::empty());
        assert(four.push(true).drop_first() =~= Seq::<bool>::empty());
        assert(tr.push(0nat).drop_first() =~= Seq::<nat>::empty());
        assert(nals.push(n)[0] == n);
        assert(four.push(true)[0] == true);
        assert(tr.push(0nat)[0] == 0);
        assert(annex_b_stream(nals.push(n), four.push(true), tr.push(0nat)) =~= framed(n, true, 0)
            + annex_b_stream(Seq::<Seq<u8>>::empty(), Seq::<bool>::empty(), Seq::<nat>::empty()));
        assert(annex_b_stream(nals, four, tr) =~= Seq::<u8>::empty());
        assert(framed(n, true, 0) + Seq::<u8>::empty() =~= Seq::<u8>::empty() + framed(n, true, 0));
    } else {
        let t = nals.drop_first();
        lemma_annex_b_stream_push(t, n);
        assert(nals.push(n).drop_first() =~= t.push(n));
        assert(four.push(true).drop_first() =~= Seq::new(t.len(), |i: int| true).push(true));
        assert(tr.push(0nat).drop_first() =~= Seq::new(t.len(), |i: int| 0nat).push(0nat));
        assert(four.drop_first() =~= Seq::new(t.len(), |i: int| true));
        assert(tr.drop_first() =~= Seq::new(t.len(), |i: int| 0nat));
        assert(nals.push(n)[0] == nals[0]);
        let head = framed(nals[0], true, 0);
        assert(annex_b_stream(nals.push(n), four.push(true), tr.push(0nat)) =~= head
            + annex_b_stream(t.push(n), Seq::new(t.len(), |i: int| true).push(true), Seq::new(t.len(), |i: int| 0nat).push(0nat)));
        assert(annex_b_stream(nals, four, tr) =~= head + annex_b_stream(t, Seq::new(t.len(), |i: int| true), Seq::new(t.len(), |i: int| 0nat)));
    }
}

/// Converting an AVCC sample built from framable units to Annex-B and splitting the result
/// gives the units back.
pub proof fn lemma_avcc_to_annex_b_splits(nals: Seq<Seq<u8>>)
    requires
        forall|i: int| 0 <= i < nals.len() ==> is_framable(#[trigger] nals[i]),
        forall|i: int| 0 <= i < nals.len() ==> #[trigger] nals[i].len() <= u32::MAX,
    ensures
        avcc_parse(avcc_encode(nals), 4, 0) == Ok::<Seq<Seq<u8>>, (int, int)>(nals),
        spec_split_nals(annex_b_encode(nals)) == nals,
{
    lemma_avcc_round_trip(nals);
    lemma_annex_b_encode_is_stream(nals);
    lemma_split_recovers_nals(
        nals,
        Seq::new(nals.len(), |i: int| true),
        Seq::new(nals.len(), |i: int| 0nat),
    );
}

/// The AVCC sample of an access unit holds exactly its picture units, in order.
pub proof fn lemma_access_unit_avcc_nals(nals: Seq<Seq<u8>>)
    requires
        !has_oversized_picture(nals),
    ensures
        avcc_parse(avcc_encode(picture_units(nals)), 4, 0) == Ok::<Seq<Seq<u8>>, (int, int)>(picture_units(nals)),
{
    lemma_picture_units_in(nals);
    lemma_avcc_round_trip(picture_units(nals));
}

proof fn lemma_picture_units_in(nals: Seq<Seq<u8>>)
    requires
        !has_oversized_picture(nals),
    ensures
        forall|i: int| 0 <= i < picture_units(nals).len() ==> #[trigger] picture_units(nals)[i].len() <= u32::MAX,
    decreases nals.len(),
{
    if nals.len() > 0 {
        let d = nals.drop_last();
        assert(!has_oversized_picture(d)) by {
            if has_oversized_picture(d) {
                let w = choose|w: int| 0 <= w < d.len() && is_picture_nal(#[trigger] d[w]) && d[w].len() > u32::MAX;
                assert(nals[w] == d[w]);
            }
        }
        lemma_picture_units_in(d);
        if is_picture_nal(nals.last()) {
            assert(!(is_picture_nal(nals[nals.len() - 1]) && nals[nals.len() - 1].len() > u32::MAX));
            let p = picture_units(d);
            assert(picture_units(nals) == p.push(nals.last()));
            assert forall|i: int| 0 <= i < p.push(nals.last()).len() implies #[trigger] p.push(nals.last())[i].len() <= u32::MAX by {
                if i < p.len() {
                    assert(p.push(nals.last())[i] == p[i]);
                }
            }
        }
    }
}

} // verus!
