//! Wire-fixture formats: `.rec` record files, `MANIFEST.sha256` checksum lists and git-lfs
//! pointer detection.
//!
//! `*.rec` files are sequences of records, each a little-endian `u32` length followed by that
//! many bytes (one DVC payload, GFX PDU batch or fast-path PDU per record).
use std::path::PathBuf;
use vstd::prelude::*;

use crate::text::{chars_of, string_of};

verus! {

#[verifier::external_type_specification]
#[verifier::external_body]
pub struct ExPathBuf(PathBuf);

#[verifier::external_type_specification]
#[verifier::external_body]
pub struct ExIoError(std::io::Error);

/// Why a fixture could not be loaded.
#[derive(Debug)]
pub enum FixtureError {
    /// Reading the file failed.
    Io {
        /// Fixture path.
        path: PathBuf,
        /// Underlying error.
        source: std::io::Error,
    },
    /// The file is a git-lfs pointer: run `git lfs install --local && git lfs pull`.
    LfsPointer(PathBuf),
    /// A `.rec` record's length runs past the end of the data.
    Truncated {
        /// Offset of the bad record header.
        offset: usize,
    },
    /// A manifest line is malformed.
    BadManifest {
        /// 1-based line number.
        line: usize,
    },
}

/// The first line of every git-lfs pointer file.
pub open spec fn lfs_pointer_header() -> Seq<u8> {
    seq![118u8, 101u8, 114u8, 115u8, 105u8, 111u8, 110u8, 32u8, 104u8, 116u8, 116u8, 112u8, 115u8, 58u8,
        47u8, 47u8, 103u8, 105u8, 116u8, 45u8, 108u8, 102u8, 115u8, 46u8, 103u8, 105u8, 116u8, 104u8, 117u8,
        98u8, 46u8, 99u8, 111u8, 109u8, 47u8, 115u8, 112u8, 101u8, 99u8, 47u8, 118u8, 49u8, 10u8]
}

/// `true` if `data` is a git-lfs pointer file (it starts with the pointer header line)
/// instead of the real content.
pub fn is_lfs_pointer(data: &[u8]) -> (r: bool)
    ensures
        r == (data@.len() >= lfs_pointer_header().len() && data@.subrange(0, lfs_pointer_header().len() as int)
            == lfs_pointer_header()),
{
    let header: [u8; 43] = [118u8, 101u8, 114u8, 115u8, 105u8, 111u8, 110u8, 32u8, 104u8, 116u8, 116u8, 112u8,
        115u8, 58u8, 47u8, 47u8, 103u8, 105u8, 116u8, 45u8, 108u8, 102u8, 115u8, 46u8, 103u8, 105u8, 116u8,
        104u8, 117u8, 98u8, 46u8, 99u8, 111u8, 109u8, 47u8, 115u8, 112u8, 101u8, 99u8, 47u8, 118u8, 49u8, 10u8];
    proof {
        assert(header@ =~= lfs_pointer_header());
    }
    if data.len() < 43 {
        return false;
    }
    let mut i: usize = 0;
    while i < 43
        invariant
            header@ == lfs_pointer_header(),
            data@.len() >= 43,
            i <= 43,
            forall|k: int| 0 <= k < i ==> data@[k] == header@[k],
        decreases 43 - i,
    {
        if data[i] != header[i] {
            proof {
                assert(data@.subrange(0, 43)[i as int] != lfs_pointer_header()[i as int]);
            }
            return false;
        }
        i = i + 1;
    }
    proof {
        assert(data@.subrange(0, 43) =~= lfs_pointer_header());
    }
    true
}

/// Little-endian `u32` at `off`.
pub open spec fn rec_len_at(s: Seq<u8>, off: int) -> nat {
    s[off] as nat + 256 * s[off + 1] as nat + 65536 * s[off + 2] as nat + 16777216 * s[off + 3] as nat
}

/// The records of `s` from offset `off` on; `Err(offset)` names the first record header that
/// is cut short or whose length runs past the end.
pub open spec fn records_from(s: Seq<u8>, off: int) -> Result<Seq<Seq<u8>>, int>
    decreases s.len() - off,
{
    if off < 0 || off >= s.len() {
        Ok(seq![])
    } else if off + 4 > s.len() || off + 4 + rec_len_at(s, off) > s.len() {
        Err(off)
    } else {
        let end = off + 4 + rec_len_at(s, off);
        match records_from(s, end) {
            Ok(rest) => Ok(seq![s.subrange(off + 4, end)] + rest),
            Err(e) => Err(e),
        }
    }
}

/// The four little-endian bytes of `n` (below 2^32).
pub open spec fn le32_bytes(n: nat) -> Seq<u8> {
    seq![(n % 256) as u8, (n / 256 % 256) as u8, (n / 65536 % 256) as u8, (n / 16777216 % 256) as u8]
}

/// The `.rec` encoding of `records`: each one as a little-endian `u32` length and its bytes.
pub open spec fn framed(records: Seq<Seq<u8>>) -> Seq<u8>
    decreases records.len(),
{
    if records.len() == 0 {
        Seq::empty()
    } else {
        le32_bytes(records[0].len()) + records[0] + framed(records.drop_first())
    }
}

proof fn lemma_le32(n: nat)
    requires
        n < 0x1_0000_0000,
    ensures
        rec_len_at(le32_bytes(n), 0) == n,
{
    let b = le32_bytes(n);
    assert(b[0] as nat == n % 256);
    assert(b[1] as nat == n / 256 % 256);
    assert(b[2] as nat == n / 65536 % 256);
    assert(b[3] as nat == n / 16777216 % 256);
    assert(n % 256 + 256 * (n / 256 % 256) + 65536 * (n / 65536 % 256) + 16777216 * (n / 16777216 % 256) == n)
        by (nonlinear_arith)
        requires
            n < 0x1_0000_0000,
    ;
}

proof fn lemma_framed_from(prefix: Seq<u8>, records: Seq<Seq<u8>>)
    requires
        forall|i: int| 0 <= i < records.len() ==> (#[trigger] records[i]).len() < 0x1_0000_0000,
    ensures
        records_from(prefix + framed(records), prefix.len() as int) == Ok::<Seq<Seq<u8>>, int>(records),
    decreases records.len(),
{
    let s = prefix + framed(records);
    let off = prefix.len() as int;
    if records.len() == 0 {
        assert(s =~= prefix);
        assert(records =~= seq![]);
    } else {
        let r0 = records[0];
        let rest = records.drop_first();
        let head = le32_bytes(r0.len());
        assert(s =~= prefix + head + r0 + framed(rest));
        lemma_le32(r0.len());
        assert(s.subrange(off, off + 4) =~= head);
        assert(rec_len_at(s, off) == rec_len_at(head, 0));
        let end = off + 4 + r0.len();
        assert(s.subrange(off + 4, end) =~= r0);
        assert forall|i: int| 0 <= i < rest.len() implies (#[trigger] rest[i]).len() < 0x1_0000_0000 by {
            assert(rest[i] == records[i + 1]);
        }
        let prefix2 = prefix + head + r0;
        assert(s =~= prefix2 + framed(rest));
        assert(prefix2.len() == end);
        lemma_framed_from(prefix2, rest);
        assert(records_from(s, end) == Ok::<Seq<Seq<u8>>, int>(rest));
        assert(records_from(s, off) == Ok::<Seq<Seq<u8>>, int>(seq![s.subrange(off + 4, end)] + rest));
        assert(seq![r0] + rest =~= records);
    }
}

/// Records round-trip: parsing the `.rec` encoding of records (each shorter than 4 GiB) gives
/// back exactly those records.
pub proof fn lemma_records_round_trip(records: Seq<Seq<u8>>)
    requires
        forall|i: int| 0 <= i < records.len() ==> (#[trigger] records[i]).len() < 0x1_0000_0000,
    ensures
        records_from(framed(records), 0) == Ok::<Seq<Seq<u8>>, int>(records),
{
    lemma_framed_from(Seq::empty(), records);
    assert(Seq::<u8>::empty() + framed(records) =~= framed(records));
}

/// `acc` followed by a record parse result.
pub open spec fn prepend_records(acc: Seq<Seq<u8>>, r: Result<Seq<Seq<u8>>, int>) -> Result<Seq<Seq<u8>>, int> {
    match r {
        Ok(x) => Ok(acc + x),
        Err(e) => Err(e),
    }
}

/// Splits `.rec` data into records.
pub fn parse_records(data: &[u8]) -> (r: Result<Vec<&[u8]>, FixtureError>)
    ensures
        match records_from(data@, 0) {
            Ok(recs) => r matches Ok(v) && crate::annexb::slices_view(v@) == recs,
            Err(off) => r matches Err(FixtureError::Truncated { offset }) && offset == off,
        },
{
    let n = data.len();
    let mut out: Vec<&[u8]> = Vec::new();
    let mut off: usize = 0;
    proof {
        assert(crate::annexb::slices_view(out@) =~= Seq::<Seq<u8>>::empty());
        match records_from(data@, 0) {
            Ok(x) => { assert(Seq::<Seq<u8>>::empty() + x =~= x); }
            Err(e) => {}
        }
    }
    while off < n
        invariant
            n == data@.len(),
            off <= n,
            prepend_records(crate::annexb::slices_view(out@), records_from(data@, off as int))
                == records_from(data@, 0),
        decreases n - off,
    {
        if n - off < 4 {
            return Err(FixtureError::Truncated { offset: off });
        }
        let len: u64 = data[off] as u64 + 256 * (data[off + 1] as u64) + 65536 * (data[off + 2] as u64)
            + 16777216 * (data[off + 3] as u64);
        if ((n - off - 4) as u64) < len {
            return Err(FixtureError::Truncated { offset: off });
        }
        let start = off + 4;
        let end = start + len as usize;
        let rec = vstd::slice::slice_subrange(data, start, end);
        let ghost old_out = crate::annexb::slices_view(out@);
        out.push(rec);
        proof {
            assert(crate::annexb::slices_view(out@) =~= old_out.push(rec@));
            match records_from(data@, end as int) {
                Ok(x) => { assert(old_out + (seq![rec@] + x) =~= old_out.push(rec@) + x); }
                Err(e) => {}
            }
        }
        off = end;
    }
    proof {
        assert(crate::annexb::slices_view(out@) + Seq::<Seq<u8>>::empty() =~= crate::annexb::slices_view(out@));
    }
    Ok(out)
}

/// A lowercase hexadecimal digit.
pub open spec fn is_hex_digit(c: char) -> bool {
    ('0' <= c && c <= '9') || ('a' <= c && c <= 'f')
}

/// A `sha256sum` line: 64 lowercase hex digits, two spaces, a non-empty path.
pub open spec fn is_manifest_line(l: Seq<char>) -> bool {
    &&& l.len() > 66
    &&& forall|i: int| 0 <= i < 64 ==> is_hex_digit(#[trigger] l[i])
    &&& l[64] == ' '
    &&& l[65] == ' '
}

/// The end of the line that starts at `start`: the next `'\n'`, or the end of the text.
pub open spec fn line_end(t: Seq<char>, start: int) -> int
    decreases t.len() - start,
{
    if start < 0 || start >= t.len() {
        t.len() as int
    } else if t[start] == '\n' {
        start
    } else {
        line_end(t, start + 1)
    }
}

/// The `(checksum, path)` pairs of the lines from `start` (line number `line`) on; blank
/// lines are skipped and `Err(n)` names the first malformed line.
pub open spec fn manifest_from(t: Seq<char>, start: int, line: nat) -> Result<Seq<(Seq<char>, Seq<char>)>, nat>
    decreases t.len() - start,
{
    if start < 0 || start > t.len() {
        Ok(seq![])
    } else {
        let e = line_end(t, start);
        proof {
            lemma_line_end_bounds(t, start);
        }
        let l = t.subrange(start, e);
        let rest: Result<Seq<(Seq<char>, Seq<char>)>, nat> = if e < t.len() {
            manifest_from(t, e + 1, line + 1)
        } else {
            Ok(seq![])
        };
        if l.len() == 0 {
            rest
        } else if !is_manifest_line(l) {
            Err(line)
        } else {
            match rest {
                Ok(r) => Ok(seq![(l.subrange(0, 64), l.subrange(66, l.len() as int))] + r),
                Err(e) => Err(e),
            }
        }
    }
}

pub proof fn lemma_line_end_bounds(t: Seq<char>, start: int)
    requires
        0 <= start <= t.len(),
    ensures
        start <= line_end(t, start) <= t.len(),
        line_end(t, start) < t.len() ==> t[line_end(t, start)] == '\n',
        forall|k: int| start <= k < line_end(t, start) ==> t[k] != '\n',
    decreases t.len() - start,
{
    if start < t.len() && t[start] != '\n' {
        lemma_line_end_bounds(t, start + 1);
    }
}

/// The view of a list of string pairs.
pub open spec fn pairs_view(v: Seq<(String, String)>) -> Seq<(Seq<char>, Seq<char>)> {
    v.map_values(|p: (String, String)| (p.0@, p.1@))
}

/// `acc` followed by a manifest parse result.
pub open spec fn prepend_pairs(
    acc: Seq<(Seq<char>, Seq<char>)>,
    r: Result<Seq<(Seq<char>, Seq<char>)>, nat>,
) -> Result<Seq<(Seq<char>, Seq<char>)>, nat> {
    match r {
        Ok(x) => Ok(acc + x),
        Err(e) => Err(e),
    }
}

fn check_manifest_line(cs: &Vec<char>, start: usize, end: usize) -> (r: bool)
    requires
        start <= end <= cs@.len(),
    ensures
        r == is_manifest_line(cs@.subrange(start as int, end as int)),
{
    let l = Ghost(cs@.subrange(start as int, end as int));
    if end - start <= 66 {
        return false;
    }
    let mut i: usize = 0;
    while i < 64
        invariant
            start + 66 < end <= cs@.len(),
            l@ == cs@.subrange(start as int, end as int),
            i <= 64,
            forall|k: int| 0 <= k < i ==> is_hex_digit(#[trigger] l@[k]),
        decreases 64 - i,
    {
        let c = cs[start + i];
        if !(('0' <= c && c <= '9') || ('a' <= c && c <= 'f')) {
            proof {
                assert(l@[i as int] == c);
            }
            return false;
        }
        i = i + 1;
    }
    cs[start + 64] == ' ' && cs[start + 65] == ' '
}

/// Parses `MANIFEST.sha256` text into `(sha256 hex, path)` pairs.
pub fn parse_manifest(text: &str) -> (r: Result<Vec<(String, String)>, FixtureError>)
    requires
        text@.len() < usize::MAX,
    ensures
        match manifest_from(text@, 0, 1) {
            Ok(pairs) => r matches Ok(v) && pairs_view(v@) == pairs,
            Err(n) => r matches Err(FixtureError::BadManifest { line }) && line == n,
        },
{
    let cs = chars_of(text);
    let n = cs.len();
    let mut out: Vec<(String, String)> = Vec::new();
    let mut start: usize = 0;
    let mut line: usize = 1;
    proof {
        assert(pairs_view(out@) =~= Seq::<(Seq<char>, Seq<char>)>::empty());
        match manifest_from(cs@, 0, 1) {
            Ok(x) => { assert(Seq::<(Seq<char>, Seq<char>)>::empty() + x =~= x); }
            Err(e) => {}
        }
    }
    loop
        invariant
            n == cs@.len(),
            n < usize::MAX,
            cs@ == text@,
            start <= n,
            1 <= line <= start + 1,
            prepend_pairs(pairs_view(out@), manifest_from(cs@, start as int, line as nat))
                == manifest_from(cs@, 0, 1),
        decreases n - start,
    {
        let mut e: usize = start;
        while e < n && cs[e] != '\n'
            invariant
                n == cs@.len(),
                start <= e <= n,
                line_end(cs@, e as int) == line_end(cs@, start as int),
            decreases n - e,
        {
            e = e + 1;
        }
        proof {
            lemma_line_end_bounds(cs@, start as int);
            assert(line_end(cs@, e as int) == e);
        }
        let ghost rest = if e < n { manifest_from(cs@, e + 1, (line + 1) as nat) } else {
            Ok::<Seq<(Seq<char>, Seq<char>)>, nat>(seq![])
        };
        if e > start {
            if !check_manifest_line(&cs, start, e) {
                return Err(FixtureError::BadManifest { line });
            }
            let hash = string_of(vstd::slice::slice_subrange(cs.as_slice(), start, start + 64));
            let path = string_of(vstd::slice::slice_subrange(cs.as_slice(), start + 66, e));
            let ghost old_out = pairs_view(out@);
            out.push((hash, path));
            proof {
                let l = cs@.subrange(start as int, e as int);
                assert(l.subrange(0, 64) =~= cs@.subrange(start as int, start + 64));
                assert(l.subrange(66, l.len() as int) =~= cs@.subrange(start + 66, e as int));
                assert(pairs_view(out@) =~= old_out.push((l.subrange(0, 64), l.subrange(66, l.len() as int))));
                match rest {
                    Ok(x) => {
                        assert(old_out + (seq![(l.subrange(0, 64), l.subrange(66, l.len() as int))] + x)
                            =~= pairs_view(out@) + x);
                    },
                    Err(_) => {},
                }
            }
        }
        if e == n {
            proof {
                assert(pairs_view(out@) + Seq::<(Seq<char>, Seq<char>)>::empty() =~= pairs_view(out@));
            }
            return Ok(out);
        }
        start = e + 1;
        line = line + 1;
    }
}

/// The name of the checksum list itself, which lists every fixture but itself.
pub open spec fn manifest_file_name() -> Seq<char> {
    "MANIFEST.sha256"@
}

/// The views of a list of strings.
pub open spec fn strings_view(v: Seq<String>) -> Seq<Seq<char>> {
    v.map_values(|s: String| s@)
}

/// The files of `present` that `listed` does not name, the manifest itself aside, in the
/// order of `present`.
pub open spec fn unlisted_of(listed: Seq<Seq<char>>, present: Seq<Seq<char>>) -> Seq<Seq<char>>
    decreases present.len(),
{
    if present.len() == 0 {
        seq![]
    } else {
        let rest = unlisted_of(listed, present.drop_last());
        let f = present.last();
        if f == manifest_file_name() || listed.contains(f) {
            rest
        } else {
            rest.push(f)
        }
    }
}

fn names_contain(names: &[String], name: &String) -> (r: bool)
    ensures
        r == strings_view(names@).contains(name@),
{
    let mut i: usize = 0;
    while i < names.len()
        invariant
            i <= names@.len(),
            forall|k: int| 0 <= k < i ==> #[trigger] strings_view(names@)[k] != name@,
        decreases names@.len() - i,
    {
        if names[i] == *name {
            proof {
                assert(strings_view(names@)[i as int] == name@);
            }
            return true;
        }
        i = i + 1;
    }
    false
}

/// The files found under the fixture directory that the manifest does not list (the manifest
/// file itself aside), in the order they were found: each is a problem of its own.
pub fn unlisted_files(listed: &[String], present: &[String]) -> (r: Vec<String>)
    ensures
        strings_view(r@) == unlisted_of(strings_view(listed@), strings_view(present@)),
{
    let manifest = String::from_str("MANIFEST.sha256");
    let mut out: Vec<String> = Vec::new();
    let mut i: usize = 0;
    while i < present.len()
        invariant
            i <= present@.len(),
            manifest@ == manifest_file_name(),
            strings_view(out@) == unlisted_of(strings_view(listed@), strings_view(present@.subrange(0, i as int))),
        decreases present@.len() - i,
    {
        let ghost before = strings_view(out@);
        let f = &present[i];
        proof {
            let p = strings_view(present@.subrange(0, i + 1));
            assert(p.drop_last() =~= strings_view(present@.subrange(0, i as int)));
            assert(p.last() == f@);
        }
        if !(*f == manifest) && !names_contain(listed, f) {
            out.push(f.clone());
            proof {
                assert(strings_view(out@) =~= before.push(f@));
            }
        }
        i = i + 1;
    }
    proof {
        assert(present@.subrange(0, present@.len() as int) =~= present@);
    }
    out
}

} // verus!
