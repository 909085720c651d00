//! Raw byte sequence payloads (RBSP): emulation prevention, and the bits of a payload.
use vstd::prelude::*;

verus! {

/// The payload carried by NAL bytes `s`: each `00 00 03` reads as `00 00`.
pub open spec fn unescape(s: Seq<u8>) -> Seq<u8>
    decreases s.len(),
{
    if s.len() == 0 {
        seq![]
    } else if s.len() >= 3 && s[0] == 0 && s[1] == 0 && s[2] == 3 {
        seq![0u8, 0u8] + unescape(s.skip(3))
    } else {
        seq![s[0]] + unescape(s.skip(1))
    }
}

/// The NAL bytes that carry payload `r` when the bytes written before it end in `z` zero bytes
/// (counted up to two): a `03` goes in front of each byte up to `03` that follows two zeros.
pub open spec fn escape_from(r: Seq<u8>, z: nat) -> Seq<u8>
    decreases r.len(),
{
    if r.len() == 0 {
        seq![]
    } else if z >= 2 && r[0] <= 3 {
        seq![3u8, r[0]] + escape_from(r.skip(1), if r[0] == 0 { 1 } else { 0 })
    } else {
        seq![r[0]] + escape_from(
            r.skip(1),
            if r[0] == 0 {
                if z >= 2 {
                    2
                } else {
                    z + 1
                }
            } else {
                0
            },
        )
    }
}

/// The NAL bytes that carry payload `r`.
pub open spec fn escape(r: Seq<u8>) -> Seq<u8> {
    escape_from(r, 0)
}

/// `k` zero bytes.
pub open spec fn zero_bytes(k: nat) -> Seq<u8> {
    Seq::new(k, |i: int| 0u8)
}

/// Bit `k` (0 = most significant) of byte `x`.
pub open spec fn byte_bit(x: u8, k: int) -> bool {
    (x >> ((7 - k) as u8)) & 1u8 == 1u8
}

/// The bits of `s`, most significant bit of each byte first.
pub open spec fn bits_of(s: Seq<u8>) -> Seq<bool> {
    Seq::new(s.len() * 8, |i: int| byte_bit(s[i / 8], i % 8))
}

/// `w` when `on`, else 0.
pub open spec fn weight(on: bool, w: u8) -> u8 {
    if on {
        w
    } else {
        0
    }
}

/// The byte made of the eight bits of `b` from `8 * j`, most significant first.
pub open spec fn byte_at(b: Seq<bool>, j: int) -> u8 {
    weight(b[8 * j], 128) | weight(b[8 * j + 1], 64) | weight(b[8 * j + 2], 32) | weight(
        b[8 * j + 3],
        16,
    ) | weight(b[8 * j + 4], 8) | weight(b[8 * j + 5], 4) | weight(b[8 * j + 6], 2) | weight(
        b[8 * j + 7],
        1,
    )
}

/// The bytes made of `b`, eight bits each.
pub open spec fn pack(b: Seq<bool>) -> Seq<u8> {
    Seq::new(b.len() / 8, |j: int| byte_at(b, j))
}

proof fn lemma_unescape_plain(s: Seq<u8>)
    requires
        s.len() > 0,
        !(s.len() >= 3 && s[0] == 0 && s[1] == 0 && s[2] == 3),
    ensures
        unescape(s) == seq![s[0]] + unescape(s.skip(1)),
{
}

proof fn lemma_unescape_escape_from(x: Seq<u8>, z: nat)
    requires
        z <= 2,
    ensures
        unescape(zero_bytes(z) + escape_from(x, z)) == zero_bytes(z) + x,
    decreases x.len(), 2 - z,
{
    let e = escape_from(x, z);
    let s = zero_bytes(z) + e;
    if x.len() == 0 {
        assert(e =~= seq![]);
        if z == 0 {
            assert(s =~= seq![]);
        } else if z == 1 {
            assert(s =~= seq![0u8]);
            assert(s.skip(1) =~= seq![]);
            assert(zero_bytes(z) + x =~= seq![0u8]);
        } else {
            assert(s =~= seq![0u8, 0u8]);
            assert(s.skip(1) =~= seq![0u8]);
            assert(s.skip(1).skip(1) =~= seq![]);
            assert(zero_bytes(z) + x =~= seq![0u8, 0u8]);
        }
    } else {
        let b = x[0];
        let rest = x.skip(1);
        assert(x =~= seq![b] + rest);
        if z == 0 {
            if b == 0 {
                assert(e =~= zero_bytes(1) + escape_from(rest, 1));
                lemma_unescape_escape_from(rest, 1);
                assert(s =~= e);
                assert(zero_bytes(1) + rest =~= x);
                assert(zero_bytes(z) + x =~= x);
            } else {
                assert(e =~= seq![b] + escape_from(rest, 0));
                assert(s =~= e);
                lemma_unescape_plain(s);
                assert(s.skip(1) =~= zero_bytes(0) + escape_from(rest, 0));
                lemma_unescape_escape_from(rest, 0);
                assert(zero_bytes(0) + rest =~= rest);
                assert(zero_bytes(z) + x =~= x);
            }
        } else if z == 1 {
            if b == 0 {
                assert(e =~= seq![0u8] + escape_from(rest, 2));
                assert(s =~= zero_bytes(2) + escape_from(rest, 2));
                lemma_unescape_escape_from(rest, 2);
                assert(zero_bytes(2) + rest =~= zero_bytes(z) + x);
            } else {
                let t = escape_from(rest, 0);
                assert(e =~= seq![b] + t);
                assert(s =~= seq![0u8, b] + t);
                lemma_unescape_plain(s);
                assert(s.skip(1) =~= seq![b] + t);
                lemma_unescape_plain(s.skip(1));
                assert(s.skip(1).skip(1) =~= zero_bytes(0) + t);
                lemma_unescape_escape_from(rest, 0);
                assert(zero_bytes(0) + rest =~= rest);
                assert(unescape(s) =~= seq![0u8, b] + rest);
                assert(zero_bytes(z) + x =~= seq![0u8, b] + rest);
            }
        } else {
            if b <= 3 {
                let z2: nat = if b == 0 {
                    1
                } else {
                    0
                };
                let t = escape_from(rest, z2);
                assert(e =~= seq![3u8, b] + t);
                assert(s =~= seq![0u8, 0u8, 3u8, b] + t);
                assert(s.skip(3) =~= seq![b] + t);
                assert(unescape(s) == seq![0u8, 0u8] + unescape(s.skip(3)));
                if b == 0 {
                    assert(s.skip(3) =~= zero_bytes(1) + t);
                    lemma_unescape_escape_from(rest, 1);
                    assert(unescape(s) =~= seq![0u8, 0u8] + (zero_bytes(1) + rest));
                    assert(zero_bytes(z) + x =~= seq![0u8, 0u8] + (zero_bytes(1) + rest));
                } else {
                    lemma_unescape_plain(s.skip(3));
                    assert(s.skip(3).skip(1) =~= zero_bytes(0) + t);
                    lemma_unescape_escape_from(rest, 0);
                    assert(zero_bytes(0) + rest =~= rest);
                    assert(unescape(s) =~= seq![0u8, 0u8, b] + rest);
                    assert(zero_bytes(z) + x =~= seq![0u8, 0u8, b] + rest);
                }
            } else {
                let t = escape_from(rest, 0);
                assert(e =~= seq![b] + t);
                assert(s =~= seq![0u8, 0u8, b] + t);
                lemma_unescape_plain(s);
                assert(s.skip(1) =~= seq![0u8, b] + t);
                lemma_unescape_plain(s.skip(1));
                assert(s.skip(1).skip(1) =~= seq![b] + t);
                lemma_unescape_plain(s.skip(1).skip(1));
                assert(s.skip(1).skip(1).skip(1) =~= zero_bytes(0) + t);
                lemma_unescape_escape_from(rest, 0);
                assert(zero_bytes(0) + rest =~= rest);
                assert(unescape(s) =~= seq![0u8, 0u8, b] + rest);
                assert(zero_bytes(z) + x =~= seq![0u8, 0u8, b] + rest);
            }
        }
    }
}

/// Emulation prevention is undone exactly: the payload read back from the NAL bytes written for
/// payload `r` is `r`.
pub proof fn lemma_unescape_escape(r: Seq<u8>)
    ensures
        unescape(escape(r)) == r,
{
    lemma_unescape_escape_from(r, 0);
    assert(zero_bytes(0) + escape_from(r, 0) =~= escape_from(r, 0));
    assert(zero_bytes(0) + r =~= r);
}

/// Removing emulation prevention bytes never makes a payload longer than its NAL bytes.
pub proof fn lemma_unescape_len(s: Seq<u8>)
    ensures
        unescape(s).len() <= s.len(),
    decreases s.len(),
{
    if s.len() > 0 {
        if s.len() >= 3 && s[0] == 0 && s[1] == 0 && s[2] == 3 {
            lemma_unescape_len(s.skip(3));
        } else {
            lemma_unescape_len(s.skip(1));
        }
    }
}

proof fn lemma_byte_bits(b0: bool, b1: bool, b2: bool, b3: bool, b4: bool, b5: bool, b6: bool, b7: bool)
    ensures
        ({
            let x = weight(b0, 128) | weight(b1, 64) | weight(b2, 32) | weight(b3, 16) | weight(
                b4,
                8,
            ) | weight(b5, 4) | weight(b6, 2) | weight(b7, 1);
            &&& byte_bit(x, 0) == b0
            &&& byte_bit(x, 1) == b1
            &&& byte_bit(x, 2) == b2
            &&& byte_bit(x, 3) == b3
            &&& byte_bit(x, 4) == b4
            &&& byte_bit(x, 5) == b5
            &&& byte_bit(x, 6) == b6
            &&& byte_bit(x, 7) == b7
        }),
{
    let w0 = weight(b0, 128);
    let w1 = weight(b1, 64);
    let w2 = weight(b2, 32);
    let w3 = weight(b3, 16);
    let w4 = weight(b4, 8);
    let w5 = weight(b5, 4);
    let w6 = weight(b6, 2);
    let w7 = weight(b7, 1);
    let x = w0 | w1 | w2 | w3 | w4 | w5 | w6 | w7;
    assert(((x >> 7u8) & 1u8 == 1u8) == b0 && ((x >> 6u8) & 1u8 == 1u8) == b1 && ((x >> 5u8) & 1u8
        == 1u8) == b2 && ((x >> 4u8) & 1u8 == 1u8) == b3 && ((x >> 3u8) & 1u8 == 1u8) == b4 && ((x
        >> 2u8) & 1u8 == 1u8) == b5 && ((x >> 1u8) & 1u8 == 1u8) == b6 && ((x >> 0u8) & 1u8 == 1u8)
        == b7) by (bit_vector)
        requires
            w0 == (if b0 {
                128u8
            } else {
                0u8
            }),
            w1 == (if b1 {
                64u8
            } else {
                0u8
            }),
            w2 == (if b2 {
                32u8
            } else {
                0u8
            }),
            w3 == (if b3 {
                16u8
            } else {
                0u8
            }),
            w4 == (if b4 {
                8u8
            } else {
                0u8
            }),
            w5 == (if b5 {
                4u8
            } else {
                0u8
            }),
            w6 == (if b6 {
                2u8
            } else {
                0u8
            }),
            w7 == (if b7 {
                1u8
            } else {
                0u8
            }),
            x == w0 | w1 | w2 | w3 | w4 | w5 | w6 | w7,
    ;
}

/// Packing whole bytes of bits and reading the bits back gives the same bits.
pub proof fn lemma_bits_of_pack(b: Seq<bool>)
    requires
        b.len() % 8 == 0,
    ensures
        bits_of(pack(b)) == b,
{
    let p = pack(b);
    assert(p.len() * 8 == b.len());
    assert forall|i: int| 0 <= i < b.len() implies #[trigger] bits_of(p)[i] == b[i] by {
        let j = i / 8;
        let k = i % 8;
        assert(0 <= j < p.len());
        assert(i == 8 * j + k);
        lemma_byte_bits(
            b[8 * j],
            b[8 * j + 1],
            b[8 * j + 2],
            b[8 * j + 3],
            b[8 * j + 4],
            b[8 * j + 5],
            b[8 * j + 6],
            b[8 * j + 7],
        );
        assert(bits_of(p)[i] == byte_bit(byte_at(b, j), k));
    }
    assert(bits_of(p) =~= b);
}

/// Appends the payload read from `nal[from..]` to `out`.
pub fn unescape_onto(out: &mut Vec<u8>, nal: &[u8], from: usize)
    requires
        from <= nal@.len(),
    ensures
        final(out)@ == old(out)@ + unescape(nal@.skip(from as int)),
{
    let mut i = from;
    while i < nal.len()
        invariant
            from <= i <= nal@.len(),
            out@ + unescape(nal@.skip(i as int)) == old(out)@ + unescape(nal@.skip(from as int)),
        decreases nal@.len() - i,
    {
        let ghost s = nal@.skip(i as int);
        let ghost before = out@;
        if nal.len() - i > 2 && nal[i] == 0 && nal[i + 1] == 0 && nal[i + 2] == 3 {
            out.push(0);
            out.push(0);
            proof {
                assert(s.skip(3) =~= nal@.skip(i + 3));
                assert(out@ =~= before + seq![0u8, 0u8]);
                assert(before + unescape(s) =~= out@ + unescape(nal@.skip(i + 3)));
            }
            i = i + 3;
        } else {
            out.push(nal[i]);
            proof {
                assert(s.skip(1) =~= nal@.skip(i + 1));
                assert(out@ =~= before + seq![s[0]]);
                assert(before + unescape(s) =~= out@ + unescape(nal@.skip(i + 1)));
            }
            i = i + 1;
        }
    }
    proof {
        assert(nal@.skip(i as int) =~= seq![]);
        assert(out@ + seq![] =~= out@);
    }
}

/// Appends the NAL bytes that carry payload `r` to `out`.
pub fn escape_onto(out: &mut Vec<u8>, r: &[u8])
    ensures
        final(out)@ == old(out)@ + escape(r@),
{
    let mut i: usize = 0;
    let mut z: u8 = 0;
    assert(r@.skip(0) =~= r@);
    while i < r.len()
        invariant
            i <= r@.len(),
            z <= 2,
            out@ + escape_from(r@.skip(i as int), z as nat) == old(out)@ + escape(r@),
        decreases r@.len() - i,
    {
        let ghost s = r@.skip(i as int);
        let ghost before = out@;
        let b = r[i];
        proof {
            assert(s.skip(1) =~= r@.skip(i + 1));
            assert(s[0] == b);
        }
        if z >= 2 && b <= 3 {
            out.push(3);
            out.push(b);
            z = if b == 0 {
                1
            } else {
                0
            };
            proof {
                assert(out@ =~= before + seq![3u8, b]);
                assert(before + escape_from(s, 2) =~= out@ + escape_from(r@.skip(i + 1), z as nat));
            }
        } else {
            let ghost z0 = z;
            out.push(b);
            z = if b == 0 {
                if z >= 2 {
                    2
                } else {
                    z + 1
                }
            } else {
                0
            };
            proof {
                assert(out@ =~= before + seq![b]);
                assert(before + escape_from(s, z0 as nat) =~= out@ + escape_from(
                    r@.skip(i + 1),
                    z as nat,
                ));
            }
        }
        i = i + 1;
    }
    proof {
        assert(r@.skip(i as int) =~= seq![]);
        assert(out@ + seq![] =~= out@);
    }
}

/// The bits of `s`, most significant bit of each byte first.
pub fn unpack(s: &[u8]) -> (r: Vec<bool>)
    requires
        s@.len() * 8 <= usize::MAX,
    ensures
        r@ == bits_of(s@),
{
    let n = s.len() * 8;
    let mut r: Vec<bool> = Vec::new();
    let mut i: usize = 0;
    while i < n
        invariant
            n == s@.len() * 8,
            i <= n,
            r@.len() == i,
            forall|j: int| 0 <= j < i ==> #[trigger] r@[j] == byte_bit(s@[j / 8], j % 8),
        decreases n - i,
    {
        assert(i / 8 < s@.len());
        let x = s[i / 8];
        let k = i % 8;
        r.push((x >> ((7 - k) as u8)) & 1u8 == 1u8);
        i = i + 1;
    }
    assert(r@ =~= bits_of(s@));
    r
}

/// The bytes made of `b`, eight bits each.
pub fn pack_bits(b: &[bool]) -> (r: Vec<u8>)
    ensures
        r@ == pack(b@),
{
    let len = b.len();
    let n = len / 8;
    let mut r: Vec<u8> = Vec::new();
    let mut j: usize = 0;
    while j < n
        invariant
            len == b@.len(),
            n == len / 8,
            j <= n,
            r@.len() == j,
            forall|m: int| 0 <= m < j ==> #[trigger] r@[m] == byte_at(b@, m),
        decreases n - j,
    {
        assert(8 * j + 8 <= len);
        let o = 8 * j;
        let x = (if b[o] {
            128u8
        } else {
            0u8
        }) | (if b[o + 1] {
            64u8
        } else {
            0u8
        }) | (if b[o + 2] {
            32u8
        } else {
            0u8
        }) | (if b[o + 3] {
            16u8
        } else {
            0u8
        }) | (if b[o + 4] {
            8u8
        } else {
            0u8
        }) | (if b[o + 5] {
            4u8
        } else {
            0u8
        }) | (if b[o + 6] {
            2u8
        } else {
            0u8
        }) | (if b[o + 7] {
            1u8
        } else {
            0u8
        });
        r.push(x);
        j = j + 1;
    }
    assert(r@ =~= pack(b@));
    r
}

} // verus!
