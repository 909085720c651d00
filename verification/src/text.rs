//! Text helpers over the characters of a string.
use vstd::prelude::*;
use vstd::std_specs::iter::IteratorSpec;

verus! {

broadcast use vstd::string::group_string_axioms;

/// `String::push`: appends one character.
#[verifier::external_body]
pub(crate) fn push_char(s: &mut String, c: char)
    ensures
        final(s)@ == old(s)@.push(c),
{
    s.push(c);
}

/// The characters of each string of `s`.
pub open spec fn views(s: Seq<String>) -> Seq<Seq<char>> {
    s.map_values(|x: String| x@)
}

/// The characters of `s`, in order.
pub fn chars_of(s: &str) -> (r: Vec<char>)
    ensures
        r@ == s@,
{
    let mut it = s.chars();
    let mut out: Vec<char> = Vec::new();
    loop
        invariant
            out@ + it.remaining() == s@,
            it.decrease() is Some,
        ensures
            out@ == s@,
        decreases it.decrease()->0,
    {
        match it.next() {
            Some(c) => {
                out.push(c);
            },
            None => {
                proof {
                    assert(it.remaining().len() == 0);
                    assert(out@ + it.remaining() =~= out@);
                }
                break;
            },
        }
    }
    out
}

/// The string made of `cs`.
pub fn string_of(cs: &[char]) -> (r: String)
    ensures
        r@ == cs@,
{
    let mut out = String::new();
    let mut i: usize = 0;
    while i < cs.len()
        invariant
            i <= cs@.len(),
            out@ == cs@.subrange(0, i as int),
        decreases cs@.len() - i,
    {
        proof {
            assert(cs@.subrange(0, i + 1) =~= cs@.subrange(0, i as int).push(cs@[i as int]));
        }
        push_char(&mut out, cs[i]);
        i = i + 1;
    }
    proof {
        assert(cs@.subrange(0, i as int) =~= cs@);
    }
    out
}

/// The string made of `cs[lo..hi]`.
pub fn string_between(cs: &[char], lo: usize, hi: usize) -> (r: String)
    requires
        lo <= hi <= cs@.len(),
    ensures
        r@ == cs@.subrange(lo as int, hi as int),
{
    let mut out = String::new();
    let mut i = lo;
    while i < hi
        invariant
            lo <= i <= hi <= cs@.len(),
            out@ == cs@.subrange(lo as int, i as int),
        decreases hi - i,
    {
        proof {
            assert(cs@.subrange(lo as int, i + 1) =~= cs@.subrange(lo as int, i as int).push(cs@[i as int]));
        }
        push_char(&mut out, cs[i]);
        i = i + 1;
    }
    out
}

/// Unicode `White_Space`, the set `char::is_whitespace` tests.
pub open spec fn is_ws(c: char) -> bool {
    let v = c as u32;
    ||| (9 <= v && v <= 13)
    ||| v == 32
    ||| v == 0x85
    ||| v == 0xA0
    ||| v == 0x1680
    ||| (0x2000 <= v && v <= 0x200A)
    ||| v == 0x2028
    ||| v == 0x2029
    ||| v == 0x202F
    ||| v == 0x205F
    ||| v == 0x3000
}

/// `char::is_whitespace`.
pub fn is_whitespace(c: char) -> (r: bool)
    ensures
        r == is_ws(c),
{
    let v = c as u32;
    (9 <= v && v <= 13) || v == 32 || v == 0x85 || v == 0xA0 || v == 0x1680 || (0x2000 <= v && v <= 0x200A)
        || v == 0x2028 || v == 0x2029 || v == 0x202F || v == 0x205F || v == 0x3000
}

/// `s` without leading whitespace.
pub open spec fn trim_start(s: Seq<char>) -> Seq<char>
    decreases s.len(),
{
    if s.len() > 0 && is_ws(s[0]) {
        trim_start(s.drop_first())
    } else {
        s
    }
}

/// `s` without trailing whitespace.
pub open spec fn trim_end(s: Seq<char>) -> Seq<char>
    decreases s.len(),
{
    if s.len() > 0 && is_ws(s.last()) {
        trim_end(s.drop_last())
    } else {
        s
    }
}

/// `s` without surrounding whitespace (`str::trim`).
pub open spec fn trim(s: Seq<char>) -> Seq<char> {
    trim_end(trim_start(s))
}

/// The bounds of `cs[lo..hi]` trimmed.
pub fn trim_bounds(cs: &[char], lo: usize, hi: usize) -> (r: (usize, usize))
    requires
        lo <= hi <= cs@.len(),
    ensures
        lo <= r.0 <= r.1 <= hi,
        cs@.subrange(r.0 as int, r.1 as int) == trim(cs@.subrange(lo as int, hi as int)),
{
    let mut a = lo;
    while a < hi && is_whitespace(cs[a])
        invariant
            lo <= a <= hi <= cs@.len(),
            trim_start(cs@.subrange(a as int, hi as int)) == trim_start(cs@.subrange(lo as int, hi as int)),
        decreases hi - a,
    {
        proof {
            assert(cs@.subrange(a as int, hi as int).drop_first() =~= cs@.subrange(a + 1, hi as int));
        }
        a = a + 1;
    }
    proof {
        assert(trim_start(cs@.subrange(a as int, hi as int)) == cs@.subrange(a as int, hi as int));
    }
    let mut b = hi;
    while b > a && is_whitespace(cs[b - 1])
        invariant
            lo <= a <= b <= hi <= cs@.len(),
            trim_end(cs@.subrange(a as int, b as int)) == trim(cs@.subrange(lo as int, hi as int)),
        decreases b,
    {
        proof {
            assert(cs@.subrange(a as int, b as int).drop_last() =~= cs@.subrange(a as int, b - 1));
        }
        b = b - 1;
    }
    (a, b)
}

/// The first index of `c` in `s` at or after `from`, or `s.len()`.
pub open spec fn find_from(s: Seq<char>, c: char, from: int) -> int
    decreases s.len() - from,
{
    if from < 0 || from >= s.len() {
        s.len() as int
    } else if s[from] == c {
        from
    } else {
        find_from(s, c, from + 1)
    }
}

/// Facts about [`find_from`].
pub proof fn lemma_find_from(s: Seq<char>, c: char, from: int)
    requires
        0 <= from <= s.len(),
    ensures
        from <= find_from(s, c, from) <= s.len(),
        find_from(s, c, from) < s.len() ==> s[find_from(s, c, from)] == c,
        forall|k: int| from <= k < find_from(s, c, from) ==> s[k] != c,
    decreases s.len() - from,
{
    if from < s.len() && s[from] != c {
        lemma_find_from(s, c, from + 1);
    }
}

/// The first index of `c` in `cs[from..hi]`, or `hi`.
pub fn find_char(cs: &[char], from: usize, hi: usize, c: char) -> (r: usize)
    requires
        from <= hi <= cs@.len(),
    ensures
        r == from + find_from(cs@.subrange(from as int, hi as int), c, 0),
{
    let ghost w = cs@.subrange(from as int, hi as int);
    let mut i = from;
    while i < hi && cs[i] != c
        invariant
            from <= i <= hi <= cs@.len(),
            w == cs@.subrange(from as int, hi as int),
            find_from(w, c, (i - from) as int) == find_from(w, c, 0),
        decreases hi - i,
    {
        i = i + 1;
    }
    i
}

/// The pieces of `s` between occurrences of `c`, from index `from` (`str::split`).
pub open spec fn split_from(s: Seq<char>, c: char, from: int) -> Seq<Seq<char>>
    decreases s.len() - from,
{
    if from < 0 || from > s.len() {
        seq![]
    } else {
        let j = find_from(s, c, from);
        proof {
            lemma_find_from(s, c, from);
        }
        if j < s.len() {
            seq![s.subrange(from, j)] + split_from(s, c, j + 1)
        } else {
            seq![s.subrange(from, s.len() as int)]
        }
    }
}

/// `s` split at every `c`.
pub open spec fn split_on(s: Seq<char>, c: char) -> Seq<Seq<char>> {
    split_from(s, c, 0)
}

/// Whether the characters `cs[lo..hi]` spell `lit`.
pub fn eq_lit(cs: &[char], lo: usize, hi: usize, lit: &str) -> (r: bool)
    requires
        lo <= hi <= cs@.len(),
    ensures
        r == (cs@.subrange(lo as int, hi as int) == lit@),
{
    let l = chars_of(lit);
    if hi - lo != l.len() {
        return false;
    }
    let mut i: usize = 0;
    while i < l.len()
        invariant
            lo <= hi <= cs@.len(),
            hi - lo == l@.len(),
            l@ == lit@,
            i <= l@.len(),
            forall|k: int| 0 <= k < i ==> cs@[lo + k] == l@[k],
        decreases l@.len() - i,
    {
        if cs[lo + i] != l[i] {
            proof {
                assert(cs@.subrange(lo as int, hi as int)[i as int] != lit@[i as int]);
            }
            return false;
        }
        i = i + 1;
    }
    proof {
        assert(cs@.subrange(lo as int, hi as int) =~= lit@);
    }
    true
}

/// The value of a decimal digit character.
pub open spec fn digit_val(c: char) -> nat {
    (c as u32 - '0' as u32) as nat
}

/// Whether `c` is an ASCII decimal digit.
pub open spec fn is_digit(c: char) -> bool {
    '0' <= c && c <= '9'
}

/// The value of a string of decimal digits.
pub open spec fn digits_value(d: Seq<char>) -> nat
    decreases d.len(),
{
    if d.len() == 0 {
        0
    } else {
        digits_value(d.drop_last()) * 10 + digit_val(d.last())
    }
}

/// Whether every character of `d` is a decimal digit.
pub open spec fn all_digits(d: Seq<char>) -> bool {
    forall|i: int| 0 <= i < d.len() ==> is_digit(#[trigger] d[i])
}

/// The value of a non-negative decimal number with an optional leading `+` (the grammar of
/// `str::parse` for unsigned integers), if well-formed.
pub open spec fn unsigned_value(s: Seq<char>) -> Option<nat> {
    let d = if s.len() > 0 && s[0] == '+' { s.drop_first() } else { s };
    if d.len() > 0 && all_digits(d) {
        Some(digits_value(d))
    } else {
        None
    }
}

/// The value of a decimal number with an optional leading `+` or `-` (the grammar of
/// `str::parse` for signed integers), if well-formed.
pub open spec fn signed_value(s: Seq<char>) -> Option<int> {
    let neg = s.len() > 0 && s[0] == '-';
    let d = if s.len() > 0 && (s[0] == '+' || s[0] == '-') { s.drop_first() } else { s };
    if d.len() > 0 && all_digits(d) {
        Some(if neg { -digits_value(d) } else { digits_value(d) as int })
    } else {
        None
    }
}

proof fn lemma_digits_step(d: Seq<char>, k: int)
    requires
        0 <= k < d.len(),
    ensures
        digits_value(d.subrange(0, k + 1)) == digits_value(d.subrange(0, k)) * 10 + digit_val(d[k]),
{
    assert(d.subrange(0, k + 1).drop_last() =~= d.subrange(0, k));
}

/// Reads the decimal digits `cs[lo..hi]` (all digits, at least one), saturating at `cap + 1`:
/// returns the value when it is at most `cap`, else `None`.
pub fn read_digits(cs: &[char], lo: usize, hi: usize, cap: u64) -> (r: Option<u64>)
    requires
        lo <= hi <= cs@.len(),
        cap <= 0xFFFF_FFFF_FFFF,
    ensures
        !all_digits(cs@.subrange(lo as int, hi as int)) ==> r is None,
        all_digits(cs@.subrange(lo as int, hi as int)) ==> match r {
            Some(v) => v == digits_value(cs@.subrange(lo as int, hi as int)) && v <= cap,
            None => digits_value(cs@.subrange(lo as int, hi as int)) > cap,
        },
{
    let ghost d = cs@.subrange(lo as int, hi as int);
    let mut v: u64 = 0;
    let mut i = lo;
    let mut over = false;
    proof {
        assert(d.subrange(0, 0) =~= Seq::<char>::empty());
    }
    while i < hi
        invariant
            lo <= i <= hi <= cs@.len(),
            d == cs@.subrange(lo as int, hi as int),
            cap <= 0xFFFF_FFFF_FFFF,
            all_digits(d.subrange(0, i - lo)),
            !over ==> v == digits_value(d.subrange(0, i - lo)) && v <= cap,
            over ==> digits_value(d.subrange(0, i - lo)) > cap,
        decreases hi - i,
    {
        let c = cs[i];
        if !('0' <= c && c <= '9') {
            proof {
                assert(!is_digit(d[i - lo]));
            }
            return None;
        }
        proof {
            lemma_digits_step(d, i - lo);
            assert(d.subrange(0, i - lo + 1) =~= d.subrange(0, i - lo).push(c));
        }
        if !over {
            let nv = v * 10 + (c as u32 - '0' as u32) as u64;
            if nv > cap {
                over = true;
            } else {
                v = nv;
            }
        }
        i = i + 1;
    }
    proof {
        assert(d.subrange(0, hi - lo) =~= d);
    }
    if over { None } else { Some(v) }
}

/// `str::parse::<u16>` of `cs[lo..hi]`.
pub fn parse_u16(cs: &[char], lo: usize, hi: usize) -> (r: Option<u16>)
    requires
        lo <= hi <= cs@.len(),
    ensures
        r == match unsigned_value(cs@.subrange(lo as int, hi as int)) {
            Some(v) => if v <= u16::MAX { Some(v as u16) } else { None },
            None => None,
        },
{
    let ghost s = cs@.subrange(lo as int, hi as int);
    let start = if lo < hi && cs[lo] == '+' { lo + 1 } else { lo };
    proof {
        if lo < hi && cs@[lo as int] == '+' {
            assert(s.drop_first() =~= cs@.subrange(start as int, hi as int));
        }
    }
    if start >= hi {
        return None;
    }
    match read_digits(cs, start, hi, 65535) {
        Some(v) => Some(v as u16),
        None => None,
    }
}

/// `str::parse::<u32>` of `cs[lo..hi]`.
pub fn parse_u32(cs: &[char], lo: usize, hi: usize) -> (r: Option<u32>)
    requires
        lo <= hi <= cs@.len(),
    ensures
        r == match unsigned_value(cs@.subrange(lo as int, hi as int)) {
            Some(v) => if v <= u32::MAX { Some(v as u32) } else { None },
            None => None,
        },
{
    let ghost s = cs@.subrange(lo as int, hi as int);
    let start = if lo < hi && cs[lo] == '+' { lo + 1 } else { lo };
    proof {
        if lo < hi && cs@[lo as int] == '+' {
            assert(s.drop_first() =~= cs@.subrange(start as int, hi as int));
        }
    }
    if start >= hi {
        return None;
    }
    match read_digits(cs, start, hi, 0xFFFF_FFFF) {
        Some(v) => Some(v as u32),
        None => None,
    }
}

/// `str::parse::<i16>` of `cs[lo..hi]`.
pub fn parse_i16(cs: &[char], lo: usize, hi: usize) -> (r: Option<i16>)
    requires
        lo <= hi <= cs@.len(),
    ensures
        r == match signed_value(cs@.subrange(lo as int, hi as int)) {
            Some(v) => if i16::MIN <= v <= i16::MAX { Some(v as i16) } else { None },
            None => None,
        },
{
    let ghost s = cs@.subrange(lo as int, hi as int);
    let neg = lo < hi && cs[lo] == '-';
    let start = if lo < hi && (cs[lo] == '+' || cs[lo] == '-') { lo + 1 } else { lo };
    proof {
        if lo < hi && (cs@[lo as int] == '+' || cs@[lo as int] == '-') {
            assert(s.drop_first() =~= cs@.subrange(start as int, hi as int));
        }
    }
    if start >= hi {
        return None;
    }
    if neg {
        match read_digits(cs, start, hi, 32768) {
            Some(v) => Some((0 - v as i32) as i16),
            None => None,
        }
    } else {
        match read_digits(cs, start, hi, 32767) {
            Some(v) => Some(v as i16),
            None => None,
        }
    }
}

/// The character of decimal digit `d`.
pub open spec fn digit_char(d: nat) -> char {
    (d + 48) as char
}

/// The decimal digits of `n`, without leading zeros (what `format!("{n}")` writes).
pub open spec fn decimal(n: nat) -> Seq<char>
    decreases n,
{
    if n < 10 {
        seq![digit_char(n)]
    } else {
        decimal(n / 10).push(digit_char(n % 10))
    }
}

proof fn lemma_digit_char(k: nat)
    requires
        k < 10,
    ensures
        is_digit(digit_char(k)),
        digit_val(digit_char(k)) == k,
{
    if k == 0 {
    } else if k == 1 {
    } else if k == 2 {
    } else if k == 3 {
    } else if k == 4 {
    } else if k == 5 {
    } else if k == 6 {
    } else if k == 7 {
    } else if k == 8 {
    } else {
    }
}

/// The decimal digits of `n` read back as a number give `n`.
pub proof fn lemma_decimal(n: nat)
    ensures
        decimal(n).len() > 0,
        all_digits(decimal(n)),
        digits_value(decimal(n)) == n,
        unsigned_value(decimal(n)) == Some(n),
    decreases n,
{
    lemma_digit_char(n % 10);
    assert(n == (n / 10) * 10 + n % 10) by (nonlinear_arith);
    if n >= 10 {
        lemma_decimal(n / 10);
        let d = decimal(n);
        assert(d.drop_last() =~= decimal(n / 10));
        assert forall|i: int| 0 <= i < d.len() implies is_digit(#[trigger] d[i]) by {
            if i < d.len() - 1 {
                assert(d[i] == decimal(n / 10)[i]);
            }
        }
    }
    if n < 10 {
        assert(decimal(n).drop_last() =~= Seq::<char>::empty());
        assert(digits_value(Seq::<char>::empty()) == 0);
    }
    assert(is_digit(decimal(n)[0]));
}

/// The decimal digits of `n`.
pub fn decimal_string(n: u64) -> (r: String)
    ensures
        r@ == decimal(n as nat),
{
    let mut digits: Vec<char> = Vec::new();
    let mut m = n;
    while m >= 10
        invariant
            decimal(n as nat) == decimal(m as nat) + digits@,
        decreases m,
    {
        let d = (m % 10) as u8;
        let c = (48u8 + d) as char;
        proof {
            assert(decimal(m as nat) + digits@ =~= decimal((m / 10) as nat) + digits@.insert(0, c));
        }
        digits.insert(0, c);
        m = m / 10;
    }
    let c = (48u8 + m as u8) as char;
    proof {
        assert(decimal(m as nat) + digits@ =~= digits@.insert(0, c));
    }
    digits.insert(0, c);
    string_of(digits.as_slice())
}

/// Whether `v` is a Unicode scalar value (a `char`).
pub open spec fn is_scalar_value(v: u32) -> bool {
    v <= 0x10FFFF && !(0xD800 <= v && v <= 0xDFFF)
}

/// `char::from_u32`: the character of scalar value `v`, `None` for surrogates and values past
/// U+10FFFF.
#[verifier::external_body]
pub(crate) fn char_from_u32(v: u32) -> (r: Option<char>)
    ensures
        is_scalar_value(v) ==> r == Some(v as char),
        !is_scalar_value(v) ==> r is None,
{
    char::from_u32(v)
}

/// A UTF-16 high surrogate.
pub open spec fn is_high_surrogate(u: u16) -> bool {
    0xD800 <= u && u <= 0xDBFF
}

/// A UTF-16 low surrogate.
pub open spec fn is_low_surrogate(u: u16) -> bool {
    0xDC00 <= u && u <= 0xDFFF
}

/// The scalar value of a surrogate pair.
pub open spec fn pair_value(h: u16, l: u16) -> u32 {
    (0x10000 + (h - 0xD800) * 0x400 + (l - 0xDC00)) as u32
}

/// UTF-16 decoding with every unpaired surrogate read as U+FFFD (what
/// `String::from_utf16_lossy` does).
pub open spec fn utf16_lossy(u: Seq<u16>) -> Seq<char>
    decreases u.len(),
{
    if u.len() == 0 {
        seq![]
    } else if u.len() >= 2 && is_high_surrogate(u[0]) && is_low_surrogate(u[1]) {
        seq![pair_value(u[0], u[1]) as char] + utf16_lossy(u.skip(2))
    } else if 0xD800 <= u[0] && u[0] <= 0xDFFF {
        seq!['\u{FFFD}'] + utf16_lossy(u.skip(1))
    } else {
        seq![u[0] as u32 as char] + utf16_lossy(u.skip(1))
    }
}

/// Decodes UTF-16, reading every unpaired surrogate as U+FFFD.
pub fn decode_utf16_lossy(u: &[u16]) -> (r: Vec<char>)
    ensures
        r@ == utf16_lossy(u@),
{
    let mut out: Vec<char> = Vec::new();
    let mut i: usize = 0;
    let n = u.len();
    assert(u@.skip(0) =~= u@);
    while i < n
        invariant
            n == u@.len(),
            i <= n,
            out@ + utf16_lossy(u@.skip(i as int)) == utf16_lossy(u@),
        decreases n - i,
    {
        let rest = Ghost(u@.skip(i as int));
        let a = u[i];
        if n - i >= 2 && 0xD800 <= a && a <= 0xDBFF && 0xDC00 <= u[i + 1] && u[i + 1] <= 0xDFFF {
            let b = u[i + 1];
            let v: u32 = 0x10000 + (a as u32 - 0xD800) * 0x400 + (b as u32 - 0xDC00);
            proof {
                assert(rest@[0] == a && rest@[1] == b);
                assert(rest@.skip(2) =~= u@.skip(i + 2));
                assert(is_scalar_value(v));
            }
            match char_from_u32(v) {
                Some(c) => {
                    out.push(c);
                },
                None => {},
            }
            proof {
                assert(out@ + utf16_lossy(u@.skip(i + 2)) =~= utf16_lossy(u@));
            }
            i = i + 2;
        } else {
            let c = if 0xD800 <= a && a <= 0xDFFF {
                '\u{FFFD}'
            } else {
                match char_from_u32(a as u32) {
                    Some(c) => c,
                    None => '\u{FFFD}',
                }
            };
            proof {
                assert(rest@[0] == a);
                assert(rest@.skip(1) =~= u@.skip(i + 1));
            }
            out.push(c);
            proof {
                assert(out@ + utf16_lossy(u@.skip(i + 1)) =~= utf16_lossy(u@));
            }
            i = i + 1;
        }
    }
    assert(u@.skip(i as int) =~= Seq::<u16>::empty());
    assert(out@ + Seq::<char>::empty() =~= out@);
    out
}

/// `s` without its trailing NUL characters.
pub open spec fn trim_nuls(s: Seq<char>) -> Seq<char>
    decreases s.len(),
{
    if s.len() > 0 && s.last() == '\0' {
        trim_nuls(s.drop_last())
    } else {
        s
    }
}

/// The string made of `cs` without its trailing NUL characters.
pub fn string_without_trailing_nuls(cs: &[char]) -> (r: String)
    ensures
        r@ == trim_nuls(cs@),
{
    let mut end = cs.len();
    assert(cs@.subrange(0, end as int) =~= cs@);
    while end > 0 && cs[end - 1] == '\0'
        invariant
            end <= cs@.len(),
            trim_nuls(cs@.subrange(0, end as int)) == trim_nuls(cs@),
        decreases end,
    {
        assert(cs@.subrange(0, end as int).drop_last() =~= cs@.subrange(0, end - 1));
        end = end - 1;
    }
    string_between(cs, 0, end)
}

/// `str::parse::<u64>` of `cs[lo..hi]`: an optional `+` and decimal digits whose value fits.
pub fn parse_u64(cs: &[char], lo: usize, hi: usize) -> (r: Option<u64>)
    requires
        lo <= hi <= cs@.len(),
    ensures
        r == match unsigned_value(cs@.subrange(lo as int, hi as int)) {
            Some(v) => if v <= u64::MAX { Some(v as u64) } else { None },
            None => None,
        },
{
    let ghost s = cs@.subrange(lo as int, hi as int);
    let start = if lo < hi && cs[lo] == '+' { lo + 1 } else { lo };
    proof {
        if lo < hi && cs@[lo as int] == '+' {
            assert(s.drop_first() =~= cs@.subrange(start as int, hi as int));
        }
    }
    if start >= hi {
        return None;
    }
    let ghost d = cs@.subrange(start as int, hi as int);
    let mut v: u64 = 0;
    let mut over = false;
    let mut i = start;
    proof {
        assert(d.subrange(0, 0) =~= Seq::<char>::empty());
    }
    while i < hi
        invariant
            start <= i <= hi <= cs@.len(),
            start < hi,
            d == cs@.subrange(start as int, hi as int),
            unsigned_value(cs@.subrange(lo as int, hi as int)) == (if all_digits(d) {
                Some(digits_value(d))
            } else {
                None
            }),
            all_digits(d.subrange(0, i - start)),
            !over ==> v == digits_value(d.subrange(0, i - start)),
            over ==> digits_value(d.subrange(0, i - start)) > u64::MAX,
        decreases hi - i,
    {
        let c = cs[i];
        if !('0' <= c && c <= '9') {
            proof {
                assert(!is_digit(d[i - start]));
                assert(!all_digits(d));
            }
            return None;
        }
        proof {
            lemma_digits_step(d, i - start);
            assert(d.subrange(0, i - start + 1) =~= d.subrange(0, i - start).push(c));
        }
        let dv = (c as u32 - '0' as u32) as u64;
        if !over {
            match v.checked_mul(10) {
                Some(m) => match m.checked_add(dv) {
                    Some(nv) => {
                        v = nv;
                    },
                    None => {
                        over = true;
                    },
                },
                None => {
                    over = true;
                },
            }
        }
        i = i + 1;
    }
    proof {
        assert(d.subrange(0, hi - start) =~= d);
    }
    if over { None } else { Some(v) }
}

} // verus!
