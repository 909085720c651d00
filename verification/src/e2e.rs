//! Scripted remote input for end-to-end runs against a real host: a step language parsed into
//! [`Step`]s.
//!
//! | Step | Meaning |
//! |---|---|
//! | `wait:<secs>` | pause (decimal seconds, fraction and exponent allowed, at most an hour) |
//! | `click:<x>,<y>` | move + left press + release, desktop pixels |
//! | `move:<x>,<y>` | absolute pointer move |
//! | `text:<s>` | Unicode key down/up per UTF-16 unit |
//! | `key:<name>` | scancode press + release (`Enter`, `Tab`, `Esc`, `Down`, `Space`) |
//! | `ctrl:<k>`, `ctrlalt:<k>`, `ctrlshift:<k>`, `super` | chords |
//! | `scroll:<units>` | vertical wheel |
//!
//! Placeholders such as `@PW` are substituted from the caller's secrets **after** parsing, so a
//! [`Script`]'s `Debug` output never contains them.
use std::fmt;
use std::time::Duration;
use vstd::prelude::*;

use crate::text::{
    all_digits, chars_of, decimal, decimal_string, digit_val, digits_value, eq_lit, find_char, find_from, is_digit, lemma_find_from, parse_i16,
    parse_u16, push_char, read_digits, signed_value, split_from, split_on, string_of, trim, trim_bounds, unsigned_value,
};
use crate::fake_channels::{encode_utf16_char, utf16, utf16_of};
use crate::input::{InputEvent, MouseButton};
use crate::time::{debug_of_duration, duration_debug, duration_nanos, duration_new};

verus! {

/// One scripted step.
#[derive(Clone, PartialEq, Eq)]
pub enum Step {
    /// Pause.
    Wait(Duration),
    /// Left click at desktop pixels.
    Click {
        /// X.
        x: u16,
        /// Y.
        y: u16,
    },
    /// Absolute pointer move.
    Move {
        /// X.
        x: u16,
        /// Y.
        y: u16,
    },
    /// Unicode typing.
    Text(String),
    /// Scancode press + release.
    Key {
        /// Set-1 scancode.
        scancode: u8,
        /// Extended key.
        extended: bool,
    },
    /// Press all keys in order, release in reverse order.
    Chord(Vec<(u8, bool)>),
    /// Vertical wheel units (120 = one notch).
    Scroll(i16),
}

impl fmt::Debug for Step {
    /// Writes [`Step::describe`].
    #[verifier::external_body]
    fn fmt(&self, f: &mut fmt::Formatter<'_>) -> fmt::Result {
        f.write_str(self.describe().as_str())
    }
}

/// `true` or `false`.
pub open spec fn bool_text(b: bool) -> Seq<char> {
    if b { "true"@ } else { "false"@ }
}

/// The lower-case hexadecimal digits.
pub open spec fn hex_digits() -> Seq<char> {
    seq!['0', '1', '2', '3', '4', '5', '6', '7', '8', '9', 'a', 'b', 'c', 'd', 'e', 'f']
}

/// A byte as `0x` and two lower-case hex digits (`{:#04x}`).
pub open spec fn byte_hex(b: u8) -> Seq<char> {
    "0x"@ + seq![hex_digits()[(b / 16) as int], hex_digits()[(b % 16) as int]]
}

/// A signed number in decimal, `-` first when negative.
pub open spec fn i16_text(v: i16) -> Seq<char> {
    if v < 0 { "-"@ + decimal((-v) as nat) } else { decimal(v as nat) }
}

/// One chord key as a tuple: `(scancode, extended)`.
pub open spec fn chord_key_text(k: (u8, bool)) -> Seq<char> {
    "("@ + decimal(k.0 as nat) + ", "@ + bool_text(k.1) + ")"@
}

/// The chord keys, separated by `, `.
pub open spec fn chord_keys_text(keys: Seq<(u8, bool)>) -> Seq<char>
    decreases keys.len(),
{
    if keys.len() == 0 {
        Seq::<char>::empty()
    } else if keys.len() == 1 {
        chord_key_text(keys[0])
    } else {
        chord_keys_text(keys.drop_last()) + ", "@ + chord_key_text(keys.last())
    }
}

/// How a step is shown in logs and panics. Typed text may be a password: only its length in
/// characters is shown.
pub open spec fn step_text(s: StepView) -> Seq<char> {
    match s {
        StepView::Wait(n) => "Wait("@ + duration_debug(n) + ")"@,
        StepView::Click { x, y } => "Click("@ + decimal(x as nat) + ","@ + decimal(y as nat) + ")"@,
        StepView::Move { x, y } => "Move("@ + decimal(x as nat) + ","@ + decimal(y as nat) + ")"@,
        StepView::Text(t) => "Text(<"@ + decimal(t.len()) + " chars>)"@,
        StepView::Key { scancode, extended } => "Key("@ + byte_hex(scancode) + ", ext="@ + bool_text(extended)
            + ")"@,
        StepView::Chord(keys) => "Chord(["@ + chord_keys_text(keys) + "])"@,
        StepView::Scroll(u) => "Scroll("@ + i16_text(u) + ")"@,
    }
}

/// The text of typed text depends on its length alone: two texts of the same length are
/// shown alike, so no character of a password reaches a log.
pub proof fn lemma_text_shown_by_length(a: Seq<char>, b: Seq<char>)
    requires
        a.len() == b.len(),
    ensures
        step_text(StepView::Text(a)) == step_text(StepView::Text(b)),
{
}

fn bool_string(b: bool) -> (r: String)
    ensures
        r@ == bool_text(b),
{
    if b { String::from_str("true") } else { String::from_str("false") }
}

fn byte_hex_string(b: u8) -> (r: String)
    ensures
        r@ == byte_hex(b),
{
    let hex: [char; 16] = ['0', '1', '2', '3', '4', '5', '6', '7', '8', '9', 'a', 'b', 'c', 'd', 'e', 'f'];
    proof {
        assert(hex@ =~= hex_digits());
    }
    let mut s = String::from_str("0x");
    push_char(&mut s, hex[(b / 16) as usize]);
    push_char(&mut s, hex[(b % 16) as usize]);
    proof {
        assert(s@ =~= byte_hex(b));
    }
    s
}

fn i16_string(v: i16) -> (r: String)
    ensures
        r@ == i16_text(v),
{
    if v < 0 {
        let m: i32 = -(v as i32);
        String::from_str("-").concat(decimal_string(m as u64).as_str())
    } else {
        decimal_string(v as u64)
    }
}

fn chord_keys_string(keys: &Vec<(u8, bool)>) -> (r: String)
    ensures
        r@ == chord_keys_text(keys@),
{
    let mut s = String::new();
    let mut i: usize = 0;
    proof {
        assert(keys@.subrange(0, 0) =~= Seq::<(u8, bool)>::empty());
    }
    while i < keys.len()
        invariant
            i <= keys@.len(),
            s@ == chord_keys_text(keys@.subrange(0, i as int)),
        decreases keys@.len() - i,
    {
        let (sc, ext) = keys[i];
        let item = String::from_str("(").concat(decimal_string(sc as u64).as_str()).concat(", ").concat(
            bool_string(ext).as_str(),
        ).concat(")");
        proof {
            let pre = keys@.subrange(0, i + 1);
            assert(pre.drop_last() =~= keys@.subrange(0, i as int));
            assert(pre.last() == (sc, ext));
            assert(item@ == chord_key_text((sc, ext)));
            if i == 0 {
                assert(pre.len() == 1);
                assert(pre[0] == (sc, ext));
            }
        }
        if i == 0 {
            s = item;
            proof {
                assert(s@ =~= chord_keys_text(keys@.subrange(0, 1)));
            }
        } else {
            s = s.concat(", ").concat(item.as_str());
        }
        i = i + 1;
    }
    proof {
        assert(keys@.subrange(0, keys@.len() as int) =~= keys@);
    }
    s
}

impl Step {
    /// How the step is shown in logs and panics ([`step_text`]): typed text only by its
    /// length.
    pub fn describe(&self) -> (r: String)
        ensures
            r@ == step_text(self@),
    {
        match self {
            Step::Wait(d) => String::from_str("Wait(").concat(debug_of_duration(d).as_str()).concat(")"),
            Step::Click { x, y } => String::from_str("Click(").concat(decimal_string(*x as u64).as_str()).concat(
                ",",
            ).concat(decimal_string(*y as u64).as_str()).concat(")"),
            Step::Move { x, y } => String::from_str("Move(").concat(decimal_string(*x as u64).as_str()).concat(
                ",",
            ).concat(decimal_string(*y as u64).as_str()).concat(")"),
            Step::Text(t) => {
                let n = chars_of(t.as_str()).len();
                String::from_str("Text(<").concat(decimal_string(n as u64).as_str()).concat(" chars>)")
            },
            Step::Key { scancode, extended } => String::from_str("Key(").concat(
                byte_hex_string(*scancode).as_str(),
            ).concat(", ext=").concat(bool_string(*extended).as_str()).concat(")"),
            Step::Chord(keys) => String::from_str("Chord([").concat(chord_keys_string(keys).as_str()).concat("])"),
            Step::Scroll(u) => String::from_str("Scroll(").concat(i16_string(*u).as_str()).concat(")"),
        }
    }
}

/// What a step is, in mathematical terms (a pause as nanoseconds).
pub enum StepView {
    /// Pause of this many nanoseconds.
    Wait(nat),
    /// Left click.
    Click { x: u16, y: u16 },
    /// Pointer move.
    Move { x: u16, y: u16 },
    /// Unicode typing.
    Text(Seq<char>),
    /// Scancode press + release.
    Key { scancode: u8, extended: bool },
    /// A chord.
    Chord(Seq<(u8, bool)>),
    /// Wheel units.
    Scroll(i16),
}

impl View for Step {
    type V = StepView;

    open spec fn view(&self) -> StepView {
        match self {
            Step::Wait(d) => StepView::Wait(duration_nanos(*d)),
            Step::Click { x, y } => StepView::Click { x: *x, y: *y },
            Step::Move { x, y } => StepView::Move { x: *x, y: *y },
            Step::Text(t) => StepView::Text(t@),
            Step::Key { scancode, extended } => StepView::Key { scancode: *scancode, extended: *extended },
            Step::Chord(keys) => StepView::Chord(keys@),
            Step::Scroll(u) => StepView::Scroll(*u),
        }
    }
}

/// A script parse error (the offending step, never a substituted secret).
#[derive(Debug, Clone, PartialEq, Eq)]
pub struct ScriptError(pub String);

/// A parsed step list.
#[derive(Debug, Clone, Default, PartialEq, Eq)]
pub struct Script {
    steps: Vec<Step>,
}

/// Desktop position (1280×800) of the end-to-end test user's tile in the GDM greeter.
pub const GREETER_TEST_USER_TILE: (u16, u16) = (640, 427);

/// `10^k`.
pub open spec fn pow10(k: nat) -> nat
    decreases k,
{
    if k == 0 { 1 } else { pow10((k - 1) as nat) * 10 }
}

/// Whether some digit of `d` is not `0`.
pub open spec fn any_nonzero(d: Seq<char>) -> bool {
    exists|i: int| 0 <= i < d.len() && #[trigger] d[i] != '0'
}

/// The nanoseconds of a fraction's digits (digits past the ninth are dropped).
pub open spec fn frac_nanos(d: Seq<char>) -> nat {
    if d.len() >= 9 {
        digits_value(d.subrange(0, 9))
    } else {
        digits_value(d) * pow10((9 - d.len()) as nat)
    }
}

/// A pause in plain decimal seconds: an optional sign, digits, an optional fraction (at least
/// one digit in all), between zero and an hour; the length in nanoseconds (digits past the
/// ninth of the fraction dropped).
pub open spec fn plain_wait_nanos(v: Seq<char>) -> Option<nat> {
    let neg = v.len() > 0 && v[0] == '-';
    let b = if v.len() > 0 && (v[0] == '+' || v[0] == '-') { v.drop_first() } else { v };
    let dot = find_from(b, '.', 0);
    let ip = b.subrange(0, dot);
    let fp = if dot < b.len() { b.subrange(dot + 1, b.len() as int) } else { Seq::<char>::empty() };
    if !(all_digits(ip) && all_digits(fp) && ip.len() + fp.len() > 0) {
        None
    } else {
        let iv = digits_value(ip);
        let nz = any_nonzero(fp);
        if neg && (iv > 0 || nz) {
            None
        } else if iv > 3600 || (iv == 3600 && nz) {
            None
        } else {
            Some(iv * 1_000_000_000 + frac_nanos(fp))
        }
    }
}

/// A coordinate pair `x,y` (each trimmed, a `u16`).
pub open spec fn spec_xy(v: Seq<char>) -> Option<(u16, u16)> {
    let comma = find_from(v, ',', 0);
    if comma >= v.len() {
        None
    } else {
        match (
            unsigned_value(trim(v.subrange(0, comma))),
            unsigned_value(trim(v.subrange(comma + 1, v.len() as int))),
        ) {
            (Some(x), Some(y)) => if x <= u16::MAX && y <= u16::MAX {
                Some((x as u16, y as u16))
            } else {
                None
            },
            _ => None,
        }
    }
}

/// The scancode of a chord letter.
pub open spec fn spec_letter(v: Seq<char>) -> Option<u8> {
    if v == "a"@ {
        Some(0x1Eu8)
    } else if v == "c"@ {
        Some(0x2Eu8)
    } else if v == "l"@ {
        Some(0x26u8)
    } else if v == "t"@ {
        Some(0x14u8)
    } else if v == "v"@ {
        Some(0x2Fu8)
    } else {
        None
    }
}

/// The scancode of a named key.
pub open spec fn spec_key(v: Seq<char>) -> Option<(u8, bool)> {
    if v == "Enter"@ {
        Some((0x1Cu8, false))
    } else if v == "Tab"@ {
        Some((0x0Fu8, false))
    } else if v == "Esc"@ {
        Some((0x01u8, false))
    } else if v == "Down"@ {
        Some((0x50u8, true))
    } else if v == "Space"@ {
        Some((0x39u8, false))
    } else {
        None
    }
}

/// `s` with every non-overlapping occurrence of `pat` replaced by `rep`, left to right
/// (`str::replace`; an empty pattern matches before every character and at the end).
pub open spec fn replace_all(s: Seq<char>, pat: Seq<char>, rep: Seq<char>) -> Seq<char>
    decreases s.len(),
{
    if pat.len() == 0 {
        if s.len() == 0 {
            rep
        } else {
            rep + seq![s[0]] + replace_all(s.drop_first(), pat, rep)
        }
    } else if s.len() < pat.len() {
        s
    } else if s.subrange(0, pat.len() as int) == pat {
        rep + replace_all(s.subrange(pat.len() as int, s.len() as int), pat, rep)
    } else {
        seq![s[0]] + replace_all(s.drop_first(), pat, rep)
    }
}

/// `s` with each placeholder in turn replaced by its value.
pub open spec fn replace_each(s: Seq<char>, ph: Seq<(Seq<char>, Seq<char>)>) -> Seq<char>
    decreases ph.len(),
{
    if ph.len() == 0 {
        s
    } else {
        replace_each(replace_all(s, ph[0].0, ph[0].1), ph.drop_first())
    }
}

/// `n` zero digits.
pub open spec fn zeros(n: nat) -> Seq<char> {
    Seq::new(n, |i: int| '0')
}

/// The first exponent mark (`e` or `E`) of `v`, or its length when there is none.
pub open spec fn exponent_mark(v: Seq<char>) -> int {
    let a = find_from(v, 'e', 0);
    let b = find_from(v, 'E', 0);
    if a <= b { a } else { b }
}

/// The digits `ip` `.` `fp` with the decimal point moved `x` places to the right (to the left
/// when `x` is negative), zeros filled in where the point leaves the digits.
pub open spec fn shifted(ip: Seq<char>, fp: Seq<char>, x: int) -> Seq<char> {
    place_point(ip + fp, ip.len() + x)
}

/// The digits `ds` with a decimal point after the first `p` of them, zeros filled in where
/// the point falls outside them.
pub open spec fn place_point(ds: Seq<char>, p: int) -> Seq<char> {
    if p <= 0 {
        seq!['.'] + zeros((-p) as nat) + ds
    } else if p >= ds.len() {
        ds + zeros((p - ds.len()) as nat)
    } else {
        ds.subrange(0, p) + seq!['.'] + ds.subrange(p, ds.len() as int)
    }
}

/// A pause in seconds, as `f64`'s decimal grammar writes it (an optional sign, digits with an
/// optional fraction, at least one digit, an optional exponent `e`/`E` with an optional sign
/// and digits), between zero and an hour: the exponent moves the decimal point, and what
/// results is read as a plain decimal ([`plain_wait_nanos`]).
pub open spec fn wait_nanos(v: Seq<char>) -> Option<nat> {
    let k = exponent_mark(v);
    if k >= v.len() {
        plain_wait_nanos(v)
    } else {
        let s: int = if v.len() > 0 && (v[0] == '+' || v[0] == '-') { 1 } else { 0 };
        let m = v.subrange(s, k);
        let dot = find_from(m, '.', 0);
        let ip = m.subrange(0, dot);
        let fp = if dot < m.len() { m.subrange(dot + 1, m.len() as int) } else { Seq::<char>::empty() };
        exponent_wait_nanos(v.subrange(0, s), ip, fp, v.subrange(k + 1, v.len() as int))
    }
}

/// A pause written with sign `sg`, mantissa digits `ip` `.` `fp` and exponent text `xs` (after
/// the mark): the mantissa with its point moved by the exponent, read as a plain decimal.
pub open spec fn exponent_wait_nanos(sg: Seq<char>, ip: Seq<char>, fp: Seq<char>, xs: Seq<char>) -> Option<nat> {
    match signed_value(xs) {
        None => None,
        Some(x) => if all_digits(ip) && all_digits(fp) && ip.len() + fp.len() > 0 {
            plain_wait_nanos(sg + shifted(ip, fp, x))
        } else {
            None
        },
    }
}

/// The fraction digits of a mantissa ending at `k` whose point is at `dot` (none when `dot`
/// is `k`).
pub open spec fn fraction_part(cs: Seq<char>, dot: int, k: int) -> Seq<char> {
    if dot < k { cs.subrange(dot + 1, k) } else { Seq::<char>::empty() }
}

/// The step that a (trimmed) piece of script describes.
pub open spec fn spec_parse_step(step: Seq<char>, ph: Seq<(Seq<char>, Seq<char>)>) -> Option<StepView> {
    let colon = find_from(step, ':', 0);
    let kind = step.subrange(0, colon);
    let value = if colon < step.len() { step.subrange(colon + 1, step.len() as int) } else { Seq::<char>::empty() };
    if kind == "wait"@ {
        match wait_nanos(value) {
            Some(n) => Some(StepView::Wait(n)),
            None => None,
        }
    } else if kind == "click"@ {
        match spec_xy(value) {
            Some((x, y)) => Some(StepView::Click { x, y }),
            None => None,
        }
    } else if kind == "move"@ {
        match spec_xy(value) {
            Some((x, y)) => Some(StepView::Move { x, y }),
            None => None,
        }
    } else if kind == "text"@ {
        Some(StepView::Text(replace_each(value, ph)))
    } else if kind == "key"@ {
        match spec_key(value) {
            Some((scancode, extended)) => Some(StepView::Key { scancode, extended }),
            None => None,
        }
    } else if kind == "ctrl"@ {
        match spec_letter(value) {
            Some(l) => Some(StepView::Chord(seq![(0x1Du8, false), (l, false)])),
            None => None,
        }
    } else if kind == "ctrlalt"@ {
        match spec_letter(value) {
            Some(l) => Some(StepView::Chord(seq![(0x1Du8, false), (0x38u8, false), (l, false)])),
            None => None,
        }
    } else if kind == "ctrlshift"@ {
        match spec_letter(value) {
            Some(l) => Some(StepView::Chord(seq![(0x1Du8, false), (0x2Au8, false), (l, false)])),
            None => None,
        }
    } else if kind == "super"@ {
        Some(StepView::Chord(seq![(0x5Bu8, true)]))
    } else if kind == "scroll"@ {
        match signed_value(value) {
            Some(u) => if i16::MIN <= u <= i16::MAX {
                Some(StepView::Scroll(if u < -255 { -255i16 } else if u > 255 { 255i16 } else { u as i16 }))
            } else {
                None
            },
            None => None,
        }
    } else {
        None
    }
}

/// The steps of the `|`-separated pieces, each trimmed, blank pieces skipped; `Err` holds the
/// first piece that is not a step.
pub open spec fn parse_pieces(pieces: Seq<Seq<char>>, ph: Seq<(Seq<char>, Seq<char>)>) -> Result<Seq<StepView>, Seq<char>>
    decreases pieces.len(),
{
    if pieces.len() == 0 {
        Ok(seq![])
    } else {
        let p = trim(pieces[0]);
        let rest = parse_pieces(pieces.drop_first(), ph);
        if p.len() == 0 {
            rest
        } else {
            match spec_parse_step(p, ph) {
                None => Err(p),
                Some(st) => match rest {
                    Ok(r) => Ok(seq![st] + r),
                    Err(e) => Err(e),
                },
            }
        }
    }
}

/// The script a source text describes.
pub open spec fn spec_parse_script(src: Seq<char>, ph: Seq<(Seq<char>, Seq<char>)>) -> Result<Seq<StepView>, Seq<char>> {
    parse_pieces(split_on(src, '|'), ph)
}

/// The views of a list of steps.
pub open spec fn steps_view(v: Seq<Step>) -> Seq<StepView> {
    v.map_values(|s: Step| s@)
}

/// The views of the placeholder list.
pub open spec fn placeholders_view(ph: Seq<(&str, &str)>) -> Seq<(Seq<char>, Seq<char>)> {
    ph.map_values(|p: (&str, &str)| (p.0@, p.1@))
}


/// `s` with every occurrence of `pat` replaced by `rep` ([`replace_all`]).
fn replace_chars(s: &[char], pat: &[char], rep: &[char]) -> (r: Vec<char>)
    ensures
        r@ == replace_all(s@, pat@, rep@),
{
    let n = s.len();
    let m = pat.len();
    let mut out: Vec<char> = Vec::new();
    let mut i: usize = 0;
    proof {
        assert(s@.subrange(0, n as int) =~= s@);
        assert(out@ + replace_all(s@, pat@, rep@) =~= replace_all(s@, pat@, rep@));
    }
    if m == 0 {
        while i < n
            invariant
                n == s@.len(),
                pat@.len() == 0,
                i <= n,
                out@ + replace_all(s@.subrange(i as int, n as int), pat@, rep@) == replace_all(s@, pat@, rep@),
            decreases n - i,
        {
            let ghost t = s@.subrange(i as int, n as int);
            proof {
                assert(t.drop_first() =~= s@.subrange(i + 1, n as int));
                assert(out@ + (rep@ + seq![t[0]] + replace_all(t.drop_first(), pat@, rep@))
                    =~= (out@ + rep@ + seq![s@[i as int]]) + replace_all(s@.subrange(i + 1, n as int), pat@, rep@));
            }
            append_chars(&mut out, rep);
            out.push(s[i]);
            i = i + 1;
        }
        proof {
            assert(s@.subrange(n as int, n as int) =~= Seq::<char>::empty());
        }
        append_chars(&mut out, rep);
        return out;
    }
    while i < n
        invariant
            n == s@.len(),
            m == pat@.len(),
            m > 0,
            i <= n,
            out@ + replace_all(s@.subrange(i as int, n as int), pat@, rep@) == replace_all(s@, pat@, rep@),
        decreases n - i,
    {
        let ghost t = s@.subrange(i as int, n as int);
        if n - i < m {
            proof {
                assert(replace_all(t, pat@, rep@) == t);
            }
            append_chars(&mut out, vstd::slice::slice_subrange(s, i, n));
            proof {
                assert(s@.subrange(n as int, n as int) =~= Seq::<char>::empty());
                assert(replace_all(s@.subrange(n as int, n as int), pat@, rep@) =~= Seq::<char>::empty());
                assert(out@ + Seq::<char>::empty() =~= out@);
            }
            i = n;
        } else {
            let mut k: usize = 0;
            while k < m && s[i + k] == pat[k]
                invariant
                    n == s@.len(),
                    m == pat@.len(),
                    i + m <= n,
                    k <= m,
                    forall|j: int| 0 <= j < k ==> s@[i + j] == pat@[j],
                decreases m - k,
            {
                k = k + 1;
            }
            if k == m {
                proof {
                    assert(t.subrange(0, m as int) =~= pat@);
                    assert(t.subrange(m as int, t.len() as int) =~= s@.subrange(i + m, n as int));
                    assert(out@ + (rep@ + replace_all(s@.subrange(i + m, n as int), pat@, rep@))
                        =~= (out@ + rep@) + replace_all(s@.subrange(i + m, n as int), pat@, rep@));
                }
                append_chars(&mut out, rep);
                i = i + m;
            } else {
                proof {
                    assert(t.subrange(0, m as int)[k as int] != pat@[k as int]);
                    assert(t.subrange(0, m as int) != pat@);
                    assert(t.drop_first() =~= s@.subrange(i + 1, n as int));
                    assert(out@ + (seq![t[0]] + replace_all(t.drop_first(), pat@, rep@))
                        =~= out@.push(s@[i as int]) + replace_all(s@.subrange(i + 1, n as int), pat@, rep@));
                }
                out.push(s[i]);
                i = i + 1;
            }
        }
    }
    proof {
        assert(s@.subrange(n as int, n as int) =~= Seq::<char>::empty());
        assert(out@ + Seq::<char>::empty() =~= out@);
    }
    out
}

/// Appends the characters of `b` to `out`.
fn append_chars(out: &mut Vec<char>, b: &[char])
    ensures
        final(out)@ == old(out)@ + b@,
{
    let mut i: usize = 0;
    while i < b.len()
        invariant
            i <= b@.len(),
            out@ == old(out)@ + b@.subrange(0, i as int),
        decreases b@.len() - i,
    {
        proof {
            assert(b@.subrange(0, i + 1) =~= b@.subrange(0, i as int).push(b@[i as int]));
        }
        out.push(b[i]);
        i = i + 1;
    }
    proof {
        assert(b@.subrange(0, i as int) =~= b@);
    }
}


proof fn lemma_pow10_le(k: nat)
    requires
        k <= 9,
    ensures
        pow10(k) <= 1_000_000_000,
        pow10(k) >= 1,
    decreases k,
{
    if k > 0 {
        lemma_pow10_le((k - 1) as nat);
        assert(pow10((k - 1) as nat) <= 100_000_000) by {
            reveal_with_fuel(pow10, 10);
            if k - 1 < 9 {
            }
        }
    }
}

proof fn lemma_digits_below_pow10(d: Seq<char>)
    requires
        all_digits(d),
    ensures
        digits_value(d) < pow10(d.len()),
    decreases d.len(),
{
    if d.len() > 0 {
        assert forall|i: int| 0 <= i < d.drop_last().len() implies is_digit(#[trigger] d.drop_last()[i]) by {
            assert(d.drop_last()[i] == d[i]);
        }
        lemma_digits_below_pow10(d.drop_last());
        assert(is_digit(d[d.len() - 1]));
    }
}

/// The fraction digits `cs[lo..hi]`: all digits?, any non-zero?, their nanoseconds.
fn read_fraction(cs: &[char], lo: usize, hi: usize) -> (r: Option<(bool, u64)>)
    requires
        lo <= hi <= cs@.len(),
    ensures
        ({
            let d = cs@.subrange(lo as int, hi as int);
            match r {
                None => !all_digits(d),
                Some((nz, v)) => all_digits(d) && nz == any_nonzero(d) && v == frac_nanos(d),
            }
        }),
{
    let ghost d = cs@.subrange(lo as int, hi as int);
    let mut i = lo;
    let mut nz = false;
    let mut v: u64 = 0;
    let mut taken: usize = 0;
    proof {
        assert(d.subrange(0, 0) =~= Seq::<char>::empty());
    }
    while i < hi
        invariant
            lo <= i <= hi <= cs@.len(),
            d == cs@.subrange(lo as int, hi as int),
            taken <= 9,
            taken == if i - lo < 9 { (i - lo) as nat } else { 9nat },
            all_digits(d.subrange(0, i - lo)),
            nz == any_nonzero(d.subrange(0, i - lo)),
            v == digits_value(d.subrange(0, taken as int)),
            v < pow10(taken as nat),
        decreases hi - i,
    {
        let c = cs[i];
        if !('0' <= c && c <= '9') {
            proof {
                assert(!is_digit(d[i - lo]));
            }
            return None;
        }
        let ghost k = i - lo;
        proof {
            assert(d.subrange(0, k + 1) =~= d.subrange(0, k).push(c));
            if any_nonzero(d.subrange(0, k + 1)) && c == '0' {
                let w = choose|w: int| 0 <= w < k + 1 && #[trigger] d.subrange(0, k + 1)[w] != '0';
                assert(d.subrange(0, k)[w] == d.subrange(0, k + 1)[w]);
            }
            if any_nonzero(d.subrange(0, k)) {
                let w = choose|w: int| 0 <= w < k && #[trigger] d.subrange(0, k)[w] != '0';
                assert(d.subrange(0, k + 1)[w] == d.subrange(0, k)[w]);
            }
            if c != '0' {
                assert(d.subrange(0, k + 1)[k] != '0');
            }
        }
        if c != '0' {
            nz = true;
        }
        if taken < 9 {
            proof {
                assert(d.subrange(0, taken + 1).drop_last() =~= d.subrange(0, taken as int));
                lemma_pow10_le((taken + 1) as nat);
                assert(v * 10 + 9 < pow10((taken + 1) as nat)) by (nonlinear_arith)
                    requires
                        v < pow10(taken as nat),
                        pow10((taken + 1) as nat) == pow10(taken as nat) * 10,
                ;
            }
            v = v * 10 + (c as u32 - '0' as u32) as u64;
            taken = taken + 1;
        }
        i = i + 1;
    }
    proof {
        assert(d.subrange(0, hi - lo) =~= d);
    }
    if taken < 9 {
        let mut k = taken;
        proof {
            assert(pow10(0) == 1);
            assert((k - taken) as nat == 0);
            assert(digits_value(d.subrange(0, taken as int)) * pow10(0) == digits_value(d.subrange(0, taken as int)));
        }
        while k < 9
            invariant
                taken <= k <= 9,
                taken as int == d.len(),
                v == digits_value(d.subrange(0, taken as int)) * pow10((k - taken) as nat),
                v < pow10(k as nat),
            decreases 9 - k,
        {
            proof {
                lemma_pow10_le((k + 1) as nat);
                assert(pow10((k - taken + 1) as nat) == pow10((k - taken) as nat) * 10);
                assert(v * 10 < pow10((k + 1) as nat)) by (nonlinear_arith)
                    requires
                        v < pow10(k as nat),
                        pow10((k + 1) as nat) == pow10(k as nat) * 10,
                ;
                assert(digits_value(d.subrange(0, taken as int)) * pow10((k - taken) as nat) * 10
                    == digits_value(d.subrange(0, taken as int)) * pow10((k - taken + 1) as nat)) by (nonlinear_arith)
                    requires
                        pow10((k - taken + 1) as nat) == pow10((k - taken) as nat) * 10,
                ;
            }
            v = v * 10;
            k = k + 1;
        }
        proof {
            assert(d.subrange(0, taken as int) =~= d);
        }
    }
    Some((nz, v))
}

/// The pause `cs[lo..hi]` describes in plain decimal ([`plain_wait_nanos`]).
#[verifier::spinoff_prover]
#[verifier::rlimit(40)]
fn parse_plain_wait(cs: &[char], lo: usize, hi: usize) -> (r: Option<Duration>)
    requires
        lo <= hi <= cs@.len(),
    ensures
        match plain_wait_nanos(cs@.subrange(lo as int, hi as int)) {
            Some(n) => r matches Some(d) && duration_nanos(d) == n,
            None => r is None,
        },
{
    let ghost v = cs@.subrange(lo as int, hi as int);
    let neg = lo < hi && cs[lo] == '-';
    let start = if lo < hi && (cs[lo] == '+' || cs[lo] == '-') { lo + 1 } else { lo };
    let ghost b = cs@.subrange(start as int, hi as int);
    proof {
        if lo < hi && (cs@[lo as int] == '+' || cs@[lo as int] == '-') {
            assert(v.drop_first() =~= b);
        } else {
            assert(v =~= b);
        }
    }
    let dot = find_char(cs, start, hi, '.');
    proof {
        lemma_find_from(b, '.', 0);
        assert(b.subrange(0, dot - start) =~= cs@.subrange(start as int, dot as int));
        if dot < hi {
            assert(b.subrange(dot - start + 1, b.len() as int) =~= cs@.subrange(dot + 1, hi as int));
        }
    }
    let (nz, frac) = if dot < hi {
        match read_fraction(cs, dot + 1, hi) {
            Some(x) => x,
            None => return None,
        }
    } else {
        proof {
            assert(frac_nanos(Seq::<char>::empty()) == 0);
            assert(!any_nonzero(Seq::<char>::empty()));
        }
        (false, 0u64)
    };
    if dot == start && (dot == hi || dot + 1 == hi) {
        return None;
    }
    let iv = match read_digits(cs, start, dot, 3600) {
        Some(x) => x,
        None => return None,
    };
    if neg && (iv > 0 || nz) {
        return None;
    }
    if iv == 3600 && nz {
        return None;
    }
    proof {
        if dot < hi {
            let fp = cs@.subrange(dot + 1, hi as int);
            if fp.len() >= 9 {
                lemma_digits_below_pow10(fp.subrange(0, 9));
                reveal_with_fuel(pow10, 10);
            } else {
                lemma_digits_below_pow10(fp);
                lemma_pow10_le((9 - fp.len()) as nat);
                assert(pow10(fp.len()) * pow10((9 - fp.len()) as nat) == 1_000_000_000) by {
                    lemma_pow10_add(fp.len(), (9 - fp.len()) as nat);
                    reveal_with_fuel(pow10, 10);
                }
                assert(digits_value(fp) * pow10((9 - fp.len()) as nat) < 1_000_000_000) by (nonlinear_arith)
                    requires
                        digits_value(fp) < pow10(fp.len()),
                        pow10(fp.len()) * pow10((9 - fp.len()) as nat) == 1_000_000_000,
                ;
            }
        }
    }
    Some(duration_new(iv, frac as u32))
}

proof fn lemma_pow10_add(a: nat, b: nat)
    ensures
        pow10(a) * pow10(b) == pow10(a + b),
    decreases b,
{
    if b == 0 {
        assert(pow10(0) == 1);
        assert(pow10(a) * 1 == pow10(a));
    } else {
        lemma_pow10_add(a, (b - 1) as nat);
        let x = pow10(a);
        let y = pow10((b - 1) as nat);
        assert(pow10(b) == y * 10);
        assert(pow10(a + b) == pow10((a + b - 1) as nat) * 10);
        assert((a + b - 1) as nat == a + (b - 1) as nat);
        assert(x * (y * 10) == (x * y) * 10) by (nonlinear_arith);
    }
}

proof fn lemma_pow10_pos(k: nat)
    ensures
        pow10(k) >= 1,
    decreases k,
{
    if k > 0 {
        lemma_pow10_pos((k - 1) as nat);
    }
}

proof fn lemma_pow10_mono(a: nat, b: nat)
    requires
        a <= b,
    ensures
        pow10(a) <= pow10(b),
{
    lemma_pow10_add(a, (b - a) as nat);
    lemma_pow10_pos((b - a) as nat);
    lemma_pow10_pos(a);
    let x = pow10(a);
    let y = pow10((b - a) as nat);
    assert(x <= x * y) by (nonlinear_arith)
        requires
            x >= 1,
            y >= 1,
    ;
    assert(a + (b - a) as nat == b);
}

proof fn lemma_any_nonzero_concat(a: Seq<char>, b: Seq<char>)
    ensures
        any_nonzero(a + b) == (any_nonzero(a) || any_nonzero(b)),
{
    if any_nonzero(a) {
        let w = choose|w: int| 0 <= w < a.len() && #[trigger] a[w] != '0';
        assert((a + b)[w] == a[w]);
    }
    if any_nonzero(b) {
        let w = choose|w: int| 0 <= w < b.len() && #[trigger] b[w] != '0';
        assert((a + b)[a.len() + w] == b[w]);
    }
    if any_nonzero(a + b) {
        let w = choose|w: int| 0 <= w < (a + b).len() && #[trigger] (a + b)[w] != '0';
        if w < a.len() {
            assert(a[w] == (a + b)[w]);
        } else {
            assert(b[w - a.len()] == (a + b)[w]);
        }
    }
}

proof fn lemma_zero_digits(d: Seq<char>)
    requires
        forall|i: int| 0 <= i < d.len() ==> #[trigger] d[i] == '0',
    ensures
        digits_value(d) == 0,
    decreases d.len(),
{
    if d.len() > 0 {
        let dl = d.drop_last();
        assert forall|i: int| 0 <= i < dl.len() implies #[trigger] dl[i] == '0' by {
            assert(dl[i] == d[i]);
        }
        lemma_zero_digits(dl);
        assert(d[d.len() - 1] == '0');
    }
}

proof fn lemma_digits_at_least(d: Seq<char>, i: int)
    requires
        all_digits(d),
        0 <= i < d.len(),
        d[i] != '0',
    ensures
        digits_value(d) >= pow10((d.len() - 1 - i) as nat),
    decreases d.len(),
{
    let dl = d.drop_last();
    assert(is_digit(d[d.len() - 1]));
    if i == d.len() - 1 {
        assert(pow10(0) == 1);
        assert(digit_val(d.last()) >= 1);
    } else {
        assert forall|j: int| 0 <= j < dl.len() implies is_digit(#[trigger] dl[j]) by {
            assert(dl[j] == d[j]);
        }
        assert(dl[i] == d[i]);
        lemma_digits_at_least(dl, i);
        assert(pow10((d.len() - 1 - i) as nat) == pow10((dl.len() - 1 - i) as nat) * 10);
    }
}

/// Without a point, the digits `ds` followed by at least 13 zeros: zero seconds when every
/// digit is `0`, else far more than an hour.
proof fn lemma_plain_high(sg: Seq<char>, ds: Seq<char>, z: nat)
    requires
        sg.len() <= 1,
        sg.len() == 1 ==> (sg[0] == '+' || sg[0] == '-'),
        all_digits(ds),
        ds.len() > 0,
        z >= 13,
    ensures
        plain_wait_nanos(sg + (ds + zeros(z))) == (if any_nonzero(ds) { None } else { Some(0nat) }),
{
    let v = sg + (ds + zeros(z));
    let b = ds + zeros(z);
    if sg.len() == 1 {
        assert(v.drop_first() =~= b);
    } else {
        assert(v =~= b);
        assert(is_digit(ds[0]));
        assert(v[0] == ds[0]);
    }
    assert forall|i: int| 0 <= i < b.len() implies is_digit(#[trigger] b[i]) by {
        if i < ds.len() {
            assert(b[i] == ds[i]);
        } else {
            assert(b[i] == zeros(z)[i - ds.len()]);
        }
    }
    lemma_find_from(b, '.', 0);
    if find_from(b, '.', 0) < b.len() {
        assert(is_digit(b[find_from(b, '.', 0)]));
    }
    assert(find_from(b, '.', 0) == b.len());
    assert(b.subrange(0, b.len() as int) =~= b);
    assert(!any_nonzero(Seq::<char>::empty()));
    assert(digits_value(Seq::<char>::empty()) == 0);
    if any_nonzero(ds) {
        let w = choose|w: int| 0 <= w < ds.len() && #[trigger] ds[w] != '0';
        assert(b[w] == ds[w]);
        lemma_digits_at_least(b, w);
        lemma_pow10_mono(13, (b.len() - 1 - w) as nat);
        assert(pow10(13) == 10_000_000_000_000) by {
            reveal_with_fuel(pow10, 14);
        }
    } else {
        assert forall|i: int| 0 <= i < b.len() implies #[trigger] b[i] == '0' by {
            if i < ds.len() {
                assert(b[i] == ds[i]);
                assert(!(ds[i] != '0'));
            } else {
                assert(b[i] == zeros(z)[i - ds.len()]);
            }
        }
        lemma_zero_digits(b);
    }
}

/// A point, at least nine zeros, then the digits `ds`: zero seconds, unless the sign is `-`
/// and some digit is not `0`.
proof fn lemma_plain_low(sg: Seq<char>, ds: Seq<char>, z: nat)
    requires
        sg.len() <= 1,
        sg.len() == 1 ==> (sg[0] == '+' || sg[0] == '-'),
        all_digits(ds),
        z >= 9,
    ensures
        plain_wait_nanos(sg + (seq!['.'] + zeros(z) + ds)) == (if sg.len() == 1 && sg[0] == '-'
            && any_nonzero(ds) {
            None
        } else {
            Some(0nat)
        }),
{
    let v = sg + (seq!['.'] + zeros(z) + ds);
    let b = seq!['.'] + zeros(z) + ds;
    if sg.len() == 1 {
        assert(v.drop_first() =~= b);
        assert(v[0] == sg[0]);
    } else {
        assert(v =~= b);
    }
    assert(b[0] == '.');
    assert(find_from(b, '.', 0) == 0);
    let fp = b.subrange(1, b.len() as int);
    assert(fp =~= zeros(z) + ds);
    assert(b.subrange(0, 0) =~= Seq::<char>::empty());
    assert(digits_value(Seq::<char>::empty()) == 0);
    assert(all_digits(Seq::<char>::empty()));
    assert forall|i: int| 0 <= i < fp.len() implies is_digit(#[trigger] fp[i]) by {
        if i < z {
            assert(fp[i] == zeros(z)[i]);
        } else {
            assert(fp[i] == ds[i - z]);
        }
    }
    lemma_any_nonzero_concat(zeros(z), ds);
    if any_nonzero(zeros(z)) {
        let w = choose|w: int| 0 <= w < zeros(z).len() && #[trigger] zeros(z)[w] != '0';
    }
    let f9 = fp.subrange(0, 9);
    assert forall|i: int| 0 <= i < f9.len() implies #[trigger] f9[i] == '0' by {
        assert(f9[i] == fp[i]);
        assert(fp[i] == zeros(z)[i]);
    }
    lemma_zero_digits(f9);
}

/// Whether `cs[lo..hi]` holds a digit other than `0`.
fn has_nonzero(cs: &[char], lo: usize, hi: usize) -> (r: bool)
    requires
        lo <= hi <= cs@.len(),
    ensures
        r == any_nonzero(cs@.subrange(lo as int, hi as int)),
{
    let ghost d = cs@.subrange(lo as int, hi as int);
    let mut i = lo;
    while i < hi
        invariant
            lo <= i <= hi <= cs@.len(),
            d == cs@.subrange(lo as int, hi as int),
            forall|j: int| 0 <= j < i - lo ==> #[trigger] d[j] == '0',
        decreases hi - i,
    {
        if cs[i] != '0' {
            proof {
                assert(d[i - lo] != '0');
            }
            return true;
        }
        i = i + 1;
    }
    proof {
        if any_nonzero(d) {
            let w = choose|w: int| 0 <= w < d.len() && #[trigger] d[w] != '0';
        }
    }
    false
}

/// Whether `cs[lo..hi]` is all decimal digits.
fn digits_only(cs: &[char], lo: usize, hi: usize) -> (r: bool)
    requires
        lo <= hi <= cs@.len(),
    ensures
        r == all_digits(cs@.subrange(lo as int, hi as int)),
{
    let ghost d = cs@.subrange(lo as int, hi as int);
    let mut i = lo;
    while i < hi
        invariant
            lo <= i <= hi <= cs@.len(),
            d == cs@.subrange(lo as int, hi as int),
            forall|j: int| 0 <= j < i - lo ==> is_digit(#[trigger] d[j]),
        decreases hi - i,
    {
        let c = cs[i];
        if !('0' <= c && c <= '9') {
            proof {
                assert(!is_digit(d[i - lo]));
            }
            return false;
        }
        i = i + 1;
    }
    true
}

/// The digits `cs[lo..hi]` (at least one), their value saturating at `cap`.
fn read_exponent(cs: &[char], lo: usize, hi: usize, cap: u128) -> (r: Option<u128>)
    requires
        lo <= hi <= cs@.len(),
        cap <= 0x1_0000_0000_0000_0000_0000,
    ensures
        ({
            let d = cs@.subrange(lo as int, hi as int);
            match r {
                None => !(d.len() > 0 && all_digits(d)),
                Some(v) => d.len() > 0 && all_digits(d) && v <= cap && (v < cap ==> v == digits_value(d))
                    && (v == cap ==> digits_value(d) >= cap),
            }
        }),
{
    let ghost d = cs@.subrange(lo as int, hi as int);
    if lo == hi {
        return None;
    }
    let mut v: u128 = 0;
    let mut i = lo;
    proof {
        assert(d.subrange(0, 0) =~= Seq::<char>::empty());
    }
    while i < hi
        invariant
            lo <= i <= hi <= cs@.len(),
            d == cs@.subrange(lo as int, hi as int),
            cap <= 0x1_0000_0000_0000_0000_0000,
            all_digits(d.subrange(0, i - lo)),
            v <= cap,
            v < cap ==> v == digits_value(d.subrange(0, i - lo)),
            v == cap ==> digits_value(d.subrange(0, i - lo)) >= cap,
        decreases hi - i,
    {
        let c = cs[i];
        if !('0' <= c && c <= '9') {
            proof {
                assert(!is_digit(d[i - lo]));
            }
            return None;
        }
        proof {
            assert(d.subrange(0, i - lo + 1).drop_last() =~= d.subrange(0, i - lo));
            assert(d.subrange(0, i - lo + 1) =~= d.subrange(0, i - lo).push(c));
        }
        let nv = v * 10 + (c as u32 - '0' as u32) as u128;
        if nv >= cap {
            v = cap;
        } else {
            v = nv;
        }
        i = i + 1;
    }
    proof {
        assert(d.subrange(0, hi - lo) =~= d);
    }
    Some(v)
}

fn push_chars(out: &mut Vec<char>, cs: &[char], lo: usize, hi: usize)
    requires
        lo <= hi <= cs@.len(),
    ensures
        final(out)@ == old(out)@ + cs@.subrange(lo as int, hi as int),
{
    let ghost start = out@;
    let mut i = lo;
    while i < hi
        invariant
            lo <= i <= hi <= cs@.len(),
            out@ == start + cs@.subrange(lo as int, i as int),
        decreases hi - i,
    {
        out.push(cs[i]);
        proof {
            assert(cs@.subrange(lo as int, i + 1) =~= cs@.subrange(lo as int, i as int).push(cs@[i as int]));
        }
        i = i + 1;
    }
}

fn push_zeros(out: &mut Vec<char>, n: usize)
    ensures
        final(out)@ == old(out)@ + zeros(n as nat),
{
    let ghost start = out@;
    let mut i: usize = 0;
    while i < n
        invariant
            i <= n,
            out@ == start + zeros(i as nat),
        decreases n - i,
    {
        out.push('0');
        proof {
            assert(zeros((i + 1) as nat) =~= zeros(i as nat).push('0'));
        }
        i = i + 1;
    }
}

/// The digits of the mantissa `cs[start..k]` whose point (if any) is at `dot`.
pub open spec fn mantissa_digits(cs: Seq<char>, start: int, dot: int, k: int) -> Seq<char> {
    cs.subrange(start, dot) + if dot < k { cs.subrange(dot + 1, k) } else { Seq::<char>::empty() }
}

/// Appends the mantissa digits of `cs[start..k]` (point at `dot`, if any) with a point after
/// the first `p` of them.
fn push_point_placed(out: &mut Vec<char>, cs: &[char], start: usize, dot: usize, k: usize, p: i128)
    requires
        start <= dot <= k <= cs@.len(),
        -12 <= p <= mantissa_digits(cs@, start as int, dot as int, k as int).len() + 12,
    ensures
        final(out)@ == old(out)@ + place_point(mantissa_digits(cs@, start as int, dot as int, k as int), p as int),
{
    let ghost ds = mantissa_digits(cs@, start as int, dot as int, k as int);
    let ghost o = out@;
    let ghost fp = if dot < k { cs@.subrange(dot + 1, k as int) } else { Seq::<char>::empty() };
    let iplen = dot - start;
    let n: usize = if dot < k { iplen + (k - dot - 1) } else { iplen };
    if p <= 0 {
        out.push('.');
        push_zeros(out, (-p) as usize);
        push_chars(out, cs, start, dot);
        if dot < k {
            push_chars(out, cs, dot + 1, k);
        }
        proof {
            assert(out@ =~= o + (seq!['.'] + zeros((-p) as nat) + ds));
        }
    } else if p >= n as i128 {
        push_chars(out, cs, start, dot);
        if dot < k {
            push_chars(out, cs, dot + 1, k);
        }
        push_zeros(out, (p - n as i128) as usize);
        proof {
            assert(out@ =~= o + (ds + zeros((p - n) as nat)));
        }
    } else {
        let pu = p as usize;
        if pu <= iplen {
            push_chars(out, cs, start, start + pu);
            out.push('.');
            push_chars(out, cs, start + pu, dot);
            if dot < k {
                push_chars(out, cs, dot + 1, k);
            }
            proof {
                assert(ds.subrange(0, p as int) =~= cs@.subrange(start as int, start + pu));
                assert(ds.subrange(p as int, ds.len() as int) =~= cs@.subrange(start + pu, dot as int) + fp);
                assert(out@ =~= o + (ds.subrange(0, p as int) + seq!['.'] + ds.subrange(p as int, ds.len() as int)));
            }
        } else {
            let q = dot + 1 + (pu - iplen);
            push_chars(out, cs, start, dot);
            push_chars(out, cs, dot + 1, q);
            out.push('.');
            push_chars(out, cs, q, k);
            proof {
                assert(ds.subrange(0, p as int) =~= cs@.subrange(start as int, dot as int) + cs@.subrange(dot + 1, q as int));
                assert(ds.subrange(p as int, ds.len() as int) =~= cs@.subrange(q as int, k as int));
                assert(out@ =~= o + (ds.subrange(0, p as int) + seq!['.'] + ds.subrange(p as int, ds.len() as int)));
            }
        }
    }
}

/// The pause `cs[lo..hi]` describes ([`wait_nanos`]).
#[verifier::spinoff_prover]
#[verifier::rlimit(60)]
fn parse_wait(cs: &[char], lo: usize, hi: usize) -> (r: Option<Duration>)
    requires
        lo <= hi <= cs@.len(),
    ensures
        match wait_nanos(cs@.subrange(lo as int, hi as int)) {
            Some(n) => r matches Some(d) && duration_nanos(d) == n,
            None => r is None,
        },
{
    let ghost v = cs@.subrange(lo as int, hi as int);
    let ke = find_char(cs, lo, hi, 'e');
    let kb = find_char(cs, lo, hi, 'E');
    let k = if ke <= kb { ke } else { kb };
    proof {
        lemma_find_from(v, 'e', 0);
        lemma_find_from(v, 'E', 0);
        assert(k == lo + exponent_mark(v));
    }
    if k == hi {
        return parse_plain_wait(cs, lo, hi);
    }
    let start = if cs[lo] == '+' || cs[lo] == '-' { lo + 1 } else { lo };
    proof {
        assert(v[0] == cs@[lo as int]);
        assert(v[k - lo] == cs@[k as int]);
    }
    let ghost s: int = start - lo;
    let ghost m = v.subrange(s, k - lo);
    proof {
        assert(m =~= cs@.subrange(start as int, k as int));
    }
    let dot = find_char(cs, start, k, '.');
    proof {
        lemma_find_from(m, '.', 0);
        let ip = m.subrange(0, dot - start);
        let fp = if dot < k { m.subrange(dot - start + 1, m.len() as int) } else { Seq::<char>::empty() };
        assert(ip =~= cs@.subrange(start as int, dot as int));
        assert(fp =~= fraction_part(cs@, dot as int, k as int));
        assert(v.subrange(0, s) =~= cs@.subrange(lo as int, start as int));
        assert(v.subrange(k - lo + 1, v.len() as int) =~= cs@.subrange(k + 1, hi as int));
    }
    parse_exponent_wait(cs, lo, start, dot, k, hi)
}

/// The pause of sign `cs[lo..start]`, mantissa `cs[start..k]` (point at `dot` when `dot < k`)
/// and exponent text `cs[k + 1..hi]` ([`exponent_wait_nanos`]).
#[verifier::spinoff_prover]
#[verifier::rlimit(40)]
fn parse_exponent_wait(cs: &[char], lo: usize, start: usize, dot: usize, k: usize, hi: usize) -> (r: Option<Duration>)
    requires
        lo <= start <= dot <= k < hi <= cs@.len(),
        start <= lo + 1,
        start == lo + 1 ==> (cs@[lo as int] == '+' || cs@[lo as int] == '-'),
    ensures
        match exponent_wait_nanos(
            cs@.subrange(lo as int, start as int),
            cs@.subrange(start as int, dot as int),
            fraction_part(cs@, dot as int, k as int),
            cs@.subrange(k + 1, hi as int),
        ) {
            Some(n) => r matches Some(d) && duration_nanos(d) == n,
            None => r is None,
        },
{
    let ghost ip = cs@.subrange(start as int, dot as int);
    let ghost fp = fraction_part(cs@, dot as int, k as int);
    let ghost sg = cs@.subrange(lo as int, start as int);
    let neg = start > lo && cs[lo] == '-';
    let ip_ok = digits_only(cs, start, dot);
    let fp_ok = if dot < k { digits_only(cs, dot + 1, k) } else { true };
    let iplen = dot - start;
    let fplen = if dot < k { k - dot - 1 } else { 0 };
    let n = iplen + fplen;
    // The exponent.
    let es = k + 1;
    let eneg = es < hi && cs[es] == '-';
    let ed = if es < hi && (cs[es] == '+' || cs[es] == '-') { es + 1 } else { es };
    let ghost xs = cs@.subrange(es as int, hi as int);
    proof {
        if es < hi {
            assert(xs[0] == cs@[es as int]);
        }
        if es < hi && (cs@[es as int] == '+' || cs@[es as int] == '-') {
            assert(xs.drop_first() =~= cs@.subrange(ed as int, hi as int));
        } else {
            assert(xs =~= cs@.subrange(ed as int, hi as int));
        }
    }
    let cap: u128 = n as u128 + 13;
    let xv = match read_exponent(cs, ed, hi, cap) {
        None => return None,
        Some(x) => x,
    };
    if !(ip_ok && fp_ok && n > 0) {
        return None;
    }
    let ghost dx = digits_value(cs@.subrange(ed as int, hi as int));
    let ghost x: int = if eneg { -dx } else { dx as int };
    let ghost ds = ip + fp;
    proof {
        assert(signed_value(xs) == Some(x));
        if start > lo {
            assert(sg[0] == cs@[lo as int]);
        }
        assert(all_digits(ds)) by {
            assert forall|i: int| 0 <= i < ds.len() implies is_digit(#[trigger] ds[i]) by {
                if i < ip.len() {
                    assert(ds[i] == ip[i]);
                } else {
                    assert(ds[i] == fp[i - ip.len()]);
                }
            }
        }
        lemma_any_nonzero_concat(ip, fp);
    }
    let nzi = has_nonzero(cs, start, dot);
    let nzf = if dot < k { has_nonzero(cs, dot + 1, k) } else { false };
    proof {
        if !(dot < k) {
            assert(!any_nonzero(fp));
        }
    }
    let nz = nzi || nzf;
    // Where the point lands in the digits: far right, far left, or near them.
    let mut high = false;
    let mut low = false;
    let mut p: i128 = 0;
    if xv == cap {
        if eneg {
            low = true;
        } else {
            high = true;
        }
    } else {
        let xi: i128 = if eneg { -(xv as i128) } else { xv as i128 };
        p = iplen as i128 + xi;
        if p > n as i128 + 12 {
            high = true;
        } else if p < -12 {
            low = true;
        }
    }
    if high {
        proof {
            let pp = ip.len() + x;
            assert(pp >= ds.len() + 13);
            assert(shifted(ip, fp, x) == ds + zeros((pp - ds.len()) as nat));
            lemma_plain_high(sg, ds, (pp - ds.len()) as nat);
        }
        return if nz { None } else { Some(duration_new(0, 0)) };
    }
    if low {
        proof {
            let pp = ip.len() + x;
            assert(pp <= -13);
            assert(shifted(ip, fp, x) == seq!['.'] + zeros((-pp) as nat) + ds);
            lemma_plain_low(sg, ds, (-pp) as nat);
        }
        return if neg && nz { None } else { Some(duration_new(0, 0)) };
    }
    proof {
        assert(p == ip.len() + x);
        assert(ds =~= mantissa_digits(cs@, start as int, dot as int, k as int));
    }
    let mut out: Vec<char> = Vec::new();
    if start > lo {
        out.push(cs[lo]);
    }
    proof {
        assert(out@ =~= sg);
    }
    push_point_placed(&mut out, cs, start, dot, k, p);
    proof {
        assert(out@ == sg + shifted(ip, fp, x));
        assert(out@.subrange(0, out@.len() as int) =~= out@);
    }
    parse_plain_wait(out.as_slice(), 0, out.len())
}


/// The views of a placeholder list held as characters.
pub open spec fn char_pairs_view(ph: Seq<(Vec<char>, Vec<char>)>) -> Seq<(Seq<char>, Seq<char>)> {
    ph.map_values(|p: (Vec<char>, Vec<char>)| (p.0@, p.1@))
}

/// The coordinate pair `cs[lo..hi]` describes ([`spec_xy`]).
fn parse_xy(cs: &[char], lo: usize, hi: usize) -> (r: Option<(u16, u16)>)
    requires
        lo <= hi <= cs@.len(),
    ensures
        r == spec_xy(cs@.subrange(lo as int, hi as int)),
{
    let ghost v = cs@.subrange(lo as int, hi as int);
    let comma = find_char(cs, lo, hi, ',');
    proof {
        lemma_find_from(v, ',', 0);
    }
    if comma == hi {
        return None;
    }
    proof {
        assert(v.subrange(0, comma - lo) =~= cs@.subrange(lo as int, comma as int));
        assert(v.subrange(comma - lo + 1, v.len() as int) =~= cs@.subrange(comma + 1, hi as int));
    }
    let (a0, a1) = trim_bounds(cs, lo, comma);
    let (b0, b1) = trim_bounds(cs, comma + 1, hi);
    let x = parse_u16(cs, a0, a1);
    let y = parse_u16(cs, b0, b1);
    match (x, y) {
        (Some(x), Some(y)) => Some((x, y)),
        _ => None,
    }
}

/// The chord letter `cs[lo..hi]` names ([`spec_letter`]).
fn parse_letter(cs: &[char], lo: usize, hi: usize) -> (r: Option<u8>)
    requires
        lo <= hi <= cs@.len(),
    ensures
        r == spec_letter(cs@.subrange(lo as int, hi as int)),
{
    if eq_lit(cs, lo, hi, "a") {
        Some(0x1E)
    } else if eq_lit(cs, lo, hi, "c") {
        Some(0x2E)
    } else if eq_lit(cs, lo, hi, "l") {
        Some(0x26)
    } else if eq_lit(cs, lo, hi, "t") {
        Some(0x14)
    } else if eq_lit(cs, lo, hi, "v") {
        Some(0x2F)
    } else {
        None
    }
}

/// The key `cs[lo..hi]` names ([`spec_key`]).
fn parse_key(cs: &[char], lo: usize, hi: usize) -> (r: Option<(u8, bool)>)
    requires
        lo <= hi <= cs@.len(),
    ensures
        r == spec_key(cs@.subrange(lo as int, hi as int)),
{
    if eq_lit(cs, lo, hi, "Enter") {
        Some((0x1C, false))
    } else if eq_lit(cs, lo, hi, "Tab") {
        Some((0x0F, false))
    } else if eq_lit(cs, lo, hi, "Esc") {
        Some((0x01, false))
    } else if eq_lit(cs, lo, hi, "Down") {
        Some((0x50, true))
    } else if eq_lit(cs, lo, hi, "Space") {
        Some((0x39, false))
    } else {
        None
    }
}

/// `cs[lo..hi]` with the placeholders substituted in turn ([`replace_each`]).
fn substitute(cs: &[char], lo: usize, hi: usize, ph: &Vec<(Vec<char>, Vec<char>)>) -> (r: Vec<char>)
    requires
        lo <= hi <= cs@.len(),
    ensures
        r@ == replace_each(cs@.subrange(lo as int, hi as int), char_pairs_view(ph@)),
{
    let ghost phv = char_pairs_view(ph@);
    let mut acc = vstd::slice::slice_to_vec(vstd::slice::slice_subrange(cs, lo, hi));
    let mut k: usize = 0;
    proof {
        assert(phv.subrange(0, phv.len() as int) =~= phv);
    }
    while k < ph.len()
        invariant
            phv == char_pairs_view(ph@),
            k <= ph@.len(),
            replace_each(acc@, phv.subrange(k as int, phv.len() as int)) == replace_each(
                cs@.subrange(lo as int, hi as int),
                phv,
            ),
        decreases ph@.len() - k,
    {
        let ghost rest = phv.subrange(k as int, phv.len() as int);
        proof {
            assert(rest[0] == (ph@[k as int].0@, ph@[k as int].1@));
            assert(rest.drop_first() =~= phv.subrange(k + 1, phv.len() as int));
        }
        acc = replace_chars(acc.as_slice(), ph[k].0.as_slice(), ph[k].1.as_slice());
        k = k + 1;
    }
    proof {
        assert(phv.subrange(k as int, phv.len() as int) =~= Seq::<(Seq<char>, Seq<char>)>::empty());
    }
    acc
}

/// The step the trimmed piece `cs[lo..hi]` describes ([`spec_parse_step`]).
fn parse_step(cs: &[char], lo: usize, hi: usize, ph: &Vec<(Vec<char>, Vec<char>)>) -> (r: Option<Step>)
    requires
        lo <= hi <= cs@.len(),
    ensures
        match spec_parse_step(cs@.subrange(lo as int, hi as int), char_pairs_view(ph@)) {
            Some(st) => r matches Some(x) && x@ == st,
            None => r is None,
        },
{
    let ghost step = cs@.subrange(lo as int, hi as int);
    let colon = find_char(cs, lo, hi, ':');
    proof {
        lemma_find_from(step, ':', 0);
        assert(step.subrange(0, colon - lo) =~= cs@.subrange(lo as int, colon as int));
    }
    let vlo = if colon < hi { colon + 1 } else { hi };
    proof {
        if colon < hi {
            assert(step.subrange(colon - lo + 1, step.len() as int) =~= cs@.subrange(vlo as int, hi as int));
        } else {
            assert(cs@.subrange(vlo as int, hi as int) =~= Seq::<char>::empty());
        }
    }
    if eq_lit(cs, lo, colon, "wait") {
        match parse_wait(cs, vlo, hi) {
            Some(d) => Some(Step::Wait(d)),
            None => None,
        }
    } else if eq_lit(cs, lo, colon, "click") {
        match parse_xy(cs, vlo, hi) {
            Some((x, y)) => Some(Step::Click { x, y }),
            None => None,
        }
    } else if eq_lit(cs, lo, colon, "move") {
        match parse_xy(cs, vlo, hi) {
            Some((x, y)) => Some(Step::Move { x, y }),
            None => None,
        }
    } else if eq_lit(cs, lo, colon, "text") {
        let t = substitute(cs, vlo, hi, ph);
        Some(Step::Text(string_of(t.as_slice())))
    } else if eq_lit(cs, lo, colon, "key") {
        match parse_key(cs, vlo, hi) {
            Some((scancode, extended)) => Some(Step::Key { scancode, extended }),
            None => None,
        }
    } else if eq_lit(cs, lo, colon, "ctrl") {
        match parse_letter(cs, vlo, hi) {
            Some(l) => {
                let keys = vec![(0x1Du8, false), (l, false)];
                proof { assert(keys@ =~= seq![(0x1Du8, false), (l, false)]); }
                Some(Step::Chord(keys))
            },
            None => None,
        }
    } else if eq_lit(cs, lo, colon, "ctrlalt") {
        match parse_letter(cs, vlo, hi) {
            Some(l) => {
                let keys = vec![(0x1Du8, false), (0x38u8, false), (l, false)];
                proof { assert(keys@ =~= seq![(0x1Du8, false), (0x38u8, false), (l, false)]); }
                Some(Step::Chord(keys))
            },
            None => None,
        }
    } else if eq_lit(cs, lo, colon, "ctrlshift") {
        match parse_letter(cs, vlo, hi) {
            Some(l) => {
                let keys = vec![(0x1Du8, false), (0x2Au8, false), (l, false)];
                proof { assert(keys@ =~= seq![(0x1Du8, false), (0x2Au8, false), (l, false)]); }
                Some(Step::Chord(keys))
            },
            None => None,
        }
    } else if eq_lit(cs, lo, colon, "super") {
        let keys = vec![(0x5Bu8, true)];
        proof { assert(keys@ =~= seq![(0x5Bu8, true)]); }
        Some(Step::Chord(keys))
    } else if eq_lit(cs, lo, colon, "scroll") {
        match parse_i16(cs, vlo, hi) {
            Some(u) => Some(Step::Scroll(if u < -255 { -255 } else if u > 255 { 255 } else { u })),
            None => None,
        }
    } else {
        None
    }
}

/// `acc` followed by a parse result.
pub open spec fn prepend_steps(acc: Seq<StepView>, r: Result<Seq<StepView>, Seq<char>>) -> Result<Seq<StepView>, Seq<char>> {
    match r {
        Ok(x) => Ok(acc + x),
        Err(e) => Err(e),
    }
}

impl Script {
    /// The steps (view).
    pub closed spec fn view_steps(&self) -> Seq<StepView> {
        steps_view(self.steps@)
    }

    /// Parses the `|`-separated step language, replacing each placeholder in `text:` steps
    /// with its value.
    pub fn parse(src: &str, placeholders: &[(&str, &str)]) -> (r: Result<Self, ScriptError>)
        ensures
            match spec_parse_script(src@, placeholders_view(placeholders@)) {
                Ok(v) => r matches Ok(s) && s.view_steps() == v,
                Err(e) => r matches Err(ScriptError(m)) && m@ == e,
            },
    {
        let cs = chars_of(src);
        let n = cs.len();
        let mut ph: Vec<(Vec<char>, Vec<char>)> = Vec::new();
        let mut q: usize = 0;
        while q < placeholders.len()
            invariant
                q <= placeholders@.len(),
                char_pairs_view(ph@) == placeholders_view(placeholders@).subrange(0, q as int),
            decreases placeholders@.len() - q,
        {
            let (name, value) = placeholders[q];
            let ghost before = char_pairs_view(ph@);
            ph.push((chars_of(name), chars_of(value)));
            proof {
                assert(char_pairs_view(ph@) =~= before.push((name@, value@)));
                assert(placeholders_view(placeholders@).subrange(0, q + 1) =~= placeholders_view(placeholders@).subrange(0, q as int).push((name@, value@)));
            }
            q = q + 1;
        }
        proof {
            assert(placeholders_view(placeholders@).subrange(0, q as int) =~= placeholders_view(placeholders@));
        }
        let ghost phv = char_pairs_view(ph@);
        let mut steps: Vec<Step> = Vec::new();
        let mut pos: usize = 0;
        proof {
            assert(steps_view(steps@) =~= Seq::<StepView>::empty());
            match spec_parse_script(cs@, phv) {
                Ok(x) => { assert(Seq::<StepView>::empty() + x =~= x); }
                Err(_) => {}
            }
        }
        loop
            invariant
                n == cs@.len(),
                cs@ == src@,
                phv == char_pairs_view(ph@),
                phv == placeholders_view(placeholders@),
                pos <= n,
                prepend_steps(steps_view(steps@), parse_pieces(split_from(cs@, '|', pos as int), phv))
                    == spec_parse_script(cs@, phv),
            decreases n - pos,
        {
            let j = find_char(cs.as_slice(), pos, n, '|');
            proof {
                lemma_find_from(cs@, '|', pos as int);
                lemma_find_shift(cs@, '|', pos as int);
            }
            let ghost piece = cs@.subrange(pos as int, j as int);
            let ghost rest: Seq<Seq<char>> = if j < n { split_from(cs@, '|', j + 1) } else { Seq::empty() };
            proof {
                assert(split_from(cs@, '|', pos as int) == seq![piece] + rest);
                assert((seq![piece] + rest)[0] == piece);
                assert((seq![piece] + rest).drop_first() =~= rest);
                if j == n {
                    assert(parse_pieces(rest, phv) == Ok::<Seq<StepView>, Seq<char>>(Seq::empty()));
                }
            }
            let (a, b) = trim_bounds(cs.as_slice(), pos, j);
            if a < b {
                match parse_step(cs.as_slice(), a, b, &ph) {
                    Some(st) => {
                        let ghost old_steps = steps_view(steps@);
                        steps.push(st);
                        proof {
                            assert(steps_view(steps@) =~= old_steps.push(st@));
                            match parse_pieces(rest, phv) {
                                Ok(x) => { assert(old_steps + (seq![st@] + x) =~= steps_view(steps@) + x); }
                                Err(_) => {}
                            }
                        }
                    },
                    None => {
                        let msg = string_of(vstd::slice::slice_subrange(cs.as_slice(), a, b));
                        return Err(ScriptError(msg));
                    },
                }
            }
            if j == n {
                proof {
                    assert(steps_view(steps@) + Seq::<StepView>::empty() =~= steps_view(steps@));
                }
                return Ok(Script { steps });
            }
            pos = j + 1;
        }
    }

    /// The GDM greeter login: wait for the greeter, click the test user's tile, type the
    /// password as Unicode events and press Enter.
    pub fn gdm_login(password: &str) -> (r: Self)
        ensures
            r.view_steps() == seq![
                StepView::Wait(4_000_000_000),
                StepView::Click { x: 640, y: 427 },
                StepView::Wait(2_000_000_000),
                StepView::Text(password@),
                StepView::Wait(300_000_000),
                StepView::Key { scancode: 0x1C, extended: false },
            ],
    {
        let steps = vec![
            Step::Wait(duration_new(4, 0)),
            Step::Click { x: 640, y: 427 },
            Step::Wait(duration_new(2, 0)),
            Step::Text(password.to_owned()),
            Step::Wait(duration_new(0, 300_000_000)),
            Step::Key { scancode: 0x1C, extended: false },
        ];
        let r = Script { steps };
        proof {
            assert(r.view_steps() =~= seq![
                StepView::Wait(4_000_000_000),
                StepView::Click { x: 640, y: 427 },
                StepView::Wait(2_000_000_000),
                StepView::Text(password@),
                StepView::Wait(300_000_000),
                StepView::Key { scancode: 0x1C, extended: false },
            ]);
        }
        r
    }

    /// The steps.
    pub fn steps(&self) -> (r: &[Step])
        ensures
            steps_view(r@) == self.view_steps(),
    {
        self.steps.as_slice()
    }
}

/// Each UTF-16 unit of `units` pressed and released, in order.
pub open spec fn unicode_events(units: Seq<u16>) -> Seq<InputEvent> {
    Seq::new(2 * units.len(), |i: int| InputEvent::Unicode { ch: units[i / 2], down: i % 2 == 0 })
}

/// The keys of a chord pressed in order, then released in reverse order.
pub open spec fn chord_events(keys: Seq<(u8, bool)>) -> Seq<InputEvent> {
    Seq::new(keys.len(), |i: int| InputEvent::Key { scancode: keys[i].0, extended: keys[i].1, down: true })
        + Seq::new(
        keys.len(),
        |i: int|
            InputEvent::Key {
                scancode: keys[keys.len() - 1 - i].0,
                extended: keys[keys.len() - 1 - i].1,
                down: false,
            },
    )
}

/// The wire-level input events of step `s` (`Wait` has none): a click is a move, a left press
/// and a left release; text is each UTF-16 unit pressed and released; a key is a press and a
/// release; a scroll is one vertical wheel event.
pub open spec fn step_events(s: StepView) -> Seq<InputEvent> {
    match s {
        StepView::Wait(_) => seq![],
        StepView::Click { x, y } => seq![
            InputEvent::MouseMove { x, y },
            InputEvent::MouseButton { button: MouseButton::Left, down: true, x, y },
            InputEvent::MouseButton { button: MouseButton::Left, down: false, x, y },
        ],
        StepView::Move { x, y } => seq![InputEvent::MouseMove { x, y }],
        StepView::Text(t) => unicode_events(utf16(t)),
        StepView::Key { scancode, extended } => seq![
            InputEvent::Key { scancode, extended, down: true },
            InputEvent::Key { scancode, extended, down: false },
        ],
        StepView::Chord(keys) => chord_events(keys),
        StepView::Scroll(units) => seq![InputEvent::Wheel { horizontal: false, units }],
    }
}

fn push_unicode_events(out: &mut Vec<InputEvent>, text: &str)
    ensures
        final(out)@ == old(out)@ + unicode_events(utf16(text@)),
{
    let cs = crate::text::chars_of(text);
    let ghost start = old(out)@;
    let mut i: usize = 0;
    proof {
        assert(cs@.subrange(0, 0) =~= Seq::<char>::empty());
        assert(unicode_events(utf16(Seq::<char>::empty())) =~= Seq::<InputEvent>::empty());
        assert(out@ =~= start + unicode_events(utf16(cs@.subrange(0, 0))));
    }
    while i < cs.len()
        invariant
            cs@ == text@,
            i <= cs@.len(),
            out@ == start + unicode_events(utf16(cs@.subrange(0, i as int))),
        decreases cs@.len() - i,
    {
        let units = encode_utf16_char(cs[i]);
        let ghost done = utf16(cs@.subrange(0, i as int));
        let mut k: usize = 0;
        proof {
            assert(units@.subrange(0, 0) =~= Seq::<u16>::empty());
            assert(done + units@.subrange(0, 0) =~= done);
        }
        while k < units.len()
            invariant
                k <= units@.len(),
                out@ == start + unicode_events(done + units@.subrange(0, k as int)),
            decreases units@.len() - k,
        {
            let u = units[k];
            out.push(InputEvent::Unicode { ch: u, down: true });
            out.push(InputEvent::Unicode { ch: u, down: false });
            proof {
                let a = done + units@.subrange(0, k as int);
                let b = done + units@.subrange(0, k + 1);
                assert(b =~= a.push(u));
                assert(unicode_events(b) =~= unicode_events(a) + seq![
                    InputEvent::Unicode { ch: u, down: true },
                    InputEvent::Unicode { ch: u, down: false },
                ]);
            }
            k = k + 1;
        }
        proof {
            assert(units@.subrange(0, k as int) =~= units@);
            assert(cs@.subrange(0, i + 1).drop_last() =~= cs@.subrange(0, i as int));
            assert(utf16(cs@.subrange(0, i + 1)) == done + utf16_of(cs@[i as int]));
        }
        i = i + 1;
    }
    proof {
        assert(cs@.subrange(0, i as int) =~= text@);
    }
}

impl Step {
    /// The wire-level input events of this step (`Wait` has none).
    pub fn input_events(&self) -> (r: Vec<InputEvent>)
        ensures
            r@ == step_events(self@),
    {
        let mut out: Vec<InputEvent> = Vec::new();
        match self {
            Step::Wait(_) => {},
            Step::Click { x, y } => {
                out.push(InputEvent::MouseMove { x: *x, y: *y });
                out.push(InputEvent::MouseButton { button: MouseButton::Left, down: true, x: *x, y: *y });
                out.push(InputEvent::MouseButton { button: MouseButton::Left, down: false, x: *x, y: *y });
            },
            Step::Move { x, y } => {
                out.push(InputEvent::MouseMove { x: *x, y: *y });
            },
            Step::Text(t) => {
                push_unicode_events(&mut out, t.as_str());
                assert(out@ =~= unicode_events(utf16(t@)));
            },
            Step::Key { scancode, extended } => {
                out.push(InputEvent::Key { scancode: *scancode, extended: *extended, down: true });
                out.push(InputEvent::Key { scancode: *scancode, extended: *extended, down: false });
            },
            Step::Chord(keys) => {
                let n = keys.len();
                let mut i: usize = 0;
                while i < n
                    invariant
                        n == keys@.len(),
                        i <= n,
                        out@ =~= Seq::new(
                            i as nat,
                            |j: int| InputEvent::Key { scancode: keys@[j].0, extended: keys@[j].1, down: true },
                        ),
                    decreases n - i,
                {
                    let (scancode, extended) = keys[i];
                    out.push(InputEvent::Key { scancode, extended, down: true });
                    i = i + 1;
                }
                let ghost pressed = out@;
                let mut k: usize = 0;
                while k < n
                    invariant
                        n == keys@.len(),
                        k <= n,
                        pressed.len() == n,
                        out@ =~= pressed + Seq::new(
                            k as nat,
                            |j: int|
                                InputEvent::Key {
                                    scancode: keys@[n - 1 - j].0,
                                    extended: keys@[n - 1 - j].1,
                                    down: false,
                                },
                        ),
                    decreases n - k,
                {
                    let (scancode, extended) = keys[n - 1 - k];
                    out.push(InputEvent::Key { scancode, extended, down: false });
                    k = k + 1;
                }
                assert(out@ =~= chord_events(keys@));
            },
            Step::Scroll(units) => {
                out.push(InputEvent::Wheel { horizontal: false, units: *units });
            },
        }
        proof {
            assert(out@ =~= step_events(self@));
        }
        out
    }
}

proof fn lemma_find_shift(s: Seq<char>, c: char, pos: int)
    requires
        0 <= pos <= s.len(),
    ensures
        find_from(s, c, pos) == pos + find_from(s.subrange(pos, s.len() as int), c, 0),
{
    lemma_find_shift_from(s, c, pos, pos);
}

proof fn lemma_find_shift_from(s: Seq<char>, c: char, pos: int, k: int)
    requires
        0 <= pos <= k <= s.len(),
    ensures
        find_from(s, c, k) == pos + find_from(s.subrange(pos, s.len() as int), c, k - pos),
    decreases s.len() - k,
{
    if k < s.len() && s[k] != c {
        lemma_find_shift_from(s, c, pos, k + 1);
    }
}

} // verus!
