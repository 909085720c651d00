//! The Connections window's model: where a profile's connection stands (as the gallery, the
//! Dock menu, the Window menu and a session window's identity capsule show it) and the live
//! thumbnails of its gallery cards: which sessions are due for one, the downscale to at most
//! 320×180, and the PNG data URL.
use std::time::{Duration, Instant};
use vstd::prelude::*;

use crate::geometry::Size;
use crate::view::ConnectMode;
use crate::golden::{png_rgba8, write_png};
use crate::text::{push_char, views};
use crate::time::{duration_nanos, duration_new, elapsed_since, nanos_of, saturating_since};

verus! {

broadcast use vstd::string::group_string_axioms;

/// Where a profile's connection stands.
#[derive(Debug, Clone, Copy, PartialEq, Eq, Hash, Structural)]
pub enum ConnectionStatus {
    /// No session window.
    Idle,
    /// Connecting, or waiting for a certificate decision (spinner).
    Connecting,
    /// The picture (or the GNOME login screen) is live (green).
    Live,
    /// Waiting out a reconnect backoff (amber).
    Reconnecting,
    /// Failed or disconnected with an explanation (red).
    Failed,
}

/// A session window's title bar: the identity capsule and the buttons.
#[derive(Debug, Clone, PartialEq, Eq)]
pub struct WindowIdentity {
    /// The window's profile (a UUID as a number).
    pub profile_id: u128,
    /// Display name.
    pub name: String,
    /// Host as saved in the profile.
    pub host: String,
    /// Connection mode (picks the glyph).
    pub mode: ConnectMode,
    /// Dot or spinner.
    pub status: ConnectionStatus,
    /// Greeter hint (tooltip) while the GNOME login screen waits.
    pub hint: Option<String>,
    /// The statistics HUD is on (gauge pressed).
    pub show_stats: bool,
}

/// Label of the Connections window.
pub const CONNECTIONS_WINDOW: &'static str = "connections";

/// How often a live session's thumbnail is refreshed while the Connections window shows, in
/// seconds.
pub const THUMBNAIL_INTERVAL_SECS: u64 = 15;

/// How often a live session's thumbnail is refreshed while the Connections window shows.
pub fn thumbnail_interval() -> (r: Duration)
    ensures
        duration_nanos(r) == THUMBNAIL_INTERVAL_SECS * 1_000_000_000,
{
    duration_new(THUMBNAIL_INTERVAL_SECS, 0)
}

/// The largest thumbnail width.
pub const THUMBNAIL_MAX_WIDTH: u32 = 320;

/// The largest thumbnail height.
pub const THUMBNAIL_MAX_HEIGHT: u32 = 180;

/// The box a thumbnail fits in: 320×180.
pub fn thumbnail_max() -> (r: Size)
    ensures
        r == (Size { width: THUMBNAIL_MAX_WIDTH, height: THUMBNAIL_MAX_HEIGHT }),
{
    Size { width: THUMBNAIL_MAX_WIDTH, height: THUMBNAIL_MAX_HEIGHT }
}

/// `v`, but at least 1.
pub open spec fn at_least_one(v: int) -> int {
    if v < 1 {
        1
    } else {
        v
    }
}

/// `src` scaled down, keeping its aspect ratio (rounded down, at least one pixel), until it fits
/// in `max`; a size that already fits is kept (never upscaled), and an empty one stays empty.
pub open spec fn fit_of(src: Size, max: Size) -> Size {
    let w = src.width as int;
    let h = src.height as int;
    if w == 0 || h == 0 {
        Size { width: 0, height: 0 }
    } else if w <= max.width && h <= max.height {
        src
    } else if w * max.height <= h * max.width {
        Size { width: at_least_one(w * max.height / h) as u32, height: max.height }
    } else {
        Size { width: max.width, height: at_least_one(h * max.width / w) as u32 }
    }
}

/// `src` scaled down to fit in `max` (see [`fit_of`]).
pub fn fit(src: Size, max: Size) -> (r: Size)
    ensures
        r == fit_of(src, max),
        r.width <= src.width && r.height <= src.height,
{
    let w = src.width as u64;
    let h = src.height as u64;
    if w == 0 || h == 0 {
        return Size { width: 0, height: 0 };
    }
    if src.width <= max.width && src.height <= max.height {
        return src;
    }
    let mw = max.width as u64;
    let mh = max.height as u64;
    assert(w * mh <= 0xFFFF_FFFF * 0xFFFF_FFFF && h * mw <= 0xFFFF_FFFF * 0xFFFF_FFFF) by (nonlinear_arith)
        requires
            w <= 0xFFFF_FFFF,
            h <= 0xFFFF_FFFF,
            mw <= 0xFFFF_FFFF,
            mh <= 0xFFFF_FFFF,
    ;
    if w * mh <= h * mw {
        let q = w * mh / h;
        proof {
            lemma_fit_height_limited(w as int, h as int, mw as int, mh as int);
            assert(q <= w) by (nonlinear_arith)
                requires
                    q == (w * mh) as int / h as int,
                    h > 0,
                    mh <= h,
            {
                assert(w * mh <= w * h);
            }
        }
        let width: u32 = if q < 1 { 1 } else { q as u32 };
        Size { width, height: max.height }
    } else {
        let q = h * mw / w;
        proof {
            lemma_fit_width_limited(w as int, h as int, mw as int, mh as int);
            assert(q <= h) by (nonlinear_arith)
                requires
                    q == (h * mw) as int / w as int,
                    w > 0,
                    mw <= w,
            {
                assert(h * mw <= h * w);
            }
        }
        let height: u32 = if q < 1 { 1 } else { q as u32 };
        Size { width: max.width, height }
    }
}

proof fn lemma_fit_height_limited(w: int, h: int, mw: int, mh: int)
    requires
        w > 0,
        h > 0,
        mw >= 0,
        mh >= 0,
        w * mh <= h * mw,
        !(w <= mw && h <= mh),
    ensures
        mh <= h,
{
    if h < mh {
        assert(w > mw);
        assert(w * mh > mw * mh) by (nonlinear_arith)
            requires
                w > mw,
                mh > 0,
        ;
        assert(h * mw <= mh * mw) by (nonlinear_arith)
            requires
                h < mh,
                mw >= 0,
        ;
    }
}

proof fn lemma_fit_width_limited(w: int, h: int, mw: int, mh: int)
    requires
        w > 0,
        h > 0,
        mw >= 0,
        mh >= 0,
        w * mh > h * mw,
        !(w <= mw && h <= mh),
    ensures
        mw <= w,
{
    if w < mw {
        assert(h > mh);
        assert(h * mw > w * mh) by (nonlinear_arith)
            requires
                h > mh,
                mw > w,
                w > 0,
                mh >= 0,
        {
            assert(h * mw > h * w);
            assert(h * w >= mh * w);
        }
    }
}

/// The RFC 4648 base64 character of the 6-bit value `v`.
pub open spec fn b64_char(v: nat) -> char {
    if v < 26 {
        (65 + v) as char
    } else if v < 52 {
        (97 + (v - 26)) as char
    } else if v < 62 {
        (48 + (v - 52)) as char
    } else if v == 62 {
        '+'
    } else {
        '/'
    }
}

/// The four characters that encode the three bytes `a`, `b`, `c`.
pub open spec fn b64_quad(a: u8, b: u8, c: u8) -> Seq<char> {
    seq![
        b64_char(a as nat / 4),
        b64_char((a as nat % 4) * 16 + b as nat / 16),
        b64_char((b as nat % 16) * 4 + c as nat / 64),
        b64_char(c as nat % 64),
    ]
}

/// The characters of the first `n` complete three-byte groups of `s`.
pub open spec fn b64_groups(s: Seq<u8>, n: nat) -> Seq<char>
    decreases n,
{
    if n == 0 {
        Seq::empty()
    } else {
        let k = 3 * (n - 1) as int;
        b64_groups(s, (n - 1) as nat) + b64_quad(s[k], s[k + 1], s[k + 2])
    }
}

/// RFC 4648 base64 (standard alphabet, `=` padding) of `s`.
pub open spec fn base64_of(s: Seq<u8>) -> Seq<char> {
    let n = s.len() / 3;
    let k = 3 * n as int;
    b64_groups(s, n) + if s.len() % 3 == 1 {
        seq![b64_char(s[k] as nat / 4), b64_char((s[k] as nat % 4) * 16), '=', '=']
    } else if s.len() % 3 == 2 {
        seq![
            b64_char(s[k] as nat / 4),
            b64_char((s[k] as nat % 4) * 16 + s[k + 1] as nat / 16),
            b64_char((s[k + 1] as nat % 16) * 4),
            '=',
        ]
    } else {
        Seq::empty()
    }
}

fn b64_digit(v: u8) -> (r: char)
    requires
        v < 64,
    ensures
        r == b64_char(v as nat),
{
    if v < 26 {
        (65u8 + v) as char
    } else if v < 52 {
        (97u8 + (v - 26)) as char
    } else if v < 62 {
        (48u8 + (v - 52)) as char
    } else if v == 62 {
        '+'
    } else {
        '/'
    }
}

/// RFC 4648 base64 of `data`: standard alphabet, padded with `=`.
pub fn base64(data: &[u8]) -> (r: String)
    ensures
        r@ == base64_of(data@),
{
    let mut out = String::new();
    let n = data.len() / 3;
    let mut g: usize = 0;
    while g < n
        invariant
            n == data@.len() / 3,
            g <= n,
            out@ == b64_groups(data@, g as nat),
        decreases n - g,
    {
        let len = data.len();
        assert(3 * g + 2 < len) by (nonlinear_arith)
            requires
                g < n,
                n == len / 3,
        ;
        let k = 3 * g;
        let a = data[k];
        let b = data[k + 1];
        let c = data[k + 2];
        push_char(&mut out, b64_digit(a / 4));
        push_char(&mut out, b64_digit((a % 4) * 16 + b / 16));
        push_char(&mut out, b64_digit((b % 16) * 4 + c / 64));
        push_char(&mut out, b64_digit(c % 64));
        g = g + 1;
        proof {
            assert(out@ =~= b64_groups(data@, g as nat));
        }
    }
    let k = 3 * n;
    let rest = data.len() - k;
    if rest == 1 {
        let a = data[k];
        push_char(&mut out, b64_digit(a / 4));
        push_char(&mut out, b64_digit((a % 4) * 16));
        push_char(&mut out, '=');
        push_char(&mut out, '=');
    } else if rest == 2 {
        let a = data[k];
        let b = data[k + 1];
        push_char(&mut out, b64_digit(a / 4));
        push_char(&mut out, b64_digit((a % 4) * 16 + b / 16));
        push_char(&mut out, b64_digit((b % 16) * 4));
        push_char(&mut out, '=');
    }
    proof {
        assert(out@ =~= base64_of(data@));
    }
    out
}

/// The prefix of a PNG data URL.
pub open spec fn png_url_prefix() -> Seq<char> {
    "data:image/png;base64,"@
}

/// An 8-bit RGBA image of `size` as a `data:image/png;base64,…` URL: `None` when `rgba` does
/// not hold exactly `width × height` pixels, or when the PNG encoder refuses the image.
pub fn png_data_url(rgba: &[u8], size: Size) -> (r: Option<String>)
    ensures
        rgba@.len() != size.width * size.height * 4 ==> r is None,
        rgba@.len() == size.width * size.height * 4 ==> match png_rgba8(size.width, size.height, rgba@) {
            Some(png) => r is Some && r->0@ == png_url_prefix() + base64_of(png),
            None => r is None,
        },
{
    let w = size.width as u128;
    let h = size.height as u128;
    assert(w * h * 4 <= 0x4_0000_0000_0000_0000) by (nonlinear_arith)
        requires
            w <= 0xFFFF_FFFF,
            h <= 0xFFFF_FFFF,
    ;
    let need: u128 = w * h * 4;
    if rgba.len() as u128 != need {
        return None;
    }
    match write_png(size.width, size.height, rgba) {
        Ok(png) => {
            let body = base64(png.as_slice());
            Some(String::from_str("data:image/png;base64,").concat(body.as_str()))
        },
        Err(_) => None,
    }
}

/// The sum of channel `c` over pixels `x0..x1` of row `y` of a BGRA image `w` pixels wide.
pub open spec fn row_sum(s: Seq<u8>, w: int, y: int, x0: int, x1: int, c: int) -> int
    decreases x1 - x0,
{
    if x1 <= x0 {
        0
    } else {
        row_sum(s, w, y, x0, x1 - 1, c) + s[(y * w + x1 - 1) * 4 + c]
    }
}

/// The sum of channel `c` over the pixels `x0..x1` × `y0..y1` of a BGRA image `w` pixels wide.
pub open spec fn box_sum(s: Seq<u8>, w: int, y0: int, y1: int, x0: int, x1: int, c: int) -> int
    decreases y1 - y0,
{
    if y1 <= y0 {
        0
    } else {
        box_sum(s, w, y0, y1 - 1, x0, x1, c) + row_sum(s, w, y1 - 1, x0, x1, c)
    }
}

/// Where cell `d` of `cells` starts along an axis of `n` source pixels.
pub open spec fn cell_start(d: int, n: int, cells: int) -> int {
    d * n / cells
}

/// The mean of channel `c` over the source pixels that destination pixel `(dx, dy)` covers
/// when a `w`×`h` BGRA image is shrunk to `dw`×`dh`.
pub open spec fn cell_mean(s: Seq<u8>, w: int, h: int, dw: int, dh: int, dx: int, dy: int, c: int) -> int {
    let x0 = cell_start(dx, w, dw);
    let x1 = cell_start(dx + 1, w, dw);
    let y0 = cell_start(dy, h, dh);
    let y1 = cell_start(dy + 1, h, dh);
    box_sum(s, w, y0, y1, x0, x1, c) / ((x1 - x0) * (y1 - y0))
}

/// Destination pixel `p` (row-major) as opaque RGBA: the mean red, green and blue of its cell.
pub open spec fn cell_pixel(s: Seq<u8>, w: int, h: int, dw: int, dh: int, p: int) -> Seq<u8> {
    let dx = p % dw;
    let dy = p / dw;
    seq![
        cell_mean(s, w, h, dw, dh, dx, dy, 2) as u8,
        cell_mean(s, w, h, dw, dh, dx, dy, 1) as u8,
        cell_mean(s, w, h, dw, dh, dx, dy, 0) as u8,
        255u8,
    ]
}

/// The first `n` destination pixels.
pub open spec fn cell_pixels(s: Seq<u8>, w: int, h: int, dw: int, dh: int, n: nat) -> Seq<u8>
    decreases n,
{
    if n == 0 {
        Seq::empty()
    } else {
        cell_pixels(s, w, h, dw, dh, (n - 1) as nat) + cell_pixel(s, w, h, dw, dh, n - 1)
    }
}

/// A BGRA image of `src` shrunk with a box filter to fit in `max`, as opaque RGBA, with its
/// size; nothing (and an empty size) when `bgra` is shorter than `src` needs.
pub open spec fn downscale_of(bgra: Seq<u8>, src: Size, max: Size) -> (Seq<u8>, Size) {
    if bgra.len() < src.width * src.height * 4 {
        (Seq::empty(), Size { width: 0, height: 0 })
    } else {
        let d = fit_of(src, max);
        (
            cell_pixels(
                bgra,
                src.width as int,
                src.height as int,
                d.width as int,
                d.height as int,
                (d.width * d.height) as nat,
            ),
            d,
        )
    }
}

proof fn lemma_cells(d: int, n: int, cells: int)
    requires
        0 <= d < cells <= n,
    ensures
        0 <= cell_start(d, n, cells) < cell_start(d + 1, n, cells) <= n,
{
    assert(0 <= d * n / cells) by (nonlinear_arith)
        requires
            0 <= d,
            0 < cells <= n,
    ;
    assert((d + 1) * n / cells <= n) by (nonlinear_arith)
        requires
            0 <= d < cells,
            0 < cells <= n,
    {
        assert((d + 1) * n <= cells * n);
        vstd::arithmetic::div_mod::lemma_div_is_ordered((d + 1) * n, cells * n, cells);
        vstd::arithmetic::div_mod::lemma_div_multiples_vanish(n, cells);
    }
    assert(d * n / cells < (d + 1) * n / cells) by (nonlinear_arith)
        requires
            0 <= d < cells,
            0 < cells <= n,
    {
        assert((d + 1) * n == d * n + n);
        assert(d * n + n >= d * n + cells);
        vstd::arithmetic::div_mod::lemma_div_is_ordered(d * n + cells, (d + 1) * n, cells);
        vstd::arithmetic::div_mod::lemma_div_plus_one(d * n, cells);
    }
}

proof fn lemma_pixel_index(y: int, x: int, w: int, h: int)
    requires
        0 <= y < h,
        0 <= x < w,
    ensures
        0 <= (y * w + x) * 4,
        (y * w + x) * 4 + 3 < w * h * 4,
{
    assert(0 <= y * w) by (nonlinear_arith)
        requires
            0 <= y,
            0 <= w,
    ;
    assert(y * w + x < w * h) by (nonlinear_arith)
        requires
            0 <= y < h,
            0 <= x < w,
    {
        assert(y * w + w <= h * w) by (nonlinear_arith)
            requires
                y + 1 <= h,
                0 <= w,
        ;
    }
}

proof fn lemma_row_major(dy: int, dx: int, dw: int)
    requires
        0 <= dx < dw,
        0 <= dy,
    ensures
        (dy * dw + dx) % dw == dx,
        (dy * dw + dx) / dw == dy,
{
    vstd::arithmetic::div_mod::lemma_fundamental_div_mod_converse(dy * dw + dx, dw, dy, dx);
}

/// Shrinks a BGRA image of `src` with a box filter (each destination pixel is the mean of the
/// source pixels it covers) to fit in `max` (see [`fit_of`]), into opaque RGBA. Input shorter
/// than `src` needs gives nothing and an empty size.
pub fn downscale(bgra: &[u8], src: Size, max: Size) -> (r: (Vec<u8>, Size))
    ensures
        (r.0@, r.1) == downscale_of(bgra@, src, max),
{
    let w = src.width as u64;
    let h = src.height as u64;
    assert(w * h * 4 <= 0x4_0000_0000_0000_0000) by (nonlinear_arith)
        requires
            w <= 0xFFFF_FFFF,
            h <= 0xFFFF_FFFF,
    ;
    let need: u128 = w as u128 * h as u128 * 4;
    if (bgra.len() as u128) < need {
        return (Vec::new(), Size { width: 0, height: 0 });
    }
    let len = bgra.len();
    let d = fit(src, max);
    let dw = d.width as u64;
    let dh = d.height as u64;
    let mut out: Vec<u8> = Vec::new();
    let mut dy: u64 = 0;
    while dy < dh
        invariant
            w == src.width,
            h == src.height,
            dw == d.width,
            dh == d.height,
            d == fit_of(src, max),
            dw <= w,
            dh <= h,
            bgra@.len() >= w * h * 4,
            len == bgra@.len(),
            dy <= dh,
            out@ == cell_pixels(bgra@, w as int, h as int, dw as int, dh as int, (dy * dw) as nat),
        decreases dh - dy,
    {
        proof {
            lemma_cells(dy as int, h as int, dh as int);
        }
        assert(dy * h <= 0xFFFF_FFFF * 0xFFFF_FFFF && (dy + 1) * h <= 0xFFFF_FFFF * 0xFFFF_FFFF) by (nonlinear_arith)
            requires
                dy < dh <= h,
                h <= 0xFFFF_FFFF,
        ;
        let y0 = dy * h / dh;
        let y1 = (dy + 1) * h / dh;
        let mut dx: u64 = 0;
        while dx < dw
            invariant
                w == src.width,
                h == src.height,
                dw == d.width,
                dh == d.height,
                dw <= w,
                dh <= h,
                bgra@.len() >= w * h * 4,
                len == bgra@.len(),
                dy < dh,
                dx <= dw,
                y0 == cell_start(dy as int, h as int, dh as int),
                y1 == cell_start(dy + 1, h as int, dh as int),
                0 <= y0 < y1 <= h,
                out@ == cell_pixels(
                    bgra@,
                    w as int,
                    h as int,
                    dw as int,
                    dh as int,
                    (dy * dw + dx) as nat,
                ),
            decreases dw - dx,
        {
            proof {
                lemma_cells(dx as int, w as int, dw as int);
            }
            assert(dx * w <= 0xFFFF_FFFF * 0xFFFF_FFFF && (dx + 1) * w <= 0xFFFF_FFFF * 0xFFFF_FFFF) by (nonlinear_arith)
                requires
                    dx < dw <= w,
                    w <= 0xFFFF_FFFF,
            ;
            let x0 = dx * w / dw;
            let x1 = (dx + 1) * w / dw;
            let mut b: u128 = 0;
            let mut g: u128 = 0;
            let mut r: u128 = 0;
            let mut y = y0;
            while y < y1
                invariant
                    w == src.width,
                    h == src.height,
                    bgra@.len() >= w * h * 4,
                    len == bgra@.len(),
                    0 <= y0 <= y <= y1 <= h,
                    0 <= x0 < x1 <= w,
                    b == box_sum(bgra@, w as int, y0 as int, y as int, x0 as int, x1 as int, 0),
                    g == box_sum(bgra@, w as int, y0 as int, y as int, x0 as int, x1 as int, 1),
                    r == box_sum(bgra@, w as int, y0 as int, y as int, x0 as int, x1 as int, 2),
                    b <= (y - y0) * 1095216660480,
                    g <= (y - y0) * 1095216660480,
                    r <= (y - y0) * 1095216660480,
                decreases y1 - y,
            {
                let mut rb: u128 = 0;
                let mut rg: u128 = 0;
                let mut rr: u128 = 0;
                let mut x = x0;
                while x < x1
                    invariant
                        w == src.width,
                        h == src.height,
                        bgra@.len() >= w * h * 4,
                        len == bgra@.len(),
                        0 <= y < h,
                        0 <= x0 <= x <= x1 <= w,
                        rb == row_sum(bgra@, w as int, y as int, x0 as int, x as int, 0),
                        rg == row_sum(bgra@, w as int, y as int, x0 as int, x as int, 1),
                        rr == row_sum(bgra@, w as int, y as int, x0 as int, x as int, 2),
                        rb <= 255 * (x - x0),
                        rg <= 255 * (x - x0),
                        rr <= 255 * (x - x0),
                    decreases x1 - x,
                {
                    proof {
                        lemma_pixel_index(y as int, x as int, w as int, h as int);
                    }
                    assert(y * w + x < w * h);
                    let i = ((y * w + x) * 4) as usize;
                    rb = rb + bgra[i] as u128;
                    rg = rg + bgra[i + 1] as u128;
                    rr = rr + bgra[i + 2] as u128;
                    x = x + 1;
                }
                assert(rb <= 255 * 0xFFFF_FFFFu64 && rg <= 255 * 0xFFFF_FFFFu64 && rr <= 255
                    * 0xFFFF_FFFFu64);
                assert((y - y0) * 1095216660480 <= 0xFFFF_FFFFu64 * 1095216660480) by (nonlinear_arith)
                    requires
                        y0 <= y < h,
                        h <= 0xFFFF_FFFF,
                ;
                b = b + rb;
                g = g + rg;
                r = r + rr;
                y = y + 1;
            }
            assert((x1 - x0) * (y1 - y0) <= 0xFFFF_FFFFu64 * 0xFFFF_FFFFu64) by (nonlinear_arith)
                requires
                    0 <= x0 < x1 <= w,
                    0 <= y0 < y1 <= h,
                    w <= 0xFFFF_FFFF,
                    h <= 0xFFFF_FFFF,
            ;
            let count = ((x1 - x0) * (y1 - y0)) as u128;
            assert(count > 0) by (nonlinear_arith)
                requires
                    count == (x1 - x0) * (y1 - y0),
                    x1 > x0,
                    y1 > y0,
            ;
            let ghost before = out@;
            out.push((r / count) as u8);
            out.push((g / count) as u8);
            out.push((b / count) as u8);
            out.push(255u8);
            proof {
                let p = dy * dw + dx;
                lemma_row_major(dy as int, dx as int, dw as int);
                assert(out@ =~= before + cell_pixel(bgra@, w as int, h as int, dw as int, dh as int, p as int));
                assert((dy * dw + dx + 1) as nat == (p + 1) as nat);
            }
            dx = dx + 1;
        }
        assert(dy * dw + dw == (dy + 1) * dw) by (nonlinear_arith);
        dy = dy + 1;
    }
    assert(dh * dw == dw * dh) by (nonlinear_arith);
    (out, d)
}

impl Default for ThumbnailThrottle {
    /// The throttle at launch (see [`ThumbnailThrottle::new`]).
    fn default() -> (r: Self)
        ensures
            !r.is_visible(),
            forall|w: Seq<char>| r.sampled_at(w) is None,
    {
        ThumbnailThrottle::new()
    }
}

/// When window `w` was last sampled according to the records `s` (the latest record wins).
pub open spec fn sample_of(s: Seq<(String, Instant)>, w: Seq<char>) -> Option<Instant>
    decreases s.len(),
{
    if s.len() == 0 {
        None
    } else if s.last().0@ == w {
        Some(s.last().1)
    } else {
        sample_of(s.drop_last(), w)
    }
}

/// The records `s` without those of window `w`.
pub open spec fn without(s: Seq<(String, Instant)>, w: Seq<char>) -> Seq<(String, Instant)>
    decreases s.len(),
{
    if s.len() == 0 {
        s
    } else if s.last().0@ == w {
        without(s.drop_last(), w)
    } else {
        without(s.drop_last(), w).push(s.last())
    }
}

proof fn lemma_without(s: Seq<(String, Instant)>, w: Seq<char>, v: Seq<char>)
    ensures
        sample_of(without(s, w), v) == if v == w {
            None
        } else {
            sample_of(s, v)
        },
    decreases s.len(),
{
    if s.len() > 0 {
        lemma_without(s.drop_last(), w, v);
        if s.last().0@ != w {
            assert(without(s, w).drop_last() =~= without(s.drop_last(), w));
        }
    }
}

/// Whether a window last sampled at `last` (never: `None`) is due for a thumbnail at `now`.
pub open spec fn sample_due(last: Option<Instant>, now: Instant) -> bool {
    match last {
        None => true,
        Some(t) => duration_nanos(elapsed_since(now, t)) >= THUMBNAIL_INTERVAL_SECS * 1_000_000_000,
    }
}

/// Which live sessions get a thumbnail while the Connections window shows: a session that has
/// not been sampled since it went live (or since the window was shown) at once, then one per
/// interval; none while the window is hidden.
pub struct ThumbnailThrottle {
    visible: bool,
    sampled: Vec<(String, Instant)>,
}

impl ThumbnailThrottle {
    /// Whether the Connections window shows.
    pub closed spec fn is_visible(&self) -> bool {
        self.visible
    }

    /// When window `w` was last sampled, since it went live or the Connections window was
    /// shown.
    pub closed spec fn sampled_at(&self, w: Seq<char>) -> Option<Instant> {
        sample_of(self.sampled@, w)
    }

    /// The windows of `live` (in order) that are due at `now`.
    pub open spec fn due_of(&self, now: Instant, live: Seq<Seq<char>>) -> Seq<Seq<char>>
        decreases live.len(),
    {
        if !self.is_visible() || live.len() == 0 {
            Seq::empty()
        } else if sample_due(self.sampled_at(live.last()), now) {
            self.due_of(now, live.drop_last()).push(live.last())
        } else {
            self.due_of(now, live.drop_last())
        }
    }

    /// The throttle at launch: the Connections window is hidden and nothing was sampled.
    pub fn new() -> (r: Self)
        ensures
            !r.is_visible(),
            forall|w: Seq<char>| r.sampled_at(w) is None,
    {
        ThumbnailThrottle { visible: false, sampled: Vec::new() }
    }

    /// Whether the Connections window shows.
    pub fn visible(&self) -> (r: bool)
        ensures
            r == self.is_visible(),
    {
        self.visible
    }

    /// The Connections window was shown or hidden. Showing it after it was hidden samples every
    /// live session at once.
    pub fn set_visible(&mut self, visible: bool)
        ensures
            final(self).is_visible() == visible,
            visible && !old(self).is_visible() ==> forall|w: Seq<char>| final(self).sampled_at(w) is None,
            !(visible && !old(self).is_visible()) ==> forall|w: Seq<char>| final(self).sampled_at(w)
                == old(self).sampled_at(w),
    {
        if visible && !self.visible {
            self.sampled = Vec::new();
        }
        self.visible = visible;
    }

    fn forget(&mut self, w: &str)
        ensures
            final(self).is_visible() == old(self).is_visible(),
            forall|v: Seq<char>| final(self).sampled_at(v) == if v == w@ {
                None
            } else {
                old(self).sampled_at(v)
            },
    {
        let ws = String::from_str(w);
        let mut kept: Vec<(String, Instant)> = Vec::new();
        let mut i: usize = 0;
        while i < self.sampled.len()
            invariant
                ws@ == w@,
                i <= self.sampled@.len(),
                kept@ == without(self.sampled@.subrange(0, i as int), w@),
            decreases self.sampled@.len() - i,
        {
            proof {
                assert(self.sampled@.subrange(0, i + 1).drop_last() =~= self.sampled@.subrange(0, i as int));
            }
            if !(self.sampled[i].0 == ws) {
                let entry = (self.sampled[i].0.clone(), self.sampled[i].1);
                kept.push(entry);
            }
            i = i + 1;
        }
        proof {
            assert(self.sampled@.subrange(0, self.sampled@.len() as int) =~= self.sampled@);
            assert forall|v: Seq<char>| sample_of(kept@, v) == if v == w@ {
                None
            } else {
                sample_of(self.sampled@, v)
            } by {
                lemma_without(self.sampled@, w@, v);
            }
        }
        self.sampled = kept;
    }

    /// Session window `w` went live: it is sampled at once (when the window shows).
    pub fn went_live(&mut self, w: &str)
        ensures
            final(self).is_visible() == old(self).is_visible(),
            forall|v: Seq<char>| final(self).sampled_at(v) == if v == w@ {
                None
            } else {
                old(self).sampled_at(v)
            },
    {
        self.forget(w);
    }

    /// Session window `w`'s session ended: it is forgotten.
    pub fn ended(&mut self, w: &str)
        ensures
            final(self).is_visible() == old(self).is_visible(),
            forall|v: Seq<char>| final(self).sampled_at(v) == if v == w@ {
                None
            } else {
                old(self).sampled_at(v)
            },
    {
        self.forget(w);
    }

    /// The windows of `live` due for a thumbnail at `now`, in order (none while hidden); each
    /// one returned counts as sampled at `now`.
    pub fn due(&mut self, now: Instant, live: &[&str]) -> (r: Vec<String>)
        ensures
            views(r@) == old(self).due_of(now, live@.map_values(|l: &str| l@)),
            final(self).is_visible() == old(self).is_visible(),
            forall|v: Seq<char>| final(self).sampled_at(v) == if views(r@).contains(v) {
                Some(now)
            } else {
                old(self).sampled_at(v)
            },
    {
        let ghost names = live@.map_values(|l: &str| l@);
        let mut out: Vec<String> = Vec::new();
        if !self.visible {
            proof {
                assert(views(out@) =~= Seq::<Seq<char>>::empty());
            }
            return out;
        }
        let mut i: usize = 0;
        while i < live.len()
            invariant
                self.visible,
                i <= live@.len(),
                names == live@.map_values(|l: &str| l@),
                views(out@) == self.due_of(now, names.subrange(0, i as int)),
            decreases live@.len() - i,
        {
            proof {
                assert(names.subrange(0, i + 1).drop_last() =~= names.subrange(0, i as int));
                assert(names.subrange(0, i + 1).last() == live@[i as int]@);
            }
            let last = self.last_sample(live[i]);
            let is_due = match last {
                None => true,
                Some(t) => nanos_of(&saturating_since(now, t)) >= 15_000_000_000,
            };
            if is_due {
                let name = String::from_str(live[i]);
                let ghost before = out@;
                out.push(name);
                proof {
                    assert(views(out@) =~= views(before).push(live@[i as int]@));
                }
            }
            i = i + 1;
        }
        proof {
            assert(names.subrange(0, names.len() as int) =~= names);
        }
        let ghost old_self = *self;
        let mut j: usize = 0;
        while j < out.len()
            invariant
                j <= out@.len(),
                self.visible == old_self.visible,
                forall|v: Seq<char>| #[trigger] self.sampled_at(v) == if views(out@).subrange(0, j as int).contains(v) {
                    Some(now)
                } else {
                    old_self.sampled_at(v)
                },
            decreases out@.len() - j,
        {
            let ghost prev = *self;
            self.forget(out[j].as_str());
            let ghost mid = *self;
            let entry = (out[j].clone(), now);
            let ghost before = self.sampled@;
            self.sampled.push(entry);
            proof {
                assert(self.sampled@.drop_last() =~= before);
                assert(self.sampled@.last() == entry);
                assert(views(out@)[j as int] == out@[j as int]@);
                assert(views(out@).subrange(0, j + 1) =~= views(out@).subrange(0, j as int).push(out@[j as int]@));
                assert forall|v: Seq<char>| #[trigger] self.sampled_at(v) == if views(out@).subrange(0, j + 1).contains(v) {
                    Some(now)
                } else {
                    old_self.sampled_at(v)
                } by {
                    assert(prev.sampled_at(v) == if views(out@).subrange(0, j as int).contains(v) {
                        Some(now)
                    } else {
                        old_self.sampled_at(v)
                    });
                    assert(mid.sampled_at(v) == if v == out@[j as int]@ {
                        None
                    } else {
                        prev.sampled_at(v)
                    });
                    assert(sample_of(self.sampled@, v) == if entry.0@ == v {
                        Some(now)
                    } else {
                        sample_of(before, v)
                    });
                    let sj = views(out@).subrange(0, j as int);
                    let sj1 = views(out@).subrange(0, j + 1);
                    if v == out@[j as int]@ {
                        assert(sj1[j as int] == v);
                    } else if sj.contains(v) {
                        let k = choose|k: int| 0 <= k < sj.len() && sj[k] == v;
                        assert(sj1[k] == v);
                    } else {
                        assert forall|k: int| 0 <= k < sj1.len() implies sj1[k] != v by {
                            if k < j {
                                assert(sj1[k] == sj[k]);
                            }
                        }
                    }
                }
            }
            j = j + 1;
        }
        proof {
            assert(views(out@).subrange(0, out@.len() as int) =~= views(out@));
        }
        out
    }

    fn last_sample(&self, w: &str) -> (r: Option<Instant>)
        ensures
            r == self.sampled_at(w@),
    {
        let ws = String::from_str(w);
        let mut i = self.sampled.len();
        proof {
            assert(self.sampled@.subrange(0, i as int) =~= self.sampled@);
        }
        while i > 0
            invariant
                ws@ == w@,
                i <= self.sampled@.len(),
                sample_of(self.sampled@, w@) == sample_of(self.sampled@.subrange(0, i as int), w@),
            decreases i,
        {
            proof {
                assert(self.sampled@.subrange(0, i as int).drop_last() =~= self.sampled@.subrange(0, i - 1));
            }
            if self.sampled[i - 1].0 == ws {
                proof {
                    assert(self.sampled@.subrange(0, i as int).last() == self.sampled@[i - 1]);
                }
                return Some(self.sampled[i - 1].1);
            }
            i = i - 1;
        }
        None
    }
}

proof fn lemma_due_of_only_due(t: ThumbnailThrottle, now: Instant, live: Seq<Seq<char>>, w: Seq<char>)
    requires
        t.due_of(now, live).contains(w),
    ensures
        t.is_visible(),
        live.contains(w),
        sample_due(t.sampled_at(w), now),
    decreases live.len(),
{
    let d = t.due_of(now, live);
    if live.len() > 0 && t.is_visible() {
        let rest = live.drop_last();
        if sample_due(t.sampled_at(live.last()), now) && d.last() == w {
            assert(live[live.len() - 1] == w);
        } else {
            let k = choose|k: int| 0 <= k < d.len() && d[k] == w;
            if sample_due(t.sampled_at(live.last()), now) {
                assert(d[k] == t.due_of(now, rest)[k] || k == d.len() - 1);
                if k == d.len() - 1 {
                    assert(live[live.len() - 1] == w);
                } else {
                    assert(t.due_of(now, rest).contains(w));
                    lemma_due_of_only_due(t, now, rest, w);
                    let m = choose|m: int| 0 <= m < rest.len() && rest[m] == w;
                    assert(live[m] == w);
                }
            } else {
                assert(t.due_of(now, rest).contains(w));
                lemma_due_of_only_due(t, now, rest, w);
                let m = choose|m: int| 0 <= m < rest.len() && rest[m] == w;
                assert(live[m] == w);
            }
        }
    }
}

/// Thumbnails flow only while the Connections window shows, and at most one per interval: a
/// window is due only if it is live and was not sampled less than the interval before `now`
/// (since it went live or the window was shown).
pub proof fn lemma_thumbnail_throttle(t: ThumbnailThrottle, now: Instant, live: Seq<Seq<char>>, w: Seq<char>)
    ensures
        !t.is_visible() ==> t.due_of(now, live) == Seq::<Seq<char>>::empty(),
        t.due_of(now, live).contains(w) ==> live.contains(w),
        (t.sampled_at(w) matches Some(last) && duration_nanos(elapsed_since(now, last))
            < THUMBNAIL_INTERVAL_SECS * 1_000_000_000) ==> !t.due_of(now, live).contains(w),
{
    if t.due_of(now, live).contains(w) {
        lemma_due_of_only_due(t, now, live, w);
    }
}

/// A fitted size is never larger than the source, keeps at least one pixel each way, and fits
/// in the box unless the source already did.
pub proof fn lemma_fit(src: Size, max: Size)
    requires
        src.width > 0,
        src.height > 0,
        max.width > 0,
        max.height > 0,
    ensures
        ({
            let r = fit_of(src, max);
            &&& 1 <= r.width <= src.width
            &&& 1 <= r.height <= src.height
            &&& (src.width <= max.width && src.height <= max.height) ==> r == src
            &&& r.width <= max.width || r.width == src.width
            &&& r.height <= max.height || r.height == src.height
            &&& r.width <= max.width && r.height <= max.height
        }),
{
    let w = src.width as int;
    let h = src.height as int;
    let mw = max.width as int;
    let mh = max.height as int;
    if !(w <= mw && h <= mh) {
        if w * mh <= h * mw {
            lemma_fit_height_limited(w, h, mw, mh);
            assert(w * mh / h <= w) by (nonlinear_arith)
                requires
                    h > 0,
                    mh <= h,
                    w > 0,
            {
                assert(w * mh <= w * h);
            }
            assert(w * mh / h <= mw) by (nonlinear_arith)
                requires
                    h > 0,
                    w * mh <= h * mw,
                    mw > 0,
            {
                assert(w * mh <= h * mw);
                vstd::arithmetic::div_mod::lemma_div_is_ordered(w * mh, h * mw, h);
                vstd::arithmetic::div_mod::lemma_div_multiples_vanish(mw, h);
            }
        } else {
            lemma_fit_width_limited(w, h, mw, mh);
            assert(h * mw / w <= h) by (nonlinear_arith)
                requires
                    w > 0,
                    mw <= w,
                    h > 0,
            {
                assert(h * mw <= h * w);
            }
            assert(h * mw / w <= mh) by (nonlinear_arith)
                requires
                    w > 0,
                    w * mh > h * mw,
                    mh > 0,
            {
                vstd::arithmetic::div_mod::lemma_div_is_ordered(h * mw, w * mh, w);
                vstd::arithmetic::div_mod::lemma_div_multiples_vanish(mh, w);
            }
        }
    }
}

} // verus!
