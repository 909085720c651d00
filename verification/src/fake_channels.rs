//! The fake server's virtual channels: which channels a leg offers, scripted clipboard formats,
//! and what the Display Control and graphics pipeline ends record and answer. Like g-r-d, each
//! monitor layout makes the graphics pipeline send `ResetGraphics` plus a new surface id; the
//! client's `CapabilitiesAdvertise` is answered with `CapabilitiesConfirm(V8.1, AVC420)` and one
//! solid-filled frame. Decoding and encoding the PDUs is the caller's.
use vstd::prelude::*;

use crate::text::chars_of;

verus! {

/// Which virtual channels a fake server leg offers.
#[derive(Debug, Clone, Copy, Default, PartialEq, Eq)]
pub struct Channels {
    /// Display Control (absent in Desktop Sharing).
    pub display_control: bool,
    /// Graphics pipeline.
    pub gfx: bool,
    /// Clipboard.
    pub clipboard: bool,
}

impl Channels {
    /// Every channel (Remote Login / Headless).
    pub fn all() -> (r: Self)
        ensures
            r == (Channels { display_control: true, gfx: true, clipboard: true }),
    {
        Channels { display_control: true, gfx: true, clipboard: true }
    }

    /// What the Desktop Sharing daemon offers: no Display Control.
    pub fn desktop_sharing() -> (r: Self)
        ensures
            r == (Channels { display_control: false, gfx: true, clipboard: true }),
    {
        Channels { display_control: false, gfx: true, clipboard: true }
    }

    /// `true` when DRDYNVC must be attached.
    pub fn any_dynamic(&self) -> (r: bool)
        ensures
            r == (self.display_control || self.gfx),
    {
        self.display_control || self.gfx
    }
}

/// One clipboard format served by the fake server (a scripted remote copy).
#[derive(Debug, Clone, PartialEq, Eq)]
pub struct ServerClipFormat {
    /// Format id.
    pub id: u32,
    /// Registered format name (e.g. `"image/png"`).
    pub name: Option<String>,
    /// The bytes returned for a Format Data Request of this format.
    pub data: Vec<u8>,
}

/// The UTF-16 code units of a character.
pub open spec fn utf16_of(c: char) -> Seq<u16> {
    let v = c as u32;
    if v < 0x10000 {
        seq![v as u16]
    } else {
        seq![(0xD800 + ((v - 0x10000) as u32 >> 10u32)) as u16, (0xDC00 + ((v - 0x10000) as u32 & 0x3FFu32)) as u16]
    }
}

/// The UTF-16 encoding of a character sequence.
pub open spec fn utf16(cs: Seq<char>) -> Seq<u16>
    decreases cs.len(),
{
    if cs.len() == 0 {
        seq![]
    } else {
        utf16(cs.drop_last()) + utf16_of(cs.last())
    }
}

/// The little-endian bytes of UTF-16 code units.
pub open spec fn le_units(us: Seq<u16>) -> Seq<u8>
    decreases us.len(),
{
    if us.len() == 0 {
        seq![]
    } else {
        le_units(us.drop_last()) + seq![(us.last() & 0xFF) as u8, (us.last() >> 8u16) as u8]
    }
}

/// The UTF-16 code units of `c`, in order.
pub fn encode_utf16_char(c: char) -> (r: Vec<u16>)
    ensures
        r@ == utf16_of(c),
{
    let v = c as u32;
    let mut out: Vec<u16> = Vec::new();
    if v < 0x10000 {
        out.push(v as u16);
    } else {
        let w = v - 0x10000;
        proof {
            assert(v <= 0x10FFFF) by {
                vstd::utf8::char_is_scalar(c);
            }
            assert(w >> 10u32 <= 0x3FF) by (bit_vector)
                requires
                    w <= 0xFFFFF,
            ;
            assert(w & 0x3FFu32 <= 0x3FF) by (bit_vector);
        }
        out.push((0xD800 + (w >> 10u32)) as u16);
        out.push((0xDC00 + (w & 0x3FFu32)) as u16);
    }
    proof {
        assert(out@ =~= utf16_of(c));
    }
    out
}

impl ServerClipFormat {
    /// `CF_UNICODETEXT` (id 13) with `text`: UTF-16LE plus a NUL unit.
    pub fn unicode_text(text: &str) -> (r: Self)
        ensures
            r.id == 13,
            r.name is None,
            r.data@ == le_units(utf16(text@)) + seq![0u8, 0u8],
    {
        let cs = chars_of(text);
        let mut data: Vec<u8> = Vec::new();
        let mut i: usize = 0;
        while i < cs.len()
            invariant
                cs@ == text@,
                i <= cs@.len(),
                data@ == le_units(utf16(cs@.subrange(0, i as int))),
            decreases cs@.len() - i,
        {
            let units = encode_utf16_char(cs[i]);
            let ghost before = data@;
            let mut k: usize = 0;
            while k < units.len()
                invariant
                    k <= units@.len(),
                    data@ == before + le_units(units@.subrange(0, k as int)),
                decreases units@.len() - k,
            {
                let u = units[k];
                proof {
                    assert(units@.subrange(0, k + 1).drop_last() =~= units@.subrange(0, k as int));
                    assert(before + le_units(units@.subrange(0, k as int)) + seq![(u & 0xFF) as u8, (u >> 8u16) as u8]
                        =~= before + le_units(units@.subrange(0, k + 1)));
                }
                data.push((u & 0xFF) as u8);
                data.push((u >> 8u16) as u8);
                proof {
                    assert(data@ =~= before + le_units(units@.subrange(0, k + 1)));
                }
                k = k + 1;
            }
            proof {
                assert(units@.subrange(0, k as int) =~= units@);
                assert(cs@.subrange(0, i + 1).drop_last() =~= cs@.subrange(0, i as int));
                lemma_le_units_append(utf16(cs@.subrange(0, i as int)), utf16_of(cs@[i as int]));
            }
            i = i + 1;
        }
        proof {
            assert(cs@.subrange(0, i as int) =~= text@);
        }
        data.push(0);
        data.push(0);
        proof {
            assert(data@ =~= le_units(utf16(text@)) + seq![0u8, 0u8]);
        }
        ServerClipFormat { id: 13, name: None, data }
    }

    /// The named `"image/png"` format with id `0xD011`.
    pub fn png(png: Vec<u8>) -> (r: Self)
        ensures
            r.id == 0xD011,
            r.name matches Some(n) && n@ == "image/png"@,
            r.data == png,
    {
        ServerClipFormat { id: 0xD011, name: Some(String::from_str("image/png")), data: png }
    }
}

proof fn lemma_le_units_append(a: Seq<u16>, b: Seq<u16>)
    ensures
        le_units(a + b) == le_units(a) + le_units(b),
    decreases b.len(),
{
    if b.len() == 0 {
        assert(a + b =~= a);
        assert(le_units(a) + le_units(b) =~= le_units(a));
    } else {
        lemma_le_units_append(a, b.drop_last());
        assert((a + b).drop_last() =~= a + b.drop_last());
        assert((a + b).last() == b.last());
        assert(le_units(a + b) =~= le_units(a) + le_units(b));
    }
}

/// A monitor layout the client requested over Display Control.
#[derive(Debug, Clone, Copy, PartialEq, Eq)]
pub struct RecordedLayout {
    /// Width in pixels.
    pub width: u32,
    /// Height in pixels.
    pub height: u32,
    /// `DesktopScaleFactor` in percent.
    pub desktop_scale: u32,
}

/// One monitor of a layout the client requested, as decoded from Display Control.
#[derive(Debug, Clone, Copy, PartialEq, Eq)]
pub struct MonitorSize {
    /// Width in pixels.
    pub width: u32,
    /// Height in pixels.
    pub height: u32,
    /// `DesktopScaleFactor` in percent, when the client sent one.
    pub desktop_scale: Option<u32>,
}

/// A graphics pipeline PDU the fake server sends.
#[derive(Debug, Clone, Copy, PartialEq, Eq, Structural)]
pub enum GfxCommand {
    /// `CapabilitiesConfirm` with capability set V8.1 and `AVC420_ENABLED`.
    CapabilitiesConfirmAvc420,
    /// `ResetGraphics` to `width`×`height` with no monitors.
    ResetGraphics { width: u32, height: u32 },
    /// `CreateSurface` in XRGB.
    CreateSurface { surface_id: u16, width: u16, height: u16 },
    /// `MapSurfaceToOutput` at the origin.
    MapSurfaceToOutput { surface_id: u16 },
    /// `StartFrame` with a zero timestamp.
    StartFrame { frame_id: u32 },
    /// `SolidFill` of one rectangle from the origin to (`right`, `bottom`) with colour
    /// r=0x60, g=0x40, b=0x20, opaque.
    SolidFill { surface_id: u16, right: u16, bottom: u16 },
    /// `EndFrame`.
    EndFrame { frame_id: u32 },
}

/// Shared state between the channel ends and the server loop of one leg.
pub struct ChannelState {
    /// Layouts received.
    pub layouts: Vec<RecordedLayout>,
    /// Sizes the loop still has to redraw for.
    pub pending_resets: Vec<(u32, u32)>,
    /// The client opened the graphics pipeline and advertised its caps.
    pub gfx_caps_advertised: bool,
    /// `FrameAcknowledge` frame ids received.
    pub gfx_frame_acks: Vec<u32>,
    /// `FrameAcknowledge`s with `SUSPEND_FRAME_ACKNOWLEDGEMENT`.
    pub gfx_suspend_acks: u32,
    /// `ResetGraphics` sizes sent.
    pub gfx_resets_sent: Vec<(u32, u32)>,
}

/// `v` as a `u16`, or `u16::MAX` when it does not fit.
pub open spec fn clamp16(v: int) -> u16 {
    if 0 <= v <= 0xFFFF {
        v as u16
    } else {
        0xFFFF
    }
}

/// The PDUs of the `n`-th redraw (counting from 1) to `width`×`height`: a reset, a new surface
/// numbered `n`, its mapping, and one solid-filled frame numbered `n`.
pub open spec fn redraw_of(n: nat, width: u32, height: u32) -> Seq<GfxCommand> {
    let surface_id = clamp16(n as int);
    let frame_id = surface_id as u32;
    let w16 = clamp16(width as int);
    let h16 = clamp16(height as int);
    seq![
        GfxCommand::ResetGraphics { width, height },
        GfxCommand::CreateSurface { surface_id, width: w16, height: h16 },
        GfxCommand::MapSurfaceToOutput { surface_id },
        GfxCommand::StartFrame { frame_id },
        GfxCommand::SolidFill { surface_id, right: w16, bottom: h16 },
        GfxCommand::EndFrame { frame_id },
    ]
}

/// What is recorded of a layout's primary monitor: its size, and its scale (100 % when the
/// client sent none).
pub open spec fn layout_of(m: MonitorSize) -> RecordedLayout {
    RecordedLayout {
        width: m.width,
        height: m.height,
        desktop_scale: match m.desktop_scale {
            Some(s) => s,
            None => 100,
        },
    }
}

fn clamp_u16(v: usize) -> (r: u16)
    ensures
        r == clamp16(v as int),
{
    if v <= 0xFFFF {
        v as u16
    } else {
        0xFFFF
    }
}

impl ChannelState {
    /// Nothing received or sent yet.
    pub fn new() -> (r: Self)
        ensures
            r.layouts@ == Seq::<RecordedLayout>::empty(),
            r.pending_resets@ == Seq::<(u32, u32)>::empty(),
            !r.gfx_caps_advertised,
            r.gfx_frame_acks@ == Seq::<u32>::empty(),
            r.gfx_suspend_acks == 0,
            r.gfx_resets_sent@ == Seq::<(u32, u32)>::empty(),
    {
        ChannelState {
            layouts: Vec::new(),
            pending_resets: Vec::new(),
            gfx_caps_advertised: false,
            gfx_frame_acks: Vec::new(),
            gfx_suspend_acks: 0,
            gfx_resets_sent: Vec::new(),
        }
    }

    /// Records a monitor layout the client requested: its primary (first) monitor's size and
    /// scale (100 % when absent) is recorded and queued for a redraw. An empty layout is an
    /// error, and changes nothing.
    pub fn monitor_layout(&mut self, monitors: &[MonitorSize]) -> (r: Result<(), String>)
        ensures
            monitors.len() == 0 ==> r is Err && r->Err_0@ == "empty monitor layout"@,
            monitors.len() == 0 ==> final(self).layouts@ == old(self).layouts@,
            monitors.len() == 0 ==> final(self).pending_resets@ == old(self).pending_resets@,
            monitors.len() > 0 ==> r is Ok,
            monitors.len() > 0 ==> final(self).layouts@ == old(self).layouts@.push(
                layout_of(monitors@[0]),
            ),
            monitors.len() > 0 ==> final(self).pending_resets@ == old(self).pending_resets@.push(
                (monitors@[0].width, monitors@[0].height),
            ),
            final(self).gfx_resets_sent@ == old(self).gfx_resets_sent@,
            final(self).gfx_frame_acks@ == old(self).gfx_frame_acks@,
            final(self).gfx_suspend_acks == old(self).gfx_suspend_acks,
            final(self).gfx_caps_advertised == old(self).gfx_caps_advertised,
    {
        if monitors.len() == 0 {
            return Err(String::from_str("empty monitor layout"));
        }
        let primary = monitors[0];
        let desktop_scale = match primary.desktop_scale {
            Some(s) => s,
            None => 100,
        };
        self.layouts.push(RecordedLayout { width: primary.width, height: primary.height, desktop_scale });
        self.pending_resets.push((primary.width, primary.height));
        Ok(())
    }

    /// Records a `FrameAcknowledge` for `frame_id`; `suspend` when its queue depth asks the
    /// server to stop waiting for acknowledgements.
    pub fn frame_acknowledged(&mut self, frame_id: u32, suspend: bool)
        requires
            suspend ==> old(self).gfx_suspend_acks < u32::MAX,
        ensures
            final(self).gfx_frame_acks@ == old(self).gfx_frame_acks@.push(frame_id),
            final(self).gfx_suspend_acks == old(self).gfx_suspend_acks + (if suspend {
                1int
            } else {
                0int
            }),
            final(self).layouts@ == old(self).layouts@,
            final(self).pending_resets@ == old(self).pending_resets@,
            final(self).gfx_resets_sent@ == old(self).gfx_resets_sent@,
            final(self).gfx_caps_advertised == old(self).gfx_caps_advertised,
    {
        if suspend {
            self.gfx_suspend_acks = self.gfx_suspend_acks + 1;
        }
        self.gfx_frame_acks.push(frame_id);
    }

    /// Redraws for a desktop of `width`×`height`: records the reset and returns its PDUs. Each
    /// redraw uses a new surface id (and frame id): the number of resets sent so far.
    pub fn redraw(&mut self, width: u32, height: u32) -> (r: Vec<GfxCommand>)
        ensures
            final(self).gfx_resets_sent@ == old(self).gfx_resets_sent@.push((width, height)),
            r@ == redraw_of(old(self).gfx_resets_sent@.len() + 1, width, height),
            final(self).layouts@ == old(self).layouts@,
            final(self).pending_resets@ == old(self).pending_resets@,
            final(self).gfx_frame_acks@ == old(self).gfx_frame_acks@,
            final(self).gfx_suspend_acks == old(self).gfx_suspend_acks,
            final(self).gfx_caps_advertised == old(self).gfx_caps_advertised,
    {
        self.gfx_resets_sent.push((width, height));
        let surface_id = clamp_u16(self.gfx_resets_sent.len());
        let frame_id = surface_id as u32;
        let w16: u16 = if width <= 0xFFFF { width as u16 } else { 0xFFFF };
        let h16: u16 = if height <= 0xFFFF { height as u16 } else { 0xFFFF };
        let r = vec![
            GfxCommand::ResetGraphics { width, height },
            GfxCommand::CreateSurface { surface_id, width: w16, height: h16 },
            GfxCommand::MapSurfaceToOutput { surface_id },
            GfxCommand::StartFrame { frame_id },
            GfxCommand::SolidFill { surface_id, right: w16, bottom: h16 },
            GfxCommand::EndFrame { frame_id },
        ];
        assert(r@ =~= redraw_of(old(self).gfx_resets_sent@.len() + 1, width, height));
        r
    }

    /// Answers the client's `CapabilitiesAdvertise` for a desktop of `width`×`height`:
    /// `CapabilitiesConfirm` followed by a first redraw.
    pub fn capabilities_advertised(&mut self, width: u32, height: u32) -> (r: Vec<GfxCommand>)
        ensures
            final(self).gfx_caps_advertised,
            final(self).gfx_resets_sent@ == old(self).gfx_resets_sent@.push((width, height)),
            r@ == seq![GfxCommand::CapabilitiesConfirmAvc420] + redraw_of(
                old(self).gfx_resets_sent@.len() + 1,
                width,
                height,
            ),
            final(self).layouts@ == old(self).layouts@,
            final(self).pending_resets@ == old(self).pending_resets@,
            final(self).gfx_frame_acks@ == old(self).gfx_frame_acks@,
            final(self).gfx_suspend_acks == old(self).gfx_suspend_acks,
    {
        self.gfx_caps_advertised = true;
        let mut pdus = vec![GfxCommand::CapabilitiesConfirmAvc420];
        let mut redraw = self.redraw(width, height);
        pdus.append(&mut redraw);
        pdus
    }
}

} // verus!
