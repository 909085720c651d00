//! A recording frame sink for graphics state-machine tests: every call in order, pixel payloads
//! reduced to their length and FNV-1a fingerprint, and the frames whose presentation is still
//! pending.
use vstd::prelude::*;

use crate::geometry::{Point, Rect, Size};

verus! {

/// When a recording frame sink runs the `presented` callbacks it receives.
#[derive(Debug, Clone, Copy, PartialEq, Eq, Default)]
pub enum PresentMode {
    /// Call `presented` inside `end_frame` (an instantly presenting renderer).
    #[default]
    Immediate,
    /// Queue callbacks until they are presented on demand (simulates GPU latency).
    Deferred,
}

/// The FNV-1a 64-bit offset basis.
pub const FNV_OFFSET: u64 = 0xcbf2_9ce4_8422_2325;

/// The FNV-1a 64-bit prime.
pub const FNV_PRIME: u64 = 0x0000_0100_0000_01b3;

/// FNV-1a 64 of `data`: start from the offset basis, then per byte xor it in and multiply by
/// the prime modulo 2^64.
pub open spec fn spec_fnv1a64(data: Seq<u8>) -> u64
    decreases data.len(),
{
    if data.len() == 0 {
        FNV_OFFSET
    } else {
        vstd::wrapping::u64_specs::wrapping_mul(spec_fnv1a64(data.drop_last()) ^ (data.last() as u64), FNV_PRIME)
    }
}

/// FNV-1a 64-bit hash, used to fingerprint pixel payloads.
pub fn fnv1a64(data: &[u8]) -> (r: u64)
    ensures
        r == spec_fnv1a64(data@),
{
    let mut h: u64 = 0xcbf2_9ce4_8422_2325;
    let mut i: usize = 0;
    while i < data.len()
        invariant
            i <= data@.len(),
            h == spec_fnv1a64(data@.subrange(0, i as int)),
        decreases data@.len() - i,
    {
        proof {
            assert(data@.subrange(0, i + 1).drop_last() =~= data@.subrange(0, i as int));
        }
        h = (h ^ data[i] as u64).wrapping_mul(0x0000_0100_0000_01b3);
        i = i + 1;
    }
    proof {
        assert(data@.subrange(0, i as int) =~= data@);
    }
    h
}

/// A colour: blue, green, red, alpha.
#[derive(Debug, Clone, Copy, PartialEq, Eq, Default, Structural)]
pub struct Bgra {
    /// Blue.
    pub b: u8,
    /// Green.
    pub g: u8,
    /// Red.
    pub r: u8,
    /// Alpha.
    pub a: u8,
}

impl Bgra {
    /// The colour `(b, g, r, a)`.
    pub fn new(b: u8, g: u8, r: u8, a: u8) -> (c: Bgra)
        ensures
            c == (Bgra { b, g, r, a }),
    {
        Bgra { b, g, r, a }
    }
}

/// One recorded frame-sink call. Pixel payloads are reduced to length and FNV-1a hash so
/// snapshots stay small and stable.
#[derive(Debug, Clone, PartialEq, Eq)]
pub enum FrameSinkCall {
    /// The output was reset to `output`.
    Reset { output: Size },
    /// A surface was created.
    CreateSurface { id: u16, size: Size },
    /// A surface was deleted.
    DeleteSurface { id: u16 },
    /// A surface was mapped to the output at `origin`.
    MapSurfaceToOutput { id: u16, origin: Point },
    /// BGRA pixels were drawn into `rect` (source stride in bytes; the payload's length and
    /// hash).
    BlitBgra { id: u16, rect: Rect, stride: usize, len: usize, hash: u64 },
    /// An NV12 picture of `size` was drawn into `regions`.
    BlitNv12 { id: u16, size: Size, regions: Vec<Rect> },
    /// Rectangles were filled with `color`.
    SolidFill { id: u16, color: Bgra, rects: Vec<Rect> },
    /// `rect` of surface `src` was copied to `dests` on surface `dst`.
    SurfaceToSurface { src: u16, dst: u16, rect: Rect, dests: Vec<Point> },
    /// `rect` of a surface was stored in cache `slot`.
    SurfaceToCache { id: u16, rect: Rect, slot: u16 },
    /// Cache `slot` was drawn to `dests` on a surface.
    CacheToSurface { slot: u16, id: u16, dests: Vec<Point> },
    /// Cache `slot` was emptied.
    EvictCache { slot: u16 },
    /// Frame `frame_id` ended.
    EndFrame { frame_id: u32 },
    /// The output was shown or hidden.
    SetVisible { visible: bool },
}

/// A frame sink that records the calls it receives, in order. A frame's `presented` callback
/// is its caller's to run: at once in [`PresentMode::Immediate`], or when
/// [`RecordingFrameSink::present_pending`] hands out its frame id.
pub struct RecordingFrameSink {
    mode: PresentMode,
    calls: Vec<FrameSinkCall>,
    pending: Vec<u32>,
}

impl RecordingFrameSink {
    /// The calls recorded so far.
    pub closed spec fn recorded(&self) -> Seq<FrameSinkCall> {
        self.calls@
    }

    /// The frames whose presentation is still pending, in order.
    pub closed spec fn queued(&self) -> Seq<u32> {
        self.pending@
    }

    /// How this sink presents frames.
    pub closed spec fn present_mode(&self) -> PresentMode {
        self.mode
    }

    /// A sink that has recorded nothing, presenting frames as `mode` says.
    pub fn new(mode: PresentMode) -> (r: Self)
        ensures
            r.recorded() == Seq::<FrameSinkCall>::empty(),
            r.queued() == Seq::<u32>::empty(),
            r.present_mode() == mode,
    {
        RecordingFrameSink { mode, calls: Vec::new(), pending: Vec::new() }
    }

    fn record(&mut self, call: FrameSinkCall)
        ensures
            final(self).recorded() == old(self).recorded().push(call),
            final(self).queued() == old(self).queued(),
            final(self).present_mode() == old(self).present_mode(),
    {
        self.calls.push(call);
    }

    /// Records a reset of the output to `output`.
    pub fn reset(&mut self, output: Size)
        ensures
            final(self).recorded() == old(self).recorded().push(FrameSinkCall::Reset { output }),
            final(self).queued() == old(self).queued(),
            final(self).present_mode() == old(self).present_mode(),
    {
        self.record(FrameSinkCall::Reset { output });
    }

    /// Records the creation of surface `id` of `size`.
    pub fn create_surface(&mut self, id: u16, size: Size)
        ensures
            final(self).recorded() == old(self).recorded().push(FrameSinkCall::CreateSurface { id, size }),
            final(self).queued() == old(self).queued(),
            final(self).present_mode() == old(self).present_mode(),
    {
        self.record(FrameSinkCall::CreateSurface { id, size });
    }

    /// Records the deletion of surface `id`.
    pub fn delete_surface(&mut self, id: u16)
        ensures
            final(self).recorded() == old(self).recorded().push(FrameSinkCall::DeleteSurface { id }),
            final(self).queued() == old(self).queued(),
            final(self).present_mode() == old(self).present_mode(),
    {
        self.record(FrameSinkCall::DeleteSurface { id });
    }

    /// Records the mapping of surface `id` to the output at `origin`.
    pub fn map_surface_to_output(&mut self, id: u16, origin: Point)
        ensures
            final(self).recorded() == old(self).recorded().push(FrameSinkCall::MapSurfaceToOutput { id, origin }),
            final(self).queued() == old(self).queued(),
            final(self).present_mode() == old(self).present_mode(),
    {
        self.record(FrameSinkCall::MapSurfaceToOutput { id, origin });
    }

    /// Records BGRA pixels `data` (rows `stride` bytes apart) drawn into `rect` of surface `id`,
    /// by their length and hash.
    pub fn blit_bgra(&mut self, id: u16, rect: Rect, stride: usize, data: &[u8])
        ensures
            final(self).recorded() == old(self).recorded().push(
                FrameSinkCall::BlitBgra { id, rect, stride, len: data@.len() as usize, hash: spec_fnv1a64(data@) },
            ),
            final(self).queued() == old(self).queued(),
            final(self).present_mode() == old(self).present_mode(),
    {
        let hash = fnv1a64(data);
        self.record(FrameSinkCall::BlitBgra { id, rect, stride, len: data.len(), hash });
    }

    /// Records an NV12 picture of `size` drawn into `regions` of surface `id`.
    pub fn blit_nv12(&mut self, id: u16, size: Size, regions: &[Rect])
        ensures
            final(self).recorded().drop_last() == old(self).recorded(),
            final(self).recorded().len() == old(self).recorded().len() + 1,
            final(self).recorded().last() matches FrameSinkCall::BlitNv12 { id: i, size: z, regions: v }
                && i == id && z == size && v@ == regions@,
            final(self).queued() == old(self).queued(),
            final(self).present_mode() == old(self).present_mode(),
    {
        let v = vstd::slice::slice_to_vec(regions);
        self.record(FrameSinkCall::BlitNv12 { id, size, regions: v });
    }

    /// Records rectangles `rects` of surface `id` filled with `color`.
    pub fn solid_fill(&mut self, id: u16, color: Bgra, rects: &[Rect])
        ensures
            final(self).recorded().drop_last() == old(self).recorded(),
            final(self).recorded().len() == old(self).recorded().len() + 1,
            final(self).recorded().last() matches FrameSinkCall::SolidFill { id: i, color: c, rects: v }
                && i == id && c == color && v@ == rects@,
            final(self).queued() == old(self).queued(),
            final(self).present_mode() == old(self).present_mode(),
    {
        let v = vstd::slice::slice_to_vec(rects);
        self.record(FrameSinkCall::SolidFill { id, color, rects: v });
    }

    /// Records `rect` of surface `src` copied to `dests` on surface `dst`.
    pub fn surface_to_surface(&mut self, src: u16, dst: u16, rect: Rect, dests: &[Point])
        ensures
            final(self).recorded().drop_last() == old(self).recorded(),
            final(self).recorded().len() == old(self).recorded().len() + 1,
            final(self).recorded().last() matches FrameSinkCall::SurfaceToSurface { src: a, dst: b, rect: q, dests: v }
                && a == src && b == dst && q == rect && v@ == dests@,
            final(self).queued() == old(self).queued(),
            final(self).present_mode() == old(self).present_mode(),
    {
        let v = vstd::slice::slice_to_vec(dests);
        self.record(FrameSinkCall::SurfaceToSurface { src, dst, rect, dests: v });
    }

    /// Records `rect` of surface `id` stored in cache `slot`.
    pub fn surface_to_cache(&mut self, id: u16, rect: Rect, slot: u16)
        ensures
            final(self).recorded() == old(self).recorded().push(FrameSinkCall::SurfaceToCache { id, rect, slot }),
            final(self).queued() == old(self).queued(),
            final(self).present_mode() == old(self).present_mode(),
    {
        self.record(FrameSinkCall::SurfaceToCache { id, rect, slot });
    }

    /// Records cache `slot` drawn to `dests` on surface `id`.
    pub fn cache_to_surface(&mut self, slot: u16, id: u16, dests: &[Point])
        ensures
            final(self).recorded().drop_last() == old(self).recorded(),
            final(self).recorded().len() == old(self).recorded().len() + 1,
            final(self).recorded().last() matches FrameSinkCall::CacheToSurface { slot: k, id: i, dests: v }
                && k == slot && i == id && v@ == dests@,
            final(self).queued() == old(self).queued(),
            final(self).present_mode() == old(self).present_mode(),
    {
        let v = vstd::slice::slice_to_vec(dests);
        self.record(FrameSinkCall::CacheToSurface { slot, id, dests: v });
    }

    /// Records cache `slot` emptied.
    pub fn evict_cache(&mut self, slot: u16)
        ensures
            final(self).recorded() == old(self).recorded().push(FrameSinkCall::EvictCache { slot }),
            final(self).queued() == old(self).queued(),
            final(self).present_mode() == old(self).present_mode(),
    {
        self.record(FrameSinkCall::EvictCache { slot });
    }

    /// Records the output shown or hidden.
    pub fn set_visible(&mut self, visible: bool)
        ensures
            final(self).recorded() == old(self).recorded().push(FrameSinkCall::SetVisible { visible }),
            final(self).queued() == old(self).queued(),
            final(self).present_mode() == old(self).present_mode(),
    {
        self.record(FrameSinkCall::SetVisible { visible });
    }

    /// Records the end of frame `frame_id`. Returns whether its `presented` callback runs now
    /// (immediate mode); in deferred mode the frame is queued until
    /// [`Self::present_pending`].
    pub fn end_frame(&mut self, frame_id: u32) -> (present_now: bool)
        ensures
            final(self).recorded() == old(self).recorded().push(FrameSinkCall::EndFrame { frame_id }),
            final(self).present_mode() == old(self).present_mode(),
            present_now == (old(self).present_mode() == PresentMode::Immediate),
            final(self).queued() == if present_now {
                old(self).queued()
            } else {
                old(self).queued().push(frame_id)
            },
    {
        self.record(FrameSinkCall::EndFrame { frame_id });
        match self.mode {
            PresentMode::Immediate => true,
            PresentMode::Deferred => {
                self.pending.push(frame_id);
                false
            },
        }
    }

    /// All calls so far.
    pub fn calls(&self) -> (r: &[FrameSinkCall])
        ensures
            r@ == self.recorded(),
    {
        self.calls.as_slice()
    }

    /// Removes and returns all calls so far.
    pub fn take(&mut self) -> (r: Vec<FrameSinkCall>)
        ensures
            r@ == old(self).recorded(),
            final(self).recorded() == Seq::<FrameSinkCall>::empty(),
            final(self).queued() == old(self).queued(),
            final(self).present_mode() == old(self).present_mode(),
    {
        let mut taken: Vec<FrameSinkCall> = Vec::new();
        std::mem::swap(&mut taken, &mut self.calls);
        taken
    }

    /// Frame ids whose `presented` callback has not run yet (deferred mode).
    pub fn pending_frames(&self) -> (r: &[u32])
        ensures
            r@ == self.queued(),
    {
        self.pending.as_slice()
    }

    /// Hands out every queued frame, in frame order, for its `presented` callback to run now;
    /// each is handed out once.
    pub fn present_pending(&mut self) -> (r: Vec<u32>)
        ensures
            r@ == old(self).queued(),
            final(self).queued() == Seq::<u32>::empty(),
            final(self).recorded() == old(self).recorded(),
            final(self).present_mode() == old(self).present_mode(),
    {
        let mut due: Vec<u32> = Vec::new();
        std::mem::swap(&mut due, &mut self.pending);
        due
    }
}

} // verus!
