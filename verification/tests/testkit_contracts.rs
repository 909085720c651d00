use drift::frame_sink::fnv1a64;
use drift::frame_sink::{Bgra, FrameSinkCall, PresentMode, RecordingFrameSink};
use drift::geometry::{Point, Rect, Size};

#[test]
fn fnv1a64_known_vectors() {
    assert_eq!(fnv1a64(b""), 0xcbf2_9ce4_8422_2325);
    assert_eq!(fnv1a64(b"a"), 0xaf63_dc4c_8601_ec8c);
}

#[test]
fn fnv1a64_of_a_word() {
    assert_eq!(fnv1a64(b"foobar"), 0x85944171f73967e8);
}

#[test]
fn recording_sink_records_every_call_in_order() {
    let mut sink = RecordingFrameSink::new(PresentMode::Immediate);
    let r = Rect::new(0, 0, 2, 1);
    sink.reset(Size::new(1280, 800));
    sink.create_surface(1, Size::new(1280, 800));
    sink.map_surface_to_output(1, Point::new(0, 0));
    sink.blit_bgra(1, r, 8, &[1, 2, 3, 4, 5, 6, 7, 8]);
    sink.blit_nv12(1, Size::new(2, 2), &[r]);
    sink.solid_fill(1, Bgra::new(0, 0, 255, 255), &[r]);
    sink.surface_to_surface(1, 1, r, &[Point::new(4, 4)]);
    sink.surface_to_cache(1, r, 7);
    sink.cache_to_surface(7, 1, &[Point::new(8, 8)]);
    sink.evict_cache(7);
    sink.set_visible(false);
    sink.delete_surface(1);
    assert_eq!(
        sink.calls().to_vec(),
        vec![
            FrameSinkCall::Reset { output: Size::new(1280, 800) },
            FrameSinkCall::CreateSurface { id: 1, size: Size::new(1280, 800) },
            FrameSinkCall::MapSurfaceToOutput { id: 1, origin: Point::new(0, 0) },
            FrameSinkCall::BlitBgra { id: 1, rect: r, stride: 8, len: 8, hash: fnv1a64(&[1, 2, 3, 4, 5, 6, 7, 8]) },
            FrameSinkCall::BlitNv12 { id: 1, size: Size::new(2, 2), regions: vec![r] },
            FrameSinkCall::SolidFill { id: 1, color: Bgra::new(0, 0, 255, 255), rects: vec![r] },
            FrameSinkCall::SurfaceToSurface { src: 1, dst: 1, rect: r, dests: vec![Point::new(4, 4)] },
            FrameSinkCall::SurfaceToCache { id: 1, rect: r, slot: 7 },
            FrameSinkCall::CacheToSurface { slot: 7, id: 1, dests: vec![Point::new(8, 8)] },
            FrameSinkCall::EvictCache { slot: 7 },
            FrameSinkCall::SetVisible { visible: false },
            FrameSinkCall::DeleteSurface { id: 1 },
        ]
    );
    assert_eq!(sink.take().len(), 12);
    assert!(sink.calls().is_empty());
}

#[test]
fn immediate_mode_presents_inside_end_frame() {
    let mut sink = RecordingFrameSink::new(PresentMode::Immediate);
    assert!(sink.end_frame(5), "presented at once");
    assert_eq!(sink.calls().to_vec(), vec![FrameSinkCall::EndFrame { frame_id: 5 }]);
    assert!(sink.pending_frames().is_empty());
}

#[test]
fn deferred_mode_presents_exactly_once_on_demand() {
    let mut sink = RecordingFrameSink::new(PresentMode::Deferred);
    for id in [1, 2] {
        assert!(!sink.end_frame(id));
    }
    assert_eq!(sink.pending_frames(), &[1, 2]);
    assert_eq!(sink.present_pending(), vec![1, 2]);
    assert!(sink.present_pending().is_empty());
    assert!(sink.pending_frames().is_empty());
}
