use drift::geometry::Rect;
use drift::metablock::{parse_avc420_bitmap_stream, MetablockError, QuantQuality};

#[test]
fn zero_regions_and_errors() {
    let (meta, rest) = parse_avc420_bitmap_stream(&[0, 0, 0, 0, 1, 2]).unwrap();
    assert!(meta.regions.is_empty());
    assert_eq!(rest, &[1, 2]);
    assert_eq!(parse_avc420_bitmap_stream(&[1, 0]), Err(MetablockError::Truncated { needed: 4, available: 2 }));
    assert_eq!(
        parse_avc420_bitmap_stream(&[2, 0, 0, 0, 0, 0]),
        Err(MetablockError::Truncated { needed: 24, available: 6 })
    );
    // a huge count must not allocate or overflow
    assert!(matches!(parse_avc420_bitmap_stream(&[0xFF, 0xFF, 0xFF, 0xFF]), Err(MetablockError::Truncated { .. })));
    let mut inv = 1u32.to_le_bytes().to_vec();
    for v in [10u16, 0, 5, 8] {
        inv.extend_from_slice(&v.to_le_bytes());
    }
    inv.extend_from_slice(&[0, 0]);
    assert_eq!(parse_avc420_bitmap_stream(&inv), Err(MetablockError::InvertedRect { index: 0 }));
}

#[test]
fn one_region_around_an_access_unit() {
    let au = [0u8, 0, 0, 1, 9, 0x30, 0, 0, 0, 1, 0x41];
    let mut data = 1u32.to_le_bytes().to_vec();
    for v in [0u16, 0, 1280, 800] {
        data.extend_from_slice(&v.to_le_bytes());
    }
    data.extend_from_slice(&[0x80 | 22, 100]);
    data.extend_from_slice(&au);
    let (meta, h264) = parse_avc420_bitmap_stream(&data).unwrap();
    assert_eq!(meta.regions, vec![Rect::new(0, 0, 1280, 800)]);
    assert_eq!(meta.quant_quality, vec![QuantQuality { qp: 22, progressive: true, quality: 100 }]);
    assert_eq!(h264, &au[..]);
}
