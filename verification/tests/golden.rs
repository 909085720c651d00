use drift::golden::{compare, decode_png, encode_png, GoldenImage, Mismatch, PngFailure};

fn img(px: [u8; 4]) -> GoldenImage {
    GoldenImage { width: 2, height: 1, bgra: [px, px].concat() }
}

#[test]
fn tolerance_is_per_channel() {
    assert!(compare(&img([10, 20, 30, 255]), &img([12, 18, 30, 255]), 2).is_ok());
    let err = compare(&img([10, 20, 30, 255]), &img([13, 20, 30, 255]), 2).unwrap_err();
    assert!(matches!(err, Mismatch::Pixels { count: 2, first: (0, 0), max_diff: 3, .. }), "{err:?}");
    let other = GoldenImage { width: 1, height: 2, bgra: vec![0; 8] };
    assert!(matches!(compare(&img([0; 4]), &other, 255), Err(Mismatch::Size { .. })));
}

#[test]
fn first_offending_pixel_is_reported_by_position() {
    let e = GoldenImage { width: 2, height: 2, bgra: vec![0; 16] };
    let mut a = e.clone();
    a.bgra[10] = 9; // pixel 2 = (0, 1)
    a.bgra[13] = 4; // pixel 3 = (1, 1)
    assert_eq!(
        compare(&e, &a, 3),
        Err(Mismatch::Pixels { count: 2, first: (0, 1), expected: [0; 4], actual: [0, 0, 9, 0], max_diff: 9 })
    );
    assert_eq!(compare(&e, &a, 9), Ok(()));
}

#[test]
fn png_round_trip_preserves_bgra_in_memory() {
    let image = GoldenImage { width: 2, height: 2, bgra: (0u8..16).collect() };
    let bytes = encode_png(&image).unwrap();
    assert_eq!(&bytes[..8], b"\x89PNG\r\n\x1a\n");
    assert_eq!(decode_png(&bytes).unwrap(), image);
}

fn png_of(width: u32, height: u32, color: png::ColorType, data: &[u8]) -> Vec<u8> {
    let mut out = Vec::new();
    {
        let mut enc = png::Encoder::new(&mut out, width, height);
        enc.set_color(color);
        enc.set_depth(png::BitDepth::Eight);
        let mut w = enc.write_header().unwrap();
        w.write_image_data(data).unwrap();
        w.finish().unwrap();
    }
    out
}

#[test]
fn rgb_pngs_read_as_opaque_bgra() {
    let bytes = png_of(2, 1, png::ColorType::Rgb, &[1, 2, 3, 4, 5, 6]);
    let image = decode_png(&bytes).unwrap();
    assert_eq!((image.width, image.height), (2, 1));
    assert_eq!(image.bgra, vec![3, 2, 1, 255, 6, 5, 4, 255]);
}

#[test]
fn rgba_pngs_swap_red_and_blue() {
    let bytes = png_of(1, 1, png::ColorType::Rgba, &[10, 20, 30, 40]);
    assert_eq!(decode_png(&bytes).unwrap().bgra, vec![30, 20, 10, 40]);
}

#[test]
fn other_colour_types_and_garbage_are_refused() {
    let gray = png_of(1, 1, png::ColorType::Grayscale, &[7]);
    assert_eq!(decode_png(&gray), Err(PngFailure::Unsupported("Grayscale".into())));
    assert!(matches!(decode_png(b"not a png"), Err(PngFailure::Header(_))));
    let wrong = GoldenImage { width: 2, height: 2, bgra: vec![0; 4] };
    assert!(encode_png(&wrong).is_err());
}

#[test]
fn golden_debug_shows_only_the_size() {
    let image = GoldenImage { width: 3, height: 5, bgra: vec![0; 60] };
    assert_eq!(format!("{image:?}"), "GoldenImage(3x5)");
}

#[test]
fn golden_images_show_only_their_size() {
    let image = GoldenImage { width: 1280, height: 800, bgra: vec![0; 4] };
    assert_eq!(format!("{image:?}"), "GoldenImage(1280x800)");
    assert_eq!(image.describe(), "GoldenImage(1280x800)");
}
