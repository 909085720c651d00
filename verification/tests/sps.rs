use drift::sps::{parse, with_bt709_full_range, SpsError};

/// g-r-d 50.2's SPS (leg3 and the headless capture): High 4.0, 1280×800, VUI without
/// video_signal_type.
const GRD_SPS: &[u8] = &[
    0x67, 0x64, 0x0c, 0x28, 0xac, 0x2b, 0x40, 0x28, 0x03, 0x2d, 0xff, 0x80, 0x00, 0x80, 0x00, 0x88,
    0x00, 0x00, 0x1f, 0x40, 0x00, 0x0e, 0xa6, 0x00, 0x78, 0x44, 0x23, 0x50,
];

#[test]
fn parses_grd_sps() {
    let info = parse(GRD_SPS).unwrap();
    assert_eq!(info.profile_idc, 100);
    assert_eq!(info.level_idc, 40);
    assert_eq!((info.width, info.height), (1280, 800));
    assert_eq!(info.full_range, None);
}

#[test]
fn rewrites_grd_sps_to_full_range_bt709() {
    let out = with_bt709_full_range(GRD_SPS).unwrap();
    let info = parse(&out).unwrap();
    assert_eq!(info.full_range, Some(true));
    assert_eq!(info.matrix_coefficients, Some(1));
    assert_eq!((info.profile_idc, info.level_idc, info.width, info.height), (100, 40, 1280, 800));
    // Idempotent.
    assert_eq!(with_bt709_full_range(&out).unwrap(), out);
}

#[test]
fn rejects_non_sps_and_truncation() {
    assert_eq!(parse(&[0x68, 0xEE]), Err(SpsError::NotSps));
    assert_eq!(with_bt709_full_range(&[]), Err(SpsError::NotSps));
    assert_eq!(parse(&GRD_SPS[..5]), Err(SpsError::Malformed));
    assert_eq!(with_bt709_full_range(&GRD_SPS[..5]), Err(SpsError::Malformed));
}

/// Baseline SPS without VUI (x264 --profile baseline, 320x240): a VUI is added.
#[test]
fn adds_vui_when_absent() {
    let sps = baseline_320x240();
    let info = parse(&sps).unwrap();
    assert_eq!((info.width, info.height, info.full_range), (320, 240, None));
    let out = with_bt709_full_range(&sps).unwrap();
    let info = parse(&out).unwrap();
    assert_eq!((info.width, info.height, info.full_range), (320, 240, Some(true)));
}

// profile 66, level 13, sps_id 0, log2_max_frame_num 4 (ue 0), poc type 2 (ue 2),
// max_num_ref_frames 1, gaps 0, width_mbs 20 (ue 19), height 15 (ue 14), frame_mbs_only 1,
// direct_8x8 1, cropping 0, vui 0.
fn baseline_320x240() -> Vec<u8> {
    baseline_bits(true)
}

fn baseline_bits(stop_bit: bool) -> Vec<u8> {
    let mut w = BitWriterForTest::default();
    w.bits(66, 8);
    w.bits(0xC0, 8);
    w.bits(13, 8);
    for v in [0, 0, 2, 1] {
        w.ue(v);
    }
    w.bits(0, 1);
    w.ue(19);
    w.ue(14);
    w.bits(0b110, 3);
    w.bits(0, 1); // vui_parameters_present_flag
    if stop_bit {
        w.trailing();
    } else {
        while w.n % 8 != 0 {
            w.bit(0);
        }
    }
    let mut sps = vec![0x67];
    sps.extend(escape_for_test(&w.bytes));
    sps
}

#[derive(Default)]
struct BitWriterForTest {
    bytes: Vec<u8>,
    n: usize,
}

impl BitWriterForTest {
    fn bit(&mut self, b: u32) {
        if self.n % 8 == 0 {
            self.bytes.push(0);
        }
        if b != 0 {
            *self.bytes.last_mut().unwrap() |= 0x80 >> (self.n % 8);
        }
        self.n += 1;
    }
    fn bits(&mut self, v: u32, n: u32) {
        for i in (0..n).rev() {
            self.bit((v >> i) & 1);
        }
    }
    fn ue(&mut self, v: u32) {
        let x = v + 1;
        let len = 32 - x.leading_zeros();
        self.bits(0, len - 1);
        self.bits(x, len);
    }
    fn se(&mut self, v: i32) {
        self.ue(if v > 0 { (2 * v - 1) as u32 } else { (-2 * v) as u32 });
    }
    fn trailing(&mut self) {
        self.bit(1);
        while self.n % 8 != 0 {
            self.bit(0);
        }
    }
}

fn escape_for_test(rbsp: &[u8]) -> Vec<u8> {
    let mut out = Vec::new();
    let mut zeros = 0;
    for &b in rbsp {
        if zeros >= 2 && b <= 3 {
            out.push(3);
            zeros = 0;
        }
        zeros = if b == 0 { zeros + 1 } else { 0 };
        out.push(b);
    }
    out
}

/// High profile 4:2:0, field coding, cropping and a scaling matrix, with a VUI that has aspect
/// ratio and overscan information and a video_signal_type for limited range BT.601.
fn high_interlaced_with_vui() -> Vec<u8> {
    let mut w = BitWriterForTest::default();
    w.bits(100, 8);
    w.bits(0, 8);
    w.bits(31, 8);
    w.ue(0); // sps id
    w.ue(1); // chroma_format_idc 4:2:0
    w.ue(0); // bit depth luma
    w.ue(0); // bit depth chroma
    w.bits(0, 1); // bypass
    w.bits(1, 1); // seq_scaling_matrix_present_flag
    // list 0 present: deltas 1, -2, then 0 ends nothing (16 entries of nonzero next)
    w.bits(1, 1);
    for j in 0..16 {
        w.se(if j == 0 { 1 } else { 0 });
    }
    // list 1 present: delta -8 makes nextScale 0 at once
    w.bits(1, 1);
    w.se(-8);
    for _ in 2..8 {
        w.bits(0, 1);
    }
    w.ue(0); // log2_max_frame_num_minus4
    w.ue(1); // poc type 1
    w.bits(0, 1);
    w.se(-1);
    w.se(2);
    w.ue(2);
    w.se(3);
    w.se(-4);
    w.ue(4); // max_num_ref_frames
    w.bits(0, 1); // gaps
    w.ue(119); // 120 mbs wide = 1920
    w.ue(33); // 34 map units = 1088 rows with field coding
    w.bits(0, 1); // frame_mbs_only_flag = 0
    w.bits(1, 1); // mb_adaptive_frame_field_flag
    w.bits(1, 1); // direct_8x8
    w.bits(1, 1); // cropping
    w.ue(0);
    w.ue(0);
    w.ue(0);
    w.ue(2); // bottom: 2 units of 4 rows = 8 rows
    w.bits(1, 1); // vui
    w.bits(1, 1); // aspect_ratio_info_present
    w.bits(255, 8);
    w.bits(4, 16);
    w.bits(3, 16);
    w.bits(1, 1); // overscan_info_present
    w.bits(0, 1);
    w.bits(1, 1); // video_signal_type_present
    w.bits(2, 3);
    w.bits(0, 1); // limited range
    w.bits(1, 1);
    w.bits(6, 8);
    w.bits(6, 8);
    w.bits(6, 8);
    w.bits(0, 1); // chroma loc
    w.bits(1, 1); // timing info
    w.bits(1001, 32);
    w.bits(60000, 32);
    w.bits(1, 1);
    w.bits(0, 1);
    w.bits(0, 1);
    w.bits(0, 1);
    w.bits(0, 1);
    w.trailing();
    let mut sps = vec![0x27];
    sps.extend(escape_for_test(&w.bytes));
    sps
}

#[test]
fn field_coded_high_profile_with_scaling_matrix_and_full_vui() {
    let sps = high_interlaced_with_vui();
    let info = parse(&sps).unwrap();
    assert_eq!((info.profile_idc, info.level_idc), (100, 31));
    assert_eq!((info.width, info.height), (1920, 1080));
    assert_eq!((info.full_range, info.matrix_coefficients), (Some(false), Some(6)));
    let out = with_bt709_full_range(&sps).unwrap();
    assert_eq!(out[0], 0x27);
    let after = parse(&out).unwrap();
    assert_eq!((after.width, after.height), (1920, 1080));
    assert_eq!((after.full_range, after.matrix_coefficients), (Some(true), Some(1)));
    assert_eq!(with_bt709_full_range(&out).unwrap(), out);
}

#[test]
fn out_of_range_codes_are_malformed() {
    // chroma_format_idc 4.
    let mut w = BitWriterForTest::default();
    w.bits(100, 8);
    w.bits(0, 8);
    w.bits(40, 8);
    w.ue(0);
    w.ue(4);
    w.trailing();
    let mut sps = vec![0x67];
    sps.extend(escape_for_test(&w.bytes));
    assert_eq!(parse(&sps), Err(SpsError::Malformed));
    // 32 leading zeros.
    let sps = [0x67, 66, 0, 30, 0, 0, 0, 0, 0xff];
    assert_eq!(parse(&sps), Err(SpsError::Malformed));
    assert_eq!(with_bt709_full_range(&sps), Err(SpsError::Malformed));
}

#[test]
fn a_payload_without_a_stop_bit_is_rewritten_with_fresh_trailing_bits() {
    // The baseline SPS with its trailing bits cut off: it still parses, and the rewrite ends
    // it with a stop bit of its own.
    let cut = baseline_bits(false);
    let before = parse(&cut).unwrap();
    let out = with_bt709_full_range(&cut).unwrap();
    let after = parse(&out).unwrap();
    assert_eq!((after.width, after.height, after.profile_idc, after.level_idc), (before.width, before.height, before.profile_idc, before.level_idc));
    assert_eq!((after.full_range, after.matrix_coefficients), (Some(true), Some(1)));
    assert_ne!(*out.last().unwrap(), 0, "the payload ends with the stop bit");
    assert_eq!(with_bt709_full_range(&out).unwrap(), out);
}

#[test]
fn whatever_rewrites_parses_with_the_same_size_and_full_range() {
    for seed in 0u32..200 {
        let mut sps = vec![0x67];
        let mut x = seed.wrapping_mul(2654435761).wrapping_add(12345);
        for _ in 0..(seed % 40) {
            x ^= x << 13;
            x ^= x >> 17;
            x ^= x << 5;
            sps.push((x & 0xff) as u8);
        }
        let before = parse(&sps);
        if let Ok(out) = with_bt709_full_range(&sps) {
            let before = before.unwrap();
            let after = parse(&out).unwrap();
            assert_eq!(
                (before.width, before.height, before.profile_idc),
                (after.width, after.height, after.profile_idc)
            );
            assert_eq!(after.full_range, Some(true));
            assert_eq!(with_bt709_full_range(&out).unwrap(), out);
        }
    }
}
