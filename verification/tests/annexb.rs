use drift::annexb::{avcc_nals, avcc_to_annex_b, nal_unit_type, sps_profile_idc, split_nals, AccessUnit, AnnexBError};
use drift::nal_type;

const AUD: &[u8] = &[0x09, 0x30];
const SPS: &[u8] = &[0x67, 0x64, 0x00, 0x28, 0xAC, 0x2B];
const PPS: &[u8] = &[0x68, 0xEE, 0x38, 0x30];
const IDR: &[u8] = &[0x65, 0x88, 0x80, 0x41, 0x3F];
const P: &[u8] = &[0x41, 0x9A, 0x02, 0x22];

fn annex_b(nals: &[&[u8]], four: bool) -> Vec<u8> {
    let mut v = Vec::new();
    for n in nals {
        if four {
            v.push(0);
        }
        v.extend_from_slice(&[0, 0, 1]);
        v.extend_from_slice(n);
    }
    v
}

#[test]
fn splits_four_byte_start_codes() {
    let s = annex_b(&[AUD, SPS, PPS, IDR], true);
    assert_eq!(split_nals(&s), vec![AUD, SPS, PPS, IDR]);
}

#[test]
fn splits_three_byte_start_codes_and_strips_trailing_zeros() {
    let mut s = annex_b(&[AUD, P], false);
    s.extend_from_slice(&[0, 0, 0]);
    assert_eq!(split_nals(&s), vec![AUD, P]);
}

#[test]
fn ignores_leading_garbage_and_empty_nals() {
    let mut s = vec![0, 0, 0, 0, 0];
    s.extend_from_slice(&annex_b(&[AUD], true));
    s.extend_from_slice(&[0, 0, 1, 0, 0, 1]);
    s.extend_from_slice(P);
    assert_eq!(split_nals(&s), vec![AUD, P]);
    assert!(split_nals(&[]).is_empty());
    assert!(split_nals(&[0, 0, 0, 0]).is_empty());
}

#[test]
fn access_unit_drops_aud_and_extracts_parameter_sets() {
    let au = AccessUnit::from_annex_b(&annex_b(&[AUD, SPS, PPS, IDR], true)).unwrap();
    assert_eq!(au.sps, vec![SPS.to_vec()]);
    assert_eq!(au.pps, vec![PPS.to_vec()]);
    assert!(au.is_idr);
    let mut expect = (IDR.len() as u32).to_be_bytes().to_vec();
    expect.extend_from_slice(IDR);
    assert_eq!(au.avcc, expect);
    assert!(au.has_picture());
}

#[test]
fn access_unit_without_nals_is_an_error() {
    assert_eq!(AccessUnit::from_annex_b(&[0, 0, 0]), Err(AnnexBError::Empty));
    let only_aud = AccessUnit::from_annex_b(&annex_b(&[AUD], true)).unwrap();
    assert!(!only_aud.has_picture());
}

#[test]
fn avcc_round_trip_and_truncation() {
    let au = AccessUnit::from_annex_b(&annex_b(&[AUD, P, P], true)).unwrap();
    assert!(!au.is_idr);
    assert_eq!(avcc_nals(&au.avcc, 4).unwrap(), vec![P, P]);
    assert_eq!(avcc_to_annex_b(&au.avcc, 4).unwrap(), annex_b(&[P, P], true));
    assert_eq!(avcc_to_annex_b(&[0, 0, 0, 9, 1], 4), Err(AnnexBError::Truncated { offset: 0, len: 9 }));
    assert_eq!(avcc_nals(&[0, 2, 0x41, 0x9A], 2).unwrap(), vec![&[0x41, 0x9A][..]]);
    assert!(avcc_nals(&[0, 0, 0], 4).is_err());
}

#[test]
fn profile_idc() {
    assert_eq!(sps_profile_idc(SPS), Some(100));
    assert_eq!(sps_profile_idc(&[0x67]), None);
    assert_eq!(sps_profile_idc(PPS), None);
}

#[test]
fn nal_types_are_the_low_five_bits() {
    assert_eq!(nal_unit_type(SPS), Some(nal_type::SPS));
    assert_eq!(nal_unit_type(PPS), Some(nal_type::PPS));
    assert_eq!(nal_unit_type(AUD), Some(nal_type::AUD));
    assert_eq!(nal_unit_type(IDR), Some(nal_type::IDR));
    assert_eq!(nal_unit_type(&[]), None);
}

#[test]
fn a_mixed_stream_splits_back_into_its_units() {
    // three- and four-byte start codes and trailing zeros between units
    let nals: [&[u8]; 3] = [SPS, PPS, P];
    let mut s = Vec::new();
    for (i, n) in nals.iter().enumerate() {
        if i % 2 == 0 {
            s.push(0);
        }
        s.extend_from_slice(&[0, 0, 1]);
        s.extend_from_slice(n);
        s.extend(std::iter::repeat(0u8).take(i));
    }
    assert_eq!(split_nals(&s), nals.to_vec());
    let mut avcc = Vec::new();
    for n in &nals {
        avcc.extend_from_slice(&(n.len() as u32).to_be_bytes());
        avcc.extend_from_slice(n);
    }
    let back = avcc_to_annex_b(&avcc, 4).unwrap();
    assert_eq!(split_nals(&back), nals.to_vec());
}

#[test]
fn oversized_length_prefixes_are_truncation_errors() {
    assert_eq!(avcc_nals(&[0, 5, 1], 2), Err(AnnexBError::Truncated { offset: 0, len: 5 }));
    assert_eq!(avcc_nals(&[0, 1, 7, 0], 2), Err(AnnexBError::Truncated { offset: 3, len: 0 }));
    assert_eq!(avcc_to_annex_b(&[1, 0x41], 1).unwrap(), vec![0, 0, 0, 1, 0x41]);
}
