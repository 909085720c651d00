use drift::fixtures::{self, FixtureError};

#[test]
fn manifest_parser_accepts_sha256sum_lines_only() {
    let sha = "a".repeat(64);
    let ok = fixtures::parse_manifest(&format!("{sha}  h264/x.h264\n\n")).unwrap_or_else(|e| panic!("{e:?}"));
    assert_eq!(ok, vec![(sha.clone(), "h264/x.h264".to_string())]);
    for bad in ["zz  x", &format!("{sha} x"), &format!("{}  x", "g".repeat(64))] {
        assert!(matches!(fixtures::parse_manifest(bad), Err(FixtureError::BadManifest { line: 1 })), "{bad}");
    }
}

#[test]
fn records_roundtrip_and_truncation_is_an_error() {
    let mut data = Vec::new();
    for r in [&b"abc"[..], &b""[..], &[9u8; 300][..]] {
        data.extend_from_slice(&(r.len() as u32).to_le_bytes());
        data.extend_from_slice(r);
    }
    let recs = fixtures::parse_records(&data).unwrap_or_else(|e| panic!("{e:?}"));
    assert_eq!(recs.len(), 3);
    assert_eq!(recs[0], b"abc");
    assert!(recs[1].is_empty());
    assert_eq!(recs[2].len(), 300);
    assert!(matches!(fixtures::parse_records(&data[..data.len() - 1]), Err(FixtureError::Truncated { offset: 11 })));
    assert!(matches!(fixtures::parse_records(&[1, 0]), Err(FixtureError::Truncated { offset: 0 })));
}

#[test]
fn lfs_pointers_are_detected() {
    let pointer = b"version https://git-lfs.github.com/spec/v1\noid sha256:abc\nsize 12\n";
    assert!(fixtures::is_lfs_pointer(pointer));
    assert!(!fixtures::is_lfs_pointer(b"\x00\x00\x00\x01\x09\x30"));
    assert!(!fixtures::is_lfs_pointer(b"version https://git-lfs.github.com/spec/v2\n"));
}

#[test]
fn manifest_errors_name_the_line() {
    let sha = "0123456789abcdef".repeat(4);
    let text = format!("{sha}  a.bin\n\n{sha}  b.bin\nnot a line\n");
    assert!(matches!(fixtures::parse_manifest(&text), Err(FixtureError::BadManifest { line: 4 })));
    let two = fixtures::parse_manifest(&format!("{sha}  a.bin\n{sha}  dir/b.bin")).unwrap();
    assert_eq!(two, vec![(sha.clone(), "a.bin".to_string()), (sha, "dir/b.bin".to_string())]);
}

#[test]
fn unlisted_files_are_those_the_manifest_does_not_name() {
    let listed = vec!["a.bin".to_string(), "dir/b.bin".to_string()];
    let present = vec![
        "MANIFEST.sha256".to_string(),
        "a.bin".to_string(),
        "c.bin".to_string(),
        "dir/b.bin".to_string(),
        "dir/d.rec".to_string(),
    ];
    assert_eq!(fixtures::unlisted_files(&listed, &present), vec!["c.bin".to_string(), "dir/d.rec".to_string()]);
    assert!(fixtures::unlisted_files(&listed, &listed).is_empty());
    assert_eq!(fixtures::unlisted_files(&[], &present[..2]), vec!["a.bin".to_string()]);
}
