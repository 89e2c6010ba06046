use reskin::archive::{encode_bundle, extract_archive, extract_theme_info, ArchiveError};
use reskin::codec::{decode_assets, encode_archive, AssetEntry, HEADER_LEN};
use reskin::manifest::{decode_manifest, encode_manifest};
use reskin::types::ThemeManifest;

fn nord() -> ThemeManifest {
    ThemeManifest {
        name: "Nord".to_string(),
        author: "x".to_string(),
        description: "d".to_string(),
        version: "1.0".to_string(),
        tags: "dark".to_string(),
        license: "MIT".to_string(),
    }
}

fn asset(path: &str, content: &[u8]) -> AssetEntry {
    AssetEntry { path: path.as_bytes().to_vec(), content: content.to_vec() }
}

fn record(path: &[u8], content_len: u64, content: &[u8]) -> Vec<u8> {
    let mut r = Vec::new();
    r.extend_from_slice(&(path.len() as u32).to_le_bytes());
    r.extend_from_slice(path);
    r.extend_from_slice(&content_len.to_le_bytes());
    r.extend_from_slice(content);
    r
}

#[test]
fn nord_scenario() {
    let m = nord();
    let bytes = encode_bundle(&m, &vec![asset("gtk-3.0/gtk.css", b"body{}")]).unwrap();
    let json = encode_manifest(&m);
    assert_eq!(&bytes[0..4], &[0x52, 0x53, 0x4B, 0x4E]);
    assert_eq!(&bytes[4..12], &(json.len() as u64).to_le_bytes());
    let x = extract_archive(&bytes).unwrap();
    assert_eq!(x.assets.len(), 1);
    assert_eq!(x.assets[0].path, b"gtk-3.0/gtk.css".to_vec());
    assert_eq!(x.assets[0].content, b"body{}".to_vec());
    assert_eq!(x.manifest_bytes, json);
    assert_eq!(x.manifest.name, "Nord");
    assert_eq!(x.manifest.license, "MIT");
}

#[test]
fn manifest_json_layout() {
    let json = encode_manifest(&nord());
    assert_eq!(
        String::from_utf8(json).unwrap(),
        r#"{"name":"Nord","author":"x","description":"d","version":"1.0","tags":"dark","license":"MIT"}"#
    );
}

#[test]
fn manifest_json_escapes_quotes() {
    let mut m = nord();
    m.description = "say \"hi\"\n".to_string();
    let json = encode_manifest(&m);
    let text = String::from_utf8(json.clone()).unwrap();
    assert!(text.contains(r#""description":"say \"hi\"\n""#));
    let back = decode_manifest(&json).unwrap();
    assert_eq!(back.description, "say \"hi\"\n");
}

#[test]
fn manifest_decode_requires_all_fields() {
    assert!(decode_manifest(br#"{"name":"a","author":"b"}"#).is_none());
    assert!(decode_manifest(b"not json").is_none());
    assert!(decode_manifest(
        br#"{"name":"a","author":"b","description":"c","version":1,"tags":"e","license":"f"}"#
    )
    .is_none());
    let m = decode_manifest(
        br#"{"license":"f","name":"a","author":"b","description":"c","version":"d","tags":"e","extra":3}"#,
    )
    .unwrap();
    assert_eq!(m.name, "a");
    assert_eq!(m.version, "d");
    assert_eq!(m.license, "f");
}

#[test]
fn round_trip_empty() {
    let bytes = encode_bundle(&nord(), &vec![]).unwrap();
    let x = extract_archive(&bytes).unwrap();
    assert!(x.assets.is_empty());
    assert_eq!(bytes.len(), HEADER_LEN + x.manifest_bytes.len());
}

#[test]
fn round_trip_several() {
    let assets = vec![
        asset("gtk-3.0/gtk.css", b"body{}"),
        asset("icons/a.svg", b""),
        asset("fonts/x.ttf", &[0u8, 1, 2, 255]),
    ];
    let bytes = encode_bundle(&nord(), &assets).unwrap();
    let x = extract_archive(&bytes).unwrap();
    assert_eq!(x.assets.len(), 3);
    for (a, b) in assets.iter().zip(x.assets.iter()) {
        assert_eq!(a.path, b.path);
        assert_eq!(a.content, b.content);
    }
}

#[test]
fn extraction_is_repeatable() {
    let bytes = encode_bundle(&nord(), &vec![asset("a", b"1"), asset("b/c", b"22")]).unwrap();
    let x = extract_archive(&bytes).unwrap();
    let y = extract_archive(&bytes).unwrap();
    assert_eq!(x.manifest_bytes, y.manifest_bytes);
    assert_eq!(x.assets.len(), y.assets.len());
    for (a, b) in x.assets.iter().zip(y.assets.iter()) {
        assert_eq!(a.path, b.path);
        assert_eq!(a.content, b.content);
    }
}

#[test]
fn truncation_drops_only_last_asset() {
    let assets = vec![asset("a.css", b"first"), asset("dir/b.css", b"second!")];
    let bytes = encode_bundle(&nord(), &assets).unwrap();
    let last_len = 4 + "dir/b.css".len() + 8 + "second!".len();
    for k in 1..=last_len {
        let cut = bytes[..bytes.len() - k].to_vec();
        let x = extract_archive(&cut).unwrap();
        assert_eq!(x.assets.len(), 1, "cut {}", k);
        assert_eq!(x.assets[0].path, b"a.css".to_vec());
        assert_eq!(x.assets[0].content, b"first".to_vec());
    }
}

#[test]
fn oversized_record_is_not_materialized() {
    let mut bytes = encode_bundle(&nord(), &vec![asset("a", b"1")]).unwrap();
    bytes.extend(record(b"huge.bin", 600_000_000, b"abc"));
    let x = extract_archive(&bytes).unwrap();
    assert_eq!(x.assets.len(), 1);
    assert_eq!(x.assets[0].path, b"a".to_vec());
}

#[test]
fn unconfined_record_is_skipped() {
    let mut bytes = encode_bundle(&nord(), &vec![]).unwrap();
    bytes.extend(record(b"../evil", 3, b"bad"));
    bytes.extend(record(b"/etc/passwd", 1, b"x"));
    bytes.extend(record(b"good/..ok", 2, b"ok"));
    let x = extract_archive(&bytes).unwrap();
    assert_eq!(x.assets.len(), 1);
    assert_eq!(x.assets[0].path, b"good/..ok".to_vec());
    assert_eq!(x.assets[0].content, b"ok".to_vec());
}

#[test]
fn bad_path_length_stops_extraction() {
    let mut bytes = encode_bundle(&nord(), &vec![asset("a", b"1")]).unwrap();
    bytes.extend_from_slice(&0u32.to_le_bytes());
    bytes.extend(record(b"b", 1, b"2"));
    let x = extract_archive(&bytes).unwrap();
    assert_eq!(x.assets.len(), 1);
    let mut long = encode_bundle(&nord(), &vec![]).unwrap();
    long.extend(record(&vec![b'a'; 4097], 1, b"2"));
    assert_eq!(extract_archive(&long).unwrap().assets.len(), 0);
}

#[test]
fn decode_from_offset() {
    let mut bytes = vec![9u8, 9];
    bytes.extend(record(b"p", 2, b"hi"));
    let out = decode_assets(&bytes, 2);
    assert_eq!(out.len(), 1);
    assert_eq!(out[0].content, b"hi".to_vec());
}

#[test]
fn writer_rejects_invalid_paths() {
    let m = encode_manifest(&nord());
    assert_eq!(encode_archive(&m, &vec![asset("ok", b""), asset("", b"")]).err(), Some(1));
    assert_eq!(encode_archive(&m, &vec![asset("a/../b", b"")]).err(), Some(0));
    assert_eq!(encode_archive(&m, &vec![asset("/abs", b"")]).err(), Some(0));
    let long = "a".repeat(4097);
    assert_eq!(encode_archive(&m, &vec![asset(&long, b"")]).err(), Some(0));
    let edge = "a".repeat(4096);
    assert!(encode_archive(&m, &vec![asset(&edge, b"")]).is_ok());
}

#[test]
fn writer_layout_is_exact() {
    let m = b"{}".to_vec();
    let bytes = encode_archive(&m, &vec![asset("ab", b"xyz")]).unwrap();
    let mut expected = b"RSKN".to_vec();
    expected.extend_from_slice(&2u64.to_le_bytes());
    expected.extend_from_slice(b"{}");
    expected.extend_from_slice(&[2, 0, 0, 0]);
    expected.extend_from_slice(b"ab");
    expected.extend_from_slice(&[3, 0, 0, 0, 0, 0, 0, 0]);
    expected.extend_from_slice(b"xyz");
    assert_eq!(bytes, expected);
}

#[test]
fn probe_reads_manifest() {
    let bytes = encode_bundle(&nord(), &vec![asset("a", b"1")]).unwrap();
    let m = extract_theme_info(bytes).unwrap();
    assert_eq!(m.name, "Nord");
    assert_eq!(m.author, "x");
    assert_eq!(m.tags, "dark");
}

#[test]
fn probe_errors() {
    assert_eq!(extract_theme_info(b"RSKN".to_vec()).err(), Some(ArchiveError::TooSmall));
    let mut bad = encode_bundle(&nord(), &vec![]).unwrap();
    bad[0] = b'X';
    assert_eq!(extract_theme_info(bad.clone()).err(), Some(ArchiveError::BadMagic));
    assert_eq!(extract_archive(&bad).err(), Some(ArchiveError::BadMagic));
    let mut short = b"RSKN".to_vec();
    short.extend_from_slice(&10u64.to_le_bytes());
    short.extend_from_slice(b"{}");
    assert_eq!(extract_theme_info(short).err(), Some(ArchiveError::ManifestSizeMismatch));
    let mut junk = b"RSKN".to_vec();
    junk.extend_from_slice(&3u64.to_le_bytes());
    junk.extend_from_slice(b"abc");
    assert_eq!(extract_theme_info(junk.clone()).err(), Some(ArchiveError::ManifestParse));
    assert_eq!(extract_archive(&junk).err(), Some(ArchiveError::ManifestParse));
}
