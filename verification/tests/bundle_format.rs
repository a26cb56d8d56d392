use calc_lang::bundle_format::{fnv1a64, pack, parse, BundleFile};

fn file(path: &str, mode: u32, bytes: &[u8]) -> BundleFile {
    BundleFile {
        path: path.into(),
        mode,
        bytes: bytes.into(),
    }
}

#[test]
fn round_trips_bundles_with_paths_and_modes() {
    let files = vec![
        file("__main__.py", 0o644, b"import formatting"),
        file("bin/helper", 0o755, &[0, 1, 2]),
    ];
    let blob = pack(&[("print", files.clone())]);
    let bundles = parse(&blob).unwrap();
    assert_eq!(bundles.len(), 1);
    assert_eq!(bundles[0].name, "print");
    assert_eq!(bundles[0].files, files);
    assert_eq!(bundles[0].size(), 20);
}

#[test]
fn no_bundles_round_trips_and_an_empty_slice_means_none() {
    assert_eq!(parse(&pack(&[])), Some(Vec::new()));
    assert_eq!(parse(&[]), Some(Vec::new()));
}

#[test]
fn the_hash_changes_with_the_content() {
    let a = parse(&pack(&[("p", vec![file("x", 0o644, b"1")])])).unwrap();
    let b = parse(&pack(&[("p", vec![file("x", 0o644, b"2")])])).unwrap();
    assert_ne!(a[0].hash, b[0].hash);
}

#[test]
fn rejects_malformed_blobs_and_escaping_paths() {
    assert_eq!(parse(b"not a bundle blob"), None);
    let mut truncated = pack(&[("p", vec![file("x", 0o644, b"123")])]);
    truncated.pop();
    assert_eq!(parse(&truncated), None);
    for bad in ["../x", "/etc/passwd", "a/../../b", "C:/x", "a\\b", "a//b"] {
        assert_eq!(
            parse(&pack(&[("p", vec![file(bad, 0o644, b"")])])),
            None,
            "{bad}"
        );
    }
}

#[test]
fn fnv1a64_matches_the_published_test_vectors() {
    assert_eq!(fnv1a64(b""), 0xcbf29ce484222325);
    assert_eq!(fnv1a64(b"a"), 0xaf63dc4c8601ec8c);
    assert_eq!(fnv1a64(b"foobar"), 0x85944171f73967e8);
}

#[test]
fn a_bundle_hash_is_the_hash_of_its_records() {
    let bundles = parse(&pack(&[("p", vec![file("x", 0o644, b"1")])])).unwrap();
    let mut records: Vec<u8> = Vec::new();
    records.extend_from_slice(&1u32.to_le_bytes());
    records.extend_from_slice(&1u32.to_le_bytes());
    records.extend_from_slice(b"x");
    records.extend_from_slice(&0o644u32.to_le_bytes());
    records.extend_from_slice(&1u64.to_le_bytes());
    records.extend_from_slice(b"1");
    assert_eq!(bundles[0].hash, fnv1a64(&records));
    assert_eq!(bundles[0].size(), 1);
}

#[test]
fn several_bundles_keep_their_order_and_names() {
    let blob = pack(&[
        ("a", vec![file("one", 0o600, b"xy")]),
        ("b", vec![]),
        ("c", vec![file("d/e", 0o700, b"")]),
    ]);
    let bundles = parse(&blob).unwrap();
    let names: Vec<&str> = bundles.iter().map(|b| b.name.as_str()).collect();
    assert_eq!(names, ["a", "b", "c"]);
    assert_eq!(bundles[1].files.len(), 0);
    assert_eq!(bundles[2].files[0].path, "d/e");
    assert_eq!(bundles[2].files[0].mode, 0o700);
}

#[test]
fn trailing_bytes_after_the_last_bundle_are_rejected() {
    let mut blob = pack(&[("p", vec![file("x", 0o644, b"1")])]);
    blob.push(0);
    assert_eq!(parse(&blob), None);
}

#[test]
fn a_path_that_is_not_utf8_is_rejected() {
    let mut blob = pack(&[("p", vec![file("x", 0o644, b"")])]);
    let at = blob.iter().rposition(|&b| b == b'x').unwrap();
    blob[at] = 0xff;
    assert_eq!(parse(&blob), None);
}

#[test]
fn bytes_after_the_last_bundle_make_a_blob_unparsable() {
    let mut blob = pack(&[("print", vec![file("a", 0o644, b"x")])]);
    assert!(parse(&blob).is_some());
    blob.push(0);
    assert_eq!(parse(&blob), None);
    let mut none = pack(&[]);
    none.extend_from_slice(b"junk");
    assert_eq!(parse(&none), None);
}
