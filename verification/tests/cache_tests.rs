use rustcast::{meta_from_json, meta_to_json, resource_to_filepath, FileMetadata, LocalDownloader, LocalFileProvider, Meta, Options};

fn known_meta() -> Meta {
    Meta::new(
        "/tmp/cache/abcd.0".to_string(),
        FileMetadata {
            location: "bucket/music/a \"quoted\" \\ name.mp3".to_string(),
            last_modified: 1700000000123,
            size: 65536,
            e_tag: Some("etag-1".to_string()),
        },
        Some(3600),
        1700000000,
    )
}

#[test]
fn meta_json_round_trip_is_lossless() {
    let m = known_meta();
    let json = meta_to_json(&m);
    let back = meta_from_json(json.as_str()).unwrap();
    assert_eq!(back.meta_data.location, m.meta_data.location);
    assert_eq!(back.meta_data.last_modified, m.meta_data.last_modified);
    assert_eq!(back.meta_data.size, m.meta_data.size);
    assert_eq!(back.meta_data.e_tag, m.meta_data.e_tag);
    assert_eq!(back.resource_path, m.resource_path);
    assert_eq!(back.meta_path, m.meta_path);
    assert_eq!(back.expires, m.expires);
    assert_eq!(back.creation_time, m.creation_time);
    // and writing the read-back record reproduces the bytes
    assert_eq!(meta_to_json(&back), json);
}

#[test]
fn meta_json_round_trip_without_optionals() {
    let m = Meta::new(
        "p".to_string(),
        FileMetadata {
            location: "control\u{1}char".to_string(),
            last_modified: 0,
            size: 0,
            e_tag: None,
        },
        None,
        7,
    );
    let json = meta_to_json(&m);
    assert!(json.contains("\"e_tag\":null"));
    assert!(json.contains("\\u0001"));
    let back = meta_from_json(json.as_str()).unwrap();
    assert_eq!(back.meta_data.location, m.meta_data.location);
    assert_eq!(back.expires, None);
}

#[test]
fn malformed_meta_json_is_reported_as_corruption() {
    assert!(meta_from_json("{}").is_err());
    assert!(meta_from_json("").is_err());
    let m = known_meta();
    let mut json = meta_to_json(&m);
    json.push('x');
    assert!(meta_from_json(json.as_str()).is_err());
}

#[test]
fn freshness_follows_the_expiry_and_any_override() {
    let m = known_meta();
    // its own expiry: creation 1700000000 plus 3600
    assert!(m.is_fresh(None, 1700003599));
    assert!(!m.is_fresh(None, 1700003600));
    // an override lifetime wins
    assert!(m.is_fresh(Some(10), 1700000009));
    assert!(!m.is_fresh(Some(10), 1700000010));
}

#[test]
fn meta_path_sits_beside_the_resource() {
    assert_eq!(Meta::meta_path("/c/abc.0"), "/c/abc.0.meta");
    let m = known_meta();
    assert_eq!(m.meta_path, "/tmp/cache/abcd.0.meta");
}

#[test]
fn cached_resources_are_named_by_their_hashes() {
    let hash = vec![1u8, 2, 3];
    let plain = resource_to_filepath("/cache", &hash, "bucket/a.mp3", None, None, None);
    assert!(plain.starts_with("/cache/"));
    // a 64-digit hex name
    assert_eq!(plain.len(), "/cache/".len() + 64);

    let tagged = resource_to_filepath("/cache", &hash, "bucket/a.mp3", Some("sub"), Some(".meta"), Some("etag"));
    assert!(tagged.starts_with("/cache/sub/"));
    assert_eq!(tagged.len(), "/cache/sub/".len() + 64 + 1 + 64 + ".meta".len());
    assert!(tagged.ends_with(".meta"));

    // the same resource under the same provider is cached under the same name
    let again = resource_to_filepath("/cache", &hash, "bucket/a.mp3", None, None, None);
    assert_eq!(plain, again);
    // another provider hash gives another name
    let other = resource_to_filepath("/cache", &vec![9u8], "bucket/a.mp3", None, None, None);
    assert_ne!(plain, other);
}

#[test]
fn lookup_options_carry_the_subdirectory() {
    let o = Options::new(None);
    assert!(o.subdir.is_none());
    let o2 = Options::new(Some("target"));
    assert_eq!(o2.subdir, Some("target".to_string()));
    let o3 = Options::new(None).subdir("sub");
    assert_eq!(o3.subdir, Some("sub".to_string()));
}

#[test]
fn the_local_downloader_marks_itself_local() {
    let _provider = LocalFileProvider::new();
    let downloader = LocalDownloader {};
    assert!(downloader.is_local());
}
