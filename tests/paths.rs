use ciruela_core::VPath;
use ciruela_core::layout::{block_location, index_location, temporary_name};
use ciruela_core::ImageId;

#[test]
fn parse_reads_segments() {
    let p = VPath::parse("/releases/a/v1").unwrap();
    assert_eq!(p.key(), b"releases");
    assert_eq!(p.level(), 2);
    assert_eq!(p.final_name(), b"v1");
    assert_eq!(p.parent_rel(), b"releases/a".to_vec());
    assert_eq!(p.to_bytes(), b"/releases/a/v1".to_vec());
}

#[test]
fn parse_rejects_bad_paths() {
    assert!(VPath::parse("").is_none());
    assert!(VPath::parse("releases/v1").is_none());
    assert!(VPath::parse("/releases//v1").is_none());
    assert!(VPath::parse("/releases/v1/").is_none());
    assert!(VPath::parse("/releases/../v1").is_none());
    assert!(VPath::parse("/releases/./v1").is_none());
    assert!(VPath::parse("/").is_none());
}

#[test]
fn key_only_path_has_level_zero() {
    let p = VPath::parse("/releases").unwrap();
    assert_eq!(p.level(), 0);
    assert_eq!(p.final_name(), b"releases");
}

#[test]
fn join_adds_a_segment() {
    let p = VPath::parse("/releases").unwrap();
    let q = p.join(b"v2").unwrap();
    assert_eq!(q.to_bytes(), b"/releases/v2".to_vec());
    assert!(q.same_path(&VPath::parse("/releases/v2").unwrap()));
    assert!(p.join(b"..").is_none());
    assert!(p.join(b"a/b").is_none());
    assert!(p.join(b"").is_none());
}

#[test]
fn shadow_directory_name() {
    assert_eq!(temporary_name(b"v1"), b".tmp.v1".to_vec());
}

#[test]
fn index_location_uses_hex() {
    let (dir, file) = index_location(&ImageId { bytes: vec![0xab, 0x01, 0xff] });
    assert_eq!(dir, b"ab".to_vec());
    assert_eq!(file, b"ab01ff.ds1".to_vec());
}

#[test]
fn block_location_splits_path() {
    let (dirs, file) = block_location("/usr/bin/tool").unwrap();
    assert_eq!(dirs, vec![b"usr".to_vec(), b"bin".to_vec()]);
    assert_eq!(file, b"tool".to_vec());
    let (dirs, file) = block_location("/file").unwrap();
    assert!(dirs.is_empty());
    assert_eq!(file, b"file".to_vec());
    assert!(block_location("relative/file").is_none());
    assert!(block_location("/a/../../etc/passwd").is_none());
}
