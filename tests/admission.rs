use ciruela_core::metadata::Error;
use ciruela_core::{
    abort_dir, check_keys, commit_dir, start_append, start_replace, Accept, AppendDir, Config,
    Directory, ImageId, Meta, Persist, Rejection, ReplaceDir, State, Upload, VPath,
};
use ciruela_core::layout::{new_state_file_name, state_file_name};

const IMG_A: [u8; 4] = [0xaa, 0x01, 0x02, 0x03];
const IMG_B: [u8; 4] = [0xbb, 0x01, 0x02, 0x03];

fn keys(seed: u8) -> ([u8; 64], [u8; 32]) {
    crypto::ed25519::keypair(&[seed; 32])
}

fn sign(secret: &[u8; 64], path: &str, image: &[u8], timestamp: u64) -> Vec<u8> {
    let msg = serde_cbor::to_vec(&(path, serde_bytes::Bytes::new(image), timestamp)).unwrap();
    crypto::ed25519::signature(&msg, secret).to_vec()
}

fn releases_config(append_only: bool) -> Config {
    Config {
        dirs: vec![(
            b"releases".to_vec(),
            Directory { num_levels: 1, append_only, auto_clean: false },
        )],
    }
}

fn append(path: &str, image: &[u8], timestamp: u64, sig: Vec<u8>) -> AppendDir {
    AppendDir {
        path: VPath::parse(path).unwrap(),
        image: ImageId { bytes: image.to_vec() },
        timestamp,
        signatures: vec![sig],
    }
}

fn replace(path: &str, image: &[u8], timestamp: u64, sig: Vec<u8>) -> ReplaceDir {
    ReplaceDir {
        path: VPath::parse(path).unwrap(),
        image: ImageId { bytes: image.to_vec() },
        old_image: None,
        timestamp,
        signatures: vec![sig],
    }
}

fn new_state(p: &Persist) -> &State {
    match p {
        Persist::WriteNewState(s) => s,
        other => panic!("expected a new state file, got {:?}", other),
    }
}

#[test]
fn cold_append_writes_new_state() {
    let (secret, public) = keys(1);
    let mut meta = Meta::new(releases_config(true));
    let sig = sign(&secret, "/releases/v1", &IMG_A, 1_000);
    let r = start_append(append("/releases/v1", &IMG_A, 1_000, sig.clone()), &mut meta, &vec![public.to_vec()], None)
        .unwrap();
    assert_eq!(r.upload, Upload::Accepted(Accept::New));
    let st = new_state(&r.persist);
    assert_eq!(st.image.bytes, IMG_A.to_vec());
    assert_eq!(st.signatures.len(), 1);
    assert_eq!(st.signatures[0].timestamp, 1_000);
    assert_eq!(st.signatures[0].signature, sig);
    let path = VPath::parse("/releases/v1").unwrap();
    assert!(meta.is_writing(&path));
    assert_eq!(new_state_file_name(&path), b"v1.new.state".to_vec());
    assert_eq!(state_file_name(&path), b"v1.state".to_vec());
    assert_eq!(path.parent_rel(), b"releases".to_vec());
}

#[test]
fn commit_ends_admission() {
    let (secret, public) = keys(1);
    let mut meta = Meta::new(releases_config(true));
    let sig = sign(&secret, "/releases/v1", &IMG_A, 1_000);
    start_append(append("/releases/v1", &IMG_A, 1_000, sig), &mut meta, &vec![public.to_vec()], None).unwrap();
    let path = VPath::parse("/releases/v1").unwrap();
    let w = commit_dir(&path, &mut meta).expect("an admission was in progress");
    assert_eq!(w.image.bytes, IMG_A.to_vec());
    assert!(!w.replacing);
    assert!(!meta.is_writing(&path));
    assert!(commit_dir(&path, &mut meta).is_none());
}

#[test]
fn duplicate_append_is_already_done() {
    let (secret, public) = keys(1);
    let ks = vec![public.to_vec()];
    let mut meta = Meta::new(releases_config(true));
    let sig = sign(&secret, "/releases/v1", &IMG_A, 1_000);
    let r = start_append(append("/releases/v1", &IMG_A, 1_000, sig.clone()), &mut meta, &ks, None).unwrap();
    let committed = new_state(&r.persist).clone();
    let path = VPath::parse("/releases/v1").unwrap();
    commit_dir(&path, &mut meta);
    let again = start_append(append("/releases/v1", &IMG_A, 1_000, sig.clone()), &mut meta, &ks, Some(committed))
        .unwrap();
    assert_eq!(again.upload, Upload::Accepted(Accept::AlreadyDone));
    match &again.persist {
        Persist::ReplaceState(s) => {
            assert_eq!(s.image.bytes, IMG_A.to_vec());
            assert_eq!(s.signatures.len(), 1);
            assert_eq!(s.signatures[0].signature, sig);
        }
        other => panic!("expected a rewrite of the state file, got {:?}", other),
    }
    assert!(!meta.is_writing(&path));
}

#[test]
fn replace_on_append_only_is_rejected() {
    let (secret, public) = keys(1);
    let mut meta = Meta::new(releases_config(true));
    let sig = sign(&secret, "/releases/v1", &IMG_B, 2_000);
    let r = start_replace(replace("/releases/v1", &IMG_B, 2_000, sig), &mut meta, &vec![public.to_vec()], None)
        .unwrap();
    assert_eq!(r.upload, Upload::Rejected(Rejection::DirIsAppendOnly));
    assert_eq!(Rejection::DirIsAppendOnly.reason(), "dir_is_append_only");
    assert!(matches!(r.persist, Persist::Nothing));
}

#[test]
fn conflicting_in_flight_is_rejected() {
    let (secret, public) = keys(1);
    let ks = vec![public.to_vec()];
    let mut meta = Meta::new(releases_config(true));
    let sig_a = sign(&secret, "/releases/v1", &IMG_A, 1_000);
    start_append(append("/releases/v1", &IMG_A, 1_000, sig_a), &mut meta, &ks, None).unwrap();
    let sig_b = sign(&secret, "/releases/v1", &IMG_B, 1_001);
    let r = start_append(append("/releases/v1", &IMG_B, 1_001, sig_b), &mut meta, &ks, None).unwrap();
    assert_eq!(r.upload, Upload::Rejected(Rejection::AlreadyUploadingDifferentVersion));
    assert_eq!(Rejection::AlreadyUploadingDifferentVersion.reason(), "already_uploading_different_version");
    assert!(matches!(r.persist, Persist::Nothing));
}

#[test]
fn bad_signature_is_rejected() {
    let (_, public) = keys(1);
    let (other_secret, _) = keys(2);
    let mut meta = Meta::new(releases_config(true));
    let sig = sign(&other_secret, "/releases/v1", &IMG_A, 1_000);
    let r = start_append(append("/releases/v1", &IMG_A, 1_000, sig), &mut meta, &vec![public.to_vec()], None)
        .unwrap();
    assert_eq!(r.upload, Upload::Rejected(Rejection::SignatureMismatch));
    assert_eq!(Rejection::SignatureMismatch.reason(), "signature_mismatch");
    assert!(matches!(r.persist, Persist::Nothing));
    assert!(!meta.is_writing(&VPath::parse("/releases/v1").unwrap()));
}

#[test]
fn signature_over_other_timestamp_is_rejected() {
    let (secret, public) = keys(1);
    let mut meta = Meta::new(releases_config(false));
    let sig = sign(&secret, "/releases/v1", &IMG_A, 999);
    let r = start_append(append("/releases/v1", &IMG_A, 1_000, sig), &mut meta, &vec![public.to_vec()], None)
        .unwrap();
    assert_eq!(r.upload, Upload::Rejected(Rejection::SignatureMismatch));
}

#[test]
fn level_mismatch_is_an_error() {
    let (secret, public) = keys(1);
    let mut meta = Meta::new(releases_config(true));
    let sig = sign(&secret, "/releases/a/v1", &IMG_A, 1_000);
    let r = start_append(append("/releases/a/v1", &IMG_A, 1_000, sig), &mut meta, &vec![public.to_vec()], None);
    match r {
        Err(Error::LevelMismatch(has, need)) => {
            assert_eq!(has, 2);
            assert_eq!(need, 1);
        }
        other => panic!("expected a level mismatch, got {:?}", other),
    }
}

#[test]
fn unknown_key_is_path_not_found() {
    let (secret, public) = keys(1);
    let mut meta = Meta::new(releases_config(true));
    let sig = sign(&secret, "/other/v1", &IMG_A, 1_000);
    let r = start_append(append("/other/v1", &IMG_A, 1_000, sig), &mut meta, &vec![public.to_vec()], None);
    match r {
        Err(Error::PathNotFound(p)) => assert_eq!(p.to_bytes(), b"/other/v1".to_vec()),
        other => panic!("expected path not found, got {:?}", other),
    }
}

#[test]
fn append_over_other_committed_image_is_rejected() {
    let (secret, public) = keys(1);
    let mut meta = Meta::new(releases_config(true));
    let committed = State::new(ImageId { bytes: IMG_A.to_vec() }, vec![]);
    let sig = sign(&secret, "/releases/v1", &IMG_B, 1_000);
    let r = start_append(append("/releases/v1", &IMG_B, 1_000, sig), &mut meta, &vec![public.to_vec()], Some(committed))
        .unwrap();
    assert_eq!(r.upload, Upload::Rejected(Rejection::AlreadyExists));
    assert_eq!(Rejection::AlreadyExists.reason(), "already_exists");
}

#[test]
fn same_image_twice_one_new_one_in_progress() {
    let (secret, public) = keys(1);
    let ks = vec![public.to_vec()];
    let mut meta = Meta::new(releases_config(true));
    let sig1 = sign(&secret, "/releases/v1", &IMG_A, 1_000);
    let sig2 = sign(&secret, "/releases/v1", &IMG_A, 1_001);
    let first = start_append(append("/releases/v1", &IMG_A, 1_000, sig1.clone()), &mut meta, &ks, None).unwrap();
    let second = start_append(append("/releases/v1", &IMG_A, 1_001, sig2.clone()), &mut meta, &ks, None).unwrap();
    assert_eq!(first.upload, Upload::Accepted(Accept::New));
    assert_eq!(second.upload, Upload::Accepted(Accept::InProgress));
    assert!(matches!(second.persist, Persist::Nothing));
    let path = VPath::parse("/releases/v1").unwrap();
    let w = commit_dir(&path, &mut meta).expect("an admission was in progress");
    assert_eq!(w.signatures.len(), 2);
    assert_eq!(w.signatures[0].timestamp, 1_000);
    assert_eq!(w.signatures[1].timestamp, 1_001);
}

#[test]
fn replace_over_committed_starts_replacing() {
    let (secret, public) = keys(1);
    let mut meta = Meta::new(releases_config(false));
    let committed = State::new(ImageId { bytes: IMG_A.to_vec() }, vec![]);
    let sig = sign(&secret, "/releases/v1", &IMG_B, 3_000);
    let r = start_replace(replace("/releases/v1", &IMG_B, 3_000, sig), &mut meta, &vec![public.to_vec()], Some(committed))
        .unwrap();
    assert_eq!(r.upload, Upload::Accepted(Accept::New));
    let path = VPath::parse("/releases/v1").unwrap();
    let w = abort_dir(&path, &mut meta).expect("an admission was in progress");
    assert!(w.replacing);
    assert_eq!(w.image.bytes, IMG_B.to_vec());
    assert!(!meta.is_writing(&path));
}

#[test]
fn check_keys_needs_one_valid_signature() {
    let (secret, public) = keys(3);
    let msg = b"message".to_vec();
    let good = crypto::ed25519::signature(&msg, &secret).to_vec();
    let bad = vec![0u8; 64];
    let short = vec![1u8; 10];
    assert!(check_keys(&msg, &vec![bad.clone(), good.clone()], &vec![public.to_vec()]));
    assert!(!check_keys(&msg, &vec![bad, short], &vec![public.to_vec()]));
    assert!(!check_keys(&msg, &vec![good.clone()], &vec![]));
    assert!(!check_keys(b"other", &vec![good], &vec![public.to_vec()]));
}

#[test]
fn config_keys_must_be_unique() {
    let d = Directory { num_levels: 1, append_only: false, auto_clean: false };
    assert!(releases_config(true).keys_unique());
    let twice = Config { dirs: vec![(b"a".to_vec(), d), (b"b".to_vec(), d), (b"a".to_vec(), d)] };
    assert!(!twice.keys_unique());
    assert!(Config { dirs: vec![] }.keys_unique());
}
