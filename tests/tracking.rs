use ciruela_core::cleanup::Rescheduled;
use ciruela_core::fetch::start;
use ciruela_core::cleanup::in_dry_run;
use ciruela_core::reconciliation::{hash_matches, should_fetch, state_hash, Reconciling};
use ciruela_core::{
    boxerr, next_candidate, plan_requests, removals, reschedule, Accept, Command, Directory,
    FetchDir, FetchStep, Fetches, ImageId, Peer, Rejection, Request, SignatureEntry, SubdirState,
    Upload, VPath,
};

fn fetch_cmd(id: &[u8]) -> FetchDir {
    FetchDir {
        image_id: ImageId { bytes: id.to_vec() },
        base_dir: b"/srv/releases".to_vec(),
        parent: b"/srv/releases".to_vec(),
        image_name: b"v1".to_vec(),
        config: Directory { num_levels: 1, append_only: false, auto_clean: false },
    }
}

#[test]
fn one_resolution_per_image() {
    let mut f = Fetches::new();
    let cmd = fetch_cmd(&[1, 2, 3]);
    assert_eq!(start(&mut f, &cmd, false), FetchStep::Resolve);
    assert_eq!(start(&mut f, &cmd, false), FetchStep::Join);
    assert_eq!(start(&mut f, &fetch_cmd(&[9]), false), FetchStep::Resolve);
    assert_eq!(start(&mut f, &cmd, true), FetchStep::Cached);
}

#[test]
fn failed_resolution_is_evicted() {
    let mut f = Fetches::new();
    let cmd = fetch_cmd(&[4]);
    assert_eq!(start(&mut f, &cmd, false), FetchStep::Resolve);
    f.resolved(&cmd.image_id, false);
    assert_eq!(start(&mut f, &cmd, false), FetchStep::Resolve);
    f.resolved(&cmd.image_id, true);
    assert_eq!(start(&mut f, &cmd, false), FetchStep::Join);
}

fn sub(image: &[u8], sigs: Vec<(u64, &[u8])>) -> SubdirState {
    SubdirState {
        image: ImageId { bytes: image.to_vec() },
        signatures: sigs.into_iter().map(|(t, s)| SignatureEntry { timestamp: t, signature: s.to_vec() }).collect(),
    }
}

#[test]
fn plan_appends_new_and_replaces_held() {
    let base = VPath::parse("/releases").unwrap();
    let remote = vec![
        (b"v1".to_vec(), sub(b"A", vec![(1, b"s1"), (5, b"s5")])),
        (b"v2".to_vec(), sub(b"B", vec![])),
        (b"v3".to_vec(), sub(b"C", vec![(7, b"s7")])),
        (b"..".to_vec(), sub(b"D", vec![(8, b"s8")])),
    ];
    let local = vec![(b"v3".to_vec(), ImageId { bytes: b"OLD".to_vec() })];
    let plan = plan_requests(&base, &remote, &local);
    assert_eq!(plan.len(), 2);
    match &plan[0] {
        Request::Append(a) => {
            assert_eq!(a.path.to_bytes(), b"/releases/v1".to_vec());
            assert_eq!(a.image.bytes, b"A".to_vec());
            assert_eq!(a.timestamp, 5);
            assert_eq!(a.signatures, vec![b"s5".to_vec()]);
        }
        other => panic!("expected an append, got {:?}", other),
    }
    match &plan[1] {
        Request::Replace(r) => {
            assert_eq!(r.path.to_bytes(), b"/releases/v3".to_vec());
            assert_eq!(r.old_image.as_ref().unwrap().bytes, b"OLD".to_vec());
            assert_eq!(r.timestamp, 7);
        }
        other => panic!("expected a replace, got {:?}", other),
    }
}

#[test]
fn only_new_admission_fetches() {
    assert!(should_fetch(Upload::Accepted(Accept::New)));
    assert!(!should_fetch(Upload::Accepted(Accept::InProgress)));
    assert!(!should_fetch(Upload::Accepted(Accept::AlreadyDone)));
    assert!(!should_fetch(Upload::Rejected(Rejection::AlreadyExists)));
}

fn peer(a: &str, m: &str) -> Peer {
    Peer { addr: a.as_bytes().to_vec(), machine_id: m.as_bytes().to_vec() }
}

#[test]
fn next_candidate_drops_failed_peer() {
    let mut c = vec![peer("10.0.0.1:24783", "m1"), peer("10.0.0.2:24783", "m2"), peer("10.0.0.3:24783", "m3")];
    let next = next_candidate(&mut c, &peer("10.0.0.1:24783", "m1")).unwrap();
    assert_eq!(next.addr, b"10.0.0.2:24783".to_vec());
    assert_eq!(c.len(), 1);
    assert_eq!(c[0].machine_id, b"m3".to_vec());
    let last = next_candidate(&mut c, &next).unwrap();
    assert_eq!(last.machine_id, b"m3".to_vec());
    assert!(next_candidate(&mut c, &last).is_none());
    assert!(c.is_empty());
}

#[test]
fn state_hash_is_deterministic_blake2b() {
    let a = state_hash(b"state bytes");
    let b = state_hash(b"state bytes");
    assert_eq!(a.bytes, b.bytes);
    assert_eq!(a.bytes.len(), 32);
    assert_ne!(a.bytes, b"state bytes".to_vec());
    assert!(hash_matches(b"state bytes", &a));
    assert!(!hash_matches(b"other bytes", &a));
}

#[test]
fn reschedule_plans_round() {
    let dirs = vec![
        (VPath::parse("/a").unwrap(), Directory { num_levels: 1, append_only: false, auto_clean: true }),
        (VPath::parse("/b").unwrap(), Directory { num_levels: 1, append_only: false, auto_clean: false }),
    ];
    let Rescheduled { commands, reset_gc_counter } = reschedule(false, true, &dirs);
    assert!(reset_gc_counter);
    assert_eq!(commands.len(), 3);
    assert!(matches!(commands[0], Command::IndexGc));
    match &commands[1] {
        Command::Base(p) => assert_eq!(p.to_bytes(), b"/a".to_vec()),
        other => panic!("expected a base command, got {:?}", other),
    }
    assert!(matches!(commands[2], Command::Reschedule));
    let quiet = reschedule(false, false, &vec![]);
    assert!(!quiet.reset_gc_counter);
    assert_eq!(quiet.commands.len(), 1);
    assert!(matches!(quiet.commands[0], Command::Reschedule));
}

#[test]
fn removals_skip_dry_run() {
    let base = VPath::parse("/releases").unwrap();
    let unused = vec![(b"v1".to_vec(), ImageId { bytes: b"A".to_vec() })];
    assert!(removals(true, &base, &unused).is_empty());
    let r = removals(false, &base, &unused);
    assert_eq!(r.len(), 1);
    assert_eq!(r[0].path.to_bytes(), b"/releases/v1".to_vec());
    assert_eq!(r[0].image.bytes, b"A".to_vec());
}

#[test]
fn boxerr_keeps_value() {
    assert_eq!(*boxerr(7u8), 7);
}

#[test]
fn registry_runs_one_reconciliation_per_pair() {
    let mut r = Reconciling::new();
    let path = VPath::parse("/releases").unwrap();
    let hash = ciruela_core::ids::Hash { bytes: vec![7; 32] };
    assert!(r.register(&path, &hash, &peer("a:1", "ma")));
    assert!(!r.register(&path, &hash, &peer("b:1", "mb")));
    assert!(!r.register(&path, &hash, &peer("b:1", "mb")));
    assert!(!r.register(&path, &hash, &peer("c:1", "mc")));
    let other = ciruela_core::ids::Hash { bytes: vec![8; 32] };
    assert!(r.register(&path, &other, &peer("d:1", "md")));
    let next = r.next_candidate(&path, &hash, &peer("a:1", "ma")).unwrap();
    assert_eq!(next.machine_id, b"mb".to_vec());
    let last = r.next_candidate(&path, &hash, &next).unwrap();
    assert_eq!(last.machine_id, b"mc".to_vec());
    assert!(r.next_candidate(&path, &hash, &last).is_none());
    assert!(r.finish(&path, &hash));
    assert!(!r.finish(&path, &hash));
    assert!(r.register(&path, &hash, &peer("a:1", "ma")));
    assert!(r.next_candidate(&path, &other, &peer("d:1", "md")).is_none());
}

#[test]
fn dry_run_window() {
    assert!(in_dry_run(0));
    assert!(in_dry_run(599));
    assert!(!in_dry_run(600));
    assert!(!in_dry_run(10_000));
}
