use ciruela_core::stats::{AbortedImage, ErrorKind, ReceivedImage, UploadOk};
use ciruela_core::{check, Stats};

#[test]
fn responses_count_each_peer_once() {
    let mut s = Stats::new();
    s.add_response(b"10.0.0.1:1", true, None);
    s.add_response(b"10.0.0.1:1", true, None);
    assert_eq!(s.total_responses(), 1);
    s.add_response(b"10.0.0.2:1", false, Some(b"signature_mismatch".to_vec()));
    s.add_response(b"10.0.0.2:1", false, None);
    assert_eq!(s.total_responses(), 2);
}

#[test]
fn check_waits_for_done_peers_to_accept() {
    let mut s = Stats::new();
    assert_eq!(check(&s, false), Some(Ok(UploadOk {})));
    let info = ReceivedImage { machine_id: b"m1".to_vec(), hostname: b"h1".to_vec(), forwarded: false };
    s.received_image(b"10.0.0.1:1", &info);
    assert_eq!(check(&s, false), None);
    s.add_response(b"10.0.0.1:1", true, None);
    assert_eq!(check(&s, false), Some(Ok(UploadOk {})));
    s.add_response(b"10.0.0.9:1", false, None);
    assert_eq!(check(&s, true), Some(Err(ErrorKind::Rejected)));
}

#[test]
fn forwarded_reports_do_not_count_addresses() {
    let mut s = Stats::new();
    let info = ReceivedImage { machine_id: b"m1".to_vec(), hostname: b"h1".to_vec(), forwarded: true };
    s.received_image(b"10.0.0.1:1", &info);
    assert_eq!(check(&s, false), Some(Ok(UploadOk {})));
    let ab = AbortedImage {
        machine_id: b"m2".to_vec(),
        hostname: b"h2".to_vec(),
        forwarded: false,
        reason: b"no space".to_vec(),
    };
    s.aborted_image(b"10.0.0.2:1", &ab);
    assert_eq!(check(&s, false), Some(Ok(UploadOk {})));
    assert_eq!(s.total_responses(), 0);
}
