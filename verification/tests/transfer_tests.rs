use kube_forward::transfer::{
    length_prefix, prefixed_length, CopyAction, CopyEvent, CopyProgress, UdpAction, UdpOutcome,
    UdpSend,
};

#[test]
fn test_copy_counts_both_directions() {
    let mut p = CopyProgress::new();
    assert_eq!(p.step(CopyEvent::ReadA(5)), CopyAction::WriteB(5));
    assert_eq!(p.step(CopyEvent::ReadB(3)), CopyAction::WriteA(3));
    assert_eq!(p.step(CopyEvent::ReadA(7)), CopyAction::WriteB(7));
    assert_eq!(p.step(CopyEvent::ReadA(0)), CopyAction::ShutdownB);
    assert!(!p.reads_a() && p.reads_b() && !p.is_done());
    assert_eq!(p.step(CopyEvent::ReadB(0)), CopyAction::ShutdownA);
    assert!(p.is_done());
    assert_eq!((p.a_to_b, p.b_to_a), (12, 3));
}

#[test]
fn test_copy_idle_timeout() {
    let mut p = CopyProgress::new();
    assert_eq!(p.step(CopyEvent::IdleTimeout), CopyAction::TimedOut);
    assert_eq!((p.a_to_b, p.b_to_a), (0, 0));
}

#[test]
fn test_length_prefix_round_trip() {
    assert_eq!(length_prefix(12), [0, 12]);
    assert_eq!(length_prefix(512), [2, 0]);
    assert_eq!(length_prefix(65535), [255, 255]);
    assert_eq!(prefixed_length([1, 2]), 258);
    for n in [0usize, 1, 255, 256, 4096, 65535] {
        assert_eq!(prefixed_length(length_prefix(n)), n);
    }
    // Lengths beyond 16 bits wrap the way `as u16` does.
    assert_eq!(length_prefix(65536 + 3), [0, 3]);
}

#[test]
fn test_udp_send_tries_two_streams() {
    // Existing stream fails, a fresh one answers.
    let (mut s, a) = UdpSend::begin(true);
    assert_eq!(a, UdpAction::Exchange);
    assert_eq!(s.step(UdpOutcome::ExchangeFailed), UdpAction::Open);
    assert_eq!(s.step(UdpOutcome::Opened), UdpAction::Exchange);
    assert_eq!(s.step(UdpOutcome::Exchanged), UdpAction::Finish(true));

    // No stream, and both fresh streams fail: given up after the second.
    let (mut s, a) = UdpSend::begin(false);
    assert_eq!(a, UdpAction::Open);
    assert_eq!(s.step(UdpOutcome::Opened), UdpAction::Exchange);
    assert_eq!(s.step(UdpOutcome::ExchangeFailed), UdpAction::Open);
    assert_eq!(s.step(UdpOutcome::Opened), UdpAction::Exchange);
    assert_eq!(s.step(UdpOutcome::ExchangeFailed), UdpAction::Finish(false));
    assert!(!s.has_stream);

    // A stream that cannot be opened ends the attempt.
    let (mut s, _) = UdpSend::begin(false);
    assert_eq!(s.step(UdpOutcome::OpenFailed), UdpAction::Finish(false));
}
