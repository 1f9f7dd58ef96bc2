use kube_forward::config::ForwardOptions;
use kube_forward::error::PortForwardError;
use kube_forward::forward::ForwardState;
use kube_forward::supervisor::{
    check_monitorable, monitored_pod, record_probe, HealthMonitor, MonitorAction, Supervisor, SupervisorAction,
    SupervisorEvent,
};
use kube_forward::time::TimeSpan;

fn options(max_retries: u32, persistent: bool) -> ForwardOptions {
    ForwardOptions {
        retry_interval: TimeSpan::from_millis(100),
        max_retries,
        persistent_connection: persistent,
        health_check_interval: TimeSpan::from_secs(5),
        connection_timeout: TimeSpan::from_secs(3600),
    }
}

#[test]
fn test_max_retries_exceeded_gives_up() {
    let mut s = Supervisor::new(&options(1, false));
    assert_eq!(s.step(SupervisorEvent::Ready), SupervisorAction::Connect);
    match s.step(SupervisorEvent::EstablishFailed) {
        SupervisorAction::RetryAfter(d) => assert_eq!(d, TimeSpan::from_millis(100)),
        other => panic!("expected a retry, got {:?}", other),
    }
    match s.step(SupervisorEvent::Ready) {
        SupervisorAction::GiveUp(msg) => assert_eq!(msg, "Max retry attempts reached"),
        other => panic!("expected to give up, got {:?}", other),
    }
}

#[test]
fn test_persistent_never_gives_up_and_success_resets() {
    let mut s = Supervisor::new(&options(1, true));
    for _ in 0..5 {
        assert_eq!(s.step(SupervisorEvent::Ready), SupervisorAction::Connect);
        assert!(matches!(
            s.step(SupervisorEvent::EstablishFailed),
            SupervisorAction::RetryAfter(_)
        ));
    }
    assert_eq!(s.retry_count, 5);
    assert_eq!(s.step(SupervisorEvent::Established), SupervisorAction::Monitor);
    assert_eq!(s.retry_count, 0);
    assert_eq!(s.step(SupervisorEvent::ConnectionLost), SupervisorAction::Reconnect);
    assert_eq!(s.step(SupervisorEvent::ShutdownRequested), SupervisorAction::Stop);
}

#[test]
fn test_retry_delays_grow() {
    let mut s = Supervisor::new(&options(10, false));
    let mut last = TimeSpan::zero();
    for attempt in 1..=4u32 {
        match s.step(SupervisorEvent::EstablishFailed) {
            SupervisorAction::RetryAfter(d) => {
                // Each retry waits at least the base and at most base * 2^(attempt - 1).
                assert!(d >= TimeSpan::from_millis(100));
                assert!(d <= TimeSpan::from_millis(100 << (attempt - 1)));
                last = d;
            }
            other => panic!("expected a retry, got {:?}", other),
        }
    }
    assert!(last <= TimeSpan::from_millis(800));
}

#[test]
fn test_monitor_initial_checks() {
    let mut m = HealthMonitor::new("web".to_string(), "TCP");
    assert_eq!(m.max_failures, 3);
    assert_eq!(m.on_probe(false), MonitorAction::WaitRetry);
    assert_eq!(m.on_probe(false), MonitorAction::WaitRetry);
    assert_eq!(
        m.on_probe(false),
        MonitorAction::Fail(PortForwardError::ConnectionError(
            "Failed initial health checks".to_string()
        ))
    );
}

#[test]
fn test_monitor_steady_failures() {
    let mut m = HealthMonitor::new("dns".to_string(), "udp");
    assert_eq!(m.max_failures, 5);
    assert_eq!(m.on_probe(true), MonitorAction::WaitTick);
    for _ in 0..4 {
        assert_eq!(m.on_probe(false), MonitorAction::WaitTick);
    }
    // A healthy probe resets the count.
    assert_eq!(m.on_probe(true), MonitorAction::WaitTick);
    for _ in 0..4 {
        assert_eq!(m.on_probe(false), MonitorAction::WaitTick);
    }
    assert_eq!(
        m.on_probe(false),
        MonitorAction::Fail(PortForwardError::ConnectionError(
            "health check failed 5 consecutive times for dns".to_string()
        ))
    );
}

#[test]
fn test_monitor_preconditions() {
    assert_eq!(monitored_pod(&Some("p".to_string())), Some("p".to_string()));
    assert_eq!(monitored_pod(&None), None);
    assert_eq!(check_monitorable(&ForwardState::Starting), Ok(()));
    assert_eq!(
        check_monitorable(&ForwardState::Disconnected),
        Err(PortForwardError::ConnectionError(
            "Cannot monitor connection: not in Connected or Starting state".to_string()
        ))
    );
}

#[test]
fn test_monitor_without_pod_fails_initial_check() {
    // With no recorded pod every probe counts as failed.
    let pod = monitored_pod(&None);
    let mut m = HealthMonitor::new("kube-dns".to_string(), "TCP");
    let healthy = pod.is_some();
    assert_eq!(m.on_probe(healthy), MonitorAction::WaitRetry);
    assert_eq!(m.on_probe(healthy), MonitorAction::WaitRetry);
    match m.on_probe(healthy) {
        MonitorAction::Fail(PortForwardError::ConnectionError(msg)) => {
            assert!(msg.contains("Failed initial health checks"));
        }
        other => panic!("unexpected action {:?}", other),
    }
}

#[test]
fn test_record_probe() {
    assert_eq!(record_probe(0, false), 1);
    assert_eq!(record_probe(4, false), 5);
    assert_eq!(record_probe(7, true), 0);
}
