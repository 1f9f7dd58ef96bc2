use kube_forward::validate::validate_selector;
use kube_forward::config::{ForwardConfig, ForwardOptions, LocalDnsConfig, PodSelector, PortMapping};
use kube_forward::error::PortForwardError;
use kube_forward::forward::{
    establish_start, initial_wait_done, is_active, is_settled, listener_kind, on_port_in_use, pod_is_running, pod_name, ForwardState,
    ListenerKind, PodInfo, PortForward,
};
use kube_forward::time::TimeSpan;
use kube_forward::util::ServiceInfo;

fn forward_with(selector: PodSelector) -> PortForward {
    let config = ForwardConfig {
        name: "test-forward".to_string(),
        target: "test-target.test-namespace".to_string(),
        ports: PortMapping {
            protocol: Some("TCP".to_string()),
            local: 8080,
            remote: 80,
        },
        local_dns: LocalDnsConfig {
            enabled: false,
            hostname: None,
        },
        pod_selector: selector,
        options: ForwardOptions {
            max_retries: 3,
            retry_interval: TimeSpan::from_secs(1),
            health_check_interval: TimeSpan::from_secs(5),
            persistent_connection: true,
            connection_timeout: TimeSpan::from_secs(3600),
        },
    };
    let service_info = ServiceInfo {
        name: "test-service".to_string(),
        namespace: "default".to_string(),
        ports: vec![80],
    };
    PortForward::new(config, service_info)
}

fn entries(pairs: &[(&str, &str)]) -> Option<Vec<(String, String)>> {
    Some(
        pairs
            .iter()
            .map(|(k, v)| (k.to_string(), v.to_string()))
            .collect(),
    )
}

#[test]
fn test_forward_state() {
    assert_eq!(ForwardState::Starting, ForwardState::Starting);
    assert_ne!(ForwardState::Starting, ForwardState::Connected);
    assert_ne!(
        ForwardState::Failed("error1".to_string()),
        ForwardState::Failed("error2".to_string())
    );
}

#[test]
fn test_port_forward_new() {
    let forward = forward_with(PodSelector::default());
    assert_eq!(forward.config.name, "test-forward");
    assert_eq!(forward.service_info.name, "test-service");
    assert!(format!("{:?}", forward.metrics).contains("test-forward"));
}

#[test]
fn test_matches_pod_selector() {
    let forward = forward_with(PodSelector {
        label: Some("app=myapp".to_string()),
        annotation: None,
    });

    // A pod with a matching label
    let pod = PodInfo {
        labels: entries(&[("app", "myapp")]),
        ..PodInfo::default()
    };

    assert!(forward.clone().matches_pod_selector(
        &pod,
        &PodSelector {
            label: Some("app=myapp".to_string()),
            annotation: None,
        }
    ));

    // Test non-matching label
    assert!(!forward.clone().matches_pod_selector(
        &pod,
        &PodSelector {
            label: Some("app=different".to_string()),
            annotation: None,
        }
    ));
}

#[test]
fn test_parse_selector() {
    let (key, value) = PortForward::parse_selector("app=myapp");
    assert_eq!(key, "app");
    assert_eq!(value, "myapp");

    // Test invalid format
    let (key, value) = PortForward::parse_selector("invalid-format");
    assert_eq!(key, "");
    assert_eq!(value, "");
}

#[test]
fn test_parse_selector_edge_cases() {
    assert_eq!(PortForward::parse_selector("a=b=c"), ("a", "b=c"));
    assert_eq!(PortForward::parse_selector("=v"), ("", ""));
    assert_eq!(PortForward::parse_selector("k="), ("k", ""));
}

#[test]
fn test_matches_pod_selector_comprehensive() {
    let forward = forward_with(PodSelector {
        label: Some("app=myapp".to_string()),
        annotation: Some("monitoring=enabled".to_string()),
    });

    // Test 1: Pod with matching label and annotation
    let pod = PodInfo {
        labels: entries(&[("app", "myapp")]),
        annotations: entries(&[("monitoring", "enabled")]),
        ..PodInfo::default()
    };
    assert!(forward.clone().matches_pod_selector(
        &pod,
        &PodSelector {
            label: Some("app=myapp".to_string()),
            annotation: Some("monitoring=enabled".to_string()),
        }
    ));

    // Test 2: Pod with matching label but no annotation
    let pod = PodInfo {
        labels: entries(&[("app", "myapp")]),
        ..PodInfo::default()
    };
    assert!(!forward.clone().matches_pod_selector(
        &pod,
        &PodSelector {
            label: Some("app=myapp".to_string()),
            annotation: Some("monitoring=enabled".to_string()),
        }
    ));

    // Test 3: Pod with no selectors
    let pod = PodInfo::default();
    assert!(!forward.clone().matches_pod_selector(
        &pod,
        &PodSelector {
            label: None,
            annotation: None,
        }
    ));

    // Test 4: Pod with service name in labels but no specific selector
    let pod = PodInfo {
        labels: entries(&[("service", "test-service")]),
        ..PodInfo::default()
    };
    assert!(forward.clone().matches_pod_selector(
        &pod,
        &PodSelector {
            label: None,
            annotation: None,
        }
    ));
}

#[test]
fn test_invalid_pod_selector() {
    let forward = forward_with(PodSelector {
        label: Some("invalid=selector=format".to_string()),
        annotation: None,
    });

    // A pod without metadata
    let pod = PodInfo::default();

    // Test pod selector matching
    assert!(!forward.clone().matches_pod_selector(
        &pod,
        &PodSelector {
            label: Some("invalid=selector=format".to_string()),
            annotation: None,
        }
    ));
}

#[test]
fn test_select_pod_prefers_first_running_match() {
    let forward = forward_with(PodSelector {
        label: Some("app=test".to_string()),
        annotation: None,
    });
    let pending = PodInfo {
        name: Some("p0".to_string()),
        phase: Some("Pending".to_string()),
        labels: entries(&[("app", "test")]),
        annotations: None,
    };
    let other = PodInfo {
        name: Some("p1".to_string()),
        phase: Some("Running".to_string()),
        labels: entries(&[("app", "other")]),
        annotations: None,
    };
    let running = PodInfo {
        name: Some("p2".to_string()),
        phase: Some("Running".to_string()),
        labels: entries(&[("app", "test")]),
        annotations: None,
    };
    let pods = vec![pending.clone(), other.clone(), running.clone(), running];
    assert_eq!(forward.select_pod(&pods), Ok(2));
    assert!(pod_is_running(&pods[2]));
    assert!(!pod_is_running(&pods[0]));
    assert_eq!(pod_name(&pods[2]), Ok("p2".to_string()));
    assert_eq!(
        pod_name(&PodInfo::default()),
        Err(PortForwardError::ConnectionError("Pod name not found".to_string()))
    );

    match forward.select_pod(&[pending, other]) {
        Err(PortForwardError::ConnectionError(msg)) => {
            assert_eq!(
                msg,
                "No ready pods found matching selector for service test-service (label: Some(\"app=test\"), annotation: None)"
            );
        }
        other => panic!("expected ConnectionError, got {:?}", other),
    }
}

#[test]
fn test_state_predicates() {
    assert!(is_active(&ForwardState::Connected));
    assert!(is_active(&ForwardState::Starting));
    assert!(!is_active(&ForwardState::Stopping));
    assert!(is_settled(&ForwardState::Failed("x".to_string())));
    assert!(!is_settled(&ForwardState::Starting));
}

#[test]
fn test_listener_kind_and_bind_retries() {
    assert_eq!(listener_kind(&None), Ok(ListenerKind::Tcp));
    assert_eq!(listener_kind(&Some("udp".to_string())), Ok(ListenerKind::Udp));
    assert_eq!(
        listener_kind(&Some("sctp".to_string())),
        Err(PortForwardError::ConnectionError("Unsupported protocol: sctp".to_string()))
    );
    assert_eq!(on_port_in_use(0, 8080), Ok(1));
    assert_eq!(on_port_in_use(2, 8080), Ok(3));
    assert_eq!(
        on_port_in_use(3, 8080),
        Err(PortForwardError::ConnectionError(
            "Port 8080 is already in use. Please choose a different local port".to_string()
        ))
    );
}

#[test]
fn test_accepted_selectors_parse_back() {
    for s in ["app=web", "a=b=c", "k=", "app.kubernetes.io/name=web", " x =y"] {
        assert!(validate_selector(s).is_ok());
        let (key, value) = PortForward::parse_selector(s);
        assert!(!key.is_empty());
        assert_eq!(format!("{}={}", key, value), s);
    }
}

#[test]
fn test_establish_start() {
    assert_eq!(establish_start(&ForwardState::Connected), None);
    assert_eq!(establish_start(&ForwardState::Disconnected), Some(ForwardState::Starting));
    assert_eq!(establish_start(&ForwardState::Starting), Some(ForwardState::Starting));
    assert_eq!(
        establish_start(&ForwardState::Failed("x".to_string())),
        Some(ForwardState::Starting)
    );
}

#[test]
fn test_initial_wait_done() {
    let settled = vec![
        ("a".to_string(), ForwardState::Connected),
        ("b".to_string(), ForwardState::Failed("x".to_string())),
    ];
    let pending = vec![
        ("a".to_string(), ForwardState::Connected),
        ("b".to_string(), ForwardState::Starting),
    ];
    let limit = TimeSpan::from_secs(5);
    assert!(initial_wait_done(&settled, TimeSpan::from_secs(1), limit));
    assert!(!initial_wait_done(&pending, TimeSpan::from_secs(1), limit));
    assert!(initial_wait_done(&pending, TimeSpan::from_secs(5), limit));
    assert!(initial_wait_done(&[], TimeSpan::zero(), limit));
}
