use kube_forward::error::PortForwardError;
use kube_forward::util::{parse_full_dns_name, parse_target, resolve_target, service_info_from, ServiceInfo};

#[test]
fn test_service_info() {
    let service_info = ServiceInfo {
        namespace: "default".to_string(),
        name: "my-service".to_string(),
        ports: vec![80, 443],
    };

    assert_eq!(service_info.namespace, "default");
    assert_eq!(service_info.name, "my-service");
    assert_eq!(service_info.ports, vec![80, 443]);

    // Test Clone and Debug
    let cloned = service_info.clone();
    assert_eq!(service_info, cloned);
    assert_eq!(
        format!("{:?}", service_info),
        "ServiceInfo { namespace: \"default\", name: \"my-service\", ports: [80, 443] }"
    );
}

#[test]
fn test_parse_full_dns_name() {
    // Test valid DNS name
    let parts = vec!["service", "namespace", "svc", "cluster", "local"];
    let result = parse_full_dns_name(&parts);
    assert!(result.is_ok());
    let (service, namespace) = result.unwrap();
    assert_eq!(service, "service");
    assert_eq!(namespace, "namespace");

    // Test invalid DNS name (too short)
    let invalid_parts = vec!["service"];
    let result = parse_full_dns_name(&invalid_parts);
    assert!(result.is_err());
    match result {
        Err(PortForwardError::DnsError(msg)) => {
            assert_eq!(msg, "Invalid DNS name format");
        }
        _ => panic!("Expected DnsError"),
    }
}

#[test]
fn test_parse_target() {
    // Bare service name: namespace deferred to the client default.
    assert_eq!(parse_target("svc").unwrap(), ("svc", None));

    // service.namespace
    assert_eq!(parse_target("svc.ns").unwrap(), ("svc", Some("ns")));

    // Longer DNS name: only the first two labels matter.
    assert_eq!(
        parse_target("svc.ns.svc.cluster.local").unwrap(),
        ("svc", Some("ns"))
    );

    // Invalid forms.
    assert!(parse_target("").is_err());
    assert!(parse_target(".").is_err());
    assert!(parse_target(".ns").is_err());
    assert!(parse_target("svc.").is_err());
}

#[test]
fn test_parse_target_error_message() {
    match parse_target("svc.") {
        Err(e) => {
            assert_eq!(
                e,
                PortForwardError::DnsError(
                    "invalid target 'svc.', expected 'service' or 'service.namespace'".to_string()
                )
            );
            assert_eq!(
                e.to_string(),
                "invalid DNS name: invalid target 'svc.', expected 'service' or 'service.namespace'"
            );
        }
        Ok(_) => panic!("expected an error"),
    }
}

#[test]
fn test_resolve_target_defaults_namespace() {
    assert_eq!(resolve_target("svc", "default").unwrap(), ("svc", "default"));
    assert_eq!(resolve_target("svc.ns.svc", "default").unwrap(), ("svc", "ns"));
    assert!(resolve_target("..", "default").is_err());
}

#[test]
fn test_service_info_from_narrows_ports() {
    let info = service_info_from("ns", "svc", &vec![80, 443, 65536 + 53, -1]);
    assert_eq!(info.namespace, "ns");
    assert_eq!(info.name, "svc");
    assert_eq!(info.ports, vec![80, 443, 53, 65535]);
}

#[test]
fn test_error_messages() {
    assert_eq!(
        PortForwardError::KubeError("x".to_string()).to_string(),
        "kubernetes error: x"
    );
    assert_eq!(
        PortForwardError::ConnectionError("y".to_string()).to_string(),
        "connection error: y"
    );
}
