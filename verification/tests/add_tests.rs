use kube_forward::add::{
    append_checked, append_entry, build_forward_config, derive_selector_from_service, normalize_protocol,
    port_label, selector_from_input, service_target, suggest_local_port, unique_name,
};
use kube_forward::config::{
    default_forward_options, ForwardConfig, ForwardOptions, LocalDnsConfig, PodSelector,
    PortMapping,
};
use std::collections::{BTreeMap, HashSet};

/// A service selector as the entries of a sorted map.
fn selector(pairs: &[(&str, &str)]) -> Vec<(String, String)> {
    let map: BTreeMap<String, String> = pairs
        .iter()
        .map(|(k, v)| (k.to_string(), v.to_string()))
        .collect();
    map.into_iter().collect()
}

fn named(name: &str) -> ForwardConfig {
    ForwardConfig {
        name: name.to_string(),
        target: "svc.ns".to_string(),
        ports: PortMapping {
            protocol: None,
            local: 1,
            remote: 1,
        },
        options: ForwardOptions::default(),
        local_dns: LocalDnsConfig::default(),
        pod_selector: PodSelector::default(),
    }
}

#[test]
fn test_derive_selector_prefers_well_known_keys() {
    let sel = selector(&[("foo", "bar"), ("app.kubernetes.io/name", "grafana")]);
    assert_eq!(
        derive_selector_from_service(&sel),
        Some("app.kubernetes.io/name=grafana".to_string())
    );
}

#[test]
fn test_derive_selector_falls_back_to_first_key() {
    let sel = selector(&[("custom", "x"), ("zzz", "y")]);
    // The map is sorted, so "custom" comes first deterministically.
    assert_eq!(
        derive_selector_from_service(&sel),
        Some("custom=x".to_string())
    );
}

#[test]
fn test_derive_selector_empty_is_none() {
    assert_eq!(derive_selector_from_service(&selector(&[])), None);
}

#[test]
fn test_derive_selector_preference_order() {
    let sel = selector(&[("k8s-app", "a"), ("app", "b"), ("app.kubernetes.io/instance", "c")]);
    assert_eq!(
        derive_selector_from_service(&sel),
        Some("app.kubernetes.io/instance=c".to_string())
    );
    let sel = selector(&[("k8s-app", "dns"), ("zz", "y")]);
    assert_eq!(derive_selector_from_service(&sel), Some("k8s-app=dns".to_string()));
}

#[test]
fn test_suggest_local_port() {
    let mut taken = HashSet::new();
    assert_eq!(suggest_local_port(3000, &taken), 3000);
    taken.insert(3000);
    taken.insert(3001);
    assert_eq!(suggest_local_port(3000, &taken), 3002);
}

#[test]
fn test_suggest_local_port_edges() {
    let mut taken = HashSet::new();
    // Port 0 is never suggested.
    assert_eq!(suggest_local_port(0, &taken), 1);
    taken.insert(65534);
    taken.insert(65535);
    // Nothing free above: the search stops at the top of the range.
    assert_eq!(suggest_local_port(65534, &taken), 65535);
}

#[test]
fn test_normalize_protocol() {
    assert_eq!(normalize_protocol(Some("UDP")), "udp");
    assert_eq!(normalize_protocol(Some("tcp")), "tcp");
    assert_eq!(normalize_protocol(None), "tcp");
    assert_eq!(normalize_protocol(Some("SCTP")), "tcp");
    assert_eq!(normalize_protocol(Some("uDp")), "udp");
}

#[test]
fn test_append_entry_tcp_minimal() {
    let cfg = build_forward_config(
        "grafana".to_string(),
        "grafana.monitoring".to_string(),
        3001,
        3000,
        "tcp".to_string(),
        Some("app=grafana".to_string()),
    );
    let out = append_entry("", &cfg);
    assert!(out.contains("- name: \"grafana\""));
    assert!(out.contains("target: \"grafana.monitoring\""));
    assert!(out.contains("local: 3001"));
    assert!(out.contains("remote: 3000"));
    assert!(out.contains("label: \"app=grafana\""));
    // TCP is the default, so protocol is omitted for brevity.
    assert!(!out.contains("protocol:"));
}

#[test]
fn test_append_entry_udp_includes_protocol() {
    let cfg = build_forward_config(
        "dns".to_string(),
        "kube-dns.kube-system".to_string(),
        5353,
        53,
        "udp".to_string(),
        None,
    );
    let out = append_entry("", &cfg);
    assert!(out.contains("protocol: udp"));
    // No selector provided, so no pod_selector block.
    assert!(!out.contains("pod_selector:"));
}

#[test]
fn test_append_entry_preserves_existing_and_reparses() {
    let existing =
        "- name: \"keep\"\n  target: \"svc.ns\"\n  ports:\n    local: 8080\n    remote: 80\n";
    let cfg = build_forward_config(
        "added".to_string(),
        "other.ns".to_string(),
        9090,
        90,
        "tcp".to_string(),
        None,
    );
    let out = append_entry(existing, &cfg);
    // Existing entry is preserved.
    assert!(out.contains("- name: \"keep\""));
    // The combined text still parses as a list of two forwards.
    let parsed: serde_yaml::Value = serde_yaml::from_str(&out).unwrap();
    let items = parsed.as_sequence().unwrap();
    assert_eq!(items.len(), 2);
    assert_eq!(items[0]["name"].as_str(), Some("keep"));
    assert_eq!(items[1]["name"].as_str(), Some("added"));
    assert_eq!(items[1]["ports"]["local"].as_u64(), Some(9090));
}

#[test]
fn test_append_entry_exact_text() {
    let cfg = build_forward_config(
        "dns".to_string(),
        "kube-dns.kube-system".to_string(),
        5353,
        53,
        "UDP".to_string(),
        Some("k8s-app=kube-dns".to_string()),
    );
    let out = append_entry("# forwards", &cfg);
    assert_eq!(
        out,
        "# forwards\n\n- name: \"dns\"\n  target: \"kube-dns.kube-system\"\n  ports:\n    protocol: udp\n    local: 5353\n    remote: 53\n  pod_selector:\n    label: \"k8s-app=kube-dns\"\n"
    );
    let out = append_entry("x\n", &cfg);
    assert!(out.starts_with("x\n\n- name"));
}

#[test]
fn test_build_forward_config_uses_defaults() {
    let cfg = build_forward_config(
        "a".to_string(),
        "svc.ns".to_string(),
        1,
        2,
        "tcp".to_string(),
        None,
    );
    assert_eq!(cfg.options, default_forward_options());
    assert_eq!(
        cfg.pod_selector,
        PodSelector {
            label: None,
            annotation: None
        }
    );
    assert_eq!(
        cfg.ports,
        PortMapping {
            protocol: Some("tcp".to_string()),
            local: 1,
            remote: 2
        }
    );
}

#[test]
fn test_unique_name_suffixes() {
    let existing = vec![named("grafana"), named("grafana-2"), named("other")];
    assert_eq!(unique_name("grafana", &existing), "grafana-3");
    assert_eq!(unique_name("fresh", &existing), "fresh");
    assert_eq!(unique_name("other", &existing), "other-2");
    assert_eq!(unique_name("x", &[]), "x");
}

#[test]
fn test_port_label_and_target() {
    assert_eq!(port_label(3000, "tcp", Some("http")), "3000 (tcp http)");
    assert_eq!(port_label(53, "udp", None), "53 (udp port)");
    assert_eq!(port_label(-1, "tcp", None), "-1 (tcp port)");
    assert_eq!(service_target("grafana", "monitoring"), "grafana.monitoring");
}

#[test]
fn test_selector_from_input() {
    assert_eq!(selector_from_input("   "), None);
    assert_eq!(selector_from_input(""), None);
    assert_eq!(
        selector_from_input("  app=web \n"),
        Some("app=web".to_string())
    );
}

#[test]
fn test_append_checked_writes_only_valid_sets() {
    let first = build_forward_config(
        "grafana".to_string(),
        "grafana.monitoring".to_string(),
        3001,
        3000,
        "tcp".to_string(),
        None,
    );
    let second = build_forward_config(
        "prometheus".to_string(),
        "prometheus.monitoring".to_string(),
        9090,
        9090,
        "tcp".to_string(),
        None,
    );
    let text = "# forwards\n";
    let ok = append_checked(&[first.clone(), second.clone()], text);
    assert_eq!(ok, Ok(append_entry(text, &second)));

    // Same local port and protocol as the first: refused, with the errors.
    let clash = build_forward_config(
        "other".to_string(),
        "other.monitoring".to_string(),
        3001,
        80,
        "tcp".to_string(),
        None,
    );
    match append_checked(&[first, clash], text) {
        Err(errors) => {
            assert!(!errors.is_empty());
            assert!(errors.iter().any(|e| e.contains("3001")));
        }
        Ok(_) => panic!("an invalid set must not be written"),
    }
}
