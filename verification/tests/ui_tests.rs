use kube_forward::config::{ForwardConfig, ForwardOptions, LocalDnsConfig, PodSelector, PortMapping};
use kube_forward::forward::ForwardState;
use kube_forward::ui::{
    collect_statuses, forward_table, startup_banner, startup_summary, status_from_state,
    validation_lines, watching_footer, ForwardStatus,
};
use kube_forward::validate::ValidationReport;

fn config(name: &str, local: u16, remote: u16, proto: &str, target: &str) -> ForwardConfig {
    ForwardConfig {
        name: name.to_string(),
        target: target.to_string(),
        ports: PortMapping {
            protocol: Some(proto.to_string()),
            local,
            remote,
        },
        options: ForwardOptions::default(),
        local_dns: LocalDnsConfig::default(),
        pod_selector: PodSelector::default(),
    }
}

fn status(name: &str, established: bool, detail: Option<&str>) -> ForwardStatus {
    ForwardStatus {
        name: name.to_string(),
        established,
        detail: detail.map(|d| d.to_string()),
    }
}

#[test]
fn test_forward_table_empty() {
    assert_eq!(forward_table(&[]), "");
}

#[test]
fn test_forward_table_aligns_and_includes_fields() {
    let configs = vec![
        config("argocd-ui", 8080, 8080, "tcp", "argocd-server.argocd"),
        config("coredns", 5454, 53, "udp", "kube-dns.kube-system"),
    ];
    let table = forward_table(&configs);
    let lines: Vec<&str> = table.lines().collect();
    assert_eq!(lines.len(), 2);

    assert!(lines[0].contains("argocd-ui"));
    assert!(lines[0].contains("127.0.0.1:8080 -> argocd-server.argocd:8080"));
    assert!(lines[0].contains("TCP"));

    assert!(lines[1].contains("coredns"));
    assert!(lines[1].contains("127.0.0.1:5454 -> kube-dns.kube-system:53"));
    // protocol is uppercased even when configured lowercase
    assert!(lines[1].contains("UDP"));

    // The address column starts at the same offset on every row (aligned).
    let offset0 = lines[0].find("127.0.0.1").unwrap();
    let offset1 = lines[1].find("127.0.0.1").unwrap();
    assert_eq!(offset0, offset1);
}

#[test]
fn test_forward_table_exact_rows() {
    let mut c = config("a", 1, 2, "tcp", "s.n");
    c.ports.protocol = None;
    let configs = vec![c, config("bbb", 10, 20, "udp", "svc.ns")];
    assert_eq!(
        forward_table(&configs),
        "  a    127.0.0.1:1 -> s.n:2       TCP\n  bbb  127.0.0.1:10 -> svc.ns:20  UDP\n"
    );
}

#[test]
fn test_startup_summary_all_established() {
    let statuses = vec![status("a", true, None), status("b", true, None)];
    let summary = startup_summary(&statuses, false);
    assert_eq!(summary, "\u{2713} 2/2 established");
}

#[test]
fn test_startup_summary_with_failures() {
    let statuses = vec![
        status("a", true, None),
        status("longhorn", false, Some("no ready pods")),
    ];
    let summary = startup_summary(&statuses, false);
    assert!(summary.contains("1/2 established"));
    assert!(summary.contains("1 failed"));
    assert!(summary.contains("longhorn: no ready pods"));
}

#[test]
fn test_startup_summary_exact_text() {
    let statuses = vec![
        status("x", false, None),
        status("a", true, None),
        status("y", false, Some("boom")),
    ];
    assert_eq!(
        startup_summary(&statuses, false),
        "\u{2713} 1/3 established  \u{2717} 2 failed\n    \u{2717} x: unknown error\n    \u{2717} y: boom"
    );
    assert_eq!(startup_summary(&[], false), "\u{2713} 0/0 established");
}

#[test]
fn test_startup_summary_no_color_has_no_escapes() {
    let statuses = vec![status("a", true, None)];
    let summary = startup_summary(&statuses, false);
    assert!(!summary.contains('\x1b'));
}

#[test]
fn test_startup_summary_color_has_escapes() {
    let statuses = vec![status("a", true, None)];
    let summary = startup_summary(&statuses, true);
    assert!(summary.contains('\x1b'));
    assert_eq!(summary, "\x1b[32m\u{2713}\x1b[0m 1/1 established");
}

#[test]
fn test_banner_and_footer() {
    assert_eq!(
        startup_banner("0.6.0", 4, false),
        "kube-forward 0.6.0 \u{2014} 4 forwards configured\n"
    );
    assert_eq!(
        startup_banner("0.6.0", 1, false),
        "kube-forward 0.6.0 \u{2014} 1 forward configured\n"
    );
    assert_eq!(
        watching_footer(false),
        "watching for changes, press Ctrl-C to stop"
    );
    assert_eq!(
        watching_footer(true),
        "\x1b[2mwatching for changes, press Ctrl-C to stop\x1b[0m"
    );
}

#[test]
fn test_validation_lines() {
    let report = ValidationReport {
        errors: vec![],
        warnings: vec!["w".to_string()],
    };
    let (lines, valid) = validation_lines(&report, false);
    assert!(valid);
    assert_eq!(lines, vec!["warning: w", "\u{2713} configuration is valid"]);

    let report = ValidationReport {
        errors: vec!["e1".to_string()],
        warnings: vec![],
    };
    let (lines, valid) = validation_lines(&report, false);
    assert!(!valid);
    assert_eq!(lines, vec!["error: e1", "\u{2717} 1 error found"]);

    let report = ValidationReport {
        errors: vec!["e1".to_string(), "e2".to_string()],
        warnings: vec![],
    };
    let (lines, _) = validation_lines(&report, false);
    assert_eq!(lines[2], "\u{2717} 2 errors found");
}

#[test]
fn test_collect_statuses_orders_and_overrides() {
    let configs = vec![
        config("a", 1, 1, "tcp", "s"),
        config("b", 2, 2, "tcp", "s"),
        config("c", 3, 3, "tcp", "s"),
        config("d", 4, 4, "tcp", "s"),
    ];
    let states = vec![
        ("b".to_string(), ForwardState::Starting),
        ("a".to_string(), ForwardState::Connected),
        ("c".to_string(), ForwardState::Failed("bad".to_string())),
    ];
    let failures = vec![status("c", false, Some("no service"))];
    let out = collect_statuses(&configs, &states, &failures);
    assert_eq!(
        out,
        vec![
            status("a", true, None),
            status("b", false, Some("still connecting (timed out)")),
            status("c", false, Some("no service")),
        ]
    );
}

#[test]
fn test_status_from_state() {
    assert_eq!(
        status_from_state("x".to_string(), &ForwardState::Failed("m".to_string())),
        status("x", false, Some("m"))
    );
    assert_eq!(
        status_from_state("x".to_string(), &ForwardState::Disconnected),
        status("x", false, Some("still connecting (timed out)"))
    );
}

#[test]
fn test_summary_color_only_adds_codes() {
    let statuses = vec![
        ForwardStatus {
            name: "a".to_string(),
            established: true,
            detail: None,
        },
        ForwardStatus {
            name: "b".to_string(),
            established: false,
            detail: Some("refused".to_string()),
        },
        ForwardStatus {
            name: "c".to_string(),
            established: false,
            detail: None,
        },
    ];
    let plain = startup_summary(&statuses, false);
    let colored = startup_summary(&statuses, true);
    assert!(!plain.contains('\x1b'));
    assert!(colored.contains('\x1b'));
    let stripped = colored
        .replace("\x1b[32m", "")
        .replace("\x1b[31m", "")
        .replace("\x1b[0m", "");
    assert_eq!(stripped, plain);
}
