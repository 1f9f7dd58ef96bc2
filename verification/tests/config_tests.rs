use kube_forward::config::{
    default_connection_timeout, default_forward_options, default_health_check_interval,
    default_max_retries, default_persistent_connection, default_retry_interval, ForwardConfig,
    ForwardOptions, LocalDnsConfig, PodSelector, PortMapping,
};
use kube_forward::time::TimeSpan;

#[test]
fn test_config_defaults() {
    // Test default values
    assert_eq!(default_retry_interval(), TimeSpan::from_secs(5));
    assert_eq!(default_max_retries(), 3);
    assert_eq!(default_health_check_interval(), TimeSpan::from_secs(10));
    assert!(default_persistent_connection());

    // Test default ForwardOptions
    let default_options = default_forward_options();
    assert_eq!(default_options.retry_interval, default_retry_interval());
    assert_eq!(default_options.max_retries, default_max_retries());
    assert_eq!(
        default_options.health_check_interval,
        default_health_check_interval()
    );
    assert_eq!(
        default_options.persistent_connection,
        default_persistent_connection()
    );
}

#[test]
fn test_connection_timeout_default_is_one_hour() {
    assert_eq!(default_connection_timeout(), TimeSpan::from_secs(3600));
    assert_eq!(
        default_forward_options().connection_timeout,
        TimeSpan::from_secs(3600)
    );
}

#[test]
fn test_config_partial_eq() {
    let config1 = ForwardConfig {
        name: "test".to_string(),
        target: "test-service".to_string(),
        ports: PortMapping {
            protocol: Some("TCP".to_string()),
            local: 8080,
            remote: 80,
        },
        options: ForwardOptions::default(),
        local_dns: LocalDnsConfig::default(),
        pod_selector: PodSelector::default(),
    };

    let config2 = config1.clone();
    assert_eq!(config1, config2);

    let different_config = ForwardConfig {
        name: "different".to_string(),
        ..config1.clone()
    };
    assert_ne!(config1, different_config);
}

#[test]
fn test_time_span_arithmetic() {
    let five = TimeSpan::from_secs(5);
    assert_eq!(five.as_nanos(), 5_000_000_000);
    assert_eq!(five.as_secs(), 5);
    assert_eq!(TimeSpan::new(1, 500).subsec_nanos(), 500);
    assert_eq!(TimeSpan::from_millis(1500).as_secs(), 1);
    assert_eq!(five.saturating_mul(3), TimeSpan::from_secs(15));
    assert_eq!(TimeSpan::max_value().saturating_mul(2), TimeSpan::max_value());
    assert_eq!(five.shorter(&TimeSpan::from_secs(2)), TimeSpan::from_secs(2));
    assert_eq!(TimeSpan::from_secs(2).saturating_sub(&five), TimeSpan::zero());
    assert_eq!(five.saturating_sub(&TimeSpan::from_secs(2)), TimeSpan::from_secs(3));
    assert_eq!(TimeSpan::default(), TimeSpan::zero());
    assert_eq!(TimeSpan::max_value().as_secs(), u64::MAX);
}
