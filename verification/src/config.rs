//! The model of the configuration file and its defaults.
use vstd::prelude::*;

use crate::time::{TimeSpan, NANOS_PER_SEC};

verus! {

/// One port-forward as declared in the configuration.
#[derive(Clone, Debug, PartialEq, Eq)]
pub struct ForwardConfig {
    pub name: String,
    pub target: String,
    pub ports: PortMapping,
    pub options: ForwardOptions,
    pub local_dns: LocalDnsConfig,
    pub pod_selector: PodSelector,
}

/// The local and remote port of a forward, and its protocol (`tcp` when unset).
#[derive(Clone, Debug, PartialEq, Eq)]
pub struct PortMapping {
    pub protocol: Option<String>,
    pub local: u16,
    pub remote: u16,
}

/// How a forward is supervised.
#[derive(Clone, Debug, PartialEq, Eq)]
pub struct ForwardOptions {
    /// Base delay of the reconnect backoff.
    pub retry_interval: TimeSpan,
    /// Failed attempts tolerated before giving up (unless persistent).
    pub max_retries: u32,
    /// Keep reconnecting forever, ignoring `max_retries`.
    pub persistent_connection: bool,
    /// Time between health probes.
    pub health_check_interval: TimeSpan,
    /// Idle timeout of a single forwarded connection.
    pub connection_timeout: TimeSpan,
}

impl Default for ForwardOptions {
    /// All spans empty, no retries, not persistent.
    fn default() -> (r: ForwardOptions)
        ensures
            r.retry_interval@ == 0,
            r.max_retries == 0,
            !r.persistent_connection,
            r.health_check_interval@ == 0,
            r.connection_timeout@ == 0,
    {
        ForwardOptions {
            retry_interval: TimeSpan::zero(),
            max_retries: 0,
            persistent_connection: false,
            health_check_interval: TimeSpan::zero(),
            connection_timeout: TimeSpan::zero(),
        }
    }
}

/// Optional local DNS name for a forward.
#[derive(Clone, Debug, Default, PartialEq, Eq)]
pub struct LocalDnsConfig {
    pub enabled: bool,
    pub hostname: Option<String>,
}

/// Which pod a forward binds to: `key=value` label and/or annotation matches.
#[derive(Clone, Debug, Default, PartialEq, Eq)]
pub struct PodSelector {
    /// e.g. `app.kubernetes.io/name=simple`
    pub label: Option<String>,
    /// e.g. `prometheus.io/scrape=true`
    pub annotation: Option<String>,
}

/// The options a forward gets when its configuration gives none.
pub open spec fn is_default_options(o: ForwardOptions) -> bool {
    &&& o.retry_interval@ == 5 * NANOS_PER_SEC
    &&& o.max_retries == 3
    &&& o.persistent_connection
    &&& o.health_check_interval@ == 10 * NANOS_PER_SEC
    &&& o.connection_timeout@ == 3600 * NANOS_PER_SEC
}

/// The default options: 5s retry interval, 3 retries, persistent, 10s health
/// checks, 1h idle timeout.
pub fn default_forward_options() -> (r: ForwardOptions)
    ensures
        is_default_options(r),
{
    ForwardOptions {
        retry_interval: default_retry_interval(),
        max_retries: default_max_retries(),
        persistent_connection: default_persistent_connection(),
        health_check_interval: default_health_check_interval(),
        connection_timeout: default_connection_timeout(),
    }
}

/// Five seconds.
pub fn default_retry_interval() -> (r: TimeSpan)
    ensures
        r@ == 5 * NANOS_PER_SEC,
{
    TimeSpan::from_secs(5)
}

/// Three retries.
pub fn default_max_retries() -> (r: u32)
    ensures
        r == 3,
{
    3
}

/// Ten seconds.
pub fn default_health_check_interval() -> (r: TimeSpan)
    ensures
        r@ == 10 * NANOS_PER_SEC,
{
    TimeSpan::from_secs(10)
}

/// Persistent by default.
pub fn default_persistent_connection() -> (r: bool)
    ensures
        r,
{
    true
}

/// One hour.
pub fn default_connection_timeout() -> (r: TimeSpan)
    ensures
        r@ == 3600 * NANOS_PER_SEC,
{
    TimeSpan::from_secs(3600)
}

} // verus!
