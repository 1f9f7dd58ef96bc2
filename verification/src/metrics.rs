//! Prometheus metrics per forward. Each recording method returns the update to
//! apply to the metrics recorder: which series, for which forward, and how it
//! changes.
use vstd::prelude::*;

verus! {

/// The series kube-forward exports.
#[derive(Clone, Copy, Debug, PartialEq, Eq)]
pub enum ForwardMetric {
    /// `port_forward_connection_attempts_total` (counter)
    ConnectionAttempts,
    /// `port_forward_connection_successes_total` (counter)
    ConnectionSuccesses,
    /// `port_forward_connection_failures_total` (counter)
    ConnectionFailures,
    /// `port_forward_connected` (gauge)
    Connected,
}

impl ForwardMetric {
    /// The exported name of the series.
    pub open spec fn name_of(self) -> Seq<char> {
        match self {
            ForwardMetric::ConnectionAttempts => "port_forward_connection_attempts_total"@,
            ForwardMetric::ConnectionSuccesses => "port_forward_connection_successes_total"@,
            ForwardMetric::ConnectionFailures => "port_forward_connection_failures_total"@,
            ForwardMetric::Connected => "port_forward_connected"@,
        }
    }

    /// The exported name of the series.
    pub fn name(&self) -> (r: &'static str)
        ensures
            r@ == self.name_of(),
    {
        match self {
            ForwardMetric::ConnectionAttempts => "port_forward_connection_attempts_total",
            ForwardMetric::ConnectionSuccesses => "port_forward_connection_successes_total",
            ForwardMetric::ConnectionFailures => "port_forward_connection_failures_total",
            ForwardMetric::Connected => "port_forward_connected",
        }
    }
}

/// How a series changes.
#[derive(Clone, Copy, Debug, PartialEq, Eq)]
pub enum MetricChange {
    /// Add to a counter.
    Increment(u64),
    /// Set a gauge to `1` (true) or `0` (false).
    SetGauge(bool),
}

/// One change to one series of one forward (labelled `forward="<name>"`).
#[derive(Clone, Debug, PartialEq, Eq)]
pub struct MetricUpdate {
    pub metric: ForwardMetric,
    pub forward: String,
    pub change: MetricChange,
}

/// The metrics handle of one forward.
#[derive(Clone, Debug, PartialEq, Eq)]
pub struct ForwardMetrics {
    pub(crate) name: String,
}

impl ForwardMetrics {
    /// The metrics of the forward called `name`.
    pub fn new(name: String) -> (r: Self)
        ensures
            r.forward_name() == name@,
    {
        Self { name }
    }

    /// The forward these metrics are labelled with.
    pub closed spec fn forward_name(&self) -> Seq<char> {
        self.name@
    }

    fn update(&self, metric: ForwardMetric, change: MetricChange) -> (r: MetricUpdate)
        ensures
            r.metric == metric,
            r.forward@ == self.forward_name(),
            r.change == change,
    {
        MetricUpdate { metric, forward: self.name.clone(), change }
    }

    /// One more connection attempt.
    pub fn record_connection_attempt(&self) -> (r: MetricUpdate)
        ensures
            r.metric == ForwardMetric::ConnectionAttempts,
            r.forward@ == self.forward_name(),
            r.change == MetricChange::Increment(1),
    {
        self.update(ForwardMetric::ConnectionAttempts, MetricChange::Increment(1))
    }

    /// One more successful connection.
    pub fn record_connection_success(&self) -> (r: MetricUpdate)
        ensures
            r.metric == ForwardMetric::ConnectionSuccesses,
            r.forward@ == self.forward_name(),
            r.change == MetricChange::Increment(1),
    {
        self.update(ForwardMetric::ConnectionSuccesses, MetricChange::Increment(1))
    }

    /// One more failed connection.
    pub fn record_connection_failure(&self) -> (r: MetricUpdate)
        ensures
            r.metric == ForwardMetric::ConnectionFailures,
            r.forward@ == self.forward_name(),
            r.change == MetricChange::Increment(1),
    {
        self.update(ForwardMetric::ConnectionFailures, MetricChange::Increment(1))
    }

    /// The forward is now connected (`1`) or not (`0`).
    pub fn set_connection_status(&self, connected: bool) -> (r: MetricUpdate)
        ensures
            r.metric == ForwardMetric::Connected,
            r.forward@ == self.forward_name(),
            r.change == MetricChange::SetGauge(connected),
    {
        self.update(ForwardMetric::Connected, MetricChange::SetGauge(connected))
    }
}

} // verus!
