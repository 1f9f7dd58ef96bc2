//! The decisions of the loop that keeps one forward up, and of the health
//! monitor that decides when a connection is lost. Each machine takes what
//! happened (an event) and answers with what to do next; the caller performs
//! the waiting, connecting and probing.
use vstd::prelude::*;
use vstd::string::*;

use crate::backoff::{backoff_delay, backoff_delay_spec, max_backoff_nanos, FRACTION_ONE};
use crate::config::ForwardOptions;
use crate::error::PortForwardError;
use crate::forward::ForwardState;
use crate::text::{decimal, eq_ascii_ci, eq_ignore_ascii_case, push_decimal};
use crate::time::TimeSpan;

verus! {

// ---------------------------------------------------------------------------
// The supervising loop
// ---------------------------------------------------------------------------

/// What happened to a supervised forward.
#[derive(Debug, Clone, Copy, PartialEq, Eq)]
pub enum SupervisorEvent {
    /// The loop is about to try (again).
    Ready,
    /// The forward was established.
    Established,
    /// Establishing the forward failed.
    EstablishFailed,
    /// The monitor reported the connection lost.
    ConnectionLost,
    /// Shutdown was requested.
    ShutdownRequested,
}

/// What the supervising loop does next.
#[derive(Debug, Clone, PartialEq, Eq)]
pub enum SupervisorAction {
    /// Mark the forward `Failed` with this message and return it as a connection error.
    GiveUp(String),
    /// Start a fresh session (cancelling the previous one), count an attempt and establish.
    Connect,
    /// Mark the forward `Connected`, count a success, report it connected, and
    /// monitor it until it is lost or shutdown is requested.
    Monitor,
    /// Count a failure, report the forward disconnected, wait this long and start over.
    RetryAfter(TimeSpan),
    /// Mark the forward `Disconnected`, report it disconnected and start over.
    Reconnect,
    /// Cancel the session and stop.
    Stop,
}

/// The state of the supervising loop of one forward.
#[derive(Debug, Clone, Copy, PartialEq, Eq)]
pub struct Supervisor {
    /// Consecutive failed attempts since the last success.
    pub retry_count: u32,
    pub max_retries: u32,
    pub persistent: bool,
    pub retry_interval: TimeSpan,
}

/// Whether the loop gives up instead of trying again.
pub open spec fn gives_up(s: Supervisor) -> bool {
    s.retry_count >= s.max_retries && !s.persistent
}

/// The loop state after an event.
pub open spec fn supervisor_after(s: Supervisor, ev: SupervisorEvent) -> Supervisor {
    match ev {
        SupervisorEvent::Established => Supervisor { retry_count: 0, ..s },
        SupervisorEvent::EstablishFailed => Supervisor { retry_count: (s.retry_count + 1) as u32, ..s },
        _ => s,
    }
}

impl Supervisor {
    /// A loop with no failures yet, supervising with `options`.
    pub fn new(options: &ForwardOptions) -> (r: Supervisor)
        ensures
            r.retry_count == 0,
            r.max_retries == options.max_retries,
            r.persistent == options.persistent_connection,
            r.retry_interval == options.retry_interval,
    {
        Supervisor {
            retry_count: 0,
            max_retries: options.max_retries,
            persistent: options.persistent_connection,
            retry_interval: options.retry_interval,
        }
    }

    /// React to `ev`: before an attempt, give up once a non-persistent forward
    /// has failed `max_retries` times in a row, else connect; on success reset
    /// the failure count and monitor; on failure count it and back off
    /// (exponentially, with jitter, from `retry_interval`); on a lost
    /// connection reconnect; on shutdown stop.
    pub fn step(&mut self, ev: SupervisorEvent) -> (r: SupervisorAction)
        requires
            ev == SupervisorEvent::EstablishFailed ==> old(self).retry_count < u32::MAX,
        ensures
            *final(self) == supervisor_after(*old(self), ev),
            ev == SupervisorEvent::Ready && gives_up(*old(self)) ==> (r matches SupervisorAction::GiveUp(
                m,
            ) && m@ == "Max retry attempts reached"@),
            ev == SupervisorEvent::Ready && !gives_up(*old(self)) ==> r == SupervisorAction::Connect,
            ev == SupervisorEvent::Established ==> r == SupervisorAction::Monitor,
            ev == SupervisorEvent::EstablishFailed ==> (r matches SupervisorAction::RetryAfter(d)
                && exists|f: nat|
                f <= FRACTION_ONE && d@ == backoff_delay_spec(
                    old(self).retry_interval@,
                    final(self).retry_count as nat,
                    max_backoff_nanos(),
                    f,
                )),
            ev == SupervisorEvent::ConnectionLost ==> r == SupervisorAction::Reconnect,
            ev == SupervisorEvent::ShutdownRequested ==> r == SupervisorAction::Stop,
    {
        match ev {
            SupervisorEvent::Ready => {
                if self.retry_count >= self.max_retries && !self.persistent {
                    SupervisorAction::GiveUp(String::from_str("Max retry attempts reached"))
                } else {
                    SupervisorAction::Connect
                }
            },
            SupervisorEvent::Established => {
                self.retry_count = 0;
                SupervisorAction::Monitor
            },
            SupervisorEvent::EstablishFailed => {
                self.retry_count = self.retry_count + 1;
                let delay = backoff_delay(self.retry_interval, self.retry_count);
                SupervisorAction::RetryAfter(delay)
            },
            SupervisorEvent::ConnectionLost => SupervisorAction::Reconnect,
            SupervisorEvent::ShutdownRequested => SupervisorAction::Stop,
        }
    }
}

/// The loop state after a run of events.
pub open spec fn supervisor_after_all(s: Supervisor, evs: Seq<SupervisorEvent>) -> Supervisor
    decreases evs.len(),
{
    if evs.len() == 0 {
        s
    } else {
        supervisor_after(supervisor_after_all(s, evs.drop_last()), evs.last())
    }
}

/// After `k` failed attempts in a row (each preceded by a new try), a loop that
/// started without failures has counted exactly `k` of them.
pub proof fn lemma_failures_counted(s: Supervisor, k: nat)
    requires
        s.retry_count == 0,
        k < u32::MAX,
    ensures
        supervisor_after_all(s, Seq::new(k, |i: int| SupervisorEvent::EstablishFailed)).retry_count
            == k,
    decreases k,
{
    if k > 0 {
        let evs = Seq::new(k, |i: int| SupervisorEvent::EstablishFailed);
        assert(evs.drop_last() =~= Seq::new((k - 1) as nat, |i: int| SupervisorEvent::EstablishFailed));
        lemma_failures_counted(s, (k - 1) as nat);
    }
}

/// A non-persistent forward that keeps failing gives up once, and only once,
/// it has failed `max_retries` times in a row; a persistent one never gives up.
pub proof fn lemma_gives_up_after_max_retries(s: Supervisor, k: nat)
    requires
        s.retry_count == 0,
        k < u32::MAX,
    ensures
        gives_up(supervisor_after_all(s, Seq::new(k, |i: int| SupervisorEvent::EstablishFailed)))
            <==> (k >= s.max_retries && !s.persistent),
{
    lemma_failures_counted(s, k);
    lemma_settings_kept(s, Seq::new(k, |i: int| SupervisorEvent::EstablishFailed));
}

/// Events never change how a loop is configured, only its failure count.
pub proof fn lemma_settings_kept(s: Supervisor, evs: Seq<SupervisorEvent>)
    ensures
        supervisor_after_all(s, evs).max_retries == s.max_retries,
        supervisor_after_all(s, evs).persistent == s.persistent,
        supervisor_after_all(s, evs).retry_interval == s.retry_interval,
    decreases evs.len(),
{
    if evs.len() > 0 {
        lemma_settings_kept(s, evs.drop_last());
    }
}

/// Only a failed attempt adds to the failure count and only a success clears
/// it: a lost connection, a new try and a shutdown leave the loop unchanged.
/// So after a success and then a lost connection the loop connects again
/// (unless it allows no attempts at all).
pub proof fn lemma_only_failures_count(s: Supervisor)
    ensures
        supervisor_after(s, SupervisorEvent::ConnectionLost) == s,
        supervisor_after(s, SupervisorEvent::Ready) == s,
        supervisor_after(s, SupervisorEvent::ShutdownRequested) == s,
        supervisor_after(s, SupervisorEvent::EstablishFailed).retry_count == s.retry_count + 1
            || s.retry_count == u32::MAX,
        !gives_up(
            supervisor_after(
                supervisor_after(s, SupervisorEvent::Established),
                SupervisorEvent::ConnectionLost,
            ),
        ) <==> (s.max_retries > 0 || s.persistent),
{
}

/// A successful connection forgives every earlier failure.
pub proof fn lemma_success_resets(s: Supervisor)
    ensures
        supervisor_after(s, SupervisorEvent::Established).retry_count == 0,
        !gives_up(supervisor_after(s, SupervisorEvent::Established)) || s.max_retries == 0,
{
}

// ---------------------------------------------------------------------------
// Health monitoring
// ---------------------------------------------------------------------------

/// Consecutive failed health checks tolerated on a TCP forward before reconnecting.
pub const MAX_TCP_HEALTH_FAILURES: u32 = 3;

/// Consecutive failed health checks tolerated on a UDP forward before reconnecting.
pub const MAX_UDP_HEALTH_FAILURES: u32 = 5;

/// Attempts allowed for the first health check after connecting.
pub const MAX_INITIAL_HEALTH_ATTEMPTS: u32 = 3;

/// What the monitor does after a probe.
#[derive(Debug, Clone, PartialEq, Eq)]
pub enum MonitorAction {
    /// Probe again at the next health-check tick.
    WaitTick,
    /// Probe again after the short initial retry delay.
    WaitRetry,
    /// The connection is considered lost.
    Fail(PortForwardError),
}

/// The health monitor of one connection.
#[derive(Debug, Clone, PartialEq, Eq)]
pub struct HealthMonitor {
    /// Still in the initial check (before the first healthy probe).
    pub initial: bool,
    /// Failed initial probes so far.
    pub initial_failures: u32,
    /// Failed probes in a row since the last healthy one (after the initial check).
    pub consecutive_failures: u32,
    /// Failed probes in a row that make the connection count as lost.
    pub max_failures: u32,
    /// The forward's name, for messages.
    pub name: String,
}

/// The failure threshold for a protocol: 5 for UDP (any ASCII case), 3 otherwise.
pub open spec fn max_failures_for(protocol: Seq<char>) -> u32 {
    if eq_ascii_ci(protocol, "UDP"@) {
        MAX_UDP_HEALTH_FAILURES
    } else {
        MAX_TCP_HEALTH_FAILURES
    }
}

/// The message when the connection is given up after repeated failures.
pub open spec fn lost_message(max: u32, name: Seq<char>) -> Seq<char> {
    "health check failed "@ + decimal(max as nat) + " consecutive times for "@ + name
}

/// The monitor after a probe: a healthy probe ends the initial check (or resets
/// the count of failures in a row); a failed one is counted.
pub open spec fn monitor_after(m: HealthMonitor, healthy: bool) -> HealthMonitor {
    if m.initial {
        if healthy {
            HealthMonitor { initial: false, consecutive_failures: 0, ..m }
        } else {
            HealthMonitor { initial_failures: (m.initial_failures + 1) as u32, ..m }
        }
    } else if healthy {
        HealthMonitor { consecutive_failures: 0, ..m }
    } else {
        HealthMonitor { consecutive_failures: (m.consecutive_failures + 1) as u32, ..m }
    }
}

impl HealthMonitor {
    /// Whether the monitor's counters are within their limits.
    pub open spec fn wf(&self) -> bool {
        &&& self.initial_failures < MAX_INITIAL_HEALTH_ATTEMPTS
        &&& self.consecutive_failures < self.max_failures
        &&& self.max_failures >= 1
    }

    /// A monitor for the forward `name` using `protocol` (the configured one, `TCP` when unset).
    pub fn new(name: String, protocol: &str) -> (r: HealthMonitor)
        ensures
            r.wf(),
            r.initial,
            r.initial_failures == 0,
            r.consecutive_failures == 0,
            r.max_failures == max_failures_for(protocol@),
            r.name == name,
    {
        let max_failures = if eq_ignore_ascii_case(protocol, "UDP") {
            MAX_UDP_HEALTH_FAILURES
        } else {
            MAX_TCP_HEALTH_FAILURES
        };
        HealthMonitor {
            initial: true,
            initial_failures: 0,
            consecutive_failures: 0,
            max_failures,
            name,
        }
    }

    /// React to one probe. In the initial check, a healthy probe ends it and a
    /// failed one is retried shortly, up to `MAX_INITIAL_HEALTH_ATTEMPTS` in all;
    /// afterwards a healthy probe resets the failure count, and the connection is
    /// lost after `max_failures` failed probes in a row.
    pub fn on_probe(&mut self, healthy: bool) -> (r: MonitorAction)
        requires
            old(self).wf(),
        ensures
            *final(self) == monitor_after(*old(self), healthy),
            r !is Fail ==> final(self).wf(),
            old(self).initial && healthy ==> r == MonitorAction::WaitTick,
            old(self).initial && !healthy && old(self).initial_failures + 1
                < MAX_INITIAL_HEALTH_ATTEMPTS ==> r == MonitorAction::WaitRetry,
            old(self).initial && !healthy && old(self).initial_failures + 1
                >= MAX_INITIAL_HEALTH_ATTEMPTS ==> (r matches MonitorAction::Fail(
                PortForwardError::ConnectionError(m),
            ) && m@ == "Failed initial health checks"@),
            !old(self).initial && healthy ==> r == MonitorAction::WaitTick,
            !old(self).initial && !healthy && old(self).consecutive_failures + 1
                < old(self).max_failures ==> r == MonitorAction::WaitTick,
            !old(self).initial && !healthy && old(self).consecutive_failures + 1
                >= old(self).max_failures ==> (r matches MonitorAction::Fail(
                PortForwardError::ConnectionError(m),
            ) && m@ == lost_message(old(self).max_failures, old(self).name@)),
    {
        if self.initial {
            if healthy {
                self.initial = false;
                self.consecutive_failures = 0;
                MonitorAction::WaitTick
            } else {
                self.initial_failures = self.initial_failures + 1;
                if self.initial_failures < MAX_INITIAL_HEALTH_ATTEMPTS {
                    MonitorAction::WaitRetry
                } else {
                    MonitorAction::Fail(
                        PortForwardError::ConnectionError(
                            String::from_str("Failed initial health checks"),
                        ),
                    )
                }
            }
        } else if healthy {
            self.consecutive_failures = 0;
            MonitorAction::WaitTick
        } else {
            self.consecutive_failures = self.consecutive_failures + 1;
            if self.consecutive_failures >= self.max_failures {
                let mut m = String::from_str("health check failed ");
                push_decimal(&mut m, self.max_failures as u128);
                m.append(" consecutive times for ");
                m.append(self.name.as_str());
                MonitorAction::Fail(PortForwardError::ConnectionError(m))
            } else {
                MonitorAction::WaitTick
            }
        }
    }
}

/// The count of failed local probes after one more probe: a success resets
/// it, a failure adds one.
pub fn record_probe(failures: u32, up: bool) -> (r: u32)
    requires
        up || failures < u32::MAX,
    ensures
        up ==> r == 0,
        !up ==> r == failures + 1,
{
    if up {
        0
    } else {
        failures + 1
    }
}

/// The pod a connection is bound to, when one is recorded. Without one there is
/// nothing to probe: each probe then counts as failed, and the initial check
/// gives up (see `lemma_failing_start_gives_up`).
pub fn monitored_pod(active_pod: &Option<String>) -> (r: Option<String>)
    ensures
        r is Some <==> active_pod is Some,
        active_pod matches Some(p) ==> (r matches Some(x) && x@ == p@),
{
    match active_pod {
        Some(p) => Some(p.clone()),
        None => None,
    }
}

/// A fresh monitor whose probes all fail (as when no pod is recorded) retries
/// the first `MAX_INITIAL_HEALTH_ATTEMPTS - 1` failures and gives up on the
/// last one, with "Failed initial health checks" (by the contract of `on_probe`).
pub proof fn lemma_failing_start_gives_up(m: HealthMonitor)
    requires
        m.wf(),
        m.initial,
        m.initial_failures == 0,
    ensures
        m.initial_failures + 1 < MAX_INITIAL_HEALTH_ATTEMPTS,
        monitor_after(m, false).wf(),
        monitor_after(m, false).initial,
        monitor_after(m, false).initial_failures + 1 < MAX_INITIAL_HEALTH_ATTEMPTS,
        monitor_after(monitor_after(m, false), false).wf(),
        monitor_after(monitor_after(m, false), false).initial,
        monitor_after(monitor_after(m, false), false).initial_failures + 1
            == MAX_INITIAL_HEALTH_ATTEMPTS,
{
}

/// Monitoring only makes sense for a forward that is `Connected` or `Starting`.
pub fn check_monitorable(state: &ForwardState) -> (r: Result<(), PortForwardError>)
    ensures
        (state is Connected || state is Starting) ==> r is Ok,
        !(state is Connected || state is Starting) ==> (r matches Err(
            PortForwardError::ConnectionError(m),
        ) && m@ == "Cannot monitor connection: not in Connected or Starting state"@),
{
    match state {
        ForwardState::Connected | ForwardState::Starting => Ok(()),
        _ => Err(
            PortForwardError::ConnectionError(
                String::from_str("Cannot monitor connection: not in Connected or Starting state"),
            ),
        ),
    }
}

} // verus!
