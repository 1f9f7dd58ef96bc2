//! The decisions of a supervised port-forward: which pod to bind to, how a
//! pod selector matches, which listener to open, and when to retry, reconnect
//! or give up. The sockets, tasks and timers that carry these decisions out
//! belong to the program around this library.
use vstd::prelude::*;
use vstd::string::*;

use crate::config::{ForwardConfig, PodSelector};
use crate::error::PortForwardError;
use crate::metrics::ForwardMetrics;
use crate::text::{
    debug_quoted, debug_str, decimal, lemma_split_head, push_decimal, split_first, split_seq,
    str_eq, to_uppercase, trim_seq, uppercase_of,
};
use crate::time::TimeSpan;
use crate::util::{lookup, lookup_entry, ServiceInfo};
use crate::validate::selector_problem;

verus! {

/// The state of a port-forward.
#[derive(Debug, Clone, PartialEq, Eq)]
pub enum ForwardState {
    Starting,
    Connected,
    Disconnected,
    Failed(String),
    Stopping,
}

/// Whether a forward in state `s` is (or is about to be) serving its local port:
/// `Connected` or `Starting`.
pub fn is_active(s: &ForwardState) -> (r: bool)
    ensures
        r == (s is Connected || s is Starting),
{
    match s {
        ForwardState::Connected | ForwardState::Starting => true,
        _ => false,
    }
}

/// Whether a forward in state `s` has reached an outcome: `Connected` or `Failed`.
pub fn is_settled(s: &ForwardState) -> (r: bool)
    ensures
        r == (s is Connected || s is Failed),
{
    match s {
        ForwardState::Connected | ForwardState::Failed(_) => true,
        _ => false,
    }
}

/// What the forwarder reads of a pod: its name, phase, labels and annotations,
/// each map as its entries in key order (`keys_ascending`), so that looking a
/// key up finds the map's one value for it (`lemma_lookup_ascending`).
#[derive(Debug, Clone, PartialEq, Eq, Default)]
pub struct PodInfo {
    pub name: Option<String>,
    pub phase: Option<String>,
    pub labels: Option<Vec<(String, String)>>,
    pub annotations: Option<Vec<(String, String)>>,
}

/// Whether the pod reports the `Running` phase.
pub open spec fn running(pod: PodInfo) -> bool {
    pod.phase matches Some(p) && p@ == "Running"@
}

/// Whether the pod reports the `Running` phase.
pub fn pod_is_running(pod: &PodInfo) -> (r: bool)
    ensures
        r == running(*pod),
{
    match &pod.phase {
        Some(p) => str_eq(p.as_str(), "Running"),
        None => false,
    }
}

/// The pod's name, which a forward needs in order to bind to it.
pub fn pod_name(pod: &PodInfo) -> (r: Result<String, PortForwardError>)
    ensures
        pod.name matches Some(n) ==> (r matches Ok(x) && x@ == n@),
        pod.name is None ==> (r matches Err(PortForwardError::ConnectionError(m)) && m@
            == "Pod name not found"@),
{
    match &pod.name {
        Some(n) => Ok(n.clone()),
        None => Err(PortForwardError::ConnectionError(String::from_str("Pod name not found"))),
    }
}

/// The key and value of a `key=value` selector: the key is the text before the
/// first `=`, the value all that follows it. A selector without `=`, or with an
/// empty key, yields an empty key and value, which match no pod.
pub open spec fn selector_parts(s: Seq<char>) -> (Seq<char>, Seq<char>) {
    let key = split_seq(s, '=')[0];
    if key.len() < s.len() && key.len() > 0 {
        (key, s.skip(key.len() + 1 as int))
    } else {
        (Seq::empty(), Seq::empty())
    }
}

/// Every selector that validation accepts parses back into itself: a non-empty
/// key, then `=`, then the value.
pub proof fn lemma_accepted_selector_parses(s: Seq<char>)
    requires
        selector_problem(s) is None,
    ensures
        selector_parts(s).0.len() > 0,
        selector_parts(s).0 + seq!['='] + selector_parts(s).1 == s,
{
    lemma_split_head(s, '=');
    let key = split_seq(s, '=')[0];
    if key.len() == 0 {
        assert(trim_seq(key).len() == 0);
    }
    let k = key.len() as int;
    assert(s =~= s.take(k) + seq!['='] + s.skip(k + 1));
}

/// Whether a map (as entries) maps `kv.0` to `kv.1`.
pub open spec fn has_entry(entries: Option<Vec<(String, String)>>, kv: (Seq<char>, Seq<char>)) -> bool {
    entries matches Some(es) && lookup(es@, kv.0) == Some(kv.1)
}

/// Whether some value of a map (as entries) is `v`.
pub open spec fn has_value(entries: Option<Vec<(String, String)>>, v: Seq<char>) -> bool {
    entries matches Some(es) && exists|i: int| 0 <= i < es@.len() && (#[trigger] es@[i]).1@ == v
}

/// Whether a pod is selected: with no selector, some label value equals the
/// service name; otherwise every given selector matches (label against labels,
/// annotation against annotations).
pub open spec fn pod_matches(pod: PodInfo, sel: PodSelector, service: Seq<char>) -> bool {
    if sel.label is None && sel.annotation is None {
        has_value(pod.labels, service)
    } else {
        &&& sel.label matches Some(l) ==> has_entry(pod.labels, selector_parts(l@))
        &&& sel.annotation matches Some(a) ==> has_entry(pod.annotations, selector_parts(a@))
    }
}

/// An annotation selector on its own selects exactly the pods whose
/// annotations map its key to its value; the pod's labels play no part.
pub proof fn lemma_annotation_selector_decides(pod: PodInfo, sel: PodSelector, service: Seq<char>)
    requires
        sel.label is None,
        sel.annotation is Some,
    ensures
        pod_matches(pod, sel, service) <==> (pod.annotations matches Some(es) && lookup(
            es@,
            selector_parts(sel.annotation->0@).0,
        ) == Some(selector_parts(sel.annotation->0@).1)),
        forall|labels: Option<Vec<(String, String)>>|
            pod_matches(PodInfo { labels, ..pod }, sel, service) == pod_matches(pod, sel, service),
{
}

/// A label selector on its own selects exactly the pods whose labels map its
/// key to its value; the pod's annotations play no part.
pub proof fn lemma_label_selector_decides(pod: PodInfo, sel: PodSelector, service: Seq<char>)
    requires
        sel.label is Some,
        sel.annotation is None,
    ensures
        pod_matches(pod, sel, service) <==> (pod.labels matches Some(es) && lookup(
            es@,
            selector_parts(sel.label->0@).0,
        ) == Some(selector_parts(sel.label->0@).1)),
        forall|annotations: Option<Vec<(String, String)>>|
            pod_matches(PodInfo { annotations, ..pod }, sel, service) == pod_matches(
                pod,
                sel,
                service,
            ),
{
}

/// With both selectors given, a pod is selected exactly when its labels map
/// the label selector's key to its value and its annotations map the
/// annotation selector's key to its value; with neither, exactly when some
/// label value is the service's name.
pub proof fn lemma_selectors_combine(pod: PodInfo, sel: PodSelector, service: Seq<char>)
    ensures
        sel.label is Some && sel.annotation is Some ==> (pod_matches(pod, sel, service) <==> (
        pod.labels is Some && lookup(pod.labels->0@, selector_parts(sel.label->0@).0) == Some(
            selector_parts(sel.label->0@).1,
        ) && pod.annotations is Some && lookup(
            pod.annotations->0@,
            selector_parts(sel.annotation->0@).0,
        ) == Some(selector_parts(sel.annotation->0@).1))),
        sel.label is None && sel.annotation is None ==> (pod_matches(pod, sel, service) <==> (
        pod.labels is Some && exists|i: int|
            0 <= i < pod.labels->0@.len() && (#[trigger] pod.labels->0@[i]).1@ == service)),
{
}

/// The `Debug` rendering of an optional string: `Some("...")` or `None`.
pub open spec fn debug_option(o: Option<String>) -> Seq<char> {
    match o {
        Some(s) => "Some("@ + debug_quoted(s@) + ")"@,
        None => "None"@,
    }
}

fn debug_option_string(o: &Option<String>) -> (r: String)
    ensures
        r@ == debug_option(*o),
{
    match o {
        Some(s) => {
            let mut r = String::from_str("Some(");
            let q = debug_str(s.as_str());
            r.append(q.as_str());
            r.append(")");
            r
        },
        None => String::from_str("None"),
    }
}

fn has_value_exec(entries: &Option<Vec<(String, String)>>, v: &str) -> (r: bool)
    ensures
        r == has_value(*entries, v@),
{
    match entries {
        Some(es) => {
            let n = es.len();
            let mut i: usize = 0;
            while i < n
                invariant
                    n == es@.len(),
                    *entries == Some(*es),
                    i <= n,
                    forall|j: int| 0 <= j < i ==> (#[trigger] es@[j]).1@ != v@,
                decreases n - i,
            {
                if str_eq(es[i].1.as_str(), v) {
                    assert((es@[i as int]).1@ == v@);
                    assert(exists|k: int| 0 <= k < es@.len() && (#[trigger] es@[k]).1@ == v@);
                    assert((*entries)->0 == *es);
                    assert(has_value(*entries, v@));
                    return true;
                }
                i = i + 1;
            }
            false
        },
        None => false,
    }
}

fn has_entry_exec(entries: &Option<Vec<(String, String)>>, key: &str, value: &str) -> (r: bool)
    ensures
        r == has_entry(*entries, (key@, value@)),
{
    match entries {
        Some(es) => match lookup_entry(es.as_slice(), key) {
            Some(v) => str_eq(v.as_str(), value),
            None => false,
        },
        None => false,
    }
}

/// A forward: its configuration, the service it resolved to, and its metrics.
#[derive(Debug, Clone, PartialEq, Eq)]
pub struct PortForward {
    pub config: ForwardConfig,
    pub service_info: ServiceInfo,
    pub metrics: ForwardMetrics,
}

impl PortForward {
    /// A forward for `config` against the resolved service, with metrics
    /// labelled by the forward's name.
    pub fn new(config: ForwardConfig, service_info: ServiceInfo) -> (r: Self)
        ensures
            r.config == config,
            r.service_info == service_info,
            r.metrics.forward_name() == config.name@,
    {
        let metrics = ForwardMetrics::new(config.name.clone());
        Self { config, service_info, metrics }
    }

    /// Split a `key=value` selector at its first `=`; one without `=`, or with
    /// an empty key, gives an empty key and value, which match no pod.
    pub fn parse_selector(selector: &str) -> (r: (&str, &str))
        ensures
            r.0@ == selector_parts(selector@).0,
            r.1@ == selector_parts(selector@).1,
    {
        proof {
            reveal_strlit("");
        }
        let (key, rest) = split_first(selector, '=');
        match rest {
            Some(rest) => {
                if key.unicode_len() > 0 {
                    proof {
                        assert(rest@ =~= selector@.skip(key@.len() + 1 as int));
                    }
                    (key, rest)
                } else {
                    ("", "")
                }
            },
            None => ("", ""),
        }
    }

    /// Whether `pod` is selected by `selector` for this forward's service.
    pub fn matches_pod_selector(&self, pod: &PodInfo, selector: &PodSelector) -> (r: bool)
        ensures
            r == pod_matches(*pod, *selector, self.service_info.name@),
    {
        if selector.label.is_none() && selector.annotation.is_none() {
            return has_value_exec(&pod.labels, self.service_info.name.as_str());
        }
        match &selector.label {
            Some(l) => {
                let (key, value) = Self::parse_selector(l.as_str());
                if !has_entry_exec(&pod.labels, key, value) {
                    return false;
                }
            },
            None => {},
        }
        match &selector.annotation {
            Some(a) => {
                let (key, value) = Self::parse_selector(a.as_str());
                if !has_entry_exec(&pod.annotations, key, value) {
                    return false;
                }
            },
            None => {},
        }
        true
    }

    /// Whether `pod` is one this forward may bind to: selected and running.
    pub open spec fn eligible(&self, pod: PodInfo) -> bool {
        pod_matches(pod, self.config.pod_selector, self.service_info.name@) && running(pod)
    }

    /// The message when no pod is eligible.
    pub open spec fn no_pod_message(&self) -> Seq<char> {
        "No ready pods found matching selector for service "@ + self.service_info.name@
            + " (label: "@ + debug_option(self.config.pod_selector.label) + ", annotation: "@
            + debug_option(self.config.pod_selector.annotation) + ")"@
    }

    /// The index of the first listed pod this forward may bind to: one that
    /// matches the forward's pod selector and is running.
    pub fn select_pod(&self, pods: &[PodInfo]) -> (r: Result<usize, PortForwardError>)
        ensures
            r matches Ok(i) ==> i < pods@.len() && self.eligible(pods@[i as int]) && forall|j: int|
                0 <= j < i ==> !self.eligible(#[trigger] pods@[j]),
            r is Err <==> forall|j: int| 0 <= j < pods@.len() ==> !self.eligible(#[trigger] pods@[j]),
            r matches Err(e) ==> (e matches PortForwardError::ConnectionError(m) && m@
                == self.no_pod_message()),
    {
        let n = pods.len();
        let mut i: usize = 0;
        while i < n
            invariant
                n == pods@.len(),
                i <= n,
                forall|j: int| 0 <= j < i ==> !self.eligible(#[trigger] pods@[j]),
            decreases n - i,
        {
            if self.matches_pod_selector(&pods[i], &self.config.pod_selector) && pod_is_running(
                &pods[i],
            ) {
                return Ok(i);
            }
            i = i + 1;
        }
        let mut m = String::from_str("No ready pods found matching selector for service ");
        m.append(self.service_info.name.as_str());
        m.append(" (label: ");
        let l = debug_option_string(&self.config.pod_selector.label);
        m.append(l.as_str());
        m.append(", annotation: ");
        let a = debug_option_string(&self.config.pod_selector.annotation);
        m.append(a.as_str());
        m.append(")");
        Err(PortForwardError::ConnectionError(m))
    }
}

// ---------------------------------------------------------------------------
// Opening the local listener
// ---------------------------------------------------------------------------

/// Times a busy local port is retried before giving up.
pub const MAX_BIND_RETRIES: u32 = 3;

/// The kind of local listener a forward opens.
#[derive(Debug, Clone, Copy, PartialEq, Eq)]
pub enum ListenerKind {
    Tcp,
    Udp,
}

/// The configured protocol, `TCP` when unset.
pub open spec fn configured_protocol(p: Option<String>) -> Seq<char> {
    match p {
        Some(s) => s@,
        None => "TCP"@,
    }
}

/// The listener for a protocol (compared in upper case): TCP, UDP, or an
/// unsupported-protocol error.
pub fn listener_kind(protocol: &Option<String>) -> (r: Result<ListenerKind, PortForwardError>)
    ensures
        uppercase_of(configured_protocol(*protocol)) == "TCP"@ ==> r == Ok::<
            ListenerKind,
            PortForwardError,
        >(ListenerKind::Tcp),
        uppercase_of(configured_protocol(*protocol)) == "UDP"@ ==> r == Ok::<
            ListenerKind,
            PortForwardError,
        >(ListenerKind::Udp),
        uppercase_of(configured_protocol(*protocol)) != "TCP"@ && uppercase_of(
            configured_protocol(*protocol),
        ) != "UDP"@ ==> (r matches Err(PortForwardError::ConnectionError(m)) && m@
            == "Unsupported protocol: "@ + configured_protocol(*protocol)),
{
    let p: &str = match protocol {
        Some(p) => p.as_str(),
        None => "TCP",
    };
    let upper = to_uppercase(p);
    proof {
        reveal_strlit("TCP");
        reveal_strlit("UDP");
        assert("UDP"@ != "TCP"@) by {
            assert("UDP"@[0] != "TCP"@[0]);
        }
    }
    if str_eq(upper.as_str(), "TCP") {
        Ok(ListenerKind::Tcp)
    } else if str_eq(upper.as_str(), "UDP") {
        Ok(ListenerKind::Udp)
    } else {
        let mut m = String::from_str("Unsupported protocol: ");
        m.append(p);
        Err(PortForwardError::ConnectionError(m))
    }
}

/// Whether waiting for the forwards' first outcomes is over: every forward has
/// settled (`Connected` or `Failed`), or the time allowed has run out.
pub fn initial_wait_done(states: &[(String, ForwardState)], elapsed: TimeSpan, limit: TimeSpan) -> (r:
    bool)
    ensures
        r == ((forall|i: int|
            0 <= i < states@.len() ==> (#[trigger] states@[i]).1 is Connected || states@[i].1 is Failed)
            || elapsed@ >= limit@),
{
    if elapsed.as_nanos() >= limit.as_nanos() {
        return true;
    }
    let n = states.len();
    let mut i: usize = 0;
    while i < n
        invariant
            n == states@.len(),
            i <= n,
            elapsed@ < limit@,
            forall|j: int| 0 <= j < i ==> (#[trigger] states@[j]).1 is Connected || states@[j].1 is Failed,
        decreases n - i,
    {
        if !is_settled(&states[i].1) {
            assert(!(states@[i as int].1 is Connected || states@[i as int].1 is Failed));
            return false;
        }
        i = i + 1;
    }
    true
}

/// The state a forward moves to when asked to establish: none when it is
/// already `Connected` (there is nothing to do), otherwise `Starting`.
pub fn establish_start(state: &ForwardState) -> (r: Option<ForwardState>)
    ensures
        r is None <==> state is Connected,
        r matches Some(s) ==> s is Starting,
{
    match state {
        ForwardState::Connected => None,
        _ => Some(ForwardState::Starting),
    }
}

/// What to do when binding the local TCP port found it in use after `retries`
/// earlier retries: try again (with the retry count bumped) or, once
/// `MAX_BIND_RETRIES` retries are spent, give up.
pub fn on_port_in_use(retries: u32, local: u16) -> (r: Result<u32, PortForwardError>)
    ensures
        retries < MAX_BIND_RETRIES ==> (r matches Ok(k) && k == retries + 1),
        retries >= MAX_BIND_RETRIES ==> (r matches Err(PortForwardError::ConnectionError(m))
            && m@ == "Port "@ + decimal(local as nat)
            + " is already in use. Please choose a different local port"@),
{
    if retries >= MAX_BIND_RETRIES {
        let mut m = String::from_str("Port ");
        push_decimal(&mut m, local as u128);
        m.append(" is already in use. Please choose a different local port");
        Err(PortForwardError::ConnectionError(m))
    } else {
        Ok(retries + 1)
    }
}

} // verus!
