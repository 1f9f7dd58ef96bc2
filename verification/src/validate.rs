//! Cluster-free validation of a set of forward configurations.
use vstd::prelude::*;
use vstd::string::*;

use crate::config::ForwardConfig;
use crate::text::{
    decimal, is_blank, join_seq, join_strings, push_decimal, split_first,
    split_seq, str_eq, to_uppercase, trim, trim_seq, uppercase_of, views,
};
use crate::util::{invalid_target_message, parse_target, target_parts};

verus! {

/// Result of validating a set of forward configs.
///
/// `errors` are fatal (the program should not start). `warnings` are advisory.
#[derive(Debug, Clone, PartialEq, Eq, Default)]
pub struct ValidationReport {
    pub errors: Vec<String>,
    pub warnings: Vec<String>,
}

impl ValidationReport {
    /// Valid exactly when there are no errors.
    pub fn is_valid(&self) -> (r: bool)
        ensures
            r == (self.errors@.len() == 0),
    {
        self.errors.len() == 0
    }
}

// ---------------------------------------------------------------------------
// Selectors
// ---------------------------------------------------------------------------

/// Why a `key=value` selector is rejected, or `None` when it is accepted: it
/// must contain `=`, and the key before the first `=` must not be blank.
pub open spec fn selector_problem(s: Seq<char>) -> Option<Seq<char>> {
    let parts = split_seq(s, '=');
    if parts.len() < 2 {
        Some("'"@ + s + "' is malformed, expected 'key=value'"@)
    } else if is_blank(parts[0]) {
        Some("'"@ + s + "' has an empty key, expected 'key=value'"@)
    } else {
        None
    }
}

/// Validate a `key=value` selector, the form used by pod label/annotation matching.
pub fn validate_selector(selector: &str) -> (r: Result<(), String>)
    ensures
        selector_problem(selector@) is None ==> r is Ok,
        selector_problem(selector@) matches Some(m) ==> (r matches Err(e) && e@ == m),
{
    let (key, rest) = split_first(selector, '=');
    match rest {
        Some(_) => {
            if trim(key).unicode_len() > 0 {
                Ok(())
            } else {
                let mut m = String::from_str("'");
                m.append(selector);
                m.append("' has an empty key, expected 'key=value'");
                Err(m)
            }
        },
        None => {
            let mut m = String::from_str("'");
            m.append(selector);
            m.append("' is malformed, expected 'key=value'");
            Err(m)
        },
    }
}

// ---------------------------------------------------------------------------
// The errors of a single configuration
// ---------------------------------------------------------------------------

/// How a forward is named in messages: its name, or a placeholder when blank.
pub open spec fn label_of(c: ForwardConfig) -> Seq<char> {
    if is_blank(c.name@) {
        "<unnamed forward>"@
    } else {
        c.name@
    }
}

/// The configured protocol text, `TCP` when unset.
pub open spec fn protocol_text(c: ForwardConfig) -> Seq<char> {
    match c.ports.protocol {
        Some(p) => p@,
        None => "TCP"@,
    }
}

/// The protocol in upper case, as the validator compares it.
pub open spec fn protocol_upper(c: ForwardConfig) -> Seq<char> {
    uppercase_of(protocol_text(c))
}

/// Whether the upper-cased protocol is one the forwarder supports.
pub open spec fn known_protocol(u: Seq<char>) -> bool {
    u == "TCP"@ || u == "UDP"@
}

/// A one-element list when `cond` holds, else the empty list.
pub open spec fn when(cond: bool, msg: Seq<char>) -> Seq<Seq<char>> {
    if cond {
        seq![msg]
    } else {
        Seq::empty()
    }
}

/// The error about a forward's target, if any.
pub open spec fn target_errors(c: ForwardConfig) -> Seq<Seq<char>> {
    if is_blank(c.target@) {
        seq![label_of(c) + ": target is empty"@]
    } else if target_parts(c.target@) is None {
        seq![label_of(c) + ": "@ + "invalid DNS name: "@ + invalid_target_message(c.target@)]
    } else {
        Seq::empty()
    }
}

/// The error about one pod selector (`kind` is ` label ` or ` annotation `), if any.
pub open spec fn selector_errors(label: Seq<char>, kind: Seq<char>, sel: Option<String>) -> Seq<
    Seq<char>,
> {
    match sel {
        Some(s) => match selector_problem(s@) {
            Some(m) => seq![label + ": pod_selector"@ + kind + m],
            None => Seq::empty(),
        },
        None => Seq::empty(),
    }
}

/// Every error about a single forward, in the order they are reported.
pub open spec fn config_errors(c: ForwardConfig) -> Seq<Seq<char>> {
    let label = label_of(c);
    when(is_blank(c.name@), label + ": name is empty"@) + target_errors(c) + when(
        !known_protocol(protocol_upper(c)),
        label + ": invalid protocol '"@ + protocol_text(c) + "', expected 'tcp' or 'udp'"@,
    ) + when(c.ports.local == 0, label + ": local port must be non-zero"@) + when(
        c.ports.remote == 0,
        label + ": remote port must be non-zero"@,
    ) + selector_errors(label, " label "@, c.pod_selector.label) + selector_errors(
        label,
        " annotation "@,
        c.pod_selector.annotation,
    )
}

proof fn lemma_contains_concat(a: Seq<Seq<char>>, b: Seq<Seq<char>>, x: Seq<char>)
    ensures
        (a + b).contains(x) <==> a.contains(x) || b.contains(x),
{
    if (a + b).contains(x) {
        let i = choose|i: int| 0 <= i < (a + b).len() && (a + b)[i] == x;
        if i < a.len() {
            assert(a[i] == x);
        } else {
            assert(b[i - a.len()] == x);
        }
    }
    if a.contains(x) {
        let i = choose|i: int| 0 <= i < a.len() && a[i] == x;
        assert((a + b)[i] == x);
    }
    if b.contains(x) {
        let i = choose|i: int| 0 <= i < b.len() && b[i] == x;
        assert((a + b)[i + a.len()] == x);
    }
}

/// Every message in `xs` has, two characters after a label of length `n`, a
/// character other than `ch`.
spec fn differs_after(xs: Seq<Seq<char>>, n: int, ch: char) -> bool {
    forall|i: int| 0 <= i < xs.len() ==> (#[trigger] xs[i]).len() > n + 2 && xs[i][n + 2] != ch
}

proof fn lemma_differs_absent(xs: Seq<Seq<char>>, n: int, ch: char, m: Seq<char>)
    requires
        differs_after(xs, n, ch),
        m.len() > n + 2,
        m[n + 2] == ch,
    ensures
        !xs.contains(m),
{
    if xs.contains(m) {
        let i = choose|i: int| 0 <= i < xs.len() && xs[i] == m;
        assert(xs[i][n + 2] != ch);
    }
}

/// A forward is reported for its remote port, with
/// `<label>: remote port must be non-zero`, exactly when that port is 0.
pub proof fn lemma_remote_port_error(c: ForwardConfig)
    ensures
        config_errors(c).contains(label_of(c) + ": remote port must be non-zero"@) <==> c.ports.remote
            == 0,
{
    reveal_strlit(": remote port must be non-zero");
    reveal_strlit(": name is empty");
    reveal_strlit(": target is empty");
    reveal_strlit(": ");
    reveal_strlit("invalid DNS name: ");
    reveal_strlit(": invalid protocol '");
    reveal_strlit(": local port must be non-zero");
    reveal_strlit(": pod_selector");
    let label = label_of(c);
    let n = label.len() as int;
    let m = label + ": remote port must be non-zero"@;
    assert(m[n + 2] == 'r');
    let p1 = when(is_blank(c.name@), label + ": name is empty"@);
    let p2 = target_errors(c);
    let p3 = when(
        !known_protocol(protocol_upper(c)),
        label + ": invalid protocol '"@ + protocol_text(c) + "', expected 'tcp' or 'udp'"@,
    );
    let p4 = when(c.ports.local == 0, label + ": local port must be non-zero"@);
    let p5 = when(c.ports.remote == 0, m);
    let p6 = selector_errors(label, " label "@, c.pod_selector.label);
    let p7 = selector_errors(label, " annotation "@, c.pod_selector.annotation);
    assert(config_errors(c) == p1 + p2 + p3 + p4 + p5 + p6 + p7);
    assert(differs_after(p1, n, 'r')) by {
        if is_blank(c.name@) {
            assert((label + ": name is empty"@)[n + 2] == 'n');
        }
    }
    assert(differs_after(p2, n, 'r')) by {
        if is_blank(c.target@) {
            assert((label + ": target is empty"@)[n + 2] == 't');
        } else if target_parts(c.target@) is None {
            let t = label + ": "@ + "invalid DNS name: "@ + invalid_target_message(c.target@);
            assert(t[n + 2] == 'i');
        }
    }
    assert(differs_after(p3, n, 'r')) by {
        if !known_protocol(protocol_upper(c)) {
            let t = label + ": invalid protocol '"@ + protocol_text(c)
                + "', expected 'tcp' or 'udp'"@;
            assert(t[n + 2] == 'i');
        }
    }
    assert(differs_after(p4, n, 'r')) by {
        if c.ports.local == 0 {
            assert((label + ": local port must be non-zero"@)[n + 2] == 'l');
        }
    }
    assert(differs_after(p6, n, 'r')) by {
        if p6.len() > 0 {
            let t = p6[0];
            assert(t[n + 2] == 'p');
        }
    }
    assert(differs_after(p7, n, 'r')) by {
        if p7.len() > 0 {
            let t = p7[0];
            assert(t[n + 2] == 'p');
        }
    }
    lemma_differs_absent(p1, n, 'r', m);
    lemma_differs_absent(p2, n, 'r', m);
    lemma_differs_absent(p3, n, 'r', m);
    lemma_differs_absent(p4, n, 'r', m);
    lemma_differs_absent(p6, n, 'r', m);
    lemma_differs_absent(p7, n, 'r', m);
    lemma_contains_concat(p1, p2, m);
    lemma_contains_concat(p1 + p2, p3, m);
    lemma_contains_concat(p1 + p2 + p3, p4, m);
    lemma_contains_concat(p1 + p2 + p3 + p4, p5, m);
    lemma_contains_concat(p1 + p2 + p3 + p4 + p5, p6, m);
    lemma_contains_concat(p1 + p2 + p3 + p4 + p5 + p6, p7, m);
    if c.ports.remote == 0 {
        assert(p5[0] == m);
    } else {
        assert(p5.len() == 0);
    }
}

/// A forward is reported for its local port, with
/// `<label>: local port must be non-zero`, exactly when that port is 0.
pub proof fn lemma_local_port_error(c: ForwardConfig)
    ensures
        config_errors(c).contains(label_of(c) + ": local port must be non-zero"@) <==> c.ports.local
            == 0,
{
    reveal_strlit(": remote port must be non-zero");
    reveal_strlit(": name is empty");
    reveal_strlit(": target is empty");
    reveal_strlit(": ");
    reveal_strlit("invalid DNS name: ");
    reveal_strlit(": invalid protocol '");
    reveal_strlit(": local port must be non-zero");
    reveal_strlit(": pod_selector");
    let label = label_of(c);
    let n = label.len() as int;
    let m = label + ": local port must be non-zero"@;
    assert(m[n + 2] == 'l');
    let p1 = when(is_blank(c.name@), label + ": name is empty"@);
    let p2 = target_errors(c);
    let p3 = when(
        !known_protocol(protocol_upper(c)),
        label + ": invalid protocol '"@ + protocol_text(c) + "', expected 'tcp' or 'udp'"@,
    );
    let p4 = when(c.ports.local == 0, m);
    let p5 = when(c.ports.remote == 0, label + ": remote port must be non-zero"@);
    let p6 = selector_errors(label, " label "@, c.pod_selector.label);
    let p7 = selector_errors(label, " annotation "@, c.pod_selector.annotation);
    assert(config_errors(c) == p1 + p2 + p3 + p4 + p5 + p6 + p7);
    assert(differs_after(p1, n, 'l')) by {
        if is_blank(c.name@) {
            assert((label + ": name is empty"@)[n + 2] == 'n');
        }
    }
    assert(differs_after(p2, n, 'l')) by {
        if is_blank(c.target@) {
            assert((label + ": target is empty"@)[n + 2] == 't');
        } else if target_parts(c.target@) is None {
            let t = label + ": "@ + "invalid DNS name: "@ + invalid_target_message(c.target@);
            assert(t[n + 2] == 'i');
        }
    }
    assert(differs_after(p3, n, 'l')) by {
        if !known_protocol(protocol_upper(c)) {
            let t = label + ": invalid protocol '"@ + protocol_text(c)
                + "', expected 'tcp' or 'udp'"@;
            assert(t[n + 2] == 'i');
        }
    }
    assert(differs_after(p5, n, 'l')) by {
        if c.ports.remote == 0 {
            assert((label + ": remote port must be non-zero"@)[n + 2] == 'r');
        }
    }
    assert(differs_after(p6, n, 'l')) by {
        if p6.len() > 0 {
            let t = p6[0];
            assert(t[n + 2] == 'p');
        }
    }
    assert(differs_after(p7, n, 'l')) by {
        if p7.len() > 0 {
            let t = p7[0];
            assert(t[n + 2] == 'p');
        }
    }
    lemma_differs_absent(p1, n, 'l', m);
    lemma_differs_absent(p2, n, 'l', m);
    lemma_differs_absent(p3, n, 'l', m);
    lemma_differs_absent(p5, n, 'l', m);
    lemma_differs_absent(p6, n, 'l', m);
    lemma_differs_absent(p7, n, 'l', m);
    lemma_contains_concat(p1, p2, m);
    lemma_contains_concat(p1 + p2, p3, m);
    lemma_contains_concat(p1 + p2 + p3, p4, m);
    lemma_contains_concat(p1 + p2 + p3 + p4, p5, m);
    lemma_contains_concat(p1 + p2 + p3 + p4 + p5, p6, m);
    lemma_contains_concat(p1 + p2 + p3 + p4 + p5 + p6, p7, m);
    if c.ports.local == 0 {
        assert(p4[0] == m);
    } else {
        assert(p4.len() == 0);
    }
}

/// The per-forward errors of a list of forwards, forward by forward.
pub open spec fn all_config_errors(cs: Seq<ForwardConfig>) -> Seq<Seq<char>>
    decreases cs.len(),
{
    if cs.len() == 0 {
        Seq::empty()
    } else {
        all_config_errors(cs.drop_last()) + config_errors(cs.last())
    }
}

fn push_msg(out: &mut Vec<String>, m: String)
    ensures
        views(final(out)@) == views(old(out)@).push(m@),
{
    out.push(m);
    assert(views(out@) =~= views(old(out)@).push(m@));
}

fn label(c: &ForwardConfig) -> (r: String)
    ensures
        r@ == label_of(*c),
{
    if trim(c.name.as_str()).unicode_len() == 0 {
        String::from_str("<unnamed forward>")
    } else {
        c.name.clone()
    }
}

fn prefixed(label: &String, text: &str) -> (r: String)
    ensures
        r@ == label@ + text@,
{
    let mut m = label.clone();
    m.append(text);
    m
}

fn push_selector_error(out: &mut Vec<String>, label: &String, kind: &str, sel: &Option<String>)
    ensures
        views(final(out)@) == views(old(out)@) + selector_errors(label@, kind@, *sel),
{
    match sel {
        Some(s) => match validate_selector(s.as_str()) {
            Err(msg) => {
                let mut m = prefixed(label, ": pod_selector");
                m.append(kind);
                m.append(msg.as_str());
                push_msg(out, m);
            },
            Ok(()) => {
                assert(views(out@) =~= views(old(out)@) + selector_errors(label@, kind@, *sel));
            },
        },
        None => {
            assert(views(out@) =~= views(old(out)@) + selector_errors(label@, kind@, *sel));
        },
    }
}

/// The upper-cased protocol of a forward.
fn protocol_of(c: &ForwardConfig) -> (r: (&str, String))
    ensures
        r.0@ == protocol_text(*c),
        r.1@ == protocol_upper(*c),
{
    let p: &str = match &c.ports.protocol {
        Some(p) => p.as_str(),
        None => "TCP",
    };
    (p, to_uppercase(p))
}

fn is_known_protocol(u: &str) -> (r: bool)
    ensures
        r == known_protocol(u@),
{
    str_eq(u, "TCP") || str_eq(u, "UDP")
}

fn push_target_error(out: &mut Vec<String>, c: &ForwardConfig, label: &String)
    requires
        label@ == label_of(*c),
    ensures
        views(final(out)@) == views(old(out)@) + target_errors(*c),
{
    if trim(c.target.as_str()).unicode_len() == 0 {
        push_msg(out, prefixed(label, ": target is empty"));
    } else {
        match parse_target(c.target.as_str()) {
            Err(e) => {
                let mut m = prefixed(label, ": ");
                let text = e.to_string();
                m.append(text.as_str());
                assert(m@ =~= label_of(*c) + ": "@ + "invalid DNS name: "@ + invalid_target_message(
                    c.target@,
                ));
                push_msg(out, m);
            },
            Ok(_) => {
                assert(views(out@) =~= views(old(out)@) + target_errors(*c));
            },
        }
    }
}

fn push_protocol_error(out: &mut Vec<String>, c: &ForwardConfig, label: &String)
    requires
        label@ == label_of(*c),
    ensures
        views(final(out)@) == views(old(out)@) + when(
            !known_protocol(protocol_upper(*c)),
            label_of(*c) + ": invalid protocol '"@ + protocol_text(*c) + "', expected 'tcp' or 'udp'"@,
        ),
{
    let (protocol, upper) = protocol_of(c);
    if !is_known_protocol(upper.as_str()) {
        let mut m = prefixed(label, ": invalid protocol '");
        m.append(protocol);
        m.append("', expected 'tcp' or 'udp'");
        push_msg(out, m);
    } else {
        assert(views(out@) =~= views(old(out)@));
    }
}

fn push_when(out: &mut Vec<String>, cond: bool, label: &String, text: &str)
    ensures
        views(final(out)@) == views(old(out)@) + when(cond, label@ + text@),
{
    if cond {
        push_msg(out, prefixed(label, text));
    } else {
        assert(views(out@) =~= views(old(out)@));
    }
}

/// Append the errors of one forward to `out`.
#[verifier::rlimit(90)]
fn push_config_errors(out: &mut Vec<String>, c: &ForwardConfig)
    ensures
        views(final(out)@) == views(old(out)@) + config_errors(*c),
{
    let ghost start = views(out@);
    let label = label(c);
    let ghost l = label@;
    push_when(out, trim(c.name.as_str()).unicode_len() == 0, &label, ": name is empty");
    let ghost acc = when(is_blank(c.name@), l + ": name is empty"@);
    assert(views(out@) =~= start + acc);
    push_target_error(out, c, &label);
    proof {
        acc = acc + target_errors(*c);
    }
    assert(views(out@) =~= start + acc);
    push_protocol_error(out, c, &label);
    proof {
        acc = acc + when(
            !known_protocol(protocol_upper(*c)),
            l + ": invalid protocol '"@ + protocol_text(*c) + "', expected 'tcp' or 'udp'"@,
        );
    }
    assert(views(out@) =~= start + acc);
    push_when(out, c.ports.local == 0, &label, ": local port must be non-zero");
    proof {
        acc = acc + when(c.ports.local == 0, l + ": local port must be non-zero"@);
    }
    assert(views(out@) =~= start + acc);
    push_when(out, c.ports.remote == 0, &label, ": remote port must be non-zero");
    proof {
        acc = acc + when(c.ports.remote == 0, l + ": remote port must be non-zero"@);
    }
    assert(views(out@) =~= start + acc);
    push_selector_error(out, &label, " label ", &c.pod_selector.label);
    proof {
        acc = acc + selector_errors(l, " label "@, c.pod_selector.label);
    }
    assert(views(out@) =~= start + acc);
    push_selector_error(out, &label, " annotation ", &c.pod_selector.annotation);
    proof {
        acc = acc + selector_errors(l, " annotation "@, c.pod_selector.annotation);
    }
    assert(views(out@) =~= start + acc);
    assert(acc == config_errors(*c));
}

// ---------------------------------------------------------------------------
// Duplicate names
// ---------------------------------------------------------------------------

/// How many of `cs` carry the trimmed name `n`.
pub open spec fn count_named(cs: Seq<ForwardConfig>, n: Seq<char>) -> nat
    decreases cs.len(),
{
    if cs.len() == 0 {
        0
    } else {
        count_named(cs.drop_last(), n) + if trim_seq(cs.last().name@) == n {
            1nat
        } else {
            0nat
        }
    }
}

/// One error per repeated non-blank name, at the name's second occurrence.
pub open spec fn duplicate_errors(cs: Seq<ForwardConfig>) -> Seq<Seq<char>>
    decreases cs.len(),
{
    if cs.len() == 0 {
        Seq::empty()
    } else {
        let n = trim_seq(cs.last().name@);
        duplicate_errors(cs.drop_last()) + when(
            n.len() > 0 && count_named(cs.drop_last(), n) == 1,
            "duplicate forward name '"@ + n + "'; names must be unique"@,
        )
    }
}

// ---------------------------------------------------------------------------
// Shared local ports
// ---------------------------------------------------------------------------

/// Number of distinct (protocol, port) keys: TCP keys come first, then UDP.
pub open spec fn key_space() -> int {
    131072
}

/// The (protocol, local port) key a forward occupies, encoded so that keys
/// sort as `("TCP", port)` before `("UDP", port)`; `None` when the forward
/// has no usable local port or protocol.
pub open spec fn port_key(c: ForwardConfig) -> Option<int> {
    let u = protocol_upper(c);
    if c.ports.local != 0 && known_protocol(u) {
        Some(
            if u == "TCP"@ {
                c.ports.local as int
            } else {
                65536 + c.ports.local
            },
        )
    } else {
        None
    }
}

/// The labels of the forwards that occupy key `k`, in declaration order.
pub open spec fn labels_with_key(cs: Seq<ForwardConfig>, k: int) -> Seq<Seq<char>>
    decreases cs.len(),
{
    if cs.len() == 0 {
        Seq::empty()
    } else {
        labels_with_key(cs.drop_last(), k) + when(
            port_key(cs.last()) == Some(k),
            label_of(cs.last()),
        )
    }
}

/// The message for a key shared by several forwards.
pub open spec fn shared_port_message(cs: Seq<ForwardConfig>, k: int) -> Seq<char> {
    "local "@ + (if k < 65536 {
        "TCP"@
    } else {
        "UDP"@
    }) + " port "@ + decimal((k % 65536) as nat) + " is used by multiple forwards: "@
        + join_seq(labels_with_key(cs, k), ", "@)
}

/// The shared-port errors for keys `k` and above, in key order.
pub open spec fn port_errors_from(cs: Seq<ForwardConfig>, k: int) -> Seq<Seq<char>>
    decreases key_space() - k,
{
    if k >= key_space() {
        Seq::empty()
    } else {
        when(labels_with_key(cs, k).len() >= 2, shared_port_message(cs, k)) + port_errors_from(
            cs,
            k + 1,
        )
    }
}

/// Every error `validate_configs` reports for `cs`, in order: per-forward
/// errors, then duplicate names, then shared local ports.
pub open spec fn report_errors(cs: Seq<ForwardConfig>) -> Seq<Seq<char>> {
    all_config_errors(cs) + duplicate_errors(cs) + port_errors_from(cs, 0)
}

/// The warnings `validate_configs` reports for `cs`.
pub open spec fn report_warnings(cs: Seq<ForwardConfig>) -> Seq<Seq<char>> {
    when(cs.len() == 0, "configuration defines no port-forwards"@)
}

proof fn lemma_labels_witness(cs: Seq<ForwardConfig>, k: int)
    requires
        labels_with_key(cs, k).len() > 0,
    ensures
        exists|i: int| 0 <= i < cs.len() && port_key(#[trigger] cs[i]) == Some(k),
    decreases cs.len(),
{
    let pre = cs.drop_last();
    if labels_with_key(pre, k).len() > 0 {
        lemma_labels_witness(pre, k);
        let i = choose|i: int| 0 <= i < pre.len() && port_key(#[trigger] pre[i]) == Some(k);
        assert(cs[i] == pre[i]);
    } else {
        assert(port_key(cs[cs.len() - 1]) == Some(k));
    }
}

proof fn lemma_skip_unused_keys(cs: Seq<ForwardConfig>, lo: int, hi: int)
    requires
        0 <= lo <= hi <= key_space(),
        forall|i: int| 0 <= i < cs.len() ==> !(port_key(#[trigger] cs[i]) matches Some(k) && lo
            <= k < hi),
    ensures
        port_errors_from(cs, lo) == port_errors_from(cs, hi),
    decreases hi - lo,
{
    if lo < hi {
        if labels_with_key(cs, lo).len() > 0 {
            lemma_labels_witness(cs, lo);
        }
        lemma_skip_unused_keys(cs, lo + 1, hi);
        assert(port_errors_from(cs, lo) =~= port_errors_from(cs, lo + 1));
    }
}

fn key_of(c: &ForwardConfig) -> (r: Option<u32>)
    ensures
        r matches Some(k) ==> port_key(*c) == Some(k as int) && k < key_space(),
        r is None ==> port_key(*c) is None,
{
    let (_, upper) = protocol_of(c);
    if c.ports.local != 0 && is_known_protocol(upper.as_str()) {
        if str_eq(upper.as_str(), "TCP") {
            Some(c.ports.local as u32)
        } else {
            Some(65536 + c.ports.local as u32)
        }
    } else {
        None
    }
}

fn labels_for_key(configs: &[ForwardConfig], keys: &Vec<Option<u32>>, k: u32) -> (r: Vec<String>)
    requires
        keys@.len() == configs@.len(),
        forall|i: int| 0 <= i < configs@.len() ==> (#[trigger] keys@[i] matches Some(x) ==> port_key(configs@[i]) == Some(x as int)) && (keys@[i] is None ==> port_key(configs@[i]) is None),
    ensures
        views(r@) == labels_with_key(configs@, k as int),
{
    let mut out: Vec<String> = Vec::new();
    let n = configs.len();
    let mut i: usize = 0;
    while i < n
        invariant
            n == configs@.len(),
            keys@.len() == n,
            i <= n,
            forall|j: int| 0 <= j < n ==> (#[trigger] keys@[j] matches Some(x) ==> port_key(configs@[j]) == Some(x as int)) && (keys@[j] is None ==> port_key(configs@[j]) is None),
            views(out@) == labels_with_key(configs@.take(i as int), k as int),
        decreases n - i,
    {
        let ghost pre = configs@.take(i as int);
        let ghost post = configs@.take(i + 1);
        assert(post.drop_last() =~= pre);
        assert(post.last() == configs@[i as int]);
        let hit = match keys[i] {
            Some(x) => x == k,
            None => false,
        };
        if hit {
            push_msg(&mut out, label(&configs[i]));
        } else {
            assert(views(out@) =~= labels_with_key(post, k as int));
        }
        i = i + 1;
    }
    assert(configs@.take(n as int) =~= configs@);
    out
}

fn shared_port_error(configs: &[ForwardConfig], labels: &Vec<String>, k: u32) -> (r: String)
    requires
        k < key_space(),
        views(labels@) == labels_with_key(configs@, k as int),
    ensures
        r@ == shared_port_message(configs@, k as int),
{
    let mut m = String::from_str("local ");
    if k < 65536 {
        m.append("TCP");
    } else {
        m.append("UDP");
    }
    m.append(" port ");
    push_decimal(&mut m, (k % 65536) as u128);
    m.append(" is used by multiple forwards: ");
    let joined = join_strings(labels, ", ");
    m.append(joined.as_str());
    m
}

fn push_duplicate_errors(out: &mut Vec<String>, configs: &[ForwardConfig])
    ensures
        views(final(out)@) == views(old(out)@) + duplicate_errors(configs@),
{
    let n = configs.len();
    let mut names: Vec<&str> = Vec::new();
    let mut i: usize = 0;
    while i < n
        invariant
            n == configs@.len(),
            i <= n,
            names@.len() == i,
            forall|j: int| 0 <= j < i ==> (#[trigger] names@[j])@ == trim_seq(configs@[j].name@),
        decreases n - i,
    {
        names.push(trim(configs[i].name.as_str()));
        i = i + 1;
    }
    let ghost start = views(out@);
    let mut i: usize = 0;
    while i < n
        invariant
            n == configs@.len(),
            i <= n,
            names@.len() == n,
            forall|j: int| 0 <= j < n ==> (#[trigger] names@[j])@ == trim_seq(configs@[j].name@),
            views(out@) == start + duplicate_errors(configs@.take(i as int)),
        decreases n - i,
    {
        let ghost pre = configs@.take(i as int);
        let ghost post = configs@.take(i + 1);
        assert(post.drop_last() =~= pre);
        assert(post.last() == configs@[i as int]);
        let name = names[i];
        let mut count: usize = 0;
        let mut j: usize = 0;
        while j < i
            invariant
                n == configs@.len(),
                j <= i < n,
                names@.len() == n,
                name == names@[i as int],
                forall|k: int| 0 <= k < n ==> (#[trigger] names@[k])@ == trim_seq(configs@[k].name@),
                count == count_named(configs@.take(j as int), name@),
                count <= j,
            decreases i - j,
        {
            let ghost cpre = configs@.take(j as int);
            let ghost cpost = configs@.take(j + 1);
            assert(cpost.drop_last() =~= cpre);
            assert(cpost.last() == configs@[j as int]);
            if str_eq(names[j], name) {
                count = count + 1;
            }
            j = j + 1;
        }
        if name.unicode_len() > 0 && count == 1 {
            let mut m = String::from_str("duplicate forward name '");
            m.append(name);
            m.append("'; names must be unique");
            push_msg(out, m);
        }
        assert(views(out@) =~= start + duplicate_errors(post));
        i = i + 1;
    }
    assert(configs@.take(n as int) =~= configs@);
}

fn push_port_errors(out: &mut Vec<String>, configs: &[ForwardConfig])
    ensures
        views(final(out)@) == views(old(out)@) + port_errors_from(configs@, 0),
{
    let n = configs.len();
    let mut keys: Vec<Option<u32>> = Vec::new();
    let mut i: usize = 0;
    while i < n
        invariant
            n == configs@.len(),
            i <= n,
            keys@.len() == i,
            forall|j: int| 0 <= j < i ==> (#[trigger] keys@[j] matches Some(x) ==> port_key(configs@[j]) == Some(x as int) && x < key_space()) && (keys@[j] is None ==> port_key(configs@[j]) is None),
        decreases n - i,
    {
        keys.push(key_of(&configs[i]));
        i = i + 1;
    }
    let ghost start = views(out@);
    let mut lo: u32 = 0;
    loop
        invariant
            n == configs@.len(),
            keys@.len() == n,
            forall|j: int| 0 <= j < n ==> (#[trigger] keys@[j] matches Some(x) ==> port_key(configs@[j]) == Some(x as int) && x < key_space()) && (keys@[j] is None ==> port_key(configs@[j]) is None),
            lo <= key_space(),
            start + port_errors_from(configs@, 0) == views(out@) + port_errors_from(configs@, lo as int),
        ensures
            views(out@) == start + port_errors_from(configs@, 0),
        decreases key_space() - lo,
    {
        // The smallest key at or above `lo`.
        let mut best: Option<u32> = None;
        let mut j: usize = 0;
        while j < n
            invariant
                n == configs@.len(),
                keys@.len() == n,
                forall|q: int| 0 <= q < n ==> (#[trigger] keys@[q] matches Some(x) ==> port_key(configs@[q]) == Some(x as int) && x < key_space()) && (keys@[q] is None ==> port_key(configs@[q]) is None),
                j <= n,
                best matches Some(b) ==> lo <= b < key_space() && exists|q: int| 0 <= q < j && keys@[q] == Some(b),
                forall|q: int| 0 <= q < j ==> !(#[trigger] keys@[q] matches Some(x) && lo <= x && (best is None || x < best->0)),
            decreases n - j,
        {
            match keys[j] {
                Some(x) => {
                    if x >= lo {
                        match best {
                            Some(b) => {
                                if x < b {
                                    best = Some(x);
                                }
                            },
                            None => {
                                best = Some(x);
                            },
                        }
                    }
                },
                None => {},
            }
            j = j + 1;
        }
        match best {
            None => {
                proof {
                    assert forall|q: int| 0 <= q < configs@.len() implies !(port_key(
                        #[trigger] configs@[q],
                    ) matches Some(k) && lo <= k < key_space()) by {
                        assert(keys@[q] matches Some(x) ==> !(lo <= x));
                    }
                    lemma_skip_unused_keys(configs@, lo as int, key_space());
                }
                assert(views(out@) =~= start + port_errors_from(configs@, 0));
                break;
            },
            Some(m) => {
                proof {
                    assert forall|q: int| 0 <= q < configs@.len() implies !(port_key(
                        #[trigger] configs@[q],
                    ) matches Some(k) && lo <= k < m) by {
                        assert(keys@[q] matches Some(x) ==> !(lo <= x && x < m));
                    }
                    lemma_skip_unused_keys(configs@, lo as int, m as int);
                }
                let labels = labels_for_key(configs, &keys, m);
                let ghost before = views(out@);
                if labels.len() >= 2 {
                    let msg = shared_port_error(configs, &labels, m);
                    push_msg(out, msg);
                }
                assert(views(out@) =~= before + when(
                    labels_with_key(configs@, m as int).len() >= 2,
                    shared_port_message(configs@, m as int),
                ));
                lo = m + 1;
            },
        }
    }
}

/// Validate a list of forward configs without touching the cluster.
///
/// Catches the mistakes that otherwise only surface as confusing runtime
/// failures: duplicate names (which collide as metric labels), two forwards
/// fighting over the same local port, bad protocols/ports, unparseable targets,
/// and malformed pod selectors.
pub fn validate_configs(configs: &[ForwardConfig]) -> (r: ValidationReport)
    ensures
        views(r.errors@) == report_errors(configs@),
        views(r.warnings@) == report_warnings(configs@),
{
    let mut errors: Vec<String> = Vec::new();
    let mut warnings: Vec<String> = Vec::new();
    if configs.len() == 0 {
        push_msg(&mut warnings, String::from_str("configuration defines no port-forwards"));
    }
    assert(views(warnings@) =~= report_warnings(configs@));
    assert(views(errors@) =~= Seq::<Seq<char>>::empty());
    let n = configs.len();
    let mut i: usize = 0;
    while i < n
        invariant
            n == configs@.len(),
            i <= n,
            views(errors@) == all_config_errors(configs@.take(i as int)),
        decreases n - i,
    {
        let ghost pre = configs@.take(i as int);
        let ghost post = configs@.take(i + 1);
        assert(post.drop_last() =~= pre);
        assert(post.last() == configs@[i as int]);
        push_config_errors(&mut errors, &configs[i]);
        i = i + 1;
    }
    assert(configs@.take(n as int) =~= configs@);
    push_duplicate_errors(&mut errors, configs);
    push_port_errors(&mut errors, configs);
    assert(views(errors@) =~= report_errors(configs@));
    ValidationReport { errors, warnings }
}

// ---------------------------------------------------------------------------
// What a clean report means
// ---------------------------------------------------------------------------

/// The name of a forward after trimming, which is what must be unique.
pub open spec fn trimmed_name(c: ForwardConfig) -> Seq<char> {
    trim_seq(c.name@)
}

/// No two forwards share a non-blank trimmed name.
pub open spec fn names_distinct(cs: Seq<ForwardConfig>) -> bool {
    forall|i: int, j: int|
        0 <= i < j < cs.len() && trimmed_name(#[trigger] cs[i]).len() > 0 ==> trimmed_name(cs[i])
            != trimmed_name(#[trigger] cs[j])
}

/// No two forwards claim the same local port under the same protocol.
pub open spec fn ports_distinct(cs: Seq<ForwardConfig>) -> bool {
    forall|i: int, j: int|
        0 <= i < j < cs.len() && port_key(#[trigger] cs[i]) is Some ==> port_key(cs[i])
            != port_key(#[trigger] cs[j])
}

proof fn lemma_config_errors_empty(cs: Seq<ForwardConfig>)
    ensures
        all_config_errors(cs).len() == 0 <==> forall|i: int|
            0 <= i < cs.len() ==> config_errors(#[trigger] cs[i]).len() == 0,
    decreases cs.len(),
{
    if cs.len() > 0 {
        let pre = cs.drop_last();
        lemma_config_errors_empty(pre);
        assert(cs.last() == cs[cs.len() - 1]);
        if forall|i: int| 0 <= i < cs.len() ==> config_errors(#[trigger] cs[i]).len() == 0 {
            assert forall|i: int| 0 <= i < pre.len() implies config_errors(
                #[trigger] pre[i],
            ).len() == 0 by {
                assert(pre[i] == cs[i]);
            }
        }
        if all_config_errors(cs).len() == 0 {
            assert forall|i: int| 0 <= i < cs.len() implies config_errors(
                #[trigger] cs[i],
            ).len() == 0 by {
                if i < pre.len() {
                    assert(pre[i] == cs[i]);
                }
            }
        }
    }
}

proof fn lemma_count_zero(cs: Seq<ForwardConfig>, n: Seq<char>)
    ensures
        count_named(cs, n) == 0 <==> forall|i: int|
            0 <= i < cs.len() ==> trimmed_name(#[trigger] cs[i]) != n,
    decreases cs.len(),
{
    if cs.len() > 0 {
        let pre = cs.drop_last();
        lemma_count_zero(pre, n);
        assert(cs.last() == cs[cs.len() - 1]);
        if count_named(cs, n) == 0 {
            assert forall|i: int| 0 <= i < cs.len() implies trimmed_name(#[trigger] cs[i]) != n by {
                if i < pre.len() {
                    assert(pre[i] == cs[i]);
                }
            }
        }
        if forall|i: int| 0 <= i < cs.len() ==> trimmed_name(#[trigger] cs[i]) != n {
            assert forall|i: int| 0 <= i < pre.len() implies trimmed_name(#[trigger] pre[i]) != n by {
                assert(pre[i] == cs[i]);
            }
        }
    }
}

proof fn lemma_count_at_most_one(cs: Seq<ForwardConfig>, n: Seq<char>)
    requires
        names_distinct(cs),
        n.len() > 0,
    ensures
        count_named(cs, n) <= 1,
    decreases cs.len(),
{
    if cs.len() > 0 {
        let pre = cs.drop_last();
        assert forall|i: int, j: int|
            0 <= i < j < pre.len() && trimmed_name(#[trigger] pre[i]).len() > 0 implies trimmed_name(
            pre[i],
        ) != trimmed_name(#[trigger] pre[j]) by {
            assert(pre[i] == cs[i] && pre[j] == cs[j]);
        }
        lemma_count_at_most_one(pre, n);
        if trimmed_name(cs.last()) == n {
            assert forall|i: int| 0 <= i < pre.len() implies trimmed_name(#[trigger] pre[i]) != n by {
                assert(pre[i] == cs[i]);
                assert(cs[cs.len() - 1] == cs.last());
            }
            lemma_count_zero(pre, n);
        }
    }
}

proof fn lemma_duplicates_empty(cs: Seq<ForwardConfig>)
    ensures
        duplicate_errors(cs).len() == 0 <==> names_distinct(cs),
    decreases cs.len(),
{
    if cs.len() > 0 {
        let pre = cs.drop_last();
        let n = trimmed_name(cs.last());
        lemma_duplicates_empty(pre);
        lemma_count_zero(pre, n);
        assert(cs.last() == cs[cs.len() - 1]);
        if names_distinct(cs) {
            assert forall|i: int, j: int|
                0 <= i < j < pre.len() && trimmed_name(#[trigger] pre[i]).len() > 0 implies trimmed_name(
                pre[i],
            ) != trimmed_name(#[trigger] pre[j]) by {
                assert(pre[i] == cs[i] && pre[j] == cs[j]);
            }
            if n.len() > 0 {
                assert forall|i: int| 0 <= i < pre.len() implies trimmed_name(#[trigger] pre[i])
                    != n by {
                    assert(pre[i] == cs[i]);
                }
            }
        }
        if duplicate_errors(cs).len() == 0 {
            assert(names_distinct(pre));
            if n.len() > 0 {
                lemma_count_at_most_one(pre, n);
            }
            assert forall|i: int, j: int|
                0 <= i < j < cs.len() && trimmed_name(#[trigger] cs[i]).len() > 0 implies trimmed_name(
                cs[i],
            ) != trimmed_name(#[trigger] cs[j]) by {
                assert(pre[i] == cs[i]);
                if j < pre.len() {
                    assert(pre[j] == cs[j]);
                }
            }
        }
    }
}

proof fn lemma_labels_nonempty(cs: Seq<ForwardConfig>, k: int, i: int)
    requires
        0 <= i < cs.len(),
        port_key(cs[i]) == Some(k),
    ensures
        labels_with_key(cs, k).len() >= 1,
    decreases cs.len(),
{
    let pre = cs.drop_last();
    if i < pre.len() {
        assert(pre[i] == cs[i]);
        lemma_labels_nonempty(pre, k, i);
    }
}

proof fn lemma_labels_pair(cs: Seq<ForwardConfig>, k: int)
    ensures
        labels_with_key(cs, k).len() >= 2 <==> exists|i: int, j: int|
            0 <= i < j < cs.len() && port_key(#[trigger] cs[i]) == Some(k) && port_key(
                #[trigger] cs[j],
            ) == Some(k),
    decreases cs.len(),
{
    if cs.len() > 0 {
        let pre = cs.drop_last();
        lemma_labels_pair(pre, k);
        assert(cs.last() == cs[cs.len() - 1]);
        if labels_with_key(cs, k).len() >= 2 {
            if labels_with_key(pre, k).len() >= 2 {
                let (i, j) = choose|i: int, j: int|
                    0 <= i < j < pre.len() && port_key(#[trigger] pre[i]) == Some(k) && port_key(
                        #[trigger] pre[j],
                    ) == Some(k);
                assert(pre[i] == cs[i] && pre[j] == cs[j]);
            } else {
                lemma_labels_witness(pre, k);
                let i = choose|i: int| 0 <= i < pre.len() && port_key(#[trigger] pre[i]) == Some(k);
                assert(pre[i] == cs[i]);
                assert(port_key(cs[cs.len() - 1]) == Some(k));
            }
        }
        if exists|i: int, j: int|
            0 <= i < j < cs.len() && port_key(#[trigger] cs[i]) == Some(k) && port_key(
                #[trigger] cs[j],
            ) == Some(k) {
            let (i, j) = choose|i: int, j: int|
                0 <= i < j < cs.len() && port_key(#[trigger] cs[i]) == Some(k) && port_key(
                    #[trigger] cs[j],
                ) == Some(k);
            assert(pre[i] == cs[i]);
            if j < pre.len() {
                assert(pre[j] == cs[j]);
            } else {
                lemma_labels_nonempty(pre, k, i);
            }
        }
    }
}

proof fn lemma_port_errors_empty_from(cs: Seq<ForwardConfig>, lo: int)
    requires
        0 <= lo <= key_space(),
    ensures
        port_errors_from(cs, lo).len() == 0 <==> forall|k: int|
            lo <= k < key_space() ==> #[trigger] labels_with_key(cs, k).len() < 2,
    decreases key_space() - lo,
{
    if lo < key_space() {
        lemma_port_errors_empty_from(cs, lo + 1);
    }
}

proof fn lemma_port_errors_empty(cs: Seq<ForwardConfig>)
    ensures
        port_errors_from(cs, 0).len() == 0 <==> ports_distinct(cs),
{
    lemma_port_errors_empty_from(cs, 0);
    if port_errors_from(cs, 0).len() == 0 {
        assert forall|i: int, j: int|
            0 <= i < j < cs.len() && port_key(#[trigger] cs[i]) is Some implies port_key(cs[i])
            != port_key(#[trigger] cs[j]) by {
            let k = port_key(cs[i])->0;
            lemma_labels_pair(cs, k);
            assert(labels_with_key(cs, k).len() < 2);
        }
    }
    if ports_distinct(cs) {
        assert forall|k: int| 0 <= k < key_space() implies #[trigger] labels_with_key(cs, k).len()
            < 2 by {
            lemma_labels_pair(cs, k);
        }
    }
}

/// A set of forwards is reported valid exactly when every forward is valid on
/// its own, no two forwards share a non-blank (trimmed) name, and no two
/// forwards claim the same local port under the same protocol.
pub proof fn lemma_valid_iff(cs: Seq<ForwardConfig>)
    ensures
        report_errors(cs).len() == 0 <==> {
            &&& forall|i: int| 0 <= i < cs.len() ==> config_errors(#[trigger] cs[i]).len() == 0
            &&& names_distinct(cs)
            &&& ports_distinct(cs)
        },
{
    lemma_config_errors_empty(cs);
    lemma_duplicates_empty(cs);
    lemma_port_errors_empty(cs);
}

/// TCP and UDP keep separate port spaces: forwards on the same (non-zero) local
/// port with different protocols never claim the same key.
pub proof fn lemma_protocols_do_not_share_ports(a: ForwardConfig, b: ForwardConfig)
    requires
        a.ports.local == b.ports.local,
        a.ports.local != 0,
        protocol_upper(a) == "TCP"@,
        protocol_upper(b) == "UDP"@,
    ensures
        port_key(a) != port_key(b),
{
    reveal_strlit("TCP");
    reveal_strlit("UDP");
    assert("UDP"@[0] != "TCP"@[0]);
}

/// The message reporting a repeated name.
pub open spec fn duplicate_message(n: Seq<char>) -> Seq<char> {
    "duplicate forward name '"@ + n + "'; names must be unique"@
}

proof fn lemma_duplicate_message_injective(a: Seq<char>, b: Seq<char>)
    requires
        duplicate_message(a) == duplicate_message(b),
    ensures
        a == b,
{
    let p = "duplicate forward name '"@;
    let q = "'; names must be unique"@;
    let ma = duplicate_message(a);
    let mb = duplicate_message(b);
    assert(ma.len() == p.len() + a.len() + q.len());
    assert(a =~= ma.subrange(p.len() as int, (p.len() + a.len()) as int));
    assert(b =~= mb.subrange(p.len() as int, (p.len() + b.len()) as int));
}

proof fn lemma_count_grows(cs: Seq<ForwardConfig>, i: int, j: int, n: Seq<char>)
    requires
        0 <= i < j <= cs.len(),
        trimmed_name(cs[i]) == n,
    ensures
        count_named(cs.take(j), n) >= count_named(cs.take(i), n) + 1,
    decreases j - i,
{
    let tj = cs.take(j);
    assert(tj.drop_last() =~= cs.take(j - 1));
    assert(tj.last() == cs[j - 1]);
    if j - 1 > i {
        lemma_count_grows(cs, i, j - 1, n);
    } else {
        assert(cs.take(j - 1) =~= cs.take(i));
    }
}

proof fn lemma_duplicate_errors_entries(cs: Seq<ForwardConfig>, k: int)
    requires
        0 <= k < duplicate_errors(cs).len(),
    ensures
        exists|i: int|
            0 <= i < cs.len() && trimmed_name(#[trigger] cs[i]).len() > 0 && count_named(
                cs.take(i),
                trimmed_name(cs[i]),
            ) == 1 && duplicate_errors(cs)[k] == duplicate_message(trimmed_name(cs[i])),
    decreases cs.len(),
{
    let pre = cs.drop_last();
    let last = cs.len() - 1;
    assert(cs.last() == cs[last]);
    assert(cs.take(last) =~= pre);
    if k < duplicate_errors(pre).len() {
        lemma_duplicate_errors_entries(pre, k);
        let i = choose|i: int|
            0 <= i < pre.len() && trimmed_name(#[trigger] pre[i]).len() > 0 && count_named(
                pre.take(i),
                trimmed_name(pre[i]),
            ) == 1 && duplicate_errors(pre)[k] == duplicate_message(trimmed_name(pre[i]));
        assert(pre[i] == cs[i]);
        assert(pre.take(i) =~= cs.take(i));
    }
}

/// Each repeated name is reported once: no two duplicate-name errors are the same.
pub proof fn lemma_duplicates_reported_once(cs: Seq<ForwardConfig>)
    ensures
        duplicate_errors(cs).no_duplicates(),
    decreases cs.len(),
{
    if cs.len() > 0 {
        let pre = cs.drop_last();
        let last = cs.len() - 1;
        let n = trimmed_name(cs.last());
        lemma_duplicates_reported_once(pre);
        assert(cs.last() == cs[last]);
        if n.len() > 0 && count_named(pre, n) == 1 {
            let d = duplicate_errors(cs);
            assert forall|a: int, b: int| 0 <= a < b < d.len() implies d[a] != d[b] by {
                if b < duplicate_errors(pre).len() {
                    assert(d[a] == duplicate_errors(pre)[a]);
                    assert(d[b] == duplicate_errors(pre)[b]);
                } else {
                    assert(d[b] == duplicate_message(n));
                    assert(d[a] == duplicate_errors(pre)[a]);
                    lemma_duplicate_errors_entries(pre, a);
                    let i = choose|i: int|
                        0 <= i < pre.len() && trimmed_name(#[trigger] pre[i]).len() > 0
                            && count_named(pre.take(i), trimmed_name(pre[i])) == 1
                            && duplicate_errors(pre)[a] == duplicate_message(trimmed_name(pre[i]));
                    if d[a] == d[b] {
                        lemma_duplicate_message_injective(trimmed_name(pre[i]), n);
                        assert(count_named(pre.take(i), n) == 1);
                        lemma_count_grows(pre, i, pre.len() as int, n);
                        assert(pre.take(pre.len() as int) =~= pre);
                    }
                }
            }
        } else {
            assert(duplicate_errors(cs) =~= duplicate_errors(pre));
        }
    }
}

} // verus!
