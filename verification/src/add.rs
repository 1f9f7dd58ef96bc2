//! The pure helpers of the interactive `add` flow: deriving a pod selector from
//! a service, suggesting a free local port, choosing a unique name, building
//! the new entry and appending it to the configuration text.
use vstd::prelude::*;
use vstd::set_lib::{lemma_int_range, lemma_len_subset, lemma_map_size, set_int_range};
use vstd::std_specs::hash::group_hash_axioms;
use vstd::string::*;
use std::collections::HashSet;

use crate::config::{
    default_forward_options, is_default_options, ForwardConfig, LocalDnsConfig, PodSelector,
    PortMapping,
};
use crate::util::{keys_ascending, lookup, lookup_entry};
use crate::text::{
    decimal, ends_with_char, eq_ascii_ci, eq_ignore_ascii_case, lemma_decimal_injective,
    lemma_decimal_len, lowercase_of, push_decimal, push_decimal_i64, decimal_int, str_eq, str_less,
    to_lowercase, trim, trim_seq, views,
};
use crate::validate::{report_errors, validate_configs};

verus! {

broadcast use group_hash_axioms;

// ---------------------------------------------------------------------------
// Pod selector from a service selector
// ---------------------------------------------------------------------------

/// Keys we prefer when turning a service's selector into a single `key=value`
/// pod selector, most-specific first.
pub open spec fn preferred_selector_keys() -> Seq<Seq<char>> {
    seq![
        "app.kubernetes.io/name"@,
        "app.kubernetes.io/instance"@,
        "app"@,
        "k8s-app"@,
    ]
}

fn preferred_selector_key(i: usize) -> (r: &'static str)
    requires
        i < 4,
    ensures
        r@ == preferred_selector_keys()[i as int],
{
    if i == 0 {
        "app.kubernetes.io/name"
    } else if i == 1 {
        "app.kubernetes.io/instance"
    } else if i == 2 {
        "app"
    } else {
        "k8s-app"
    }
}

/// The selector derived from the preferred keys from index `i` on, falling back
/// to the first entry.
pub open spec fn derived_from(entries: Seq<(String, String)>, i: int) -> Option<Seq<char>>
    decreases 4 - i,
{
    if entries.len() == 0 {
        None
    } else if i >= 4 {
        Some(entries[0].0@ + "="@ + entries[0].1@)
    } else {
        match lookup(entries, preferred_selector_keys()[i]) {
            Some(v) => Some(preferred_selector_keys()[i] + "="@ + v),
            None => derived_from(entries, i + 1),
        }
    }
}

/// The derived selector uses the first preferred key that the service's
/// selector has, in the order `app.kubernetes.io/name`,
/// `app.kubernetes.io/instance`, `app`, `k8s-app`.
pub proof fn lemma_preferred_key_order(entries: Seq<(String, String)>)
    ensures
        lookup(entries, "app.kubernetes.io/name"@) is Some ==> derived_from(entries, 0) == Some(
            "app.kubernetes.io/name"@ + "="@ + lookup(entries, "app.kubernetes.io/name"@)->0,
        ),
        lookup(entries, "app.kubernetes.io/name"@) is None && lookup(
            entries,
            "app.kubernetes.io/instance"@,
        ) is Some ==> derived_from(entries, 0) == Some(
            "app.kubernetes.io/instance"@ + "="@ + lookup(entries, "app.kubernetes.io/instance"@)->0,
        ),
        lookup(entries, "app.kubernetes.io/name"@) is None && lookup(
            entries,
            "app.kubernetes.io/instance"@,
        ) is None && lookup(entries, "app"@) is Some ==> derived_from(entries, 0) == Some(
            "app"@ + "="@ + lookup(entries, "app"@)->0,
        ),
        lookup(entries, "app.kubernetes.io/name"@) is None && lookup(
            entries,
            "app.kubernetes.io/instance"@,
        ) is None && lookup(entries, "app"@) is None && lookup(entries, "k8s-app"@) is Some
            ==> derived_from(entries, 0) == Some(
            "k8s-app"@ + "="@ + lookup(entries, "k8s-app"@)->0,
        ),
{
    if entries.len() > 0 {
        assert(derived_from(entries, 0) == match lookup(entries, preferred_selector_keys()[0]) {
            Some(v) => Some(preferred_selector_keys()[0] + "="@ + v),
            None => derived_from(entries, 1),
        });
        assert(derived_from(entries, 1) == match lookup(entries, preferred_selector_keys()[1]) {
            Some(v) => Some(preferred_selector_keys()[1] + "="@ + v),
            None => derived_from(entries, 2),
        });
        assert(derived_from(entries, 2) == match lookup(entries, preferred_selector_keys()[2]) {
            Some(v) => Some(preferred_selector_keys()[2] + "="@ + v),
            None => derived_from(entries, 3),
        });
        assert(derived_from(entries, 3) == match lookup(entries, preferred_selector_keys()[3]) {
            Some(v) => Some(preferred_selector_keys()[3] + "="@ + v),
            None => derived_from(entries, 4),
        });
    }
}

fn key_value(key: &str, value: &str) -> (r: String)
    ensures
        r@ == key@ + "="@ + value@,
{
    let mut s = String::from_str(key);
    s.append("=");
    s.append(value);
    s
}

/// Turn a service's label selector (its entries in key order) into a single
/// `key=value` pod selector, preferring well-known app keys and otherwise the
/// entry with the least key.
pub fn derive_selector_from_service(selector: &[(String, String)]) -> (r: Option<String>)
    requires
        keys_ascending(selector@),
    ensures
        match derived_from(selector@, 0) {
            Some(s) => r matches Some(x) && x@ == s,
            None => r is None,
        },
        selector@.len() > 0 && (forall|i: int|
            0 <= i < 4 ==> lookup(selector@, #[trigger] preferred_selector_keys()[i]) is None)
            ==> (r matches Some(x) && x@ == selector@[0].0@ + "="@ + selector@[0].1@ && forall|
            j: int,
        |
            0 < j < selector@.len() ==> str_less(selector@[0].0@, #[trigger] selector@[j].0@)),
{
    if selector.len() == 0 {
        return None;
    }
    let mut i: usize = 0;
    while i < 4
        invariant
            selector@.len() > 0,
            i <= 4,
            derived_from(selector@, 0) == derived_from(selector@, i as int),
        decreases 4 - i,
    {
        let key = preferred_selector_key(i);
        match lookup_entry(selector, key) {
            Some(value) => {
                return Some(key_value(key, value.as_str()));
            },
            None => {},
        }
        i = i + 1;
    }
    proof {
        if forall|i: int|
            0 <= i < 4 ==> lookup(selector@, #[trigger] preferred_selector_keys()[i]) is None {
            assert(lookup(selector@, preferred_selector_keys()[0]) is None);
            assert(lookup(selector@, preferred_selector_keys()[1]) is None);
            assert(lookup(selector@, preferred_selector_keys()[2]) is None);
            assert(lookup(selector@, preferred_selector_keys()[3]) is None);
            assert(derived_from(selector@, 3) == derived_from(selector@, 4));
            assert(derived_from(selector@, 2) == derived_from(selector@, 3));
            assert(derived_from(selector@, 1) == derived_from(selector@, 2));
            assert(derived_from(selector@, 0) == derived_from(selector@, 1));
        }
        assert forall|j: int| 0 < j < selector@.len() implies str_less(
            selector@[0].0@,
            #[trigger] selector@[j].0@,
        ) by {
            assert(str_less(selector@[0].0@, selector@[j].0@));
        }
    }
    Some(key_value(selector[0].0.as_str(), selector[0].1.as_str()))
}

// ---------------------------------------------------------------------------
// Local port suggestion
// ---------------------------------------------------------------------------

/// Suggest a free local port: the remote port (at least 1) if available,
/// otherwise the next higher port not already taken, stopping at 65535.
pub fn suggest_local_port(remote: u16, taken: &HashSet<u16>) -> (r: u16)
    ensures
        (if remote >= 1 {
            remote
        } else {
            1
        }) <= r,
        forall|p: u16|
            (if remote >= 1 {
                remote
            } else {
                1
            }) <= p < r ==> taken@.contains(p),
        !taken@.contains(r) || r == 65535,
{
    let mut port: u16 = if remote >= 1 {
        remote
    } else {
        1
    };
    let ghost start = port;
    while taken.contains(&port)
        invariant
            start <= port,
            forall|p: u16| start <= p < port ==> taken@.contains(p),
        ensures
            start <= port,
            forall|p: u16| start <= p < port ==> taken@.contains(p),
            !taken@.contains(port) || port == 65535,
        decreases 65535 - port,
    {
        match port.checked_add(1) {
            Some(next) => port = next,
            None => break,
        }
    }
    port
}

// ---------------------------------------------------------------------------
// Protocols and entries
// ---------------------------------------------------------------------------

/// Normalize a service port protocol to the lowercase form kube-forward uses:
/// `udp` for any ASCII spelling of UDP, `tcp` otherwise.
pub fn normalize_protocol(protocol: Option<&str>) -> (r: String)
    ensures
        r@ == (if protocol matches Some(p) && eq_ascii_ci(p@, "udp"@) {
            "udp"@
        } else {
            "tcp"@
        }),
{
    match protocol {
        Some(p) => {
            if eq_ignore_ascii_case(p, "udp") {
                String::from_str("udp")
            } else {
                String::from_str("tcp")
            }
        },
        None => String::from_str("tcp"),
    }
}

/// Build a `ForwardConfig` from the collected answers: the given protocol,
/// default options, no local DNS, and only a label selector.
pub fn build_forward_config(
    name: String,
    target: String,
    local: u16,
    remote: u16,
    protocol: String,
    selector_label: Option<String>,
) -> (r: ForwardConfig)
    ensures
        r.name == name,
        r.target == target,
        r.ports.protocol == Some(protocol),
        r.ports.local == local,
        r.ports.remote == remote,
        is_default_options(r.options),
        !r.local_dns.enabled,
        r.local_dns.hostname is None,
        r.pod_selector.label == selector_label,
        r.pod_selector.annotation is None,
{
    ForwardConfig {
        name,
        target,
        ports: PortMapping { protocol: Some(protocol), local, remote },
        options: default_forward_options(),
        local_dns: LocalDnsConfig { enabled: false, hostname: None },
        pod_selector: PodSelector { label: selector_label, annotation: None },
    }
}

/// The YAML list item `append_entry` renders for a forward.
pub open spec fn entry_block(c: ForwardConfig) -> Seq<char> {
    "- name: \""@ + c.name@ + "\"\n"@ + "  target: \""@ + c.target@ + "\"\n"@ + "  ports:\n"@
        + (match c.ports.protocol {
        Some(p) => if eq_ascii_ci(p@, "tcp"@) {
            Seq::empty()
        } else {
            "    protocol: "@ + lowercase_of(p@) + "\n"@
        },
        None => Seq::empty(),
    }) + "    local: "@ + decimal(c.ports.local as nat) + "\n"@ + "    remote: "@ + decimal(
        c.ports.remote as nat,
    ) + "\n"@ + (match c.pod_selector.label {
        Some(l) => "  pod_selector:\n"@ + "    label: \""@ + l@ + "\"\n"@,
        None => Seq::empty(),
    })
}

/// What separates the existing text from the appended entry: nothing after an
/// empty text, one blank line otherwise (after completing an unterminated line).
pub open spec fn entry_separator(existing: Seq<char>) -> Seq<char> {
    if existing.len() == 0 {
        Seq::empty()
    } else if existing.last() == '\n' {
        "\n"@
    } else {
        "\n\n"@
    }
}

fn entry_block_string(c: &ForwardConfig) -> (r: String)
    ensures
        r@ == entry_block(*c),
{
    let mut b = String::from_str("- name: \"");
    b.append(c.name.as_str());
    b.append("\"\n");
    b.append("  target: \"");
    b.append(c.target.as_str());
    b.append("\"\n");
    b.append("  ports:\n");
    let ghost head = b@;
    match &c.ports.protocol {
        Some(p) => {
            if !eq_ignore_ascii_case(p.as_str(), "tcp") {
                b.append("    protocol: ");
                let lower = to_lowercase(p.as_str());
                b.append(lower.as_str());
                b.append("\n");
            }
        },
        None => {},
    }
    let ghost with_protocol = b@;
    b.append("    local: ");
    push_decimal(&mut b, c.ports.local as u128);
    b.append("\n");
    b.append("    remote: ");
    push_decimal(&mut b, c.ports.remote as u128);
    b.append("\n");
    match &c.pod_selector.label {
        Some(l) => {
            b.append("  pod_selector:\n");
            b.append("    label: \"");
            b.append(l.as_str());
            b.append("\"\n");
        },
        None => {},
    }
    assert(b@ =~= entry_block(*c));
    b
}

/// Add the last of `forwards` (the new entry) to the configuration text, but
/// only when the whole set of forwards passes validation: then the text with
/// the entry appended, otherwise the errors of the set, and nothing to write.
pub fn append_checked(forwards: &[ForwardConfig], existing_text: &str) -> (r: Result<
    String,
    Vec<String>,
>)
    requires
        forwards@.len() > 0,
    ensures
        report_errors(forwards@).len() == 0 ==> (r matches Ok(t) && t@ == existing_text@
            + entry_separator(existing_text@) + entry_block(forwards@.last())),
        report_errors(forwards@).len() > 0 ==> (r matches Err(es) && views(es@) == report_errors(
            forwards@,
        )),
{
    let report = validate_configs(forwards);
    if report.is_valid() {
        proof {
            assert(views(report.errors@).len() == report.errors@.len());
        }
        Ok(append_entry(existing_text, &forwards[forwards.len() - 1]))
    } else {
        proof {
            assert(views(report.errors@).len() == report.errors@.len());
        }
        Err(report.errors)
    }
}

/// Render a forward as a minimal YAML list item and append it to the existing
/// config text, preserving whatever comments/formatting are already there.
pub fn append_entry(existing: &str, config: &ForwardConfig) -> (r: String)
    ensures
        r@ == existing@ + entry_separator(existing@) + entry_block(*config),
{
    let block = entry_block_string(config);
    let mut out = String::from_str(existing);
    if existing.unicode_len() > 0 {
        if !ends_with_char(existing, '\n') {
            out.append("\n");
        }
        out.append("\n");
        proof {
            reveal_strlit("\n");
            reveal_strlit("\n\n");
        }
    }
    out.append(block.as_str());
    assert(out@ =~= existing@ + entry_separator(existing@) + entry_block(*config));
    out
}

/// Appending keeps the existing text intact as a prefix of the result.
pub proof fn lemma_append_preserves_existing(existing: Seq<char>, c: ForwardConfig)
    ensures
        (existing + entry_separator(existing) + entry_block(c)).take(existing.len() as int)
            == existing,
{
    assert((existing + entry_separator(existing) + entry_block(c)).take(existing.len() as int)
        =~= existing);
}

// ---------------------------------------------------------------------------
// Unique names
// ---------------------------------------------------------------------------

/// Whether some existing forward is named exactly `s`.
pub open spec fn name_taken(existing: Seq<ForwardConfig>, s: Seq<char>) -> bool {
    exists|i: int| 0 <= i < existing.len() && (#[trigger] existing[i]).name@ == s
}

/// The `n`-th alternative to `base`: `base-n`.
pub open spec fn suffixed_name(base: Seq<char>, n: nat) -> Seq<char> {
    base + "-"@ + decimal(n)
}

fn is_taken(existing: &[ForwardConfig], s: &str) -> (r: bool)
    ensures
        r == name_taken(existing@, s@),
{
    let n = existing.len();
    let mut i: usize = 0;
    while i < n
        invariant
            n == existing@.len(),
            i <= n,
            forall|j: int| 0 <= j < i ==> (#[trigger] existing@[j]).name@ != s@,
        decreases n - i,
    {
        if str_eq(existing[i].name.as_str(), s) {
            return true;
        }
        i = i + 1;
    }
    false
}

proof fn lemma_suffixes_fill_names(existing: Seq<ForwardConfig>, base: Seq<char>, n: nat)
    requires
        n >= 2,
        name_taken(existing, base),
        forall|m: nat| 2 <= m <= n ==> name_taken(existing, #[trigger] suffixed_name(base, m)),
    ensures
        n <= existing.len(),
{
    reveal_strlit("-");
    let f = |m: int|
        if m == 1 {
            base
        } else {
            suffixed_name(base, m as nat)
        };
    let x = set_int_range(1, n as int + 1);
    lemma_int_range(1, n as int + 1);
    assert forall|a: int, b: int| x.contains(a) && x.contains(b) && f(a) == f(b) implies a
        == b by {
        if a != b {
            if a == 1 || b == 1 {
                let m = if a == 1 {
                    b
                } else {
                    a
                };
                lemma_decimal_len(m as nat);
                assert(f(m).len() > base.len());
            } else {
                let sa = suffixed_name(base, a as nat);
                let sb = suffixed_name(base, b as nat);
                let k = base.len() as int + 1;
                assert(sa.skip(k) =~= decimal(a as nat));
                assert(sb.skip(k) =~= decimal(b as nat));
                lemma_decimal_injective(a as nat, b as nat);
            }
        }
    }
    let y = x.map(f);
    lemma_map_size(x, y, f);
    let names = existing.map_values(|c: ForwardConfig| c.name@);
    assert forall|s: Seq<char>| y.contains(s) implies names.to_set().contains(s) by {
        let m = choose|m: int| x.contains(m) && f(m) == s;
        if m == 1 {
            assert(name_taken(existing, base));
        } else {
            assert(name_taken(existing, suffixed_name(base, m as nat)));
        }
        let i = choose|i: int| 0 <= i < existing.len() && (#[trigger] existing[i]).name@ == s;
        assert(names[i] == s);
    }
    names.lemma_cardinality_of_set();
    lemma_len_subset(y, names.to_set());
}

/// A name based on `base` that no existing forward uses: `base` itself when
/// free, otherwise `base-n` for the smallest `n >= 2` that is free.
pub fn unique_name(base: &str, existing: &[ForwardConfig]) -> (r: String)
    ensures
        !name_taken(existing@, r@),
        !name_taken(existing@, base@) ==> r@ == base@,
        name_taken(existing@, base@) ==> exists|n: nat|
            n >= 2 && r@ == suffixed_name(base@, n) && forall|m: nat|
                2 <= m < n ==> name_taken(existing@, #[trigger] suffixed_name(base@, m)),
{
    if !is_taken(existing, base) {
        return String::from_str(base);
    }
    let len = existing.len();
    let mut n: u128 = 2;
    loop
        invariant
            len == existing@.len(),
            2 <= n <= existing@.len() + 1,
            name_taken(existing@, base@),
            forall|m: nat| 2 <= m < n ==> name_taken(existing@, #[trigger] suffixed_name(base@, m)),
        decreases existing@.len() + 1 - n,
    {
        let mut candidate = String::from_str(base);
        candidate.append("-");
        push_decimal(&mut candidate, n);
        assert(candidate@ =~= suffixed_name(base@, n as nat));
        if !is_taken(existing, candidate.as_str()) {
            return candidate;
        }
        proof {
            lemma_suffixes_fill_names(existing@, base@, n as nat);
        }
        n = n + 1;
    }
}

// ---------------------------------------------------------------------------
// Small pieces of the interactive flow
// ---------------------------------------------------------------------------

/// The label shown for a service port in the port picker: `port (protocol name)`.
pub fn port_label(port: i32, protocol: &str, name: Option<&str>) -> (r: String)
    ensures
        r@ == decimal_int(port as int) + " ("@ + protocol@ + " "@ + (match name {
            Some(n) => n@,
            None => "port"@,
        }) + ")"@,
{
    let mut s = String::new();
    push_decimal_i64(&mut s, port as i64);
    s.append(" (");
    s.append(protocol);
    s.append(" ");
    match name {
        Some(n) => s.append(n),
        None => s.append("port"),
    }
    s.append(")");
    s
}

/// The `service.namespace` target for a discovered service.
pub fn service_target(service: &str, namespace: &str) -> (r: String)
    ensures
        r@ == service@ + "."@ + namespace@,
{
    let mut s = String::from_str(service);
    s.append(".");
    s.append(namespace);
    s
}

/// The pod selector typed in by the user: the trimmed input, or none when blank.
pub fn selector_from_input(input: &str) -> (r: Option<String>)
    ensures
        trim_seq(input@).len() == 0 ==> r is None,
        trim_seq(input@).len() > 0 ==> (r matches Some(s) && s@ == trim_seq(input@)),
{
    let t = trim(input);
    if t.unicode_len() == 0 {
        None
    } else {
        Some(String::from_str(t))
    }
}

} // verus!
