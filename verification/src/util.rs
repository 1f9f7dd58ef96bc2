//! Service and target resolution helpers.
use vstd::prelude::*;
use vstd::string::*;

use crate::error::PortForwardError;
use crate::text::{lemma_split_nonempty, lemma_str_less_irreflexive, split_first, split_seq, str_eq, str_less};

verus! {

/// A resolved Kubernetes service: where it lives and which ports it exposes.
#[derive(Clone, Debug, PartialEq, Eq)]
pub struct ServiceInfo {
    pub namespace: String,
    pub name: String,
    pub ports: Vec<u16>,
}

/// What `parse_target` makes of a target: the service name and, when the
/// target names one, the namespace; `None` when the target is malformed.
///
/// The target is split on `.`; a single non-empty piece is a bare service
/// name, and otherwise the first two pieces must both be non-empty.
pub open spec fn target_parts(t: Seq<char>) -> Option<(Seq<char>, Option<Seq<char>>)> {
    let parts = split_seq(t, '.');
    if parts.len() == 1 && parts[0].len() > 0 {
        Some((parts[0], None))
    } else if parts.len() >= 2 && parts[0].len() > 0 && parts[1].len() > 0 {
        Some((parts[0], Some(parts[1])))
    } else {
        None
    }
}

/// The message of the error `parse_target` returns for a malformed target.
pub open spec fn invalid_target_message(t: Seq<char>) -> Seq<char> {
    "invalid target '"@ + t + "', expected 'service' or 'service.namespace'"@
}

/// The views of an optional string slice.
pub open spec fn opt_str_view(o: Option<&str>) -> Option<Seq<char>> {
    match o {
        Some(s) => Some(s@),
        None => None,
    }
}

/// The first two labels of a DNS-style name split into parts.
pub fn parse_full_dns_name<'a>(parts: &'a [&'a str]) -> (r: Result<
    (&'a str, &'a str),
    PortForwardError,
>)
    ensures
        parts@.len() >= 2 ==> (r matches Ok((a, b)) && a@ == parts@[0]@ && b@ == parts@[1]@),
        parts@.len() < 2 ==> (r matches Err(PortForwardError::DnsError(m)) && m@
            == "Invalid DNS name format"@),
{
    if parts.len() >= 2 {
        Ok((parts[0], parts[1]))
    } else {
        Err(PortForwardError::DnsError(String::from_str("Invalid DNS name format")))
    }
}

/// Parse a `target` string into a service name and optional namespace.
///
/// Accepts `service`, `service.namespace`, or a longer DNS-style name where only
/// the first two labels are significant. A `None` namespace means the caller
/// should fall back to the client's default namespace.
pub fn parse_target(target: &str) -> (r: Result<(&str, Option<&str>), PortForwardError>)
    ensures
        target_parts(target@) is None ==> (r matches Err(PortForwardError::DnsError(m)) && m@
            == invalid_target_message(target@)),
        target_parts(target@) matches Some((n, ns)) ==> (r matches Ok((a, b)) && a@ == n
            && opt_str_view(b) == ns),
{
    let (head, rest) = split_first(target, '.');
    match rest {
        None => {
            if head.unicode_len() > 0 {
                return Ok((head, None));
            }
        },
        Some(rest) => {
            let (ns, _) = split_first(rest, '.');
            proof {
                lemma_split_nonempty(rest@, '.');
            }
            if head.unicode_len() > 0 && ns.unicode_len() > 0 {
                return Ok((head, Some(ns)));
            }
        },
    }
    let mut m = String::from_str("invalid target '");
    m.append(target);
    m.append("', expected 'service' or 'service.namespace'");
    Err(PortForwardError::DnsError(m))
}

/// The service name and namespace a target refers to, with `default_namespace`
/// standing in when the target names none.
pub fn resolve_target<'a>(target: &'a str, default_namespace: &'a str) -> (r: Result<
    (&'a str, &'a str),
    PortForwardError,
>)
    ensures
        target_parts(target@) is None ==> (r matches Err(PortForwardError::DnsError(m)) && m@
            == invalid_target_message(target@)),
        target_parts(target@) matches Some((n, ns)) ==> (r matches Ok((a, b)) && a@ == n && b@
            == (match ns {
            Some(x) => x,
            None => default_namespace@,
        })),
{
    match parse_target(target) {
        Ok((name, Some(ns))) => Ok((name, ns)),
        Ok((name, None)) => Ok((name, default_namespace)),
        Err(e) => Err(e),
    }
}

/// The `ServiceInfo` for a service whose ports the API reported as `ports`;
/// each port number is narrowed to `u16` the way `as u16` narrows it.
pub fn service_info_from(namespace: &str, name: &str, ports: &Vec<i32>) -> (r: ServiceInfo)
    ensures
        r.namespace@ == namespace@,
        r.name@ == name@,
        r.ports@.len() == ports@.len(),
        forall|i: int| 0 <= i < ports@.len() ==> #[trigger] r.ports@[i] == (ports@[i] as u16),
{
    let mut out: Vec<u16> = Vec::new();
    let n = ports.len();
    let mut i: usize = 0;
    while i < n
        invariant
            n == ports@.len(),
            i <= n,
            out@.len() == i,
            forall|j: int| 0 <= j < i ==> #[trigger] out@[j] == (ports@[j] as u16),
        decreases n - i,
    {
        #[verifier::truncate]
        let p = ports[i] as u16;
        out.push(p);
        i = i + 1;
    }
    ServiceInfo { namespace: namespace.to_owned(), name: name.to_owned(), ports: out }
}

/// The value of the first entry with key `key`.
pub open spec fn lookup(entries: Seq<(String, String)>, key: Seq<char>) -> Option<Seq<char>>
    decreases entries.len(),
{
    if entries.len() == 0 {
        None
    } else if entries[0].0@ == key {
        Some(entries[0].1@)
    } else {
        lookup(entries.drop_first(), key)
    }
}

/// The entries of a map in key order, as a `BTreeMap` yields them: each key
/// sorts strictly before every later one, so no key occurs twice.
pub open spec fn keys_ascending(entries: Seq<(String, String)>) -> bool {
    forall|i: int, j: int|
        0 <= i < j < entries.len() ==> str_less(#[trigger] entries[i].0@, #[trigger] entries[j].0@)
}

/// In entries in key order, looking a key up finds the one entry with that key:
/// the first match is the map's value for the key.
pub proof fn lemma_lookup_ascending(entries: Seq<(String, String)>, k: int)
    requires
        keys_ascending(entries),
        0 <= k < entries.len(),
    ensures
        lookup(entries, entries[k].0@) == Some(entries[k].1@),
    decreases k,
{
    if k > 0 {
        if entries[0].0@ == entries[k].0@ {
            lemma_str_less_irreflexive(entries[k].0@);
            assert(str_less(entries[0].0@, entries[k].0@));
        }
        let rest = entries.drop_first();
        assert(keys_ascending(rest)) by {
            assert forall|i: int, j: int| 0 <= i < j < rest.len() implies str_less(
                #[trigger] rest[i].0@,
                #[trigger] rest[j].0@,
            ) by {
                assert(rest[i] == entries[i + 1] && rest[j] == entries[j + 1]);
            }
        }
        assert(rest[k - 1] == entries[k]);
        lemma_lookup_ascending(rest, k - 1);
    }
}

/// The value of the first entry with key `key`, if any.
pub fn lookup_entry<'a>(entries: &'a [(String, String)], key: &str) -> (r: Option<&'a String>)
    ensures
        match lookup(entries@, key@) {
            Some(v) => r matches Some(x) && x@ == v,
            None => r is None,
        },
{
    let n = entries.len();
    let mut i: usize = 0;
    assert(entries@.skip(0) =~= entries@);
    while i < n
        invariant
            n == entries@.len(),
            i <= n,
            lookup(entries@, key@) == lookup(entries@.skip(i as int), key@),
        decreases n - i,
    {
        let ghost rest = entries@.skip(i as int);
        assert(rest[0] == entries@[i as int]);
        assert(rest.drop_first() =~= entries@.skip(i + 1));
        if str_eq(entries[i].0.as_str(), key) {
            return Some(&entries[i].1);
        }
        i = i + 1;
    }
    None
}

} // verus!
