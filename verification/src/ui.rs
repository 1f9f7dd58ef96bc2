//! Terminal output: the startup banner, the table of configured forwards, the
//! startup summary and the validation report, rendered as text.
use vstd::prelude::*;
use vstd::string::*;
use vstd::utf8::encode_utf8;

use crate::config::ForwardConfig;
use crate::forward::ForwardState;
use crate::text::{decimal, push_decimal, str_eq, to_uppercase, uppercase_of, views};
use crate::validate::{protocol_text, ValidationReport};

verus! {

/// Snapshot of a single forward's initial outcome, used for the startup summary.
#[derive(Debug, Clone, PartialEq, Eq)]
pub struct ForwardStatus {
    pub name: String,
    pub established: bool,
    pub detail: Option<String>,
}

// ---------------------------------------------------------------------------
// Colors
// ---------------------------------------------------------------------------

/// `text` wrapped in the ANSI escape for `code` when `color` is set.
pub open spec fn painted(text: Seq<char>, code: Seq<char>, color: bool) -> Seq<char> {
    if color {
        "\x1b["@ + code + "m"@ + text + "\x1b[0m"@
    } else {
        text
    }
}

fn paint(text: &str, code: &str, color: bool) -> (r: String)
    ensures
        r@ == painted(text@, code@, color),
{
    if color {
        let mut s = String::from_str("\x1b[");
        s.append(code);
        s.append("m");
        s.append(text);
        s.append("\x1b[0m");
        s
    } else {
        String::from_str(text)
    }
}

/// Green text (ANSI code 32).
pub fn green(text: &str, color: bool) -> (r: String)
    ensures
        r@ == painted(text@, "32"@, color),
{
    paint(text, "32", color)
}

/// Red text (ANSI code 31).
pub fn red(text: &str, color: bool) -> (r: String)
    ensures
        r@ == painted(text@, "31"@, color),
{
    paint(text, "31", color)
}

/// Yellow text (ANSI code 33).
pub fn yellow(text: &str, color: bool) -> (r: String)
    ensures
        r@ == painted(text@, "33"@, color),
{
    paint(text, "33", color)
}

/// Dimmed text (ANSI code 2).
pub fn dim(text: &str, color: bool) -> (r: String)
    ensures
        r@ == painted(text@, "2"@, color),
{
    paint(text, "2", color)
}

/// Bold text (ANSI code 1).
pub fn bold(text: &str, color: bool) -> (r: String)
    ensures
        r@ == painted(text@, "1"@, color),
{
    paint(text, "1", color)
}

/// Without color, painting leaves the text as it is.
pub proof fn lemma_uncolored_is_plain(text: Seq<char>, code: Seq<char>)
    ensures
        painted(text, code, false) == text,
{
}

// ---------------------------------------------------------------------------
// The table of forwards
// ---------------------------------------------------------------------------

/// The length of a string in UTF-8 bytes as `str::len` reports it, which is
/// what column widths are measured in.
pub open spec fn byte_len(s: Seq<char>) -> nat {
    (encode_utf8(s).len() as usize) as nat
}

/// The address column of a forward: `127.0.0.1:local -> target:remote`.
pub open spec fn address_of(c: ForwardConfig) -> Seq<char> {
    "127.0.0.1:"@ + decimal(c.ports.local as nat) + " -> "@ + c.target@ + ":"@ + decimal(
        c.ports.remote as nat,
    )
}

/// The larger of two numbers.
pub open spec fn max_nat(a: nat, b: nat) -> nat {
    if a >= b {
        a
    } else {
        b
    }
}

/// The width of the name column: the longest name, in bytes.
pub open spec fn name_width(cs: Seq<ForwardConfig>) -> nat
    decreases cs.len(),
{
    if cs.len() == 0 {
        0
    } else {
        max_nat(name_width(cs.drop_last()), byte_len(cs.last().name@))
    }
}

/// The width of the address column: the longest address, in bytes.
pub open spec fn address_width(cs: Seq<ForwardConfig>) -> nat
    decreases cs.len(),
{
    if cs.len() == 0 {
        0
    } else {
        max_nat(address_width(cs.drop_last()), byte_len(address_of(cs.last())))
    }
}

/// `n` spaces.
pub open spec fn spaces(n: nat) -> Seq<char> {
    Seq::new(n, |i: int| ' ')
}

/// `s` left-aligned in a field of `w` characters (never truncated).
pub open spec fn pad_to(s: Seq<char>, w: nat) -> Seq<char> {
    if s.len() < w {
        s + spaces((w - s.len()) as nat)
    } else {
        s
    }
}

/// One row of the table.
pub open spec fn table_row(c: ForwardConfig, nw: nat, aw: nat) -> Seq<char> {
    "  "@ + pad_to(c.name@, nw) + "  "@ + pad_to(address_of(c), aw) + "  "@ + uppercase_of(
        protocol_text(c),
    ) + "\n"@
}

/// The rows for `cs`, one per forward, in order.
pub open spec fn table_rows(cs: Seq<ForwardConfig>, nw: nat, aw: nat) -> Seq<char>
    decreases cs.len(),
{
    if cs.len() == 0 {
        Seq::empty()
    } else {
        table_rows(cs.drop_last(), nw, aw) + table_row(cs.last(), nw, aw)
    }
}

/// The whole table.
pub open spec fn forward_table_spec(cs: Seq<ForwardConfig>) -> Seq<char> {
    table_rows(cs, name_width(cs), address_width(cs))
}

fn push_spaces(out: &mut String, n: usize)
    ensures
        final(out)@ == old(out)@ + spaces(n as nat),
{
    let mut i: usize = 0;
    while i < n
        invariant
            i <= n,
            out@ == old(out)@ + spaces(i as nat),
        decreases n - i,
    {
        out.append(" ");
        proof {
            reveal_strlit(" ");
        }
        i = i + 1;
        assert(out@ =~= old(out)@ + spaces(i as nat));
    }
}

fn push_padded(out: &mut String, s: &str, w: usize)
    ensures
        final(out)@ == old(out)@ + pad_to(s@, w as nat),
{
    out.append(s);
    let n = s.unicode_len();
    if n < w {
        push_spaces(out, w - n);
    }
    assert(out@ =~= old(out)@ + pad_to(s@, w as nat));
}

fn address(c: &ForwardConfig) -> (r: String)
    ensures
        r@ == address_of(*c),
{
    let mut s = String::from_str("127.0.0.1:");
    push_decimal(&mut s, c.ports.local as u128);
    s.append(" -> ");
    s.append(c.target.as_str());
    s.append(":");
    push_decimal(&mut s, c.ports.remote as u128);
    s
}

/// Build the aligned table of configured forwards: one row per forward with its
/// name, its `127.0.0.1:local -> target:remote` address and its protocol in
/// upper case, the first two columns padded to their widest entry.
pub fn forward_table(configs: &[ForwardConfig]) -> (r: String)
    ensures
        r@ == forward_table_spec(configs@),
{
    let n = configs.len();
    let mut addresses: Vec<String> = Vec::new();
    let mut name_w: usize = 0;
    let mut addr_w: usize = 0;
    let mut i: usize = 0;
    while i < n
        invariant
            n == configs@.len(),
            i <= n,
            addresses@.len() == i,
            forall|j: int| 0 <= j < i ==> (#[trigger] addresses@[j])@ == address_of(configs@[j]),
            name_w == name_width(configs@.take(i as int)),
            addr_w == address_width(configs@.take(i as int)),
        decreases n - i,
    {
        let ghost pre = configs@.take(i as int);
        let ghost post = configs@.take(i + 1);
        assert(post.drop_last() =~= pre);
        assert(post.last() == configs@[i as int]);
        let a = address(&configs[i]);
        let nl = configs[i].name.as_str().len();
        let al = a.as_str().len();
        if nl > name_w {
            name_w = nl;
        }
        if al > addr_w {
            addr_w = al;
        }
        addresses.push(a);
        i = i + 1;
    }
    assert(configs@.take(n as int) =~= configs@);
    let mut out = String::new();
    let mut i: usize = 0;
    while i < n
        invariant
            n == configs@.len(),
            i <= n,
            addresses@.len() == n,
            forall|j: int| 0 <= j < n ==> (#[trigger] addresses@[j])@ == address_of(configs@[j]),
            name_w == name_width(configs@),
            addr_w == address_width(configs@),
            out@ == table_rows(configs@.take(i as int), name_w as nat, addr_w as nat),
        decreases n - i,
    {
        let ghost pre = configs@.take(i as int);
        let ghost post = configs@.take(i + 1);
        assert(post.drop_last() =~= pre);
        assert(post.last() == configs@[i as int]);
        let ghost before = out@;
        let c = &configs[i];
        out.append("  ");
        push_padded(&mut out, c.name.as_str(), name_w);
        out.append("  ");
        push_padded(&mut out, addresses[i].as_str(), addr_w);
        out.append("  ");
        let p: &str = match &c.ports.protocol {
            Some(p) => p.as_str(),
            None => "TCP",
        };
        let upper = to_uppercase(p);
        out.append(upper.as_str());
        out.append("\n");
        assert(out@ =~= before + table_row(configs@[i as int], name_w as nat, addr_w as nat));
        i = i + 1;
    }
    assert(configs@.take(n as int) =~= configs@);
    out
}

proof fn lemma_name_width_bounds(cs: Seq<ForwardConfig>, i: int)
    requires
        0 <= i < cs.len(),
    ensures
        byte_len(cs[i].name@) <= name_width(cs),
    decreases cs.len(),
{
    let pre = cs.drop_last();
    if i < pre.len() {
        assert(pre[i] == cs[i]);
        lemma_name_width_bounds(pre, i);
    }
}

/// When names are plain ASCII (one byte per character), every row's address
/// column starts at the same offset: the padded name is exactly as wide as the
/// widest name.
pub proof fn lemma_rows_aligned(cs: Seq<ForwardConfig>, i: int)
    requires
        0 <= i < cs.len(),
        forall|j: int| 0 <= j < cs.len() ==> byte_len((#[trigger] cs[j]).name@) == cs[j].name@.len(),
    ensures
        pad_to(cs[i].name@, name_width(cs)).len() == name_width(cs),
{
    lemma_name_width_bounds(cs, i);
    if cs[i].name@.len() < name_width(cs) {
        assert(pad_to(cs[i].name@, name_width(cs)).len() == name_width(cs));
    }
}

// ---------------------------------------------------------------------------
// The startup summary
// ---------------------------------------------------------------------------

/// How many forwards came up.
pub open spec fn count_established(ss: Seq<ForwardStatus>) -> nat
    decreases ss.len(),
{
    if ss.len() == 0 {
        0
    } else {
        count_established(ss.drop_last()) + if ss.last().established {
            1nat
        } else {
            0nat
        }
    }
}

/// The reason shown for a failed forward.
pub open spec fn failure_reason(s: ForwardStatus) -> Seq<char> {
    match s.detail {
        Some(d) => d@,
        None => "unknown error"@,
    }
}

/// One line per failed forward, in order.
pub open spec fn failure_lines(ss: Seq<ForwardStatus>, color: bool) -> Seq<char>
    decreases ss.len(),
{
    if ss.len() == 0 {
        Seq::empty()
    } else {
        failure_lines(ss.drop_last(), color) + if ss.last().established {
            Seq::empty()
        } else {
            "\n    "@ + painted("\u{2717}"@, "31"@, color) + " "@ + ss.last().name@ + ": "@
                + failure_reason(ss.last())
        }
    }
}

/// The summary line(s) printed once the forwards have settled.
pub open spec fn summary_spec(ss: Seq<ForwardStatus>, color: bool) -> Seq<char> {
    let established = count_established(ss);
    let failed = (ss.len() - established) as nat;
    let head = painted("\u{2713}"@, "32"@, color) + " "@ + decimal(established) + "/"@ + decimal(
        ss.len(),
    ) + " established"@;
    if failed == 0 {
        head
    } else {
        head + "  "@ + painted("\u{2717}"@, "31"@, color) + " "@ + decimal(failed) + " failed"@
            + failure_lines(ss, color)
    }
}

proof fn lemma_count_established_bound(ss: Seq<ForwardStatus>)
    ensures
        count_established(ss) <= ss.len(),
    decreases ss.len(),
{
    if ss.len() > 0 {
        lemma_count_established_bound(ss.drop_last());
    }
}

/// Build the post-startup summary line(s): how many forwards came up and which failed.
pub fn startup_summary(statuses: &[ForwardStatus], color: bool) -> (r: String)
    ensures
        r@ == summary_spec(statuses@, color),
{
    let n = statuses.len();
    let mut established: usize = 0;
    let mut lines = String::new();
    let mut i: usize = 0;
    while i < n
        invariant
            n == statuses@.len(),
            i <= n,
            established == count_established(statuses@.take(i as int)),
            established <= i,
            lines@ == failure_lines(statuses@.take(i as int), color),
        decreases n - i,
    {
        let ghost pre = statuses@.take(i as int);
        let ghost post = statuses@.take(i + 1);
        assert(post.drop_last() =~= pre);
        assert(post.last() == statuses@[i as int]);
        let ghost before = lines@;
        let s = &statuses[i];
        if s.established {
            established = established + 1;
        } else {
            lines.append("\n    ");
            let mark = red("\u{2717}", color);
            lines.append(mark.as_str());
            lines.append(" ");
            lines.append(s.name.as_str());
            lines.append(": ");
            match &s.detail {
                Some(d) => lines.append(d.as_str()),
                None => lines.append("unknown error"),
            }
        }
        assert(lines@ =~= failure_lines(post, color));
        i = i + 1;
    }
    assert(statuses@.take(n as int) =~= statuses@);
    let failed = n - established;
    let mut out = green("\u{2713}", color);
    out.append(" ");
    push_decimal(&mut out, established as u128);
    out.append("/");
    push_decimal(&mut out, n as u128);
    out.append(" established");
    if failed == 0 {
        return out;
    }
    out.append("  ");
    let mark = red("\u{2717}", color);
    out.append(mark.as_str());
    out.append(" ");
    push_decimal(&mut out, failed as u128);
    out.append(" failed");
    out.append(lines.as_str());
    out
}

/// Every forward is counted once, as established or as failed, and there is
/// one failure line for each failed forward.
pub proof fn lemma_summary_counts(ss: Seq<ForwardStatus>)
    ensures
        count_established(ss) <= ss.len(),
        count_established(ss) == ss.len() ==> summary_spec(ss, false) == "\u{2713}"@ + " "@
            + decimal(ss.len()) + "/"@ + decimal(ss.len()) + " established"@,
{
    lemma_count_established_bound(ss);
}

// ---------------------------------------------------------------------------
// What colour adds to the summary
// ---------------------------------------------------------------------------

/// `s` holds no escape character.
pub open spec fn escape_free(s: Seq<char>) -> bool {
    forall|i: int| 0 <= i < s.len() ==> s[i] != '\x1b'
}

/// The length of the colour code that `s` starts with, or 0: green
/// (`ESC[32m`), red (`ESC[31m`) or reset (`ESC[0m`).
pub open spec fn color_code_len(s: Seq<char>) -> nat {
    if s.len() >= 5 && s[0] == '\x1b' && s[1] == '[' && s[2] == '3' && (s[3] == '2' || s[3]
        == '1') && s[4] == 'm' {
        5
    } else if s.len() >= 4 && s[0] == '\x1b' && s[1] == '[' && s[2] == '0' && s[3] == 'm' {
        4
    } else {
        0
    }
}

/// `s` with every green, red and reset code removed.
pub open spec fn strip_colors(s: Seq<char>) -> Seq<char>
    decreases s.len(),
{
    if s.len() == 0 {
        s
    } else if color_code_len(s) > 0 {
        strip_colors(s.skip(color_code_len(s) as int))
    } else {
        seq![s[0]] + strip_colors(s.drop_first())
    }
}

/// Every escape character in `s` starts a whole colour code within `s`.
pub open spec fn codes_whole(s: Seq<char>) -> bool {
    forall|i: int| 0 <= i < s.len() && s[i] == '\x1b' ==> color_code_len(#[trigger] s.skip(i)) > 0
}

proof fn lemma_code_len_extends(x: Seq<char>, y: Seq<char>)
    requires
        color_code_len(x) > 0,
    ensures
        color_code_len(x + y) == color_code_len(x),
{
    assert((x + y)[0] == x[0] && (x + y)[1] == x[1] && (x + y)[2] == x[2] && (x + y)[3] == x[3]);
    if x.len() >= 5 {
        assert((x + y)[4] == x[4]);
    }
}

proof fn lemma_escape_free_whole(s: Seq<char>)
    requires
        escape_free(s),
    ensures
        codes_whole(s),
        strip_colors(s) == s,
    decreases s.len(),
{
    if s.len() > 0 {
        assert(color_code_len(s) == 0);
        let t = s.drop_first();
        assert(escape_free(t)) by {
            assert forall|i: int| 0 <= i < t.len() implies t[i] != '\x1b' by {
                assert(t[i] == s[i + 1]);
            }
        }
        lemma_escape_free_whole(t);
        assert(seq![s[0]] + t =~= s);
    }
}

proof fn lemma_escape_free_concat(a: Seq<char>, b: Seq<char>)
    requires
        escape_free(a),
        escape_free(b),
    ensures
        escape_free(a + b),
{
    assert forall|i: int| 0 <= i < (a + b).len() implies (a + b)[i] != '\x1b' by {
        if i < a.len() {
            assert((a + b)[i] == a[i]);
        } else {
            assert((a + b)[i] == b[i - a.len()]);
        }
    }
}

proof fn lemma_whole_concat(a: Seq<char>, b: Seq<char>)
    requires
        codes_whole(a),
        codes_whole(b),
    ensures
        codes_whole(a + b),
{
    assert forall|i: int| 0 <= i < (a + b).len() && (a + b)[i] == '\x1b' implies color_code_len(
        #[trigger] (a + b).skip(i),
    ) > 0 by {
        if i < a.len() {
            assert((a + b)[i] == a[i]);
            assert(color_code_len(a.skip(i)) > 0);
            lemma_code_len_extends(a.skip(i), b);
            assert(a.skip(i) + b =~= (a + b).skip(i));
        } else {
            assert((a + b)[i] == b[i - a.len()]);
            assert(color_code_len(b.skip(i - a.len())) > 0);
            assert(b.skip(i - a.len()) =~= (a + b).skip(i));
        }
    }
}

/// Removing the codes from a concatenation removes them from each part, when
/// the first part holds its codes whole.
proof fn lemma_strip_concat(a: Seq<char>, b: Seq<char>)
    requires
        codes_whole(a),
    ensures
        strip_colors(a + b) == strip_colors(a) + strip_colors(b),
    decreases a.len(),
{
    if a.len() == 0 {
        assert(a + b =~= b);
        assert(strip_colors(a) + strip_colors(b) =~= strip_colors(b));
    } else if a[0] == '\x1b' {
        assert(a.skip(0) =~= a);
        let k = color_code_len(a) as int;
        lemma_code_len_extends(a, b);
        let rest = a.skip(k);
        assert(codes_whole(rest)) by {
            assert forall|i: int| 0 <= i < rest.len() && rest[i] == '\x1b' implies color_code_len(
                #[trigger] rest.skip(i),
            ) > 0 by {
                assert(rest[i] == a[i + k]);
                assert(rest.skip(i) =~= a.skip(i + k));
            }
        }
        assert((a + b).skip(k) =~= rest + b);
        lemma_strip_concat(rest, b);
    } else {
        assert(color_code_len(a) == 0);
        assert((a + b)[0] == a[0]);
        assert(color_code_len(a + b) == 0);
        let rest = a.drop_first();
        assert(codes_whole(rest)) by {
            assert forall|i: int| 0 <= i < rest.len() && rest[i] == '\x1b' implies color_code_len(
                #[trigger] rest.skip(i),
            ) > 0 by {
                assert(rest[i] == a[i + 1]);
                assert(rest.skip(i) =~= a.skip(i + 1));
            }
        }
        assert((a + b).drop_first() =~= rest + b);
        lemma_strip_concat(rest, b);
        assert(seq![a[0]] + (strip_colors(rest) + strip_colors(b)) =~= (seq![a[0]]
            + strip_colors(rest)) + strip_colors(b));
    }
}

/// A green or red painted text holds its codes whole, and removing them gives the text.
proof fn lemma_strip_painted(t: Seq<char>, code: Seq<char>)
    requires
        escape_free(t),
        code == "32"@ || code == "31"@,
    ensures
        codes_whole(painted(t, code, true)),
        strip_colors(painted(t, code, true)) == t,
{
    reveal_strlit("\x1b[");
    reveal_strlit("m");
    reveal_strlit("\x1b[0m");
    reveal_strlit("32");
    reveal_strlit("31");
    reveal_with_fuel(strip_colors, 2);
    let open = "\x1b["@ + code + "m"@;
    let close = "\x1b[0m"@;
    assert(open.len() == 5);
    assert(color_code_len(open) == 5);
    assert(open.skip(5) =~= Seq::<char>::empty());
    assert(strip_colors(open) == Seq::<char>::empty());
    assert(codes_whole(open)) by {
        assert forall|i: int| 0 <= i < open.len() && open[i] == '\x1b' implies color_code_len(
            #[trigger] open.skip(i),
        ) > 0 by {
            assert(i == 0);
            assert(open.skip(0) =~= open);
        }
    }
    assert(color_code_len(close) == 4);
    assert(close.skip(4) =~= Seq::<char>::empty());
    assert(strip_colors(close) == Seq::<char>::empty());
    assert(codes_whole(close)) by {
        assert forall|i: int| 0 <= i < close.len() && close[i] == '\x1b' implies color_code_len(
            #[trigger] close.skip(i),
        ) > 0 by {
            assert(i == 0);
            assert(close.skip(0) =~= close);
        }
    }
    lemma_escape_free_whole(t);
    lemma_whole_concat(t, close);
    lemma_whole_concat(open, t + close);
    lemma_strip_concat(open, t + close);
    lemma_strip_concat(t, close);
    assert(painted(t, code, true) =~= open + (t + close));
    assert(Seq::<char>::empty() + (t + Seq::<char>::empty()) =~= t);
}

proof fn lemma_decimal_escape_free(n: nat)
    ensures
        escape_free(decimal(n)),
    decreases n,
{
    if n >= 10 {
        lemma_decimal_escape_free(n / 10);
        assert forall|i: int| 0 <= i < decimal(n).len() implies decimal(n)[i] != '\x1b' by {
            if i < decimal(n / 10).len() {
                assert(decimal(n)[i] == decimal(n / 10)[i]);
            }
        }
    }
}

/// A piece `plain + painted(mark) + rest` holds its codes whole, and stripping
/// it gives the same piece drawn without colour.
proof fn lemma_strip_marked(pre: Seq<char>, mark: Seq<char>, code: Seq<char>, post: Seq<char>)
    requires
        escape_free(pre),
        escape_free(mark),
        escape_free(post),
        code == "32"@ || code == "31"@,
    ensures
        codes_whole(pre + painted(mark, code, true) + post),
        strip_colors(pre + painted(mark, code, true) + post) == pre + mark + post,
        escape_free(pre + mark + post),
{
    let m = painted(mark, code, true);
    lemma_strip_painted(mark, code);
    lemma_escape_free_whole(pre);
    lemma_escape_free_whole(post);
    lemma_whole_concat(m, post);
    lemma_whole_concat(pre, m + post);
    lemma_strip_concat(pre, m + post);
    lemma_strip_concat(m, post);
    assert(pre + m + post =~= pre + (m + post));
    assert(pre + (mark + post) =~= pre + mark + post);
    lemma_escape_free_concat(pre, mark);
    lemma_escape_free_concat(pre + mark, post);
}

/// The statuses' names and reasons hold no escape character.
pub open spec fn statuses_escape_free(ss: Seq<ForwardStatus>) -> bool {
    forall|i: int|
        0 <= i < ss.len() ==> escape_free((#[trigger] ss[i]).name@) && escape_free(
            failure_reason(ss[i]),
        )
}

proof fn lemma_failure_lines_strip(ss: Seq<ForwardStatus>)
    requires
        statuses_escape_free(ss),
    ensures
        codes_whole(failure_lines(ss, true)),
        strip_colors(failure_lines(ss, true)) == failure_lines(ss, false),
        escape_free(failure_lines(ss, false)),
    decreases ss.len(),
{
    reveal_strlit("\n    ");
    reveal_strlit(" ");
    reveal_strlit(": ");
    reveal_strlit("\u{2717}");
    if ss.len() == 0 {
        lemma_escape_free_whole(Seq::<char>::empty());
    } else {
        let pre = ss.drop_last();
        assert(statuses_escape_free(pre)) by {
            assert forall|i: int| 0 <= i < pre.len() implies escape_free(
                (#[trigger] pre[i]).name@,
            ) && escape_free(failure_reason(pre[i])) by {
                assert(pre[i] == ss[i]);
            }
        }
        lemma_failure_lines_strip(pre);
        let last = ss.last();
        assert(last == ss[ss.len() - 1]);
        let a = failure_lines(pre, true);
        if last.established {
            assert(failure_lines(ss, true) =~= a);
            assert(failure_lines(ss, false) =~= failure_lines(pre, false));
        } else {
            let post = " "@ + last.name@ + ": "@ + failure_reason(last);
            lemma_escape_free_concat(" "@, last.name@);
            lemma_escape_free_concat(" "@ + last.name@, ": "@);
            lemma_escape_free_concat(" "@ + last.name@ + ": "@, failure_reason(last));
            lemma_strip_marked("\n    "@, "\u{2717}"@, "31"@, post);
            let x = "\n    "@ + painted("\u{2717}"@, "31"@, true) + post;
            let y = "\n    "@ + "\u{2717}"@ + post;
            assert(failure_lines(ss, true) =~= a + x);
            assert(failure_lines(ss, false) =~= failure_lines(pre, false) + y);
            assert(painted("\u{2717}"@, "31"@, false) == "\u{2717}"@);
            lemma_whole_concat(a, x);
            lemma_strip_concat(a, x);
            lemma_escape_free_concat(failure_lines(pre, false), y);
        }
    }
}

/// The count line of the summary, drawn with and without colour.
proof fn lemma_summary_head(ss: Seq<ForwardStatus>)
    ensures
        ({
            let tail = " "@ + decimal(count_established(ss)) + "/"@ + decimal(ss.len())
                + " established"@;
            &&& codes_whole(painted("\u{2713}"@, "32"@, true) + tail)
            &&& strip_colors(painted("\u{2713}"@, "32"@, true) + tail) == "\u{2713}"@ + tail
            &&& escape_free("\u{2713}"@ + tail)
            &&& (painted("\u{2713}"@, "32"@, true) + tail)[0] == '\x1b'
        }),
{
    reveal_strlit(" ");
    reveal_strlit("/");
    reveal_strlit(" established");
    reveal_strlit("\u{2713}");
    reveal_strlit("\x1b[");
    let established = count_established(ss);
    lemma_decimal_escape_free(established);
    lemma_decimal_escape_free(ss.len());
    let tail = " "@ + decimal(established) + "/"@ + decimal(ss.len()) + " established"@;
    lemma_escape_free_concat(" "@, decimal(established));
    lemma_escape_free_concat(" "@ + decimal(established), "/"@);
    lemma_escape_free_concat(" "@ + decimal(established) + "/"@, decimal(ss.len()));
    lemma_escape_free_concat(" "@ + decimal(established) + "/"@ + decimal(ss.len()), " established"@);
    lemma_strip_marked(Seq::<char>::empty(), "\u{2713}"@, "32"@, tail);
    assert(Seq::<char>::empty() + painted("\u{2713}"@, "32"@, true) + tail =~= painted(
        "\u{2713}"@,
        "32"@,
        true,
    ) + tail);
    assert(Seq::<char>::empty() + "\u{2713}"@ + tail =~= "\u{2713}"@ + tail);
}

/// The failure count of the summary, drawn with and without colour.
proof fn lemma_summary_failed(failed: nat)
    ensures
        ({
            let post = " "@ + decimal(failed) + " failed"@;
            &&& codes_whole("  "@ + painted("\u{2717}"@, "31"@, true) + post)
            &&& strip_colors("  "@ + painted("\u{2717}"@, "31"@, true) + post) == "  "@
                + "\u{2717}"@ + post
            &&& escape_free("  "@ + "\u{2717}"@ + post)
        }),
{
    reveal_strlit(" ");
    reveal_strlit("  ");
    reveal_strlit(" failed");
    reveal_strlit("\u{2717}");
    lemma_decimal_escape_free(failed);
    let post = " "@ + decimal(failed) + " failed"@;
    lemma_escape_free_concat(" "@, decimal(failed));
    lemma_escape_free_concat(" "@ + decimal(failed), " failed"@);
    lemma_strip_marked("  "@, "\u{2717}"@, "31"@, post);
}

/// Colour only adds the green, red and reset codes to the startup summary: when
/// no name or reason holds an escape character, the plain summary holds none,
/// the coloured one does, and removing those codes from it gives the plain one.
#[verifier::rlimit(60)]
pub proof fn lemma_summary_color_only_adds_codes(ss: Seq<ForwardStatus>)
    requires
        statuses_escape_free(ss),
    ensures
        escape_free(summary_spec(ss, false)),
        summary_spec(ss, true).contains('\x1b'),
        strip_colors(summary_spec(ss, true)) == summary_spec(ss, false),
{
    let established = count_established(ss);
    let failed = (ss.len() - established) as nat;
    lemma_summary_head(ss);
    let tail = " "@ + decimal(established) + "/"@ + decimal(ss.len()) + " established"@;
    let head_c = painted("\u{2713}"@, "32"@, true) + tail;
    let head_p = "\u{2713}"@ + tail;
    assert(painted("\u{2713}"@, "32"@, false) == "\u{2713}"@);
    if failed == 0 {
        assert(summary_spec(ss, true) == head_c);
        assert(summary_spec(ss, false) == head_p);
    } else {
        lemma_failure_lines_strip(ss);
        lemma_summary_failed(failed);
        let post = " "@ + decimal(failed) + " failed"@;
        let mid_c = "  "@ + painted("\u{2717}"@, "31"@, true) + post;
        let mid_p = "  "@ + "\u{2717}"@ + post;
        assert(painted("\u{2717}"@, "31"@, false) == "\u{2717}"@);
        let fc = failure_lines(ss, true);
        let fp = failure_lines(ss, false);
        assert(summary_spec(ss, true) =~= head_c + (mid_c + fc));
        assert(summary_spec(ss, false) =~= head_p + (mid_p + fp));
        lemma_whole_concat(mid_c, fc);
        lemma_strip_concat(head_c, mid_c + fc);
        lemma_strip_concat(mid_c, fc);
        lemma_escape_free_concat(mid_p, fp);
        lemma_escape_free_concat(head_p, mid_p + fp);
        assert((head_c + (mid_c + fc))[0] == head_c[0]);
    }
    assert(summary_spec(ss, true)[0] == '\x1b');
}

// ---------------------------------------------------------------------------
// Banner, footer and validation report
// ---------------------------------------------------------------------------

/// The startup banner: `kube-forward <version> — <n> forward(s) configured`,
/// followed by a blank line.
pub fn startup_banner(version: &str, count: usize, color: bool) -> (r: String)
    ensures
        r@ == painted("kube-forward"@, "1"@, color) + " "@ + version@ + " \u{2014} "@ + decimal(
            count as nat,
        ) + " forward"@ + (if count == 1 {
            ""@
        } else {
            "s"@
        }) + " configured\n"@,
{
    let mut s = bold("kube-forward", color);
    s.append(" ");
    s.append(version);
    s.append(" \u{2014} ");
    push_decimal(&mut s, count as u128);
    s.append(" forward");
    if count == 1 {
        s.append("");
    } else {
        s.append("s");
    }
    s.append(" configured\n");
    s
}

/// The footer printed after the summary.
pub fn watching_footer(color: bool) -> (r: String)
    ensures
        r@ == painted("watching for changes, press Ctrl-C to stop"@, "2"@, color),
{
    dim("watching for changes, press Ctrl-C to stop", color)
}

/// The closing line of a validation report.
pub open spec fn verdict_line(errors: nat, color: bool) -> Seq<char> {
    if errors == 0 {
        painted("\u{2713}"@, "32"@, color) + " configuration is valid"@
    } else {
        painted("\u{2717}"@, "31"@, color) + " "@ + decimal(errors) + " error"@ + (if errors
            == 1 {
            ""@
        } else {
            "s"@
        }) + " found"@
    }
}

/// Each of `xs` preceded by `prefix` and a space.
pub open spec fn prefixed_all(prefix: Seq<char>, xs: Seq<Seq<char>>) -> Seq<Seq<char>>
    decreases xs.len(),
{
    if xs.len() == 0 {
        Seq::empty()
    } else {
        prefixed_all(prefix, xs.drop_last()).push(prefix + " "@ + xs.last())
    }
}

/// The lines printed for a validation report: each warning, each error, then the verdict.
pub open spec fn report_lines(report: ValidationReport, color: bool) -> Seq<Seq<char>> {
    prefixed_all(painted("warning:"@, "33"@, color), views(report.warnings@)) + prefixed_all(
        painted("error:"@, "31"@, color),
        views(report.errors@),
    ) + seq![verdict_line(report.errors@.len(), color)]
}

fn push_prefixed_lines(out: &mut Vec<String>, prefix: &String, items: &Vec<String>)
    ensures
        views(final(out)@) == views(old(out)@) + prefixed_all(prefix@, views(items@)),
{
    let n = items.len();
    let mut i: usize = 0;
    while i < n
        invariant
            n == items@.len(),
            i <= n,
            views(out@) == views(old(out)@) + prefixed_all(prefix@, views(items@).take(i as int)),
        decreases n - i,
    {
        let mut line = prefix.clone();
        line.append(" ");
        line.append(items[i].as_str());
        let ghost before = views(out@);
        out.push(line);
        assert(views(out@) =~= before.push(line@));
        assert(views(items@).take(i + 1).drop_last() =~= views(items@).take(i as int));
        assert(views(out@) =~= views(old(out)@) + prefixed_all(prefix@, views(items@).take(i + 1)));
        i = i + 1;
    }
    assert(views(items@).take(n as int) =~= views(items@));
}

/// The report as lines to print, and whether it is valid.
pub fn validation_lines(report: &ValidationReport, color: bool) -> (r: (Vec<String>, bool))
    ensures
        views(r.0@) == report_lines(*report, color),
        r.1 == (report.errors@.len() == 0),
{
    let mut out: Vec<String> = Vec::new();
    let warning = yellow("warning:", color);
    push_prefixed_lines(&mut out, &warning, &report.warnings);
    let error = red("error:", color);
    push_prefixed_lines(&mut out, &error, &report.errors);
    let valid = report.is_valid();
    let last = if valid {
        let mut s = green("\u{2713}", color);
        s.append(" configuration is valid");
        s
    } else {
        let n = report.errors.len();
        let mut s = red("\u{2717}", color);
        s.append(" ");
        push_decimal(&mut s, n as u128);
        s.append(" error");
        if n != 1 {
            s.append("s");
        }
        s.append(" found");
        s
    };
    proof {
        reveal_strlit("");
        if !valid {
            assert(last@ =~= verdict_line(report.errors@.len(), color));
        }
    }
    let ghost before = views(out@);
    out.push(last);
    assert(views(out@) =~= before.push(last@));
    assert(views(out@) =~= report_lines(*report, color));
    (out, valid)
}

// ---------------------------------------------------------------------------
// Assembling the startup statuses
// ---------------------------------------------------------------------------

/// The view of an optional string.
pub open spec fn opt_string_view(o: Option<String>) -> Option<Seq<char>> {
    match o {
        Some(s) => Some(s@),
        None => None,
    }
}

impl View for ForwardStatus {
    type V = (Seq<char>, bool, Option<Seq<char>>);

    /// Name, whether established, and the detail.
    open spec fn view(&self) -> (Seq<char>, bool, Option<Seq<char>>) {
        (self.name@, self.established, opt_string_view(self.detail))
    }
}

/// The status reported for a forward that settled (or not) in state `st`.
pub open spec fn state_status(name: Seq<char>, st: ForwardState) -> (Seq<char>, bool, Option<Seq<char>>) {
    match st {
        ForwardState::Connected => (name, true, None),
        ForwardState::Failed(m) => (name, false, Some(m@)),
        _ => (name, false, Some("still connecting (timed out)"@)),
    }
}

/// The status of a forward named `name` whose state is `state`: established
/// when connected, failed with its message when failed, and otherwise still
/// connecting.
pub fn status_from_state(name: String, state: &ForwardState) -> (r: ForwardStatus)
    ensures
        r@ == state_status(name@, *state),
{
    match state {
        ForwardState::Connected => ForwardStatus { name, established: true, detail: None },
        ForwardState::Failed(m) => ForwardStatus {
            name,
            established: false,
            detail: Some(m.clone()),
        },
        _ => ForwardStatus {
            name,
            established: false,
            detail: Some(String::from_str("still connecting (timed out)")),
        },
    }
}

/// The last failure recorded for `name`.
pub open spec fn last_failure(fs: Seq<ForwardStatus>, name: Seq<char>) -> Option<
    (Seq<char>, bool, Option<Seq<char>>),
>
    decreases fs.len(),
{
    if fs.len() == 0 {
        None
    } else if fs.last().name@ == name {
        Some(fs.last()@)
    } else {
        last_failure(fs.drop_last(), name)
    }
}

/// The status from the last state recorded for `name`.
pub open spec fn last_state(ss: Seq<(String, ForwardState)>, name: Seq<char>) -> Option<
    (Seq<char>, bool, Option<Seq<char>>),
>
    decreases ss.len(),
{
    if ss.len() == 0 {
        None
    } else if ss.last().0@ == name {
        Some(state_status(name, ss.last().1))
    } else {
        last_state(ss.drop_last(), name)
    }
}

/// The status shown for `name`: a failure to set the forward up wins over the
/// state it reached.
pub open spec fn status_for(
    states: Seq<(String, ForwardState)>,
    failures: Seq<ForwardStatus>,
    name: Seq<char>,
) -> Option<(Seq<char>, bool, Option<Seq<char>>)> {
    match last_failure(failures, name) {
        Some(v) => Some(v),
        None => last_state(states, name),
    }
}

/// Whether an earlier forward than the last has the same name as it.
pub open spec fn repeats_earlier_name(cs: Seq<ForwardConfig>) -> bool {
    exists|j: int| 0 <= j < cs.len() - 1 && (#[trigger] cs[j]).name@ == cs.last().name@
}

/// The statuses in configuration order, one per name (its first forward).
pub open spec fn collected_statuses(
    cs: Seq<ForwardConfig>,
    states: Seq<(String, ForwardState)>,
    failures: Seq<ForwardStatus>,
) -> Seq<(Seq<char>, bool, Option<Seq<char>>)>
    decreases cs.len(),
{
    if cs.len() == 0 {
        Seq::empty()
    } else {
        let pre = collected_statuses(cs.drop_last(), states, failures);
        if repeats_earlier_name(cs) {
            pre
        } else {
            match status_for(states, failures, cs.last().name@) {
                Some(v) => pre.push(v),
                None => pre,
            }
        }
    }
}

fn find_failure(failures: &[ForwardStatus], name: &str) -> (r: Option<ForwardStatus>)
    ensures
        match last_failure(failures@, name@) {
            Some(v) => r matches Some(x) && x@ == v,
            None => r is None,
        },
{
    let mut i = failures.len();
    assert(failures@.take(i as int) =~= failures@);
    while i > 0
        invariant
            i <= failures@.len(),
            last_failure(failures@, name@) == last_failure(failures@.take(i as int), name@),
        decreases i,
    {
        let ghost pre = failures@.take(i as int);
        assert(pre.drop_last() =~= failures@.take(i - 1));
        assert(pre.last() == failures@[i - 1]);
        let f = &failures[i - 1];
        if str_eq(f.name.as_str(), name) {
            return Some(
                ForwardStatus {
                    name: f.name.clone(),
                    established: f.established,
                    detail: match &f.detail {
                        Some(d) => Some(d.clone()),
                        None => None,
                    },
                },
            );
        }
        i = i - 1;
    }
    None
}

fn find_state(states: &[(String, ForwardState)], name: &str) -> (r: Option<ForwardStatus>)
    ensures
        match last_state(states@, name@) {
            Some(v) => r matches Some(x) && x@ == v,
            None => r is None,
        },
{
    let mut i = states.len();
    assert(states@.take(i as int) =~= states@);
    while i > 0
        invariant
            i <= states@.len(),
            last_state(states@, name@) == last_state(states@.take(i as int), name@),
        decreases i,
    {
        let ghost pre = states@.take(i as int);
        assert(pre.drop_last() =~= states@.take(i - 1));
        assert(pre.last() == states@[i - 1]);
        let s = &states[i - 1];
        if str_eq(s.0.as_str(), name) {
            return Some(status_from_state(s.0.clone(), &s.1));
        }
        i = i - 1;
    }
    None
}

/// The startup summary's statuses: for each configured forward in order (once
/// per name), the failure recorded while setting it up if any, else the status
/// from the state it settled in; forwards with neither are left out.
pub fn collect_statuses(
    configs: &[ForwardConfig],
    states: &[(String, ForwardState)],
    failures: &[ForwardStatus],
) -> (r: Vec<ForwardStatus>)
    ensures
        r@.map_values(|s: ForwardStatus| s@) == collected_statuses(configs@, states@, failures@),
{
    let mut out: Vec<ForwardStatus> = Vec::new();
    let n = configs.len();
    let mut i: usize = 0;
    while i < n
        invariant
            n == configs@.len(),
            i <= n,
            out@.map_values(|s: ForwardStatus| s@) == collected_statuses(
                configs@.take(i as int),
                states@,
                failures@,
            ),
        decreases n - i,
    {
        let ghost pre = configs@.take(i as int);
        let ghost post = configs@.take(i + 1);
        assert(post.drop_last() =~= pre);
        assert(post.last() == configs@[i as int]);
        let name = configs[i].name.as_str();
        let mut seen = false;
        let mut j: usize = 0;
        while j < i
            invariant
                i < n,
                n == configs@.len(),
                j <= i,
                name@ == configs@[i as int].name@,
                seen == exists|k: int| 0 <= k < j && (#[trigger] configs@[k]).name@ == name@,
            decreases i - j,
        {
            if str_eq(configs[j].name.as_str(), name) {
                seen = true;
            }
            j = j + 1;
        }
        assert(seen == repeats_earlier_name(post)) by {
            if seen {
                let k = choose|k: int| 0 <= k < i && (#[trigger] configs@[k]).name@ == name@;
                assert(post[k] == configs@[k]);
            }
            if repeats_earlier_name(post) {
                let k = choose|k: int| 0 <= k < post.len() - 1 && (#[trigger] post[k]).name@ == post.last().name@;
                assert(post[k] == configs@[k]);
            }
        }
        let ghost before = out@;
        if !seen {
            let found = match find_failure(failures, name) {
                Some(f) => Some(f),
                None => find_state(states, name),
            };
            match found {
                Some(s) => {
                    out.push(s);
                },
                None => {},
            }
        }
        assert(out@.map_values(|s: ForwardStatus| s@) =~= collected_statuses(post, states@, failures@));
        i = i + 1;
    }
    assert(configs@.take(n as int) =~= configs@);
    out
}

} // verus!
