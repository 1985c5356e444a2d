//! The text the tool prints: headers, footers, one summary line per
//! service, the lines of a command's output in verbose mode, and the reason
//! a failed step gives.

use vstd::prelude::*;

use crate::command::Output;
use crate::launchctl::string_views;
use crate::services::{scope_name, Service, LABEL_PAD};
use crate::text::{
    chars_of, is_ws, lemma_split_line, lemma_trim_start_ws_prefix, lines, lines_of,
    push_signed_decimal, signed_decimal, strip_cr, trim_ws, trim_ws_range,
};

verus! {

/// Outcome of the operation on one service in `off` or `on`.
pub struct OpOutcome {
    pub service: Service,
    pub ok: bool,
    pub reason: Option<String>,
}

/// Which way the services are toggled.
#[derive(Debug, Clone, Copy, PartialEq, Eq, Structural)]
pub enum Toggle {
    /// Disable and boot out every service.
    Off,
    /// Enable and bootstrap every service.
    On,
}

pub open spec fn header_of(t: Toggle) -> Seq<char> {
    match t {
        Toggle::Off => "Disabling Zscaler for this session."@,
        Toggle::On => "Re-enabling Zscaler launchd services."@,
    }
}

pub open spec fn footer_of(t: Toggle) -> Seq<char> {
    match t {
        Toggle::Off => "Done. Run `muzzle on` to re-enable."@,
        Toggle::On => "Done. Zscaler launchd services are enabled and bootstrapped in the current session."@,
    }
}

/// The line printed before the per-service summary.
pub fn header(t: Toggle) -> (r: &'static str)
    ensures
        r@ == header_of(t),
{
    match t {
        Toggle::Off => "Disabling Zscaler for this session.",
        Toggle::On => "Re-enabling Zscaler launchd services.",
    }
}

/// The line printed after the per-service summary.
pub fn footer(t: Toggle) -> (r: &'static str)
    ensures
        r@ == footer_of(t),
{
    match t {
        Toggle::Off => "Done. Run `muzzle on` to re-enable.",
        Toggle::On => "Done. Zscaler launchd services are enabled and bootstrapped in the current session.",
    }
}

/// `n` spaces.
pub open spec fn spaces(n: nat) -> Seq<char> {
    Seq::new(n, |i: int| ' ')
}

/// `s` padded with spaces on the right to `width` characters; longer text
/// is left as it is.
pub open spec fn pad_right(s: Seq<char>, width: nat) -> Seq<char> {
    if s.len() < width {
        s + spaces((width - s.len()) as nat)
    } else {
        s
    }
}

/// A reason, or `unknown error` where there is none.
pub open spec fn reason_or_default(reason: Option<Seq<char>>) -> Seq<char> {
    match reason {
        Some(r) => r,
        None => "unknown error"@,
    }
}

/// The summary line of one outcome, after the mark (a check or a cross):
/// `  <mark> <label padded> (<scope>)`, and ` failed: <reason>` for a failure.
pub open spec fn summary_text(
    label: Seq<char>,
    scope: crate::services::Scope,
    ok: bool,
    reason: Option<Seq<char>>,
    mark: Seq<char>,
) -> Seq<char> {
    let base = "  "@ + mark + " "@ + pad_right(label, LABEL_PAD as nat) + " ("@ + scope_name(scope)
        + ")"@;
    if ok {
        base
    } else {
        base + " failed: "@ + reason_or_default(reason)
    }
}

/// The mark of an outcome: a check for success, a cross for failure.
pub open spec fn mark_of(ok: bool) -> Seq<char> {
    if ok {
        "✓"@
    } else {
        "✗"@
    }
}

/// The mark that opens the summary line of an outcome.
pub fn mark(ok: bool) -> (r: &'static str)
    ensures
        r@ == mark_of(ok),
{
    if ok {
        "✓"
    } else {
        "✗"
    }
}

/// The summary line of a failed service, with its mark, is
/// `  ✗ <label padded to 32> (<scope>) failed: <reason>`, the reason being
/// `unknown error` where none was given.
pub proof fn law_failed_line_shows_cross(
    label: Seq<char>,
    scope: crate::services::Scope,
    reason: Option<Seq<char>>,
)
    ensures
        summary_text(label, scope, false, reason, mark_of(false)) == "  ✗ "@ + pad_right(
            label,
            32,
        ) + " ("@ + scope_name(scope) + ") failed: "@ + reason_or_default(reason),
{
    reveal_strlit("  ✗ ");
    reveal_strlit("  ");
    reveal_strlit("✗");
    reveal_strlit(" ");
    reveal_strlit(")");
    reveal_strlit(") failed: ");
    reveal_strlit(" failed: ");
    assert(summary_text(label, scope, false, reason, mark_of(false)) =~= "  ✗ "@ + pad_right(
        label,
        32,
    ) + " ("@ + scope_name(scope) + ") failed: "@ + reason_or_default(reason));
}

/// The summary line of a service that went well, with its mark, is
/// `  ✓ <label padded to 32> (<scope>)`.
pub proof fn law_ok_line_shows_check(
    label: Seq<char>,
    scope: crate::services::Scope,
    reason: Option<Seq<char>>,
)
    ensures
        summary_text(label, scope, true, reason, mark_of(true)) == "  ✓ "@ + pad_right(label, 32)
            + " ("@ + scope_name(scope) + ")"@,
{
    reveal_strlit("  ✓ ");
    reveal_strlit("  ");
    reveal_strlit("✓");
    reveal_strlit(" ");
    assert(summary_text(label, scope, true, reason, mark_of(true)) =~= "  ✓ "@ + pad_right(
        label,
        32,
    ) + " ("@ + scope_name(scope) + ")"@);
}

pub open spec fn opt_view(o: Option<String>) -> Option<Seq<char>> {
    match o {
        Some(s) => Some(s@),
        None => None,
    }
}

fn push_padded(out: &mut String, s: &str, width: usize)
    ensures
        final(out)@ == old(out)@ + pad_right(s@, width as nat),
{
    let n = s.unicode_len();
    out.append(s);
    if n < width {
        let ghost base = out@;
        let mut k: usize = n;
        while k < width
            invariant
                n <= k <= width,
                n == s@.len(),
                base == old(out)@ + s@,
                out@ == base + spaces((k - n) as nat),
            decreases width - k,
        {
            out.append(" ");
            proof {
                reveal_strlit(" ");
            }
            k = k + 1;
            assert(out@ =~= base + spaces((k - n) as nat));
        }
        assert(out@ =~= old(out)@ + pad_right(s@, width as nat));
    } else {
        assert(out@ =~= old(out)@ + pad_right(s@, width as nat));
    }
}

/// Render one summary line, with `mark` standing for the check or cross.
pub fn summary_line(outcome: &OpOutcome, mark: &str) -> (r: String)
    ensures
        r@ == summary_text(
            outcome.service.label@,
            outcome.service.scope,
            outcome.ok,
            opt_view(outcome.reason),
            mark@,
        ),
{
    let mut out = String::from_str("  ");
    out.append(mark);
    out.append(" ");
    push_padded(&mut out, outcome.service.label, LABEL_PAD);
    out.append(" (");
    out.append(outcome.service.scope.as_str());
    out.append(")");
    if !outcome.ok {
        out.append(" failed: ");
        match &outcome.reason {
            Some(r) => out.append(r.as_str()),
            None => out.append("unknown error"),
        }
    }
    out
}

/// The prefix of each line of a command's output in verbose mode.
pub open spec fn log_prefix() -> Seq<char> {
    "    │ "@
}

/// The lines echoed in verbose mode: every line of standard output, then
/// every line of standard error, each behind the prefix.
pub open spec fn log_lines_of(stdout: Seq<char>, stderr: Seq<char>) -> Seq<Seq<char>> {
    (lines(stdout) + lines(stderr)).map_values(|l: Seq<char>| log_prefix() + l)
}

fn push_prefixed(out: &mut Vec<String>, text: &str)
    ensures
        string_views(final(out)@) == string_views(old(out)@) + lines(text@).map_values(
            |l: Seq<char>| log_prefix() + l,
        ),
{
    let ls = lines_of(text);
    let n = ls.len();
    let ghost start = string_views(out@);
    let mut i: usize = 0;
    while i < n
        invariant
            n == ls@.len(),
            n == lines(text@).len(),
            forall|j: int| 0 <= j < n ==> #[trigger] ls@[j]@ == lines(text@)[j],
            i <= n,
            string_views(out@) == start + lines(text@).take(i as int).map_values(
                |l: Seq<char>| log_prefix() + l,
            ),
        decreases n - i,
    {
        let mut s = String::from_str("    │ ");
        s.append(ls[i].as_str());
        let ghost before = out@;
        out.push(s);
        proof {
            let f = |l: Seq<char>| log_prefix() + l;
            assert(lines(text@).take(i + 1).map_values(f) =~= lines(text@).take(
                i as int,
            ).map_values(f).push(log_prefix() + lines(text@)[i as int]));
            assert(string_views(out@) =~= string_views(before).push(s@));
        }
        i = i + 1;
        assert(string_views(out@) =~= start + lines(text@).take(i as int).map_values(
            |l: Seq<char>| log_prefix() + l,
        ));
    }
    assert(lines(text@).take(n as int) =~= lines(text@));
}

/// The lines a command's output is echoed as in verbose mode.
pub fn log_lines(o: &Output) -> (r: Vec<String>)
    ensures
        string_views(r@) == log_lines_of(o.stdout@, o.stderr@),
{
    let mut out: Vec<String> = Vec::new();
    push_prefixed(&mut out, o.stdout.as_str());
    push_prefixed(&mut out, o.stderr.as_str());
    assert(string_views(out@) =~= log_lines_of(o.stdout@, o.stderr@));
    out
}

/// The first line that is not blank, trimmed.
pub open spec fn first_nonblank(ls: Seq<Seq<char>>) -> Option<Seq<char>>
    decreases ls.len(),
{
    if ls.len() == 0 {
        None
    } else if trim_ws(ls[0]).len() > 0 {
        Some(trim_ws(ls[0]))
    } else {
        first_nonblank(ls.drop_first())
    }
}

/// The first non-blank line of a command's standard error, trimmed.
pub fn first_error_line(stderr: &str) -> (r: Option<String>)
    ensures
        opt_view(r) == first_nonblank(lines(stderr@)),
{
    let ls = lines_of(stderr);
    let n = ls.len();
    let mut i: usize = 0;
    assert(lines(stderr@).skip(0) =~= lines(stderr@));
    while i < n
        invariant
            n == ls@.len(),
            n == lines(stderr@).len(),
            forall|j: int| 0 <= j < n ==> #[trigger] ls@[j]@ == lines(stderr@)[j],
            i <= n,
            first_nonblank(lines(stderr@)) == first_nonblank(lines(stderr@).skip(i as int)),
        decreases n - i,
    {
        let ghost rest = lines(stderr@).skip(i as int);
        assert(rest[0] == ls@[i as int]@);
        assert(rest.drop_first() =~= lines(stderr@).skip(i + 1));
        let line = ls[i].as_str();
        let w = chars_of(line);
        let (a, b) = trim_ws_range(&w, 0, w.len());
        assert(w@.subrange(0, w@.len() as int) =~= w@);
        if a < b {
            return Some(String::from_str(line.substring_char(a, b)));
        }
        i = i + 1;
    }
    None
}

/// How an exit status is written by `{:?}`: `Some(<code>)` or `None`.
pub open spec fn status_debug(status: Option<i32>) -> Seq<char> {
    match status {
        Some(code) => "Some("@ + signed_decimal(code as int) + ")"@,
        None => "None"@,
    }
}

/// Why a command failed: the first non-blank line of its standard error,
/// or `exit <status>` where it printed none.
pub open spec fn failure_reason_of(o: &Output) -> Seq<char> {
    match first_nonblank(lines(o.stderr@)) {
        Some(l) => l,
        None => "exit "@ + status_debug(o.status),
    }
}

pub fn failure_reason(o: &Output) -> (r: String)
    ensures
        r@ == failure_reason_of(o),
{
    match first_error_line(o.stderr.as_str()) {
        Some(l) => l,
        None => {
            let mut s = String::from_str("exit ");
            match o.status {
                Some(code) => {
                    s.append("Some(");
                    push_signed_decimal(&mut s, code);
                    s.append(")");
                },
                None => s.append("None"),
            }
            s
        },
    }
}

/// Padding keeps the text and fills it with spaces up to the width; text
/// at least as long as the width is left as it is.
pub proof fn law_pad_right(s: Seq<char>, width: nat)
    ensures
        pad_right(s, width).len() == if s.len() < width {
            width
        } else {
            s.len()
        },
        pad_right(s, width).take(s.len() as int) == s,
        forall|i: int|
            s.len() <= i < pad_right(s, width).len() ==> #[trigger] pad_right(s, width)[i] == ' ',
{
    assert(pad_right(s, width).take(s.len() as int) =~= s);
}

/// Text made of white space alone has no non-blank line.
proof fn lemma_blank_text(t: Seq<char>)
    requires
        forall|i: int| 0 <= i < t.len() ==> is_ws(#[trigger] t[i]),
    ensures
        first_nonblank(lines(t)) is None,
    decreases t.len(),
{
    let ls = lines(t);
    if t.len() > 0 {
        let k = crate::text::first_newline(t);
        crate::text::lemma_first_newline_bound(t);
        let head = if k < t.len() {
            strip_cr(t.take(k as int))
        } else {
            t
        };
        assert(ls[0] == head);
        assert forall|i: int| 0 <= i < head.len() implies is_ws(#[trigger] head[i]) by {
            assert(head[i] == t[i]);
        }
        lemma_trim_start_ws_prefix(head, Seq::<char>::empty());
        assert(head + Seq::<char>::empty() =~= head);
        assert(trim_ws(head).len() == 0);
        if k < t.len() {
            let rest = t.skip(k as int + 1);
            assert forall|i: int| 0 <= i < rest.len() implies is_ws(#[trigger] rest[i]) by {
                assert(rest[i] == t[k + 1 + i]);
            }
            lemma_blank_text(rest);
            assert(ls.drop_first() =~= lines(rest));
        } else {
            assert(ls.drop_first() =~= Seq::<Seq<char>>::empty());
            assert(first_nonblank(ls.drop_first()) is None);
        }
        assert(first_nonblank(ls) == first_nonblank(ls.drop_first()));
    } else {
        assert(ls.len() == 0);
    }
}

/// A failed command that printed nothing but white space on standard error
/// is said to have failed with its exit status: `exit Some(<code>)`, or
/// `exit None` where it gave none.
pub proof fn law_reason_without_error_text(o: Output)
    requires
        forall|i: int| 0 <= i < o.stderr@.len() ==> is_ws(#[trigger] o.stderr@[i]),
    ensures
        failure_reason_of(&o) == "exit "@ + match o.status {
            Some(code) => "Some("@ + signed_decimal(code as int) + ")"@,
            None => "None"@,
        },
{
    lemma_blank_text(o.stderr@);
}

/// The first line of standard error, where it is not blank, is the reason
/// a command failed, trimmed; whatever follows it does not matter.
pub proof fn law_reason_is_first_error_line(o: Output, l: Seq<char>, rest: Seq<char>)
    requires
        o.stderr@ == l + seq!['\n'] + rest,
        forall|i: int| 0 <= i < l.len() ==> #[trigger] l[i] != '\n',
        l.len() > 0 && l.last() != '\r',
        trim_ws(l).len() > 0,
    ensures
        failure_reason_of(&o) == trim_ws(l),
{
    lemma_split_line(l, rest);
    assert(strip_cr(l) == l);
}

/// Blank lines at the head of standard error are passed over: the reason is
/// the first line after them that is not blank, trimmed.
pub proof fn law_reason_skips_blank_line(o: Output, blank: Seq<char>, l: Seq<char>, rest: Seq<char>)
    requires
        o.stderr@ == blank + seq!['\n'] + l + seq!['\n'] + rest,
        forall|i: int| 0 <= i < blank.len() ==> is_ws(#[trigger] blank[i]) && blank[i] != '\n',
        forall|i: int| 0 <= i < l.len() ==> #[trigger] l[i] != '\n',
        l.len() > 0 && l.last() != '\r',
        trim_ws(l).len() > 0,
    ensures
        failure_reason_of(&o) == trim_ws(l),
{
    let tail = l + seq!['\n'] + rest;
    assert(o.stderr@ =~= blank + seq!['\n'] + tail);
    lemma_split_line(blank, tail);
    lemma_split_line(l, rest);
    assert(strip_cr(l) == l);
    let b = strip_cr(blank);
    assert forall|i: int| 0 <= i < b.len() implies is_ws(#[trigger] b[i]) by {
        assert(b[i] == blank[i]);
    }
    lemma_trim_start_ws_prefix(b, Seq::<char>::empty());
    assert(b + Seq::<char>::empty() =~= b);
    assert(trim_ws(b).len() == 0);
    let ls = lines(o.stderr@);
    assert(ls[0] == b);
    assert(ls.drop_first() =~= lines(tail));
    assert(first_nonblank(ls) == first_nonblank(lines(tail)));
    assert(lines(tail)[0] == l);
    assert(first_nonblank(lines(tail)) == Some(trim_ws(l)));
}

/// In verbose mode a command's output is echoed line by line behind
/// `    │ `: the first line of standard output first, the first line of
/// standard error right after the last line of standard output.
pub proof fn law_log_lines_order(l: Seq<char>, rest: Seq<char>, e: Seq<char>, stderr_rest: Seq<char>)
    requires
        forall|i: int| 0 <= i < l.len() ==> #[trigger] l[i] != '\n',
        forall|i: int| 0 <= i < e.len() ==> #[trigger] e[i] != '\n',
        l.len() > 0 && l.last() != '\r',
        e.len() > 0 && e.last() != '\r',
    ensures
        ({
            let out = log_lines_of(l + seq!['\n'] + rest, e + seq!['\n'] + stderr_rest);
            let n = lines(l + seq!['\n'] + rest).len();
            &&& out.len() == n + lines(e + seq!['\n'] + stderr_rest).len()
            &&& out[0] == "    │ "@ + l
            &&& out[n as int] == "    │ "@ + e
        }),
{
    lemma_split_line(l, rest);
    lemma_split_line(e, stderr_rest);
    assert(strip_cr(l) == l);
    assert(strip_cr(e) == e);
    let a = lines(l + seq!['\n'] + rest);
    let b = lines(e + seq!['\n'] + stderr_rest);
    assert((a + b)[a.len() as int] == b[0]);
}

} // verus!
