//! Reading `launchctl print-disabled <domain>` output, and the status row
//! of one service.
//!
//! The output looks roughly like:
//!
//! ```text
//! Disabled services for system:
//!     "com.apple.something" => disabled
//!     "com.zscaler.tunnel" => enabled
//! ```
//!
//! Other macOS versions print `=> true` / `=> false`, unquoted labels, a
//! trailing `;`, or other indentation. The reader is lenient: on each line
//! it takes what stands before the first `=>` as the label and what stands
//! after it as the state.

use vstd::prelude::*;

use crate::services::{managed, services, Scope, Service};
use crate::text::{
    ascii_lower, chars_of, contains, find_seq, first_at, is_first_at, is_ws, lemma_first_at,
    lemma_line_offset, lemma_split_line, lemma_occurs_trans, lemma_trim_char_piece,
    lemma_trim_end_ws_suffix, lemma_trim_start_ws_prefix, lemma_trim_ws_piece, lemma_trims_noop,
    lines, lines_of, occurs_at, range_equals, range_lower_equals, skip_char_end, strip_cr,
    strip_end, strip_start, trim_char, trim_char_range, trim_ws,
    trim_ws_range,
};

verus! {

/// Tri-state for "we could not tell".
#[derive(Debug, Clone, Copy, PartialEq, Eq, Structural)]
pub enum Tri {
    True,
    False,
    Unknown,
}

pub open spec fn tri_name(t: Tri) -> Seq<char> {
    match t {
        Tri::True => "true"@,
        Tri::False => "false"@,
        Tri::Unknown => "unknown"@,
    }
}

impl Tri {
    pub fn as_str(self) -> (r: &'static str)
        ensures
            r@ == tri_name(self),
    {
        match self {
            Tri::True => "true",
            Tri::False => "false",
            Tri::Unknown => "unknown",
        }
    }
}

/// The separator between a label and its state.
pub open spec fn arrow() -> Seq<char> {
    seq!['=', '>']
}

/// The label part of a line: what stands before the first `=>`, without
/// surrounding white space and quotes.
pub open spec fn line_key(line: Seq<char>) -> Seq<char> {
    trim_char(trim_ws(line.take(first_at(line, arrow()))), '"')
}

/// The state part of a line: what stands after the first `=>`, without
/// surrounding white space, trailing `;` and quotes, in ASCII lower case.
pub open spec fn line_value(line: Seq<char>) -> Seq<char> {
    ascii_lower(
        trim_char(trim_ws(strip_end(trim_ws(line.skip(first_at(line, arrow()) + 2)), ';')), '"'),
    )
}

/// The meaning of a state word.
pub open spec fn state_word(v: Seq<char>) -> Tri {
    if v == seq!['t', 'r', 'u', 'e'] || v == seq!['d', 'i', 's', 'a', 'b', 'l', 'e', 'd'] {
        Tri::True
    } else if v == seq!['f', 'a', 'l', 's', 'e'] || v == seq!['e', 'n', 'a', 'b', 'l', 'e', 'd'] {
        Tri::False
    } else {
        Tri::Unknown
    }
}

/// What one line says of `label`: nothing, unless it holds `=>` with
/// `label` before it.
pub open spec fn line_verdict(line: Seq<char>, label: Seq<char>) -> Option<Tri> {
    if contains(line, arrow()) && line_key(line) == label {
        Some(state_word(line_value(line)))
    } else {
        None
    }
}

/// The verdict of the first line that speaks of `label`; `Unknown` where none does.
pub open spec fn verdict_of_lines(ls: Seq<Seq<char>>, label: Seq<char>) -> Tri
    decreases ls.len(),
{
    if ls.len() == 0 {
        Tri::Unknown
    } else {
        match line_verdict(ls[0], label) {
            Some(t) => t,
            None => verdict_of_lines(ls.drop_first(), label),
        }
    }
}

/// The disabled state `print-disabled` output gives for `label`.
pub open spec fn disabled_state(output: Seq<char>, label: Seq<char>) -> Tri {
    verdict_of_lines(lines(output), label)
}

fn state_of_value(w: &Vec<char>, lo: usize, hi: usize) -> (r: Tri)
    requires
        lo <= hi <= w@.len(),
    ensures
        r == state_word(ascii_lower(w@.subrange(lo as int, hi as int))),
{
    if range_lower_equals(w, lo, hi, &vec!['t', 'r', 'u', 'e']) || range_lower_equals(
        w,
        lo,
        hi,
        &vec!['d', 'i', 's', 'a', 'b', 'l', 'e', 'd'],
    ) {
        Tri::True
    } else if range_lower_equals(w, lo, hi, &vec!['f', 'a', 'l', 's', 'e']) || range_lower_equals(
        w,
        lo,
        hi,
        &vec!['e', 'n', 'a', 'b', 'l', 'e', 'd'],
    ) {
        Tri::False
    } else {
        Tri::Unknown
    }
}

fn verdict_of_line(line: &String, label: &Vec<char>) -> (r: Option<Tri>)
    ensures
        r == line_verdict(line@, label@),
{
    let w = chars_of(line.as_str());
    let n = w.len();
    let arrow_chars = vec!['=', '>'];
    assert(arrow_chars@ == arrow());
    match find_seq(&w, &arrow_chars) {
        None => None,
        Some(k) => {
            proof {
                lemma_first_at(w@, arrow(), k as int);
                assert(w@.take(k as int) =~= w@.subrange(0, k as int));
                assert(w@.skip(k + 2) =~= w@.subrange(k + 2, n as int));
            }
            let (a, b) = trim_ws_range(&w, 0, k);
            let (c, d) = trim_char_range(&w, a, b, '"');
            if !range_equals(&w, c, d, label) {
                return None;
            }
            let (e, f) = trim_ws_range(&w, k + 2, n);
            let g = skip_char_end(&w, e, f, ';');
            let (h, i) = trim_ws_range(&w, e, g);
            let (x, y) = trim_char_range(&w, h, i, '"');
            Some(state_of_value(&w, x, y))
        },
    }
}

/// Find the disabled state of `label` in the output of
/// `launchctl print-disabled <domain>`: `True` where the label is listed as
/// disabled (`disabled` or `true`), `False` where it is listed as enabled
/// (`enabled` or `false`), `Unknown` where it is not listed or its state is
/// some other word. The first line that lists the label decides.
pub fn parse_disabled(output: &str, label: &str) -> (r: Tri)
    ensures
        r == disabled_state(output@, label@),
{
    let ls = lines_of(output);
    let want = chars_of(label);
    let n = ls.len();
    let mut i: usize = 0;
    assert(lines(output@).skip(0) =~= lines(output@));
    while i < n
        invariant
            n == ls@.len(),
            n == lines(output@).len(),
            forall|j: int| 0 <= j < n ==> #[trigger] ls@[j]@ == lines(output@)[j],
            want@ == label@,
            i <= n,
            disabled_state(output@, label@) == verdict_of_lines(
                lines(output@).skip(i as int),
                label@,
            ),
        decreases n - i,
    {
        let ghost rest = lines(output@).skip(i as int);
        assert(rest[0] == ls@[i as int]@);
        assert(rest.drop_first() =~= lines(output@).skip(i + 1));
        match verdict_of_line(&ls[i], &want) {
            Some(t) => {
                return t;
            },
            None => {},
        }
        i = i + 1;
    }
    Tri::Unknown
}

/// Interpret the exit status of `launchctl print <target>` as loaded or not.
pub open spec fn loaded_from_status(status: Option<i32>) -> Tri {
    match status {
        Some(code) => if code == 0 {
            Tri::True
        } else {
            Tri::False
        },
        None => Tri::Unknown,
    }
}

pub fn loaded_from_print_status(status: Option<i32>) -> (r: Tri)
    ensures
        r == loaded_from_status(status),
{
    match status {
        Some(code) => if code == 0 {
            Tri::True
        } else {
            Tri::False
        },
        None => Tri::Unknown,
    }
}

/// `launchctl print` exiting with 0 means loaded, with any other code not
/// loaded; without an exit code nothing is known.
pub proof fn law_loaded_from_exit_code(code: i32)
    ensures
        loaded_from_status(Some(0i32)) == Tri::True,
        code != 0 ==> loaded_from_status(Some(code)) == Tri::False,
        loaded_from_status(None) == Tri::Unknown,
{
}

/// What is known about one service's launchd state.
pub struct ServiceStatus {
    pub label: String,
    pub scope: Scope,
    pub disabled: Tri,
    pub loaded: Tri,
}

/// The status row of `svc`: its disabled state read from the
/// `print-disabled` output of its own domain (`system_disabled` for system
/// services, `gui_disabled` for user services), and its loaded state from
/// the exit status of `launchctl print`, where that could be run at all
/// (`print_status` is `None` where it could not).
pub fn status_row(
    svc: &Service,
    system_disabled: &str,
    gui_disabled: &str,
    print_status: Option<Option<i32>>,
) -> (r: ServiceStatus)
    ensures
        r.label@ == svc.label@,
        r.scope == svc.scope,
        r.disabled == disabled_state(
            match svc.scope {
                Scope::System => system_disabled@,
                Scope::User => gui_disabled@,
            },
            svc.label@,
        ),
        r.loaded == match print_status {
            Some(status) => loaded_from_status(status),
            None => Tri::Unknown,
        },
{
    let disabled = match svc.scope {
        Scope::System => parse_disabled(system_disabled, svc.label),
        Scope::User => parse_disabled(gui_disabled, svc.label),
    };
    let loaded = match print_status {
        Some(status) => loaded_from_print_status(status),
        None => Tri::Unknown,
    };
    ServiceStatus { label: String::from_str(svc.label), scope: svc.scope, disabled, loaded }
}

// ---------------------------------------------------------------------
// Laws
// ---------------------------------------------------------------------

/// The label a line speaks of is a piece of that line.
proof fn lemma_key_in_line(line: Seq<char>)
    requires
        contains(line, arrow()),
    ensures
        contains(line, line_key(line)),
{
    let k = first_at(line, arrow());
    let w = choose|i: int| occurs_at(line, arrow(), i);
    assert(is_first_at(line, arrow(), k)) by {
        // the occurrence with no earlier one exists
        lemma_least_occurrence(line, w);
    }
    let head = line.take(k);
    assert(occurs_at(line, head, 0)) by {
        assert(line.subrange(0, head.len() as int) =~= head);
    }
    let t = trim_ws(head);
    let a = lemma_trim_ws_piece(head);
    let b = lemma_trim_char_piece(t, '"');
    lemma_occurs_trans(line, head, t, 0, a);
    lemma_occurs_trans(line, t, trim_char(t, '"'), a, b);
}

/// Where `pat` occurs at `w`, some occurrence has no earlier one.
proof fn lemma_least_occurrence(s: Seq<char>, w: int)
    requires
        occurs_at(s, arrow(), w),
    ensures
        exists|i: int| is_first_at(s, arrow(), i),
    decreases w,
{
    if forall|j: int| 0 <= j < w ==> !occurs_at(s, arrow(), j) {
        assert(is_first_at(s, arrow(), w));
    } else {
        let j = choose|j: int| 0 <= j < w && occurs_at(s, arrow(), j);
        lemma_least_occurrence(s, j);
    }
}

proof fn lemma_no_verdict_unknown(ls: Seq<Seq<char>>, label: Seq<char>)
    requires
        forall|i: int| 0 <= i < ls.len() ==> line_verdict(#[trigger] ls[i], label) is None,
    ensures
        verdict_of_lines(ls, label) == Tri::Unknown,
    decreases ls.len(),
{
    if ls.len() > 0 {
        assert(line_verdict(ls[0], label) is None);
        assert forall|i: int| 0 <= i < ls.drop_first().len() implies line_verdict(
            #[trigger] ls.drop_first()[i],
            label,
        ) is None by {
            assert(ls.drop_first()[i] == ls[i + 1]);
        }
        lemma_no_verdict_unknown(ls.drop_first(), label);
    }
}

/// A label that does not occur in the output at all reads as `Unknown`.
pub proof fn law_unlisted_label_is_unknown(output: Seq<char>, label: Seq<char>)
    requires
        !contains(output, label),
    ensures
        disabled_state(output, label) == Tri::Unknown,
{
    let ls = lines(output);
    assert forall|i: int| 0 <= i < ls.len() implies line_verdict(#[trigger] ls[i], label) is None by {
        if contains(ls[i], arrow()) && line_key(ls[i]) == label {
            let a = lemma_line_offset(output, i);
            lemma_key_in_line(ls[i]);
            let b = choose|b: int| occurs_at(ls[i], label, b);
            lemma_occurs_trans(output, ls[i], label, a, b);
        }
    }
    lemma_no_verdict_unknown(ls, label);
}

/// The word a state is written as.
pub open spec fn state_text(disabled: bool) -> Seq<char> {
    if disabled {
        seq!['d', 'i', 's', 'a', 'b', 'l', 'e', 'd']
    } else {
        seq!['e', 'n', 'a', 'b', 'l', 'e', 'd']
    }
}

/// One line of `print-disabled` output: `    "<label>" => <state>`.
pub open spec fn listed_line(label: Seq<char>, disabled: bool) -> Seq<char> {
    word_line(label, state_text(disabled))
}

/// A line `    "<label>" => <word>`.
pub open spec fn word_line(label: Seq<char>, word: Seq<char>) -> Seq<char> {
    seq![' ', ' ', ' ', ' ', '"'] + label + seq!['"', ' ', '=', '>', ' '] + word
}

/// A word of ASCII letters, as launchctl writes a state.
pub open spec fn plain_word(w: Seq<char>) -> bool {
    &&& w.len() > 0
    &&& forall|i: int|
        0 <= i < w.len() ==> ('a' <= #[trigger] w[i] && w[i] <= 'z') || ('A' <= w[i] && w[i]
            <= 'Z')
}

/// A label that can be listed: no line break, no `=>`, and no white space or
/// quote at either end.
pub open spec fn listable(label: Seq<char>) -> bool {
    &&& forall|i: int| 0 <= i < label.len() ==> #[trigger] label[i] != '\n'
    &&& !contains(label, arrow())
    &&& label.len() > 0 ==> {
        &&& !is_ws(label[0])
        &&& !is_ws(label.last())
        &&& label[0] != '"'
        &&& label.last() != '"'
    }
}

proof fn lemma_listed_arrow(label: Seq<char>, word: Seq<char>)
    requires
        listable(label),
    ensures
        is_first_at(word_line(label, word), arrow(), label.len() as int + 7),
{
    let line = word_line(label, word);
    let n = label.len() as int;
    assert(line[n + 7] == '=' && line[n + 8] == '>');
    assert(line.subrange(n + 7, n + 9) =~= arrow());
    assert forall|j: int| 0 <= j < n + 7 implies !occurs_at(line, arrow(), j) by {
        if occurs_at(line, arrow(), j) {
            assert(line.subrange(j, j + 2)[0] == line[j]);
            assert(line.subrange(j, j + 2)[1] == line[j + 1]);
            if 5 <= j && j + 1 < n + 5 {
                assert(label.subrange(j - 5, j - 3) =~= line.subrange(j, j + 2));
                assert(occurs_at(label, arrow(), j - 5));
            } else if j == n + 4 && n > 0 {
                assert(line[j + 1] == '"');
            } else if j < 4 {
                assert(line[j] == ' ');
            }
        }
    }
}

/// A listed line is one line, with nothing dropped from its end.
proof fn lemma_listed_lines(label: Seq<char>, word: Seq<char>, rest: Seq<char>)
    requires
        listable(label),
        plain_word(word),
    ensures
        lines(word_line(label, word) + seq!['\n'] + rest) == seq![word_line(label, word)] + lines(rest),
{
    let line = word_line(label, word);
    let n = label.len() as int;
    assert forall|i: int| 0 <= i < line.len() implies #[trigger] line[i] != '\n' by {
        if 5 <= i < n + 5 {
            assert(line[i] == label[i - 5]);
        } else if i >= n + 10 {
            assert(line[i] == word[i - n - 10]);
        }
    }
    lemma_split_line(line, rest);
    assert(line.last() == word.last());
    assert(strip_cr(line) == line);
}

/// Quotes around a listable label come off.
proof fn lemma_unquote(label: Seq<char>)
    requires
        listable(label),
    ensures
        trim_char(seq!['"'] + label + seq!['"'], '"') == label,
{
    let quoted = seq!['"'] + label + seq!['"'];
    if label.len() == 0 {
        assert(quoted =~= seq!['"', '"']);
        assert(quoted.drop_first() =~= seq!['"']);
        assert(seq!['"'].drop_first() =~= Seq::<char>::empty());
        assert(strip_start(quoted, '"') == strip_start(seq!['"'], '"'));
        assert(strip_start(seq!['"'], '"') == strip_start(Seq::<char>::empty(), '"'));
        assert(trim_char(quoted, '"') =~= label);
    } else {
        assert(quoted.drop_first() =~= label + seq!['"']);
        assert(strip_start(label + seq!['"'], '"') == label + seq!['"']);
        assert((label + seq!['"']).drop_last() =~= label);
        assert(strip_end(label, '"') == label);
    }
}

/// The key of a listed line is its label.
proof fn lemma_listed_key(label: Seq<char>, word: Seq<char>)
    requires
        listable(label),
    ensures
        contains(word_line(label, word), arrow()),
        line_key(word_line(label, word)) == label,
{
    let line = word_line(label, word);
    let n = label.len() as int;
    lemma_listed_arrow(label, word);
    lemma_first_at(line, arrow(), n + 7);
    let head = line.take(n + 7);
    let quoted = seq!['"'] + label + seq!['"'];
    assert(head =~= seq![' ', ' ', ' ', ' '] + (quoted + seq![' ']));
    lemma_trim_start_ws_prefix(seq![' ', ' ', ' ', ' '], quoted + seq![' ']);
    lemma_trim_end_ws_suffix(quoted, seq![' ']);
    assert(trim_ws(head) == quoted);
    lemma_unquote(label);
}

/// The value of a listed line is its state word.
proof fn lemma_listed_value(label: Seq<char>, word: Seq<char>)
    requires
        listable(label),
        plain_word(word),
    ensures
        line_value(word_line(label, word)) == ascii_lower(word),
{
    let line = word_line(label, word);
    let n = label.len() as int;
    lemma_listed_arrow(label, word);
    lemma_first_at(line, arrow(), n + 7);
    assert(line.skip(n + 9) =~= seq![' '] + word);
    lemma_trim_start_ws_prefix(seq![' '], word);
    lemma_trims_noop(word, ';');
    lemma_trims_noop(word, '"');
    assert(trim_ws(line.skip(n + 9)) == word);
}

/// The line `    "<label>" => <word>`, then a line break and anything
/// else, reads back as the state its word means.
proof fn lemma_word_reads_back(label: Seq<char>, word: Seq<char>, rest: Seq<char>)
    requires
        listable(label),
        plain_word(word),
    ensures
        disabled_state(word_line(label, word) + seq!['\n'] + rest, label) == state_word(
            ascii_lower(word),
        ),
{
    let line = word_line(label, word);
    lemma_listed_lines(label, word, rest);
    lemma_listed_key(label, word);
    lemma_listed_value(label, word);
    let ls = lines(line + seq!['\n'] + rest);
    assert(ls[0] == line);
}

/// A service written into `print-disabled` output as
/// `    "<label>" => disabled` reads back as disabled, and written as
/// `    "<label>" => enabled` reads back as enabled.
pub proof fn law_listed_state_reads_back(label: Seq<char>, disabled: bool)
    requires
        listable(label),
    ensures
        disabled_state(listed_line(label, disabled) + seq!['\n'], label) == if disabled {
            Tri::True
        } else {
            Tri::False
        },
{
    let w = state_text(disabled);
    assert(plain_word(w));
    assert(ascii_lower(w) =~= w);
    lemma_word_reads_back(label, w, Seq::<char>::empty());
    assert(listed_line(label, disabled) + seq!['\n'] + Seq::<char>::empty() =~= listed_line(
        label,
        disabled,
    ) + seq!['\n']);
}

/// The first line that lists a service decides its state, whatever follows,
/// and each state word, in any ASCII case, reads back as what it means:
/// `true` and `disabled` as disabled (`True`), `false` and `enabled` as
/// enabled (`False`), any other word as `Unknown`.
pub proof fn law_state_words_read_back(label: Seq<char>, word: Seq<char>, rest: Seq<char>)
    requires
        listable(label),
        plain_word(word),
    ensures
        ({
            let v = ascii_lower(word);
            disabled_state(word_line(label, word) + seq!['\n'] + rest, label) == if v == seq![
                't',
                'r',
                'u',
                'e',
            ] || v == seq!['d', 'i', 's', 'a', 'b', 'l', 'e', 'd'] {
                Tri::True
            } else if v == seq!['f', 'a', 'l', 's', 'e'] || v == seq![
                'e',
                'n',
                'a',
                'b',
                'l',
                'e',
                'd',
            ] {
                Tri::False
            } else {
                Tri::Unknown
            }
        }),
{
    lemma_word_reads_back(label, word, rest);
}

/// A line that does not hold the label says nothing of it: the state is
/// read from the lines after it.
pub proof fn law_unrelated_line_skipped(line: Seq<char>, rest: Seq<char>, label: Seq<char>)
    requires
        forall|i: int| 0 <= i < line.len() ==> #[trigger] line[i] != '\n',
        !contains(line, label),
    ensures
        disabled_state(line + seq!['\n'] + rest, label) == disabled_state(rest, label),
{
    lemma_split_line(line, rest);
    let l = strip_cr(line);
    let ls = lines(line + seq!['\n'] + rest);
    assert(ls[0] == l);
    assert(ls.drop_first() =~= lines(rest));
    if contains(l, arrow()) && line_key(l) == label {
        lemma_key_in_line(l);
        let b = choose|b: int| occurs_at(l, label, b);
        assert(occurs_at(line, l, 0)) by {
            assert(line.subrange(0, l.len() as int) =~= l);
        }
        lemma_occurs_trans(line, l, label, 0, b);
    }
}

/// The other way a listing may write an entry: `<tab><label> => "<word>";`,
/// the label unquoted, the state quoted and followed by `;`.
pub open spec fn bare_line(label: Seq<char>, word: Seq<char>) -> Seq<char> {
    seq!['\t'] + label + seq![' ', '=', '>', ' ', '"'] + word + seq!['"', ';']
}

proof fn lemma_word_listable(word: Seq<char>)
    requires
        plain_word(word),
    ensures
        listable(word),
        !is_ws(word[0]) && !is_ws(word.last()),
{
    if contains(word, arrow()) {
        let j = choose|j: int| occurs_at(word, arrow(), j);
        assert(word.subrange(j, j + 2)[0] == word[j]);
    }
    assert(word.last() == word[word.len() - 1]);
}

proof fn lemma_bare_parts(label: Seq<char>, word: Seq<char>)
    requires
        listable(label),
        label.len() > 0,
        plain_word(word),
    ensures
        contains(bare_line(label, word), arrow()),
        line_key(bare_line(label, word)) == label,
        line_value(bare_line(label, word)) == ascii_lower(word),
        forall|i: int|
            0 <= i < bare_line(label, word).len() ==> #[trigger] bare_line(label, word)[i] != '\n',
        bare_line(label, word).last() != '\r',
{
    let line = bare_line(label, word);
    let n = label.len() as int;
    // where the arrow stands
    assert(line.subrange(n + 2, n + 4) =~= arrow());
    assert forall|j: int| 0 <= j < n + 2 implies !occurs_at(line, arrow(), j) by {
        if occurs_at(line, arrow(), j) {
            assert(line.subrange(j, j + 2)[0] == line[j]);
            assert(line.subrange(j, j + 2)[1] == line[j + 1]);
            if 1 <= j && j + 1 <= n {
                assert(label.subrange(j - 1, j + 1) =~= line.subrange(j, j + 2));
                assert(occurs_at(label, arrow(), j - 1));
            } else if j == n {
                assert(line[j + 1] == ' ');
            }
        }
    }
    assert(is_first_at(line, arrow(), n + 2));
    lemma_first_at(line, arrow(), n + 2);
    // the key
    let head = line.take(n + 2);
    assert(head =~= seq!['\t'] + (label + seq![' ']));
    lemma_trim_start_ws_prefix(seq!['\t'], label + seq![' ']);
    lemma_trim_end_ws_suffix(label, seq![' ']);
    lemma_trims_noop(label, '"');
    // the value
    lemma_word_listable(word);
    let quoted = seq!['"'] + word + seq!['"'];
    assert(line.skip(n + 4) =~= seq![' '] + (quoted + seq![';']));
    lemma_trim_start_ws_prefix(seq![' '], quoted + seq![';']);
    lemma_trim_end_ws_suffix(quoted + seq![';'], Seq::<char>::empty());
    assert(quoted + seq![';'] + Seq::<char>::empty() =~= quoted + seq![';']);
    assert((quoted + seq![';']).drop_last() =~= quoted);
    assert(strip_end(quoted, ';') == quoted);
    assert(strip_end(quoted + seq![';'], ';') == quoted);
    lemma_trims_noop(quoted, ';');
    lemma_unquote(word);
    // no line break
    assert forall|i: int| 0 <= i < line.len() implies #[trigger] line[i] != '\n' by {
        if 1 <= i < n + 1 {
            assert(line[i] == label[i - 1]);
        } else if n + 6 <= i < n + 6 + word.len() {
            assert(line[i] == word[i - n - 6]);
        }
    }
}

/// An entry written `<tab><label> => "<word>";`, then a line break and
/// anything else, reads as its word means, in any ASCII case: `true` and
/// `disabled` as disabled, `false` and `enabled` as enabled, any other
/// word as `Unknown`.
pub proof fn law_bare_entry_reads_back(label: Seq<char>, word: Seq<char>, rest: Seq<char>)
    requires
        listable(label),
        label.len() > 0,
        plain_word(word),
    ensures
        ({
            let v = ascii_lower(word);
            disabled_state(bare_line(label, word) + seq!['\n'] + rest, label) == if v == seq![
                't',
                'r',
                'u',
                'e',
            ] || v == seq!['d', 'i', 's', 'a', 'b', 'l', 'e', 'd'] {
                Tri::True
            } else if v == seq!['f', 'a', 'l', 's', 'e'] || v == seq![
                'e',
                'n',
                'a',
                'b',
                'l',
                'e',
                'd',
            ] {
                Tri::False
            } else {
                Tri::Unknown
            }
        }),
{
    let line = bare_line(label, word);
    lemma_bare_parts(label, word);
    lemma_split_line(line, rest);
    assert(strip_cr(line) == line);
    let ls = lines(line + seq!['\n'] + rest);
    assert(ls[0] == line);
}

/// The `print-disabled` listing that holds a service of `scope`.
pub open spec fn listing_for(scope: Scope, system_disabled: Seq<char>, gui_disabled: Seq<char>) -> Seq<char> {
    match scope {
        Scope::System => system_disabled,
        Scope::User => gui_disabled,
    }
}

/// The status report: one row per managed service, in the order of the
/// list, its disabled state read from its own scope's listing and its loaded
/// state from the matching `launchctl print` probe (`print_statuses[i]` for
/// service `i`; `None` where it could not be run).
pub fn status_rows(
    system_disabled: &str,
    gui_disabled: &str,
    print_statuses: &Vec<Option<Option<i32>>>,
) -> (r: Vec<ServiceStatus>)
    requires
        print_statuses@.len() == managed().len(),
    ensures
        r@.len() == managed().len(),
        forall|i: int|
            0 <= i < r@.len() ==> {
                let row = #[trigger] r@[i];
                &&& row.label@ == managed()[i].0
                &&& row.scope == managed()[i].1
                &&& row.disabled == disabled_state(
                    listing_for(row.scope, system_disabled@, gui_disabled@),
                    row.label@,
                )
                &&& row.loaded == match print_statuses@[i] {
                    Some(status) => loaded_from_status(status),
                    None => Tri::Unknown,
                }
            },
{
    let list = services();
    let n = list.len();
    let mut rows: Vec<ServiceStatus> = Vec::new();
    let mut i: usize = 0;
    while i < n
        invariant
            n == list@.len(),
            n == managed().len(),
            n == print_statuses@.len(),
            forall|j: int|
                0 <= j < n ==> (#[trigger] list@[j].label@, list@[j].scope) == managed()[j],
            i <= n,
            rows@.len() == i,
            forall|j: int|
                0 <= j < i ==> {
                    let row = #[trigger] rows@[j];
                    &&& row.label@ == managed()[j].0
                    &&& row.scope == managed()[j].1
                    &&& row.disabled == disabled_state(
                        listing_for(row.scope, system_disabled@, gui_disabled@),
                        row.label@,
                    )
                    &&& row.loaded == match print_statuses@[j] {
                        Some(status) => loaded_from_status(status),
                        None => Tri::Unknown,
                    }
                },
        decreases n - i,
    {
        let row = status_row(&list[i], system_disabled, gui_disabled, print_statuses[i]);
        assert((list@[i as int].label@, list@[i as int].scope) == managed()[i as int]);
        rows.push(row);
        i = i + 1;
    }
    rows
}

} // verus!
