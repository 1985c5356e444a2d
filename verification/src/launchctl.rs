//! The `launchctl` invocations the tool makes, and how it reads their
//! failures. Every argument list is assembled here, so the rest of the
//! code never puts launchctl arguments together by hand.

use vstd::prelude::*;

use crate::command::{rendered_command, succeeded, Output};
use crate::services::{Scope, Service};
use crate::text::{chars_of, contains, contains_seq, decimal, occurs_at, push_decimal};

verus! {

/// The domain a service of `scope` lives in for user `uid`:
/// `system`, or `gui/<uid>`.
pub open spec fn domain_of(scope: Scope, uid: u32) -> Seq<char> {
    match scope {
        Scope::System => "system"@,
        Scope::User => "gui/"@ + decimal(uid as nat),
    }
}

/// Build the domain string for `scope` and `uid`.
pub fn domain_for(scope: Scope, uid: u32) -> (r: String)
    ensures
        r@ == domain_of(scope, uid),
{
    match scope {
        Scope::System => String::from_str("system"),
        Scope::User => {
            let mut d = String::from_str("gui/");
            push_decimal(&mut d, uid as u64);
            d
        },
    }
}

/// Fully-qualified launchctl target, such as `system/com.zscaler.tunnel`
/// or `gui/501/com.zscaler.tray`.
pub struct Target {
    pub domain: String,
    pub label: String,
}

/// `<domain>/<label>`, the form most launchctl subcommands want.
pub open spec fn qualified_name(domain: Seq<char>, label: Seq<char>) -> Seq<char> {
    domain + "/"@ + label
}

impl Target {
    pub fn for_service(svc: &Service, uid: u32) -> (r: Target)
        ensures
            r.domain@ == domain_of(svc.scope, uid),
            r.label@ == svc.label@,
    {
        Target { domain: domain_for(svc.scope, uid), label: String::from_str(svc.label) }
    }

    /// `<domain>/<label>`.
    pub fn qualified(&self) -> (r: String)
        ensures
            r@ == qualified_name(self.domain@, self.label@),
    {
        let mut q = self.domain.clone();
        q.append("/");
        q.append(self.label.as_str());
        q
    }
}

/// The verbs used against launchctl with a `<domain>/<label>` target.
#[derive(Debug, Clone, Copy, PartialEq, Eq, Structural)]
pub enum Verb {
    Disable,
    Enable,
    Bootout,
}

pub open spec fn verb_name(v: Verb) -> Seq<char> {
    match v {
        Verb::Disable => "disable"@,
        Verb::Enable => "enable"@,
        Verb::Bootout => "bootout"@,
    }
}

impl Verb {
    pub fn as_str(self) -> (r: &'static str)
        ensures
            r@ == verb_name(self),
    {
        match self {
            Verb::Disable => "disable",
            Verb::Enable => "enable",
            Verb::Bootout => "bootout",
        }
    }
}

/// The views of a list of owned strings.
pub open spec fn string_views(v: Seq<String>) -> Seq<Seq<char>> {
    v.map_values(|s: String| s@)
}

/// `<verb> <domain>/<label>`.
pub open spec fn verb_argv(verb: Verb, domain: Seq<char>, label: Seq<char>) -> Seq<Seq<char>> {
    seq![verb_name(verb), qualified_name(domain, label)]
}

/// `bootstrap <domain> <plist-path>`.
pub open spec fn bootstrap_argv(domain: Seq<char>, plist: Seq<char>) -> Seq<Seq<char>> {
    seq!["bootstrap"@, domain, plist]
}

/// The argument list for a verb against a target.
pub fn build_argv(verb: Verb, target: &Target) -> (r: Vec<String>)
    ensures
        string_views(r@) == verb_argv(verb, target.domain@, target.label@),
{
    let r = vec![String::from_str(verb.as_str()), target.qualified()];
    assert(string_views(r@) =~= verb_argv(verb, target.domain@, target.label@));
    r
}

/// The argument list for `launchctl bootstrap <domain> <plist-path>`:
/// the bare domain and a plist path, not the `<domain>/<label>` form.
pub fn build_bootstrap_argv(domain: &str, plist_path: &str) -> (r: Vec<String>)
    ensures
        string_views(r@) == bootstrap_argv(domain@, plist_path@),
{
    let r = vec![
        String::from_str("bootstrap"),
        String::from_str(domain),
        String::from_str(plist_path),
    ];
    assert(string_views(r@) =~= bootstrap_argv(domain@, plist_path@));
    r
}

/// The argument list for `launchctl print-disabled <domain>`.
pub fn print_disabled_argv(domain: &str) -> (r: Vec<String>)
    ensures
        string_views(r@) == seq!["print-disabled"@, domain@],
{
    let r = vec![String::from_str("print-disabled"), String::from_str(domain)];
    assert(string_views(r@) =~= seq!["print-disabled"@, domain@]);
    r
}

/// The argument list for `launchctl print <domain>/<label>`, run only for
/// its exit code.
pub fn print_argv(target: &Target) -> (r: Vec<String>)
    ensures
        string_views(r@) == seq!["print"@, qualified_name(target.domain@, target.label@)],
{
    let r = vec![String::from_str("print"), target.qualified()];
    assert(string_views(r@) =~= seq!["print"@, qualified_name(target.domain@, target.label@)]);
    r
}

/// How a launchctl invocation is shown.
pub open spec fn rendered_argv(argv: Seq<Seq<char>>) -> Seq<char> {
    rendered_command("launchctl"@, argv)
}

/// Render a launchctl invocation as a string for display.
pub fn render_argv(argv: &[String]) -> (r: String)
    ensures
        r@ == rendered_argv(string_views(argv@)),
{
    let n = argv.len();
    let mut borrowed: Vec<&str> = Vec::new();
    let mut i: usize = 0;
    while i < n
        invariant
            n == argv@.len(),
            i <= n,
            borrowed@.len() == i,
            forall|j: int| 0 <= j < i ==> #[trigger] borrowed@[j]@ == argv@[j]@,
        decreases n - i,
    {
        borrowed.push(argv[i].as_str());
        i = i + 1;
    }
    let r = crate::command::render_command("launchctl", borrowed.as_slice());
    assert(crate::command::str_views(borrowed@) =~= string_views(argv@));
    r
}

// ---------------------------------------------------------------------
// Reading failures
// ---------------------------------------------------------------------

/// What `str::to_lowercase` makes of a text (Unicode lower case). It is a
/// function of the text alone.
pub uninterp spec fn lowercase(s: Seq<char>) -> Seq<char>;

/// Calls `str::to_lowercase`. The contract claims only that the result is
/// `lowercase` of the argument: the Unicode case tables are not restated.
#[verifier::external_body]
fn to_lowercase(s: &str) -> (r: String)
    ensures
        r@ == lowercase(s@),
{
    s.to_lowercase()
}

/// Standard output and standard error, joined by a newline.
pub open spec fn combined_text(o: &Output) -> Seq<char> {
    o.stdout@ + "\n"@ + o.stderr@
}

/// The (lower-cased) text of a failed `bootout` says the service was not loaded.
pub open spec fn says_not_loaded(t: Seq<char>) -> bool {
    ||| contains(t, "could not find"@)
    ||| contains(t, "no such process"@)
    ||| contains(t, "not loaded"@)
    ||| contains(t, "113"@)
}

/// The (lower-cased) text of a failed `bootstrap` says the service was
/// already loaded.
pub open spec fn says_already_loaded(t: Seq<char>) -> bool {
    ||| contains(t, "already loaded"@)
    ||| contains(t, "already bootstrapped"@)
    ||| contains(t, "service already"@)
    ||| contains(t, "operation already in progress"@)
    ||| contains(t, "37:"@)
    ||| contains(t, "17:"@)
}

/// `m` stands in `a + m + b`, whatever `a` and `b` are.
proof fn lemma_contains_middle(a: Seq<char>, m: Seq<char>, b: Seq<char>)
    ensures
        contains(a + m + b, m),
{
    let t = a + m + b;
    assert(t.subrange(a.len() as int, (a.len() + m.len()) as int) =~= m);
    assert(occurs_at(t, m, a.len() as int));
}

/// Each phrase by which launchctl says a service is not loaded is found
/// wherever it stands in the text, with anything before and after it.
pub proof fn law_not_loaded_phrase_anywhere(a: Seq<char>, b: Seq<char>)
    ensures
        says_not_loaded(a + "could not find"@ + b),
        says_not_loaded(a + "no such process"@ + b),
        says_not_loaded(a + "not loaded"@ + b),
        says_not_loaded(a + "113"@ + b),
{
    lemma_contains_middle(a, "could not find"@, b);
    lemma_contains_middle(a, "no such process"@, b);
    lemma_contains_middle(a, "not loaded"@, b);
    lemma_contains_middle(a, "113"@, b);
}

/// Each phrase by which launchctl says a service is already loaded is found
/// wherever it stands in the text, with anything before and after it.
pub proof fn law_already_loaded_phrase_anywhere(a: Seq<char>, b: Seq<char>)
    ensures
        says_already_loaded(a + "already loaded"@ + b),
        says_already_loaded(a + "already bootstrapped"@ + b),
        says_already_loaded(a + "service already"@ + b),
        says_already_loaded(a + "operation already in progress"@ + b),
        says_already_loaded(a + "37:"@ + b),
        says_already_loaded(a + "17:"@ + b),
{
    lemma_contains_middle(a, "already loaded"@, b);
    lemma_contains_middle(a, "already bootstrapped"@, b);
    lemma_contains_middle(a, "service already"@, b);
    lemma_contains_middle(a, "operation already in progress"@, b);
    lemma_contains_middle(a, "37:"@, b);
    lemma_contains_middle(a, "17:"@, b);
}

fn text_contains(hay: &Vec<char>, needle: &str) -> (r: bool)
    ensures
        r == contains(hay@, needle@),
{
    let n = chars_of(needle);
    contains_seq(hay, &n)
}

/// Whether lower-cased launchctl output of a failed `bootout` means the
/// service was simply not loaded.
pub fn reply_says_not_loaded(lowered: &str) -> (r: bool)
    ensures
        r == says_not_loaded(lowered@),
{
    let t = chars_of(lowered);
    text_contains(&t, "could not find") || text_contains(&t, "no such process")
        || text_contains(&t, "not loaded") || text_contains(&t, "113")
}

/// Whether lower-cased launchctl output of a failed `bootstrap` means the
/// service was already loaded.
pub fn reply_says_already_loaded(lowered: &str) -> (r: bool)
    ensures
        r == says_already_loaded(lowered@),
{
    let t = chars_of(lowered);
    text_contains(&t, "already loaded") || text_contains(&t, "already bootstrapped")
        || text_contains(&t, "service already") || text_contains(
        &t,
        "operation already in progress",
    ) || text_contains(&t, "37:") || text_contains(&t, "17:")
}

fn combined_lowercase(o: &Output) -> (r: String)
    ensures
        r@ == lowercase(combined_text(o)),
{
    let mut blob = o.stdout.clone();
    blob.append("\n");
    blob.append(o.stderr.as_str());
    to_lowercase(blob.as_str())
}

/// A `bootout` that failed because the service is not loaded. launchctl
/// words this as `Could not find service "..." in domain ...` or
/// `Boot-out failed: 113: Could not find specified service`.
pub fn is_bootout_not_loaded(o: &Output) -> (r: bool)
    ensures
        r == (!succeeded(o) && says_not_loaded(lowercase(combined_text(o)))),
{
    if o.success() {
        return false;
    }
    let lowered = combined_lowercase(o);
    reply_says_not_loaded(lowered.as_str())
}

/// A `bootstrap` that failed because the service is already loaded
/// ("service already loaded", errno 37 "Operation already in progress" or
/// errno 17 "File exists", depending on the macOS version).
pub fn is_bootstrap_already_loaded(o: &Output) -> (r: bool)
    ensures
        r == (!succeeded(o) && says_already_loaded(lowercase(combined_text(o)))),
{
    if o.success() {
        return false;
    }
    let lowered = combined_lowercase(o);
    reply_says_already_loaded(lowered.as_str())
}

} // verus!
