//! What a finished subprocess reports, and how a command line is shown.

use vstd::prelude::*;

use crate::text::{chars_of, is_whitespace, is_ws};

verus! {

/// Result of running a subprocess.
pub struct Output {
    /// Exit code; `None` where the process was killed or timed out.
    pub status: Option<i32>,
    pub stdout: String,
    pub stderr: String,
    pub timed_out: bool,
}

/// The process finished in time with exit code 0.
pub open spec fn succeeded(o: &Output) -> bool {
    !o.timed_out && o.status == Some(0i32)
}

impl Output {
    pub fn success(&self) -> (r: bool)
        ensures
            r == succeeded(self),
            r == (!self.timed_out && self.status == Some(0i32)),
    {
        if self.timed_out {
            return false;
        }
        match self.status {
            Some(code) => code == 0,
            None => false,
        }
    }
}

/// How long to sleep between two checks on a running subprocess.
pub const POLL_MS: u64 = 25;

/// How long a subprocess may run before it is killed.
pub const DEFAULT_TIMEOUT_MS: u64 = 5000;

/// What to do next while waiting for a subprocess.
#[derive(Debug, Clone, Copy, PartialEq, Eq, Structural)]
pub enum WaitStep {
    /// Sleep `POLL_MS` and check again.
    Poll,
    /// The time is up: kill the process and collect what it wrote.
    Kill,
    /// The process exited: collect its status and what it wrote.
    Collect,
}

/// The next step of waiting for a subprocess that has run `elapsed_ms`
/// milliseconds: collect it once it exited; kill it once the elapsed time
/// reaches the timeout; poll again otherwise.
pub fn wait_step(exited: bool, elapsed_ms: u64, timeout_ms: u64) -> (r: WaitStep)
    ensures
        r == if exited {
            WaitStep::Collect
        } else if elapsed_ms >= timeout_ms {
            WaitStep::Kill
        } else {
            WaitStep::Poll
        },
{
    if exited {
        WaitStep::Collect
    } else if elapsed_ms >= timeout_ms {
        WaitStep::Kill
    } else {
        WaitStep::Poll
    }
}

/// The report on a subprocess: one that was killed for taking too long has
/// no exit code and is marked as timed out; otherwise it carries the exit
/// code it gave (none where a signal ended it).
pub fn finished(code: Option<i32>, stdout: String, stderr: String, killed: bool) -> (o: Output)
    ensures
        o.timed_out == killed,
        killed ==> o.status is None,
        !killed ==> o.status == code,
        o.stdout@ == stdout@,
        o.stderr@ == stderr@,
{
    if killed {
        Output { status: None, stdout, stderr, timed_out: true }
    } else {
        Output { status: code, stdout, stderr, timed_out: false }
    }
}

/// An argument is quoted where it is empty or holds white space.
pub open spec fn needs_quotes(a: Seq<char>) -> bool {
    a.len() == 0 || exists|i: int| 0 <= i < a.len() && is_ws(#[trigger] a[i])
}

/// An argument as it is shown: in single quotes where it needs them.
pub open spec fn shown_arg(a: Seq<char>) -> Seq<char> {
    if needs_quotes(a) {
        "'"@ + a + "'"@
    } else {
        a
    }
}

/// `program` followed by each argument, each after one space.
pub open spec fn rendered_command(program: Seq<char>, args: Seq<Seq<char>>) -> Seq<char>
    decreases args.len(),
{
    if args.len() == 0 {
        program
    } else {
        rendered_command(program, args.drop_last()) + " "@ + shown_arg(args.last())
    }
}

/// Rendering one more argument appends a space and that argument, put in
/// single quotes exactly where it is empty or holds white space, wherever it
/// stands in the list; with no argument, the program alone is shown.
pub proof fn law_render_appends(program: Seq<char>, args: Seq<Seq<char>>, x: Seq<char>)
    ensures
        rendered_command(program, Seq::<Seq<char>>::empty()) == program,
        rendered_command(program, args.push(x)) == rendered_command(program, args) + " "@ + if x.len()
            == 0 || (exists|k: int| 0 <= k < x.len() && is_ws(#[trigger] x[k])) {
            "'"@ + x + "'"@
        } else {
            x
        },
{
    assert(args.push(x).drop_last() =~= args);
    assert(args.push(x).last() == x);
}

/// The views of a sequence of string slices.
pub open spec fn str_views(args: Seq<&str>) -> Seq<Seq<char>> {
    args.map_values(|a: &str| a@)
}

fn has_whitespace(a: &str) -> (r: bool)
    ensures
        r == (exists|i: int| 0 <= i < a@.len() && is_ws(#[trigger] a@[i])),
{
    let v = chars_of(a);
    let n = v.len();
    let mut i: usize = 0;
    while i < n
        invariant
            n == v@.len(),
            v@ == a@,
            i <= n,
            forall|j: int| 0 <= j < i ==> !is_ws(#[trigger] a@[j]),
        decreases n - i,
    {
        if is_whitespace(v[i]) {
            return true;
        }
        i = i + 1;
    }
    false
}

/// Render a command line for display: arguments joined with single spaces,
/// an empty argument or one that holds white space put in single quotes.
/// It is only shown, never handed to a shell.
pub fn render_command(program: &str, args: &[&str]) -> (r: String)
    ensures
        r@ == rendered_command(program@, str_views(args@)),
{
    let mut out = String::from_str(program);
    let n = args.len();
    let mut i: usize = 0;
    while i < n
        invariant
            n == args@.len(),
            i <= n,
            out@ == rendered_command(program@, str_views(args@.take(i as int))),
        decreases n - i,
    {
        let a = args[i];
        let ghost before = args@.take(i as int);
        out.append(" ");
        if a.unicode_len() == 0 || has_whitespace(a) {
            out.append("'");
            out.append(a);
            out.append("'");
        } else {
            out.append(a);
        }
        proof {
            let after = args@.take(i + 1);
            assert(after.drop_last() =~= before);
            assert(str_views(after).drop_last() =~= str_views(before));
            assert(str_views(after).last() == a@);
        }
        i = i + 1;
    }
    assert(args@.take(n as int) =~= args@);
    out
}

} // verus!
