//! A whole run of `off` or `on`, as a state machine.
//!
//! The run prints its header, then handles every managed service in the
//! order of the list, each through its own `ServiceOp`, and prints one
//! summary line per service, also after a service has failed; then it
//! prints its footer and ends with exit code 3 where some service failed,
//! 0 otherwise. The caller performs the actions handed out and feeds back
//! the output of each command it ran.

use vstd::prelude::*;

use crate::command::Output;
use crate::launchctl::domain_of;
use crate::ops::{
    action_view, actions_after, actions_view, law_answer_shape, law_done_is_final, stage_after, Action, ActionView,
    law_dry_run_off_shows, law_dry_run_on_shows, Event, OpView, ServiceOp, Stage, EX_OK,
    EX_OP_FAILED,
};
use crate::output::{footer, footer_of, header, header_of, opt_view, OpOutcome, Toggle};
use crate::services::{managed, plist_path_of, scope_plist_dir, services, Scope, Service};

verus! {

/// Where a run stands.
#[derive(Debug, Clone, Copy, PartialEq, Eq, Structural)]
pub enum Phase {
    /// Not started.
    Ready,
    /// Waiting for the output of a command of the current service.
    Running,
    /// Done: footer printed and exit code given.
    Finished,
}

/// What the caller is to do next.
pub enum RunAction {
    /// Print this line (the header or the footer).
    Say(String),
    /// Carry out this action of the current service (never a report).
    Step(Action),
    /// Print the summary line of this outcome.
    Summarize(OpOutcome),
    /// End the program with this exit code.
    Finish(u8),
}

/// What happened.
pub enum RunEvent {
    Start,
    /// The command last handed out finished with this output.
    Exited(Output),
}

/// The mathematical content of a run action.
pub enum RunActionView {
    Say(Seq<char>),
    Step(ActionView),
    Summarize(Seq<char>, Scope, bool, Option<Seq<char>>),
    Finish(u8),
}

pub open spec fn run_action_view(a: RunAction) -> RunActionView {
    match a {
        RunAction::Say(s) => RunActionView::Say(s@),
        RunAction::Step(a) => RunActionView::Step(action_view(a)),
        RunAction::Summarize(o) => RunActionView::Summarize(
            o.service.label@,
            o.service.scope,
            o.ok,
            opt_view(o.reason),
        ),
        RunAction::Finish(c) => RunActionView::Finish(c),
    }
}

pub open spec fn run_actions_view(v: Seq<RunAction>) -> Seq<RunActionView> {
    v.map_values(|a: RunAction| run_action_view(a))
}

/// A service action as the run passes it on: its report becomes a summary.
pub open spec fn lift(a: ActionView) -> RunActionView {
    match a {
        ActionView::Report(l, sc, ok, r) => RunActionView::Summarize(l, sc, ok, r),
        _ => RunActionView::Step(a),
    }
}

/// The summaries in a transcript, in order: label, scope, and whether the
/// service went well.
pub open spec fn summaries(s: Seq<RunActionView>) -> Seq<(Seq<char>, Scope, bool)>
    decreases s.len(),
{
    if s.len() == 0 {
        seq![]
    } else {
        summaries(s.drop_last()) + match s.last() {
            RunActionView::Summarize(l, sc, ok, _) => seq![(l, sc, ok)],
            _ => seq![],
        }
    }
}

/// The action reports a failed service.
pub open spec fn reports_failure(a: ActionView) -> bool {
    match a {
        ActionView::Report(_, _, ok, _) => !ok,
        _ => false,
    }
}

/// The last action runs a command.
pub open spec fn ends_with_launch(s: Seq<RunActionView>) -> bool {
    s.len() > 0 && match s.last() {
        RunActionView::Step(ActionView::Launch(_)) => true,
        _ => false,
    }
}

/// Only service actions and summaries.
pub open spec fn only_service_actions(s: Seq<RunActionView>) -> bool {
    forall|i: int| 0 <= i < s.len() ==> (#[trigger] s[i] is Step || s[i] is Summarize)
}

/// The summaries are of the first `k` managed services, in order.
pub open spec fn summarizes_first(sums: Seq<(Seq<char>, Scope, bool)>, k: nat) -> bool {
    &&& sums.len() == k
    &&& forall|j: int| 0 <= j < k ==> (#[trigger] sums[j].0, sums[j].1) == managed()[j]
}

/// Some summarized service failed.
pub open spec fn some_failed(sums: Seq<(Seq<char>, Scope, bool)>) -> bool {
    exists|j: int| 0 <= j < sums.len() && !(#[trigger] sums[j]).2
}

/// The exit code of a run: 3 where some service failed, else 0.
pub open spec fn run_exit_code(failed: bool) -> u8 {
    if failed {
        EX_OP_FAILED
    } else {
        EX_OK
    }
}

pub proof fn lemma_summaries_concat(a: Seq<RunActionView>, b: Seq<RunActionView>)
    ensures
        summaries(a + b) == summaries(a) + summaries(b),
    decreases b.len(),
{
    if b.len() == 0 {
        assert(a + b =~= a);
        assert(summaries(a) + summaries(b) =~= summaries(a));
    } else {
        assert((a + b).drop_last() =~= a + b.drop_last());
        lemma_summaries_concat(a, b.drop_last());
        assert(summaries(a) + summaries(b.drop_last()) + summaries(seq![b.last()].drop_last())
            =~= summaries(a) + summaries(b.drop_last()));
        assert(summaries(a) + summaries(b) =~= summaries(a) + summaries(b.drop_last()) + match b.last() {
            RunActionView::Summarize(l, sc, ok, _) => seq![(l, sc, ok)],
            _ => seq![],
        });
    }
}

proof fn lemma_no_summaries(s: Seq<RunActionView>)
    requires
        forall|i: int| 0 <= i < s.len() ==> !(#[trigger] s[i] is Summarize),
    ensures
        summaries(s) == Seq::<(Seq<char>, Scope, bool)>::empty(),
    decreases s.len(),
{
    if s.len() > 0 {
        assert(s.last() == s[s.len() - 1]);
        lemma_no_summaries(s.drop_last());
    }
}

proof fn lemma_lifted_summaries(av: Seq<ActionView>)
    requires
        forall|i: int| 0 <= i < av.len() - 1 ==> !(#[trigger] av[i] is Report),
    ensures
        summaries(lifted(av)) == if av.len() > 0 {
            match av.last() {
                ActionView::Report(l, sc, ok, _) => seq![(l, sc, ok)],
                _ => seq![],
            }
        } else {
            seq![]
        },
        only_service_actions(lifted(av)),
{
    let lv = lifted(av);
    if av.len() > 0 {
        assert forall|i: int| 0 <= i < lv.drop_last().len() implies !(
        #[trigger] lv.drop_last()[i] is Summarize) by {
            assert(!(av[i] is Report));
            assert(lv.drop_last()[i] == lift(av[i]));
        }
        lemma_no_summaries(lv.drop_last());
        assert(lv.last() == lift(av.last()));
    }
    assert forall|i: int| 0 <= i < lv.len() implies (#[trigger] lv[i] is Step
        || lv[i] is Summarize) by {
        assert(lv[i] == lift(av[i]));
    }
}

proof fn lemma_only_service_concat(a: Seq<RunActionView>, b: Seq<RunActionView>)
    requires
        only_service_actions(a),
        only_service_actions(b),
    ensures
        only_service_actions(a + b),
{
    assert forall|i: int| 0 <= i < (a + b).len() implies (#[trigger] (a + b)[i] is Step || (a
        + b)[i] is Summarize) by {
        if i < a.len() {
            assert((a + b)[i] == a[i]);
        } else {
            assert((a + b)[i] == b[i - a.len()]);
        }
    }
}

proof fn lemma_some_failed_push(sums: Seq<(Seq<char>, Scope, bool)>, x: (Seq<char>, Scope, bool))
    ensures
        some_failed(sums.push(x)) == (some_failed(sums) || !x.2),
{
    let t = sums.push(x);
    if some_failed(sums) {
        let j = choose|j: int| 0 <= j < sums.len() && !(#[trigger] sums[j]).2;
        assert(t[j] == sums[j]);
    }
    if !x.2 {
        assert(t[sums.len() as int] == x);
    }
    if some_failed(t) {
        let j = choose|j: int| 0 <= j < t.len() && !(#[trigger] t[j]).2;
        if j < sums.len() {
            assert(t[j] == sums[j]);
        }
    }
}


// ---------------------------------------------------------------------
// The services' operations within a run
// ---------------------------------------------------------------------

/// The settings every operation of a run is made with.
pub struct Setup {
    pub toggle: Toggle,
    pub uid: u32,
    pub dry_run: bool,
    pub verbose: bool,
}

/// An operation moved to another stage.
pub open spec fn with_stage(v: OpView, st: Stage) -> OpView {
    OpView {
        toggle: v.toggle,
        label: v.label,
        scope: v.scope,
        domain: v.domain,
        target_label: v.target_label,
        plist: v.plist,
        dry_run: v.dry_run,
        verbose: v.verbose,
        stage: st,
    }
}

/// The operation `ServiceOp::new` makes for managed service `k`.
pub open spec fn fresh_op(s: Setup, k: int) -> OpView {
    OpView {
        toggle: s.toggle,
        label: managed()[k].0,
        scope: managed()[k].1,
        domain: domain_of(managed()[k].1, s.uid),
        target_label: managed()[k].0,
        plist: plist_path_of(managed()[k].0, managed()[k].1),
        dry_run: s.dry_run,
        verbose: s.verbose,
        stage: Stage::Ready,
    }
}

/// An operation fed `evs` in turn: where it then stands, and everything
/// it handed out.
pub open spec fn run_op(op: OpView, evs: Seq<Event>) -> (OpView, Seq<ActionView>)
    decreases evs.len(),
{
    if evs.len() == 0 {
        (op, seq![])
    } else {
        let (o1, a1) = run_op(op, evs.drop_last());
        (with_stage(o1, stage_after(o1, &evs.last())), a1 + actions_after(o1, &evs.last()))
    }
}

/// Service actions as the run passes them on.
pub open spec fn lifted(a: Seq<ActionView>) -> Seq<RunActionView> {
    a.map_values(|x: ActionView| lift(x))
}

/// What the services handed out, each service `j` fed the events
/// `hist[j]`, one service after the other in the order of the list.
pub open spec fn all_services(s: Setup, hist: Seq<Seq<Event>>) -> Seq<RunActionView>
    decreases hist.len(),
{
    if hist.len() == 0 {
        seq![]
    } else {
        all_services(s, hist.drop_last()) + lifted(
            run_op(fresh_op(s, hist.len() - 1), hist.last()).1,
        )
    }
}

/// What services `from` up to `to` (not included) hand out when begun.
pub open spec fn begun(s: Setup, from: int, to: int) -> Seq<RunActionView>
    decreases to - from,
{
    if from >= to {
        seq![]
    } else {
        lifted(actions_after(fresh_op(s, from), &Event::Begin)) + begun(s, from + 1, to)
    }
}

proof fn lemma_lifted_concat(a: Seq<ActionView>, b: Seq<ActionView>)
    ensures
        lifted(a + b) == lifted(a) + lifted(b),
{
    assert(lifted(a + b) =~= lifted(a) + lifted(b));
}

/// Feeding one more event to the last service.
proof fn lemma_push_event(s: Setup, hist: Seq<Seq<Event>>, e: Event)
    requires
        hist.len() > 0,
    ensures
        ({
            let h2 = hist.update(hist.len() - 1, hist.last().push(e));
            let f = fresh_op(s, hist.len() - 1);
            let x = run_op(f, hist.last()).0;
            &&& all_services(s, h2) == all_services(s, hist) + lifted(actions_after(x, &e))
            &&& run_op(f, h2.last()).0 == with_stage(x, stage_after(x, &e))
        }),
{
    let h2 = hist.update(hist.len() - 1, hist.last().push(e));
    let f = fresh_op(s, hist.len() - 1);
    assert(h2.drop_last() =~= hist.drop_last());
    assert(h2.last() == hist.last().push(e));
    assert(hist.last().push(e).drop_last() =~= hist.last());
    assert(hist.last().push(e).last() == e);
    let (x, a) = run_op(f, hist.last());
    lemma_lifted_concat(a, actions_after(x, &e));
    assert(all_services(s, h2) =~= all_services(s, hist) + lifted(actions_after(x, &e)));
}

/// A service not yet fed anything has handed out nothing.
proof fn lemma_push_empty(s: Setup, hist: Seq<Seq<Event>>)
    ensures
        all_services(s, hist.push(seq![])) == all_services(s, hist),
{
    let h2 = hist.push(seq![]);
    assert(h2.drop_last() =~= hist);
    assert(lifted(Seq::<ActionView>::empty()) =~= Seq::<RunActionView>::empty());
    assert(all_services(s, h2) =~= all_services(s, hist));
}

/// The operation of managed service `j`, fed `evs`, reported a failure.
pub open spec fn service_failed(s: Setup, j: int, evs: Seq<Event>) -> bool {
    let a = run_op(fresh_op(s, j), evs).1;
    a.len() > 0 && reports_failure(a.last())
}

/// What an operation hands out holds one report at most, its last action,
/// which is there once the operation is done.
proof fn lemma_op_summaries(f: OpView, evs: Seq<Event>)
    requires
        f.stage != Stage::Done,
    ensures
        ({
            let (x, a) = run_op(f, evs);
            &&& x == with_stage(f, x.stage)
            &&& x.stage != Stage::Done ==> summaries(lifted(a)) == Seq::<
                (Seq<char>, Scope, bool),
            >::empty()
            &&& x.stage == Stage::Done ==> a.len() > 0 && a.last() is Report && summaries(
                lifted(a),
            ) == seq![(f.label, f.scope, !reports_failure(a.last()))]
        }),
    decreases evs.len(),
{
    if evs.len() == 0 {
        assert(lifted(Seq::<ActionView>::empty()) =~= Seq::<RunActionView>::empty());
        assert(with_stage(f, f.stage) == f);
    } else {
        let e = evs.last();
        lemma_op_summaries(f, evs.drop_last());
        let (x0, a0) = run_op(f, evs.drop_last());
        let acts = actions_after(x0, &e);
        lemma_lifted_concat(a0, acts);
        lemma_summaries_concat(lifted(a0), lifted(acts));
        law_answer_shape(x0, &e);
        if x0.stage == Stage::Done {
            law_done_is_final(x0, &e);
            assert(a0 + acts =~= a0);
            assert(lifted(acts) =~= Seq::<RunActionView>::empty());
        } else {
            lemma_lifted_summaries(acts);
            if acts.len() > 0 && acts.last() is Report {
                assert((a0 + acts).last() == acts.last());
                assert(summaries(lifted(a0 + acts)) =~= seq![
                    (f.label, f.scope, !reports_failure(acts.last())),
                ]);
            } else {
                assert(summaries(lifted(a0 + acts)) =~= Seq::<(Seq<char>, Scope, bool)>::empty());
            }
        }
    }
}

/// Where every service in `h` is done, the summaries of what the services
/// handed out are one per service, in order, each saying whether that
/// service's own operation reported a failure.
proof fn lemma_all_summaries(s: Setup, h: Seq<Seq<Event>>)
    requires
        forall|j: int|
            0 <= j < h.len() ==> (#[trigger] run_op(fresh_op(s, j), h[j])).0.stage == Stage::Done,
    ensures
        summaries(all_services(s, h)).len() == h.len(),
        forall|j: int|
            0 <= j < h.len() ==> #[trigger] summaries(all_services(s, h))[j] == (
                fresh_op(s, j).label,
                fresh_op(s, j).scope,
                !service_failed(s, j, h[j]),
            ),
    decreases h.len(),
{
    if h.len() == 0 {
        assert(summaries(all_services(s, h)) =~= Seq::<(Seq<char>, Scope, bool)>::empty());
    } else {
        let n = h.len() - 1;
        let h0 = h.drop_last();
        assert forall|j: int| 0 <= j < h0.len() implies (#[trigger] run_op(
            fresh_op(s, j),
            h0[j],
        )).0.stage == Stage::Done by {
            assert(h0[j] == h[j]);
            assert(run_op(fresh_op(s, j), h[j]).0.stage == Stage::Done);
        }
        lemma_all_summaries(s, h0);
        assert(run_op(fresh_op(s, n), h[n]).0.stage == Stage::Done);
        assert(h.last() == h[n]);
        lemma_op_summaries(fresh_op(s, n), h[n]);
        let a = run_op(fresh_op(s, n), h[n]).1;
        lemma_summaries_concat(all_services(s, h0), lifted(a));
        let sums = summaries(all_services(s, h));
        assert forall|j: int| 0 <= j < h.len() implies #[trigger] sums[j] == (
            fresh_op(s, j).label,
            fresh_op(s, j).scope,
            !service_failed(s, j, h[j]),
        ) by {
            if j < n {
                assert(h0[j] == h[j]);
                assert(sums[j] == summaries(all_services(s, h0))[j]);
            }
        }
    }
}

/// What a dry run shows for managed service `k`: its two launchctl command
/// lines, then its summary, which says it went well.
pub open spec fn dry_shown(t: Toggle, uid: u32, k: int) -> Seq<RunActionView> {
    let (label, scope) = managed()[k];
    let d = domain_of(scope, uid);
    let first = match t {
        Toggle::Off => "launchctl"@ + " "@ + "disable"@ + " "@ + d + "/"@ + label,
        Toggle::On => "launchctl"@ + " "@ + "enable"@ + " "@ + d + "/"@ + label,
    };
    let second = match t {
        Toggle::Off => "launchctl"@ + " "@ + "bootout"@ + " "@ + d + "/"@ + label,
        Toggle::On => "launchctl"@ + " "@ + "bootstrap"@ + " "@ + d + " "@ + scope_plist_dir(scope)
            + "/"@ + label + ".plist"@,
    };
    seq![
        RunActionView::Step(ActionView::Echo(first)),
        RunActionView::Step(ActionView::Echo(second)),
        RunActionView::Summarize(label, scope, true, None),
    ]
}

/// What a dry run shows for the managed services from `from` on, in order.
pub open spec fn dry_lines(t: Toggle, uid: u32, from: int) -> Seq<RunActionView>
    decreases managed().len() - from,
{
    if from >= managed().len() {
        seq![]
    } else {
        dry_shown(t, uid, from) + dry_lines(t, uid, from + 1)
    }
}

proof fn lemma_some_failed_concat(
    a: Seq<(Seq<char>, Scope, bool)>,
    b: Seq<(Seq<char>, Scope, bool)>,
)
    ensures
        some_failed(a + b) == (some_failed(a) || some_failed(b)),
{
    let t = a + b;
    if some_failed(a) {
        let j = choose|j: int| 0 <= j < a.len() && !(#[trigger] a[j]).2;
        assert(t[j] == a[j]);
    }
    if some_failed(b) {
        let j = choose|j: int| 0 <= j < b.len() && !(#[trigger] b[j]).2;
        assert(t[a.len() + j] == b[j]);
    }
    if some_failed(t) {
        let j = choose|j: int| 0 <= j < t.len() && !(#[trigger] t[j]).2;
        if j < a.len() {
            assert(t[j] == a[j]);
        } else {
            assert(t[j] == b[j - a.len()]);
        }
    }
}

/// In a dry run, the services from `from` on, begun, show exactly their
/// command lines and summaries, and none fails.
proof fn lemma_dry_begun(s: Setup, from: int)
    requires
        s.dry_run,
        0 <= from <= managed().len(),
    ensures
        begun(s, from, managed().len() as int) == dry_lines(s.toggle, s.uid, from),
        !some_failed(summaries(begun(s, from, managed().len() as int))),
    decreases managed().len() - from,
{
    let n = managed().len() as int;
    if from >= n {
        assert(summaries(begun(s, from, n)) =~= Seq::<(Seq<char>, Scope, bool)>::empty());
    } else {
        lemma_dry_begun(s, from + 1);
        let f = fresh_op(s, from);
        let av = actions_after(f, &Event::Begin);
        let (label, scope) = managed()[from];
        match s.toggle {
            Toggle::Off => law_dry_run_off_shows(f, from, s.uid),
            Toggle::On => law_dry_run_on_shows(f, from, s.uid),
        }
        assert(lifted(av) =~= dry_shown(s.toggle, s.uid, from));
        lemma_lifted_summaries(av);
        assert(summaries(lifted(av)) == seq![(label, scope, true)]);
        assert(!some_failed(seq![(label, scope, true)]));
        lemma_summaries_concat(lifted(av), begun(s, from + 1, n));
        lemma_some_failed_concat(summaries(lifted(av)), summaries(begun(s, from + 1, n)));
    }
}

/// A whole run of `off` or `on`.
pub struct ToggleRun {
    pub toggle: Toggle,
    pub uid: u32,
    pub dry_run: bool,
    pub verbose: bool,
    /// The managed services, in order.
    pub list: Vec<Service>,
    /// How many services are done.
    pub next: usize,
    /// The operation on the service being handled.
    pub current: Option<ServiceOp>,
    /// Some service failed.
    pub failed: bool,
    pub phase: Phase,
    /// What was handed out between the header and the footer.
    pub body: Ghost<Seq<RunActionView>>,
    /// For each service begun, the events its operation was fed.
    pub history: Ghost<Seq<Seq<Event>>>,
}

impl ToggleRun {
    /// Everything handed out so far.
    pub open spec fn transcript(&self) -> Seq<RunActionView> {
        match self.phase {
            Phase::Ready => seq![],
            Phase::Running => seq![RunActionView::Say(header_of(self.toggle))] + self.body@,
            Phase::Finished => seq![RunActionView::Say(header_of(self.toggle))] + self.body@
                + seq![
                RunActionView::Say(footer_of(self.toggle)),
                RunActionView::Finish(run_exit_code(self.failed)),
            ],
        }
    }

    pub open spec fn setup(&self) -> Setup {
        Setup { toggle: self.toggle, uid: self.uid, dry_run: self.dry_run, verbose: self.verbose }
    }

    /// The operation of the current service is set up for it.
    pub open spec fn op_fits(&self, op: ServiceOp) -> bool {
        &&& self.next < self.list@.len()
        &&& op.service == self.list@[self.next as int]
        &&& op.toggle == self.toggle
        &&& op.dry_run == self.dry_run
        &&& op.verbose == self.verbose
    }

    /// What holds in every phase: the list is the managed list, and the
    /// body summarizes the services done so far, in order, with `failed`
    /// telling whether one of them failed.
    pub open spec fn consistent(&self) -> bool {
        &&& self.list@.len() == managed().len()
        &&& forall|j: int|
            0 <= j < self.list@.len() ==> (#[trigger] self.list@[j].label@, self.list@[j].scope)
                == managed()[j]
        &&& self.next <= self.list@.len()
        &&& only_service_actions(self.body@)
        &&& summarizes_first(summaries(self.body@), self.next as nat)
        &&& self.failed == some_failed(summaries(self.body@))
    }

    /// The body is exactly what the services' operations handed out, each
    /// begun and then fed the outputs of its own commands; every service
    /// before `next` is done.
    pub open spec fn faithful(&self) -> bool {
        let h = self.history@;
        &&& h.len() == if self.phase == Phase::Running {
            self.next + 1
        } else {
            self.next as int
        }
        &&& self.body@ == all_services(self.setup(), h)
        &&& forall|j: int| 0 <= j < h.len() ==> (#[trigger] h[j]).len() > 0 && h[j][0] is Begin
        &&& forall|j: int|
            0 <= j < self.next ==> (#[trigger] run_op(fresh_op(self.setup(), j), h[j])).0.stage
                == Stage::Done
    }

    pub open spec fn wf(&self) -> bool {
        &&& self.consistent()
        &&& self.faithful()
        &&& match self.phase {
            Phase::Ready => self.next == 0 && self.current is None && self.body@.len() == 0,
            Phase::Running => match self.current {
                Some(op) => self.op_fits(op) && (op.stage == Stage::First || op.stage
                    == Stage::Second) && op@ == run_op(
                    fresh_op(self.setup(), self.next as int),
                    self.history@[self.next as int],
                ).0,
                None => false,
            },
            Phase::Finished => self.next == self.list@.len() && self.current is None,
        }
    }

    /// An upper bound on the commands still to be run.
    pub open spec fn remaining(&self) -> nat {
        match self.phase {
            Phase::Ready => (2 * self.list@.len() + 1) as nat,
            Phase::Running => match self.current {
                Some(op) => (2 * (self.list@.len() - self.next) - if op.stage == Stage::Second {
                    1int
                } else {
                    0int
                }) as nat,
                None => 0,
            },
            Phase::Finished => 0,
        }
    }

    /// A run for user `uid`, not started.
    pub fn new(toggle: Toggle, uid: u32, dry_run: bool, verbose: bool) -> (r: ToggleRun)
        ensures
            r.wf(),
            r.phase == Phase::Ready,
            r.toggle == toggle,
            r.uid == uid,
            r.dry_run == dry_run,
            r.verbose == verbose,
    {
        let r = ToggleRun {
            toggle,
            uid,
            dry_run,
            verbose,
            list: services(),
            next: 0,
            current: None,
            failed: false,
            phase: Phase::Ready,
            body: Ghost(Seq::empty()),
            history: Ghost(Seq::empty()),
        };
        assert(summaries(r.body@) =~= Seq::<(Seq<char>, Scope, bool)>::empty());
        assert(all_services(r.setup(), r.history@) =~= Seq::<RunActionView>::empty());
        r
    }

    /// Pass on the answer of the current operation, turning its report into
    /// a summary.
    fn forward(&mut self, answer: Vec<Action>, out: &mut Vec<RunAction>)
        requires
            forall|i: int|
                0 <= i < answer@.len() - 1 ==> !(#[trigger] actions_view(answer@)[i] is Report),
        ensures
            run_actions_view(final(out)@) == run_actions_view(old(out)@) + lifted(actions_view(
                answer@,
            )),
            final(self).body@ == old(self).body@ + lifted(actions_view(answer@)),
            final(self).failed == (old(self).failed || (answer@.len() > 0 && reports_failure(
                actions_view(answer@).last(),
            ))),
            final(self).toggle == old(self).toggle,
            final(self).uid == old(self).uid,
            final(self).dry_run == old(self).dry_run,
            final(self).verbose == old(self).verbose,
            final(self).list == old(self).list,
            final(self).next == old(self).next,
            final(self).current == old(self).current,
            final(self).phase == old(self).phase,
            final(self).history == old(self).history,
    {
        let ghost all = actions_view(answer@);
        let ghost lv = lifted(all);
        let ghost out0 = run_actions_view(out@);
        let ghost body0 = self.body@;
        let ghost failed0 = self.failed;
        let n = answer.len();
        let mut rest = answer;
        let mut k: usize = 0;
        while k < n
            invariant
                n == all.len(),
                k <= n,
                lv == lifted(all),
                actions_view(rest@) == all.skip(k as int),
                rest@.len() == n - k,
                run_actions_view(out@) == out0 + lv.take(k as int),
                self.body@ == body0 + lv.take(k as int),
                forall|i: int| 0 <= i < n - 1 ==> !(#[trigger] all[i] is Report),
                self.failed == (failed0 || (k == n && n > 0 && reports_failure(all.last()))),
                self.toggle == old(self).toggle,
                self.uid == old(self).uid,
                self.dry_run == old(self).dry_run,
                self.verbose == old(self).verbose,
                self.list == old(self).list,
                self.next == old(self).next,
                self.current == old(self).current,
                self.phase == old(self).phase,
                self.history == old(self).history,
            decreases n - k,
        {
            let ghost rb = rest@;
            let a = rest.remove(0);
            let ghost av = action_view(a);
            proof {
                assert(rest@ =~= rb.skip(1));
                assert(av == actions_view(rb)[0]);
                assert(actions_view(rest@) =~= actions_view(rb).skip(1));
                assert(actions_view(rb).skip(1) =~= all.skip(k + 1));
                assert(av == all[k as int]);
            }
            let item = match a {
                Action::Report(o) => {
                    self.failed = self.failed || !o.ok;
                    RunAction::Summarize(o)
                },
                Action::Echo(s) => RunAction::Step(Action::Echo(s)),
                Action::Launch(v) => RunAction::Step(Action::Launch(v)),
                Action::Log(v) => RunAction::Step(Action::Log(v)),
                Action::Note(s) => RunAction::Step(Action::Note(s)),
            };
            let ghost iv = run_action_view(item);
            assert(iv == lift(av));
            let ghost ob = out@;
            out.push(item);
            self.body = Ghost(self.body@ + seq![iv]);
            proof {
                assert(lv[k as int] == lift(all[k as int]));
                assert(lv.take(k + 1) =~= lv.take(k as int) + seq![iv]);
                assert(run_actions_view(out@) =~= run_actions_view(ob) + seq![iv]);
                assert(self.body@ =~= body0 + lv.take(k + 1));
                assert(run_actions_view(out@) =~= out0 + lv.take(k + 1));
            }
            k = k + 1;
        }
        assert(lv.take(n as int) =~= lv);
    }

    /// Feed `ev` to `first`, the operation of service `next`, and go on
    /// beginning the following services until one waits for a command or
    /// all are done.
    #[verifier::rlimit(100)]
    #[verifier::spinoff_prover]
    fn drive(&mut self, first: ServiceOp, ev: Event, out: &mut Vec<RunAction>)
        requires
            old(self).consistent(),
            old(self).op_fits(first),
            old(self).history@.len() == old(self).next + 1,
            old(self).body@ == all_services(old(self).setup(), old(self).history@),
            forall|j: int|
                0 <= j < old(self).next ==> (#[trigger] old(self).history@[j]).len() > 0
                    && old(self).history@[j][0] is Begin,
            forall|j: int|
                0 <= j < old(self).next ==> (#[trigger] run_op(
                    fresh_op(old(self).setup(), j),
                    old(self).history@[j],
                )).0.stage == Stage::Done,
            first@ == run_op(
                fresh_op(old(self).setup(), old(self).next as int),
                old(self).history@[old(self).next as int],
            ).0,
            (first.stage == Stage::Ready && ev is Begin && old(self).history@[old(self).next as int].len() == 0) || ((first.stage == Stage::First || first.stage
                == Stage::Second) && ev is Exited && old(self).history@[old(self).next as int].len()
                > 0 && old(self).history@[old(self).next as int][0] is Begin),
        ensures
            final(self).toggle == old(self).toggle,
            final(self).uid == old(self).uid,
            final(self).dry_run == old(self).dry_run,
            final(self).verbose == old(self).verbose,
            final(self).list == old(self).list,
            final(self).phase == old(self).phase,
            final(self).consistent(),
            old(self).next <= final(self).next <= final(self).list@.len(),
            final(self).history@.len() == final(self).next + if final(self).next < final(self).list@.len() {
                1int
            } else {
                0int
            },
            forall|j: int|
                0 <= j < old(self).next ==> #[trigger] final(self).history@[j] == old(self).history@[j],
            final(self).history@[old(self).next as int] == old(self).history@[old(self).next as int].push(ev),
            forall|j: int|
                old(self).next < j < final(self).history@.len() ==> #[trigger] final(self).history@[j] == seq![Event::Begin],
            final(self).body@ == all_services(final(self).setup(), final(self).history@),
            final(self).body@ == old(self).body@ + lifted(actions_after(first@, &ev)) + begun(
                old(self).setup(),
                old(self).next + 1,
                final(self).history@.len() as int,
            ),
            forall|j: int|
                0 <= j < final(self).history@.len() ==> (#[trigger] final(self).history@[j]).len()
                    > 0 && final(self).history@[j][0] is Begin,
            forall|j: int|
                0 <= j < final(self).next ==> (#[trigger] run_op(
                    fresh_op(final(self).setup(), j),
                    final(self).history@[j],
                )).0.stage == Stage::Done,
            final(self).body@ == old(self).body@ + run_actions_view(final(out)@).skip(
                old(out)@.len() as int,
            ),
            run_actions_view(final(out)@).take(old(out)@.len() as int) == run_actions_view(
                old(out)@,
            ),
            final(out)@.len() > old(out)@.len(),
            final(self).next < final(self).list@.len() ==> match final(self).current {
                Some(op) => final(self).op_fits(op) && (op.stage == Stage::First || op.stage
                    == Stage::Second) && ends_with_launch(run_actions_view(final(out)@))
                    && op@ == run_op(
                    fresh_op(final(self).setup(), final(self).next as int),
                    final(self).history@[final(self).next as int],
                ).0,
                None => false,
            },
            final(self).next == final(self).list@.len() ==> final(self).current is None,
            final(self).next == old(self).next ==> first.stage == Stage::Ready || (first.stage
                == Stage::First && final(self).current is Some && final(self).current->0.stage
                == Stage::Second),
            old(self).dry_run && first.stage == Stage::Ready ==> final(self).next == final(self).list@.len(),
        decreases old(self).list@.len() - old(self).next,
    {
        let ghost out0 = run_actions_view(out@);
        let ghost k0 = out@.len();
        let ghost body0 = self.body@;
        let ghost sums0 = summaries(body0);
        let ghost s = self.setup();
        let ghost h0 = self.history@;
        let ghost i = self.next as int;
        let ghost op0 = first;
        let ghost ev0 = ev;
        let mut op = first;
        let answer = op.advance(ev);
        proof {
            law_answer_shape(op0@, &ev0);
            lemma_push_event(s, h0, ev0);
        }
        self.history = Ghost(h0.update(i, h0[i].push(ev0)));
        let ghost h1 = self.history@;
        let ghost av = actions_view(answer@);
        self.forward(answer, out);
        let ghost lv = lifted(av);
        proof {
            lemma_lifted_summaries(av);
            lemma_summaries_concat(body0, lv);
            lemma_only_service_concat(body0, lv);
            assert(run_actions_view(out@).skip(k0 as int) =~= lv);
            assert(run_actions_view(out@).take(k0 as int) =~= out0);
            assert(h0.last() == h0[i]);
            assert(self.body@ == all_services(s, h1));
            assert(op@ == run_op(fresh_op(s, i), h1[i]).0);
            assert forall|j: int| 0 <= j < h1.len() implies (#[trigger] h1[j]).len() > 0
                && h1[j][0] is Begin by {
                if j == i {
                    if h0[i].len() > 0 {
                        assert(h1[j][0] == h0[i][0]);
                    } else {
                        assert(h1[j][0] == ev0);
                    }
                } else {
                    assert(h1[j] == h0[j]);
                }
            }
            assert forall|j: int| 0 <= j < i implies (#[trigger] run_op(fresh_op(s, j), h1[j])).0.stage
                == Stage::Done by {
                assert(h1[j] == h0[j]);
            }
            assert(begun(s, i + 1, i + 1) =~= Seq::<RunActionView>::empty());
        }
        if op.stage == Stage::Done {
            let ghost ok = match av.last() {
                ActionView::Report(_, _, ok, _) => ok,
                _ => true,
            };
            proof {
                assert(av.len() > 0 && av.last() is Report);
                let x = (op0.service.label@, op0.service.scope, ok);
                assert(summaries(lv) == seq![x]);
                assert(summaries(self.body@) =~= sums0.push(x));
                lemma_some_failed_push(sums0, x);
                assert(reports_failure(av.last()) == !ok);
                assert((self.list@[self.next as int].label@, self.list@[self.next as int].scope)
                    == managed()[self.next as int]);
                assert forall|j: int| 0 <= j < self.next + 1 implies (#[trigger] summaries(
                    self.body@,
                )[j].0, summaries(self.body@)[j].1) == managed()[j] by {
                    if j < self.next {
                        assert(summaries(self.body@)[j] == sums0[j]);
                    }
                }
            }
            self.next = self.next + 1;
            if self.next == self.list.len() {
                self.current = None;
            } else {
                let next_op = ServiceOp::new(
                    self.toggle,
                    &self.list[self.next],
                    self.uid,
                    self.dry_run,
                    self.verbose,
                );
                proof {
                    lemma_push_empty(s, h1);
                    assert((self.list@[self.next as int].label@, self.list@[
                        self.next as int].scope) == managed()[self.next as int]);
                    assert(next_op@ == fresh_op(s, self.next as int));
                }
                self.history = Ghost(h1.push(seq![]));
                let ghost h2 = self.history@;
                proof {
                    assert(h2[self.next as int] == Seq::<Event>::empty());
                    assert(run_op(fresh_op(s, self.next as int), h2[self.next as int]).0
                        == fresh_op(s, self.next as int));
                    assert forall|j: int| 0 <= j < self.next implies (#[trigger] h2[j]).len() > 0
                        && h2[j][0] is Begin by {
                        assert(h2[j] == h1[j]);
                    }
                    assert forall|j: int| 0 <= j < self.next implies (#[trigger] run_op(
                        fresh_op(s, j),
                        h2[j],
                    )).0.stage == Stage::Done by {
                        assert(h2[j] == h1[j]);
                    }
                }
                let ghost out1 = run_actions_view(out@);
                let ghost k1 = out@.len();
                let ghost body1 = self.body@;
                self.drive(next_op, Event::Begin, out);
                proof {
                    let h = self.history@;
                    assert(run_actions_view(out@).take(k1 as int) == out1);
                    assert(run_actions_view(out@).take(k0 as int) =~= out1.take(k0 as int));
                    assert(out1.skip(k0 as int) =~= lv);
                    assert(run_actions_view(out@).skip(k0 as int) =~= out1.skip(k0 as int)
                        + run_actions_view(out@).skip(k1 as int));
                    assert(self.body@ =~= body0 + run_actions_view(out@).skip(k0 as int));
                    assert(h[i] == h1[i]);
                    assert forall|j: int| 0 <= j < i implies #[trigger] h[j] == h0[j] by {
                        assert(h[j] == h2[j]);
                    }
                    assert(h[i + 1] =~= seq![Event::Begin]);
                    assert(fresh_op(s, i + 1) == next_op@);
                    assert(begun(s, i + 1, h.len() as int) == lifted(
                        actions_after(fresh_op(s, i + 1), &Event::Begin),
                    ) + begun(s, i + 2, h.len() as int));
                    assert(self.body@ =~= body0 + lv + begun(s, i + 1, h.len() as int));
                }
            }
        } else {
            proof {
                assert(av.len() > 0 && av.last() is Launch);
                assert(summaries(lv) =~= Seq::<(Seq<char>, Scope, bool)>::empty());
                assert(summaries(self.body@) =~= sums0);
                assert(reports_failure(av.last()) == false);
                assert(run_actions_view(out@).last() == lv.last());
            }
            self.current = Some(op);
        }
    }

    /// The services' part of an answer is handed out, the footer not yet.
    spec fn settled(&self) -> bool {
        let h = self.history@;
        &&& self.consistent()
        &&& self.phase == Phase::Running
        &&& h.len() == self.next + if self.next < self.list@.len() {
            1int
        } else {
            0int
        }
        &&& self.body@ == all_services(self.setup(), h)
        &&& forall|j: int| 0 <= j < h.len() ==> (#[trigger] h[j]).len() > 0 && h[j][0] is Begin
        &&& forall|j: int|
            0 <= j < self.next ==> (#[trigger] run_op(fresh_op(self.setup(), j), h[j])).0.stage
                == Stage::Done
        &&& self.next < self.list@.len() ==> match self.current {
            Some(op) => self.op_fits(op) && (op.stage == Stage::First || op.stage == Stage::Second)
                && op@ == run_op(fresh_op(self.setup(), self.next as int), h[self.next as int]).0,
            None => false,
        }
        &&& self.next == self.list@.len() ==> self.current is None
    }

    /// Print the header and begin the services.
    #[verifier::rlimit(100)]
    #[verifier::spinoff_prover]
    fn open_run(&mut self, out: &mut Vec<RunAction>)
        requires
            old(self).wf(),
            old(self).phase == Phase::Ready,
            old(out)@.len() == 0,
        ensures
            final(self).settled(),
            final(self).toggle == old(self).toggle,
            final(self).uid == old(self).uid,
            final(self).dry_run == old(self).dry_run,
            final(self).verbose == old(self).verbose,
            final(self).list == old(self).list,
            run_actions_view(final(out)@) == seq![RunActionView::Say(header_of(old(self).toggle))]
                + begun(old(self).setup(), 0, final(self).history@.len() as int),
            run_actions_view(final(out)@) == seq![RunActionView::Say(header_of(old(self).toggle))]
                + final(self).body@,
            forall|j: int|
                0 <= j < final(self).history@.len() ==> #[trigger] final(self).history@[j]
                    == seq![Event::Begin],
            final(out)@.len() > 0,
            final(self).remaining() < old(self).remaining(),
            final(self).next < final(self).list@.len() ==> ends_with_launch(
                run_actions_view(final(out)@),
            ),
            old(self).dry_run ==> final(self).next == final(self).list@.len(),
            old(self).dry_run ==> run_actions_view(final(out)@) == seq![
                RunActionView::Say(header_of(old(self).toggle)),
            ] + dry_lines(old(self).toggle, old(self).uid, 0) && !final(self).failed,
    {
        let ghost s = self.setup();
        out.push(RunAction::Say(String::from_str(header(self.toggle))));
        self.phase = Phase::Running;
        let op = ServiceOp::new(self.toggle, &self.list[0], self.uid, self.dry_run, self.verbose);
        proof {
            lemma_push_empty(s, self.history@);
            assert(self.history@.push(seq![]) =~= seq![Seq::<Event>::empty()]);
            assert((self.list@[0].label@, self.list@[0].scope) == managed()[0]);
            assert(op@ == fresh_op(s, 0));
            assert(all_services(s, Seq::<Seq<Event>>::empty()) =~= Seq::<RunActionView>::empty());
        }
        self.history = Ghost(self.history@.push(seq![]));
        proof {
            assert(run_op(fresh_op(s, 0), self.history@[0]).0 == fresh_op(s, 0));
        }
        self.drive(op, Event::Begin, out);
        proof {
            let v = run_actions_view(out@);
            let h = self.history@;
            assert(v.take(1) =~= seq![RunActionView::Say(header_of(self.toggle))]);
            assert(self.body@ =~= v.skip(1));
            assert(seq![RunActionView::Say(header_of(self.toggle))] + self.body@ =~= v);
            assert(h[0] =~= seq![Event::Begin]);
            assert(begun(s, 0, h.len() as int) == lifted(
                actions_after(fresh_op(s, 0), &Event::Begin),
            ) + begun(s, 1, h.len() as int));
            assert(v =~= seq![RunActionView::Say(header_of(self.toggle))] + begun(
                s,
                0,
                h.len() as int,
            ));
            if s.dry_run {
                lemma_dry_begun(s, 0);
            }
        }
    }

    /// Feed the output of the last command to the current operation and
    /// go on with the services.
    #[verifier::rlimit(100)]
    #[verifier::spinoff_prover]
    fn resume_run(&mut self, o: Output, out: &mut Vec<RunAction>)
        requires
            old(self).wf(),
            old(self).phase == Phase::Running,
            old(out)@.len() == 0,
        ensures
            final(self).settled(),
            final(self).toggle == old(self).toggle,
            final(self).uid == old(self).uid,
            final(self).dry_run == old(self).dry_run,
            final(self).verbose == old(self).verbose,
            final(self).list == old(self).list,
            final(self).body@ == old(self).body@ + run_actions_view(final(out)@),
            run_actions_view(final(out)@) == lifted(
                actions_after(old(self).current->0@, &Event::Exited(o)),
            ) + begun(old(self).setup(), old(self).next + 1, final(self).history@.len() as int),
            forall|j: int|
                0 <= j < old(self).next ==> #[trigger] final(self).history@[j]
                    == old(self).history@[j],
            final(self).history@[old(self).next as int]
                == old(self).history@[old(self).next as int].push(Event::Exited(o)),
            forall|j: int|
                old(self).next < j < final(self).history@.len()
                    ==> #[trigger] final(self).history@[j] == seq![Event::Begin],
            final(out)@.len() > 0,
            final(self).remaining() < old(self).remaining(),
            final(self).next < final(self).list@.len() ==> ends_with_launch(
                run_actions_view(final(out)@),
            ),
    {
        let ghost body0 = self.body@;
        let op = match self.current.take() {
            Some(op) => op,
            None => {
                return ;
            },
        };
        self.drive(op, Event::Exited(o), out);
        proof {
            let v = run_actions_view(out@);
            assert(v.skip(0) =~= v);
            assert(self.body@.skip(body0.len() as int) =~= v);
            assert(self.body@.skip(body0.len() as int) =~= lifted(
                actions_after(op@, &Event::Exited(o)),
            ) + begun(self.setup(), old(self).next + 1, self.history@.len() as int));
        }
    }

    /// Where every service is done, print the footer and give the exit code.
    fn close_run(&mut self, out: &mut Vec<RunAction>)
        requires
            old(self).settled(),
        ensures
            final(self).wf(),
            final(self).toggle == old(self).toggle,
            final(self).uid == old(self).uid,
            final(self).dry_run == old(self).dry_run,
            final(self).verbose == old(self).verbose,
            final(self).list == old(self).list,
            final(self).next == old(self).next,
            final(self).failed == old(self).failed,
            final(self).body == old(self).body,
            final(self).history == old(self).history,
            final(self).current == old(self).current,
            old(self).next == old(self).list@.len() ==> final(self).phase == Phase::Finished
                && run_actions_view(final(out)@) == run_actions_view(old(out)@) + seq![
                RunActionView::Say(footer_of(old(self).toggle)),
                RunActionView::Finish(run_exit_code(old(self).failed)),
            ],
            old(self).next < old(self).list@.len() ==> final(self).phase == Phase::Running
                && final(out)@ == old(out)@,
    {
        if self.next == self.list.len() {
            let ghost mid = run_actions_view(out@);
            out.push(RunAction::Say(String::from_str(footer(self.toggle))));
            let code = if self.failed {
                EX_OP_FAILED
            } else {
                EX_OK
            };
            out.push(RunAction::Finish(code));
            self.phase = Phase::Finished;
            proof {
                assert(run_actions_view(out@) =~= mid + seq![
                    RunActionView::Say(footer_of(self.toggle)),
                    RunActionView::Finish(run_exit_code(self.failed)),
                ]);
            }
        }
    }

    /// Take in `ev` and hand out what is to be done next.
    ///
    /// The service part of the answer is exactly what the services'
    /// operations hand out: for `Exited(o)`, what the current operation
    /// answers to `o`, then, where that finished its service, what each
    /// following service answers to being begun, until one waits for a
    /// command; for `Start`, the header and then what the services answer
    /// to being begun, in the same way. Where the last service is done, the
    /// footer and the exit code follow. A dry run answers `Start` with the
    /// whole run at once: the header, the two command lines and the summary
    /// of every service, the footer and exit code 0, and runs nothing.
    pub fn advance(&mut self, ev: RunEvent) -> (r: Vec<RunAction>)
        requires
            old(self).wf(),
        ensures
            final(self).wf(),
            final(self).toggle == old(self).toggle,
            final(self).uid == old(self).uid,
            final(self).dry_run == old(self).dry_run,
            final(self).verbose == old(self).verbose,
            final(self).transcript() == old(self).transcript() + run_actions_view(r@),
            ({
                let tail = if final(self).phase == Phase::Finished {
                    seq![
                        RunActionView::Say(footer_of(old(self).toggle)),
                        RunActionView::Finish(run_exit_code(final(self).failed)),
                    ]
                } else {
                    seq![]
                };
                let len2 = final(self).history@.len() as int;
                match ev {
                    RunEvent::Start => old(self).phase == Phase::Ready ==> {
                        &&& run_actions_view(r@) == seq![
                            RunActionView::Say(header_of(old(self).toggle)),
                        ] + begun(old(self).setup(), 0, len2) + tail
                        &&& forall|j: int|
                            0 <= j < len2 ==> #[trigger] final(self).history@[j] == seq![
                                Event::Begin,
                            ]
                    },
                    RunEvent::Exited(o) => old(self).phase == Phase::Running ==> {
                        &&& run_actions_view(r@) == lifted(
                            actions_after(old(self).current->0@, &Event::Exited(o)),
                        ) + begun(old(self).setup(), old(self).next + 1, len2) + tail
                        &&& forall|j: int|
                            0 <= j < old(self).next ==> #[trigger] final(self).history@[j] == old(self).history@[j]
                        &&& final(self).history@[old(self).next as int] == old(self).history@[old(self).next as int].push(Event::Exited(o))
                        &&& forall|j: int|
                            old(self).next < j < len2 ==> #[trigger] final(self).history@[j]
                                == seq![Event::Begin]
                    },
                }
            }),
            ({
                let expected = (ev is Start && old(self).phase == Phase::Ready) || (ev is Exited
                    && old(self).phase == Phase::Running);
                &&& expected ==> r@.len() > 0 && final(self).remaining() < old(self).remaining()
                &&& expected && final(self).phase == Phase::Running ==> ends_with_launch(
                    run_actions_view(r@),
                )
                &&& !expected ==> r@.len() == 0 && final(self).phase == old(self).phase
                    && final(self).remaining() == old(self).remaining() && final(self).history
                    == old(self).history
            }),
            old(self).dry_run && old(self).phase == Phase::Ready && ev is Start ==> final(self).phase
                == Phase::Finished && run_actions_view(r@) == seq![
                RunActionView::Say(header_of(old(self).toggle)),
            ] + dry_lines(old(self).toggle, old(self).uid, 0) + seq![
                RunActionView::Say(footer_of(old(self).toggle)),
                RunActionView::Finish(EX_OK),
            ],
    {
        let mut out: Vec<RunAction> = Vec::new();
        match ev {
            RunEvent::Start => {
                if self.phase != Phase::Ready {
                    return out;
                }
                self.open_run(&mut out);
            },
            RunEvent::Exited(o) => {
                if self.phase != Phase::Running {
                    return out;
                }
                self.resume_run(o, &mut out);
            },
        }
        self.close_run(&mut out);
        out
    }
}

/// A finished run printed its header; then, for every managed service in
/// the order of the list (also after a failure), exactly what that
/// service's own operation handed out when begun and fed the outputs of its
/// commands, its summary last; then its footer; and it ended with exit code
/// 3 exactly where some service's operation reported a failure, 0
/// otherwise.
pub proof fn law_finished_run(run: &ToggleRun)
    requires
        run.wf(),
        run.phase == Phase::Finished,
    ensures
        ({
            let t = run.transcript();
            let body = t.subrange(1, t.len() - 2);
            let h = run.history@;
            &&& t.len() >= 3
            &&& t[0] == RunActionView::Say(header_of(run.toggle))
            &&& t[t.len() - 2] == RunActionView::Say(footer_of(run.toggle))
            &&& h.len() == managed().len()
            &&& body == all_services(run.setup(), h)
            &&& forall|j: int|
                0 <= j < h.len() ==> (#[trigger] h[j]).len() > 0 && h[j][0] is Begin && run_op(
                    fresh_op(run.setup(), j),
                    h[j],
                ).0.stage == Stage::Done
            &&& only_service_actions(body)
            &&& summarizes_first(summaries(body), managed().len())
            &&& forall|j: int|
                0 <= j < h.len() ==> (#[trigger] summaries(body)[j]).2 == !service_failed(
                    run.setup(),
                    j,
                    h[j],
                )
            &&& t.last() == RunActionView::Finish(
                if exists|j: int| 0 <= j < h.len() && #[trigger] service_failed(run.setup(), j, h[j]) {
                    EX_OP_FAILED
                } else {
                    EX_OK
                },
            )
        }),
{
    let t = run.transcript();
    let h = run.history@;
    let s = run.setup();
    assert(t.subrange(1, t.len() - 2) =~= run.body@);
    lemma_all_summaries(s, h);
    let sums = summaries(run.body@);
    if exists|j: int| 0 <= j < h.len() && #[trigger] service_failed(s, j, h[j]) {
        let j = choose|j: int| 0 <= j < h.len() && #[trigger] service_failed(s, j, h[j]);
        assert(!sums[j].2);
    }
    if some_failed(sums) {
        let j = choose|j: int| 0 <= j < sums.len() && !(#[trigger] sums[j]).2;
        assert(service_failed(s, j, h[j]));
    }
}

/// A run starts with its header and hands out nothing before it starts.
pub proof fn law_run_starts_with_header(run: &ToggleRun)
    requires
        run.wf(),
        run.phase != Phase::Ready,
    ensures
        run.transcript().len() > 0,
        run.transcript()[0] == RunActionView::Say(header_of(run.toggle)),
{
}

} // verus!
