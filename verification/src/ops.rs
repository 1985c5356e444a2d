//! The decisions of `off` and `on`, as a state machine per service.
//!
//! Toggling one service takes two launchctl steps: `disable` then `bootout`
//! for `off`, `enable` then `bootstrap` for `on`. The caller performs the
//! actions the machine hands out (print a command, run launchctl, print its
//! output, report the outcome) and feeds back the output of each command it
//! ran. A failure of the first step is always an error; a failure of the
//! second is forgiven where launchctl says the service was already in the
//! wanted state (not loaded for `bootout`, already loaded for `bootstrap`).
//! In a dry run nothing is ever run: every command is only shown.

use vstd::prelude::*;

use crate::command::{succeeded, Output};
use crate::launchctl::{
    bootstrap_argv, build_argv, build_bootstrap_argv, combined_text, is_bootout_not_loaded,
    is_bootstrap_already_loaded, lowercase, render_argv, rendered_argv, says_already_loaded,
    says_not_loaded, string_views, verb_argv, Target, Verb,
};
use crate::output::{
    failure_reason, failure_reason_of, log_lines, log_lines_of, opt_view, OpOutcome, Toggle,
};
use crate::command::{needs_quotes, rendered_command, shown_arg};
use crate::launchctl::{domain_of, qualified_name};
use crate::services::{
    any_system_service, has_system_services, managed, plist_path_of, scope_plist_dir, services,
    Scope, Service,
};
use crate::text::{contains, decimal, digit_char, is_ws};

verus! {

/// Where the operation on one service stands.
#[derive(Debug, Clone, Copy, PartialEq, Eq, Structural)]
pub enum Stage {
    /// Not begun.
    Ready,
    /// Waiting for the output of the first step.
    First,
    /// Waiting for the output of the second step.
    Second,
    /// Reported.
    Done,
}

/// The operation on one service.
pub struct ServiceOp {
    pub toggle: Toggle,
    pub service: Service,
    pub target: Target,
    /// The service's plist, which `bootstrap` loads.
    pub plist: String,
    pub dry_run: bool,
    pub verbose: bool,
    pub stage: Stage,
}

/// The mathematical content of an operation: what its actions depend on.
pub struct OpView {
    pub toggle: Toggle,
    pub label: Seq<char>,
    pub scope: Scope,
    pub domain: Seq<char>,
    pub target_label: Seq<char>,
    pub plist: Seq<char>,
    pub dry_run: bool,
    pub verbose: bool,
    pub stage: Stage,
}

impl View for ServiceOp {
    type V = OpView;

    open spec fn view(&self) -> OpView {
        OpView {
            toggle: self.toggle,
            label: self.service.label@,
            scope: self.service.scope,
            domain: self.target.domain@,
            target_label: self.target.label@,
            plist: self.plist@,
            dry_run: self.dry_run,
            verbose: self.verbose,
            stage: self.stage,
        }
    }
}

/// What the caller is to do next.
pub enum Action {
    /// Print this rendered launchctl command line.
    Echo(String),
    /// Run launchctl with these arguments and hand its output back.
    Launch(Vec<String>),
    /// Print these lines of a command's output.
    Log(Vec<String>),
    /// A step failed only because the service was already as wanted: a
    /// debugging note on that.
    Note(String),
    /// The service is done, with this outcome.
    Report(OpOutcome),
}

/// What happened.
pub enum Event {
    /// Start the operation.
    Begin,
    /// The command last handed out finished with this output.
    Exited(Output),
}

/// The mathematical content of an action.
pub enum ActionView {
    Echo(Seq<char>),
    Launch(Seq<Seq<char>>),
    Log(Seq<Seq<char>>),
    Note(Seq<char>),
    /// Label and scope of the service, whether it went well, and why not.
    Report(Seq<char>, Scope, bool, Option<Seq<char>>),
}

pub open spec fn action_view(a: Action) -> ActionView {
    match a {
        Action::Echo(s) => ActionView::Echo(s@),
        Action::Launch(v) => ActionView::Launch(string_views(v@)),
        Action::Log(v) => ActionView::Log(string_views(v@)),
        Action::Note(s) => ActionView::Note(s@),
        Action::Report(o) => ActionView::Report(
            o.service.label@,
            o.service.scope,
            o.ok,
            opt_view(o.reason),
        ),
    }
}

pub open spec fn actions_view(v: Seq<Action>) -> Seq<ActionView> {
    v.map_values(|a: Action| action_view(a))
}

/// The launchctl arguments of a step.
pub open spec fn step_argv(op: OpView, st: Stage) -> Seq<Seq<char>> {
    match op.toggle {
        Toggle::Off => if st == Stage::First {
            verb_argv(Verb::Disable, op.domain, op.target_label)
        } else {
            verb_argv(Verb::Bootout, op.domain, op.target_label)
        },
        Toggle::On => if st == Stage::First {
            verb_argv(Verb::Enable, op.domain, op.target_label)
        } else {
            bootstrap_argv(op.domain, op.plist)
        },
    }
}

/// The name a failed step is reported under.
pub open spec fn step_name(t: Toggle, st: Stage) -> Seq<char> {
    match t {
        Toggle::Off => if st == Stage::First {
            "disable"@
        } else {
            "bootout"@
        },
        Toggle::On => if st == Stage::First {
            "enable"@
        } else {
            "bootstrap"@
        },
    }
}

/// A failure of the step that only says the service is already as wanted.
pub open spec fn tolerated(t: Toggle, st: Stage, o: &Output) -> bool {
    st == Stage::Second && match t {
        Toggle::Off => says_not_loaded(lowercase(combined_text(o))),
        Toggle::On => says_already_loaded(lowercase(combined_text(o))),
    }
}

/// The step went well enough to go on.
pub open spec fn step_passed(t: Toggle, st: Stage, o: &Output) -> bool {
    succeeded(o) || tolerated(t, st, o)
}

/// The command line shown for a step, in a dry run or in verbose mode.
pub open spec fn echo(op: OpView, st: Stage) -> Seq<ActionView> {
    if op.dry_run || op.verbose {
        seq![ActionView::Echo(rendered_argv(step_argv(op, st)))]
    } else {
        seq![]
    }
}

pub open spec fn report_ok(op: OpView) -> ActionView {
    ActionView::Report(op.label, op.scope, true, None)
}

pub open spec fn report_failed(op: OpView, st: Stage, o: &Output) -> ActionView {
    ActionView::Report(
        op.label,
        op.scope,
        false,
        Some(step_name(op.toggle, st) + ": "@ + failure_reason_of(o)),
    )
}

/// Actions on reaching the second step.
pub open spec fn enter_second(op: OpView) -> Seq<ActionView> {
    if op.dry_run {
        echo(op, Stage::Second) + seq![report_ok(op)]
    } else {
        echo(op, Stage::Second) + seq![ActionView::Launch(step_argv(op, Stage::Second))]
    }
}

/// Actions on beginning.
pub open spec fn enter_first(op: OpView) -> Seq<ActionView> {
    if op.dry_run {
        echo(op, Stage::First) + enter_second(op)
    } else {
        echo(op, Stage::First) + seq![ActionView::Launch(step_argv(op, Stage::First))]
    }
}

/// The output of a step, shown in verbose mode.
pub open spec fn logs(op: OpView, o: &Output) -> Seq<ActionView> {
    if op.verbose {
        seq![ActionView::Log(log_lines_of(o.stdout@, o.stderr@))]
    } else {
        seq![]
    }
}

/// What is noted when the second step failed but only because the service
/// was already as wanted.
pub open spec fn tolerance_note(t: Toggle) -> Seq<char> {
    match t {
        Toggle::Off => "bootout reported service not loaded (ok)"@,
        Toggle::On => "bootstrap reported service already loaded (ok)"@,
    }
}

/// The note on a tolerated failure of the second step; none on a success.
pub open spec fn tolerance_notes(op: OpView, o: &Output) -> Seq<ActionView> {
    if succeeded(o) {
        seq![]
    } else {
        seq![ActionView::Note(tolerance_note(op.toggle))]
    }
}

/// The actions that follow `ev` in the state `op`.
pub open spec fn actions_after(op: OpView, ev: &Event) -> Seq<ActionView> {
    match ev {
        Event::Begin => if op.stage == Stage::Ready {
            enter_first(op)
        } else {
            seq![]
        },
        Event::Exited(o) => if op.stage == Stage::First {
            logs(op, o) + if step_passed(op.toggle, Stage::First, o) {
                enter_second(op)
            } else {
                seq![report_failed(op, Stage::First, o)]
            }
        } else if op.stage == Stage::Second {
            logs(op, o) + if step_passed(op.toggle, Stage::Second, o) {
                tolerance_notes(op, o) + seq![report_ok(op)]
            } else {
                seq![report_failed(op, Stage::Second, o)]
            }
        } else {
            seq![]
        },
    }
}

/// The stage that follows `ev` in the state `op`.
pub open spec fn stage_after(op: OpView, ev: &Event) -> Stage {
    match ev {
        Event::Begin => if op.stage == Stage::Ready {
            if op.dry_run {
                Stage::Done
            } else {
                Stage::First
            }
        } else {
            op.stage
        },
        Event::Exited(o) => if op.stage == Stage::First {
            if step_passed(op.toggle, Stage::First, o) && !op.dry_run {
                Stage::Second
            } else {
                Stage::Done
            }
        } else if op.stage == Stage::Second {
            Stage::Done
        } else {
            op.stage
        },
    }
}

impl ServiceOp {
    /// The operation on `svc` for user `uid`, not begun.
    pub fn new(toggle: Toggle, svc: &Service, uid: u32, dry_run: bool, verbose: bool) -> (r:
        ServiceOp)
        ensures
            r.toggle == toggle,
            r.service == *svc,
            r.target.domain@ == crate::launchctl::domain_of(svc.scope, uid),
            r.target.label@ == svc.label@,
            r.plist@ == plist_path_of(svc.label@, svc.scope),
            r.dry_run == dry_run,
            r.verbose == verbose,
            r.stage == Stage::Ready,
    {
        ServiceOp {
            toggle,
            service: *svc,
            target: Target::for_service(svc, uid),
            plist: svc.plist_path(),
            dry_run,
            verbose,
            stage: Stage::Ready,
        }
    }

    fn argv(&self, st: Stage) -> (r: Vec<String>)
        ensures
            string_views(r@) == step_argv(self@, st),
    {
        match self.toggle {
            Toggle::Off => if st == Stage::First {
                build_argv(Verb::Disable, &self.target)
            } else {
                build_argv(Verb::Bootout, &self.target)
            },
            Toggle::On => if st == Stage::First {
                build_argv(Verb::Enable, &self.target)
            } else {
                build_bootstrap_argv(self.target.domain.as_str(), self.plist.as_str())
            },
        }
    }

    fn push_echo(&self, st: Stage, out: &mut Vec<Action>)
        ensures
            actions_view(final(out)@) == actions_view(old(out)@) + echo(self@, st),
    {
        if self.dry_run || self.verbose {
            let a = self.argv(st);
            let shown = render_argv(a.as_slice());
            out.push(Action::Echo(shown));
        }
        assert(actions_view(out@) =~= actions_view(old(out)@) + echo(self@, st));
    }

    fn push_report_ok(&self, out: &mut Vec<Action>)
        ensures
            actions_view(final(out)@) == actions_view(old(out)@) + seq![report_ok(self@)],
    {
        out.push(Action::Report(OpOutcome { service: self.service, ok: true, reason: None }));
        assert(actions_view(out@) =~= actions_view(old(out)@) + seq![report_ok(self@)]);
    }

    fn push_report_failed(&self, st: Stage, o: &Output, out: &mut Vec<Action>)
        ensures
            actions_view(final(out)@) == actions_view(old(out)@) + seq![report_failed(self@, st, o)],
    {
        let mut reason = match self.toggle {
            Toggle::Off => if st == Stage::First {
                String::from_str("disable")
            } else {
                String::from_str("bootout")
            },
            Toggle::On => if st == Stage::First {
                String::from_str("enable")
            } else {
                String::from_str("bootstrap")
            },
        };
        reason.append(": ");
        let why = failure_reason(o);
        reason.append(why.as_str());
        out.push(Action::Report(OpOutcome { service: self.service, ok: false, reason: Some(reason) }));
        assert(actions_view(out@) =~= actions_view(old(out)@) + seq![report_failed(self@, st, o)]);
    }

    fn push_launch(&self, st: Stage, out: &mut Vec<Action>)
        ensures
            actions_view(final(out)@) == actions_view(old(out)@) + seq![
                ActionView::Launch(step_argv(self@, st)),
            ],
    {
        out.push(Action::Launch(self.argv(st)));
        assert(actions_view(out@) =~= actions_view(old(out)@) + seq![
            ActionView::Launch(step_argv(self@, st)),
        ]);
    }

    fn push_enter_second(&self, out: &mut Vec<Action>)
        ensures
            actions_view(final(out)@) == actions_view(old(out)@) + enter_second(self@),
    {
        let ghost start = actions_view(out@);
        self.push_echo(Stage::Second, out);
        if self.dry_run {
            self.push_report_ok(out);
        } else {
            self.push_launch(Stage::Second, out);
        }
        assert(actions_view(out@) =~= start + enter_second(self@));
    }

    fn push_tolerance_note(&self, o: &Output, out: &mut Vec<Action>)
        ensures
            actions_view(final(out)@) == actions_view(old(out)@) + tolerance_notes(self@, o),
    {
        if !o.success() {
            let note = match self.toggle {
                Toggle::Off => String::from_str("bootout reported service not loaded (ok)"),
                Toggle::On => String::from_str("bootstrap reported service already loaded (ok)"),
            };
            out.push(Action::Note(note));
        }
        assert(actions_view(out@) =~= actions_view(old(out)@) + tolerance_notes(self@, o));
    }

    fn push_logs(&self, o: &Output, out: &mut Vec<Action>)
        ensures
            actions_view(final(out)@) == actions_view(old(out)@) + logs(self@, o),
    {
        if self.verbose {
            out.push(Action::Log(log_lines(o)));
        }
        assert(actions_view(out@) =~= actions_view(old(out)@) + logs(self@, o));
    }

    fn passed(&self, st: Stage, o: &Output) -> (r: bool)
        ensures
            r == step_passed(self.toggle, st, o),
    {
        if o.success() {
            return true;
        }
        if st != Stage::Second {
            return false;
        }
        match self.toggle {
            Toggle::Off => is_bootout_not_loaded(o),
            Toggle::On => is_bootstrap_already_loaded(o),
        }
    }

    /// Take in `event` and hand out what is to be done next.
    pub fn advance(&mut self, event: Event) -> (r: Vec<Action>)
        ensures
            actions_view(r@) == actions_after(old(self)@, &event),
            final(self).stage == stage_after(old(self)@, &event),
            final(self).toggle == old(self).toggle,
            final(self).service == old(self).service,
            final(self).target == old(self).target,
            final(self).plist == old(self).plist,
            final(self).dry_run == old(self).dry_run,
            final(self).verbose == old(self).verbose,
    {
        let mut out: Vec<Action> = Vec::new();
        match event {
            Event::Begin => {
                if self.stage == Stage::Ready {
                    self.push_echo(Stage::First, &mut out);
                    if self.dry_run {
                        self.push_enter_second(&mut out);
                        self.stage = Stage::Done;
                    } else {
                        self.push_launch(Stage::First, &mut out);
                        self.stage = Stage::First;
                    }
                }
            },
            Event::Exited(o) => {
                if self.stage == Stage::First {
                    self.push_logs(&o, &mut out);
                    if self.passed(Stage::First, &o) {
                        self.push_enter_second(&mut out);
                        self.stage = if self.dry_run {
                            Stage::Done
                        } else {
                            Stage::Second
                        };
                    } else {
                        self.push_report_failed(Stage::First, &o, &mut out);
                        self.stage = Stage::Done;
                    }
                } else if self.stage == Stage::Second {
                    self.push_logs(&o, &mut out);
                    if self.passed(Stage::Second, &o) {
                        self.push_tolerance_note(&o, &mut out);
                        self.push_report_ok(&mut out);
                    } else {
                        self.push_report_failed(Stage::Second, &o, &mut out);
                    }
                    self.stage = Stage::Done;
                }
            },
        }
        assert(actions_view(out@) =~= actions_after(old(self)@, &event));
        out
    }
}

/// The operations of one run of `off` or `on`: one per managed service, in
/// the order of the list, none begun.
pub fn ops_for(toggle: Toggle, uid: u32, dry_run: bool, verbose: bool) -> (r: Vec<ServiceOp>)
    ensures
        r@.len() == managed().len(),
        forall|i: int|
            0 <= i < r@.len() ==> {
                let op = #[trigger] r@[i];
                &&& (op.service.label@, op.service.scope) == managed()[i]
                &&& op.toggle == toggle
                &&& op.target.domain@ == domain_of(op.service.scope, uid)
                &&& op.target.label@ == op.service.label@
                &&& op.plist@ == plist_path_of(op.service.label@, op.service.scope)
                &&& op.dry_run == dry_run
                &&& op.verbose == verbose
                &&& op.stage == Stage::Ready
            },
{
    let list = services();
    let n = list.len();
    let mut out: Vec<ServiceOp> = Vec::new();
    let mut i: usize = 0;
    while i < n
        invariant
            n == list@.len(),
            n == managed().len(),
            forall|j: int|
                0 <= j < n ==> (#[trigger] list@[j].label@, list@[j].scope) == managed()[j],
            i <= n,
            out@.len() == i,
            forall|j: int|
                0 <= j < i ==> {
                    let op = #[trigger] out@[j];
                    &&& (op.service.label@, op.service.scope) == managed()[j]
                    &&& op.toggle == toggle
                    &&& op.target.domain@ == domain_of(op.service.scope, uid)
                    &&& op.target.label@ == op.service.label@
                    &&& op.plist@ == plist_path_of(op.service.label@, op.service.scope)
                    &&& op.dry_run == dry_run
                    &&& op.verbose == verbose
                    &&& op.stage == Stage::Ready
                },
        decreases n - i,
    {
        let op = ServiceOp::new(toggle, &list[i], uid, dry_run, verbose);
        assert((list@[i as int].label@, list@[i as int].scope) == managed()[i as int]);
        out.push(op);
        i = i + 1;
    }
    out
}

/// Exit code: success.
pub const EX_OK: u8 = 0;
/// Exit code: this is not macOS.
pub const EX_NOT_MACOS: u8 = 2;
/// Exit code: at least one launchctl operation failed.
pub const EX_OP_FAILED: u8 = 3;
/// Exit code: root was needed and could not be had.
pub const EX_NO_ROOT: u8 = 4;

/// Some outcome is a failure.
pub open spec fn any_failed(outcomes: Seq<OpOutcome>) -> bool {
    exists|i: int| 0 <= i < outcomes.len() && !(#[trigger] outcomes[i]).ok
}

/// The exit code of `off` or `on`: 3 where some service failed, else 0.
pub fn exit_code(outcomes: &Vec<OpOutcome>) -> (r: u8)
    ensures
        r == if any_failed(outcomes@) {
            EX_OP_FAILED
        } else {
            EX_OK
        },
        forall|i: int| 0 <= i < outcomes@.len() && !(#[trigger] outcomes@[i]).ok ==> r == EX_OP_FAILED,
        (forall|i: int| 0 <= i < outcomes@.len() ==> (#[trigger] outcomes@[i]).ok) ==> r == EX_OK,
{
    let n = outcomes.len();
    let mut i: usize = 0;
    while i < n
        invariant
            n == outcomes@.len(),
            i <= n,
            forall|j: int| 0 <= j < i ==> (#[trigger] outcomes@[j]).ok,
        decreases n - i,
    {
        if !outcomes[i].ok {
            return EX_OP_FAILED;
        }
        i = i + 1;
    }
    EX_OK
}

/// `off` and `on` need root, unless it is a dry run (which never touches
/// launchctl) or no managed service lives in the system domain.
pub fn needs_root(dry_run: bool) -> (r: bool)
    ensures
        r == (!dry_run && any_system_service()),
{
    !dry_run && has_system_services()
}

/// The command the tool was asked to run.
pub enum Cmd {
    Off { dry_run: bool, verbose: bool },
    On { dry_run: bool, verbose: bool },
    Status { json: bool, verbose: bool },
}

impl Cmd {
    pub fn verbose(&self) -> (r: bool)
        ensures
            r == match self {
                Cmd::Off { verbose, .. } => *verbose,
                Cmd::On { verbose, .. } => *verbose,
                Cmd::Status { verbose, .. } => *verbose,
            },
    {
        match self {
            Cmd::Off { verbose, .. } => *verbose,
            Cmd::On { verbose, .. } => *verbose,
            Cmd::Status { verbose, .. } => *verbose,
        }
    }
}

// ---------------------------------------------------------------------
// Laws
// ---------------------------------------------------------------------

/// In a dry run, beginning shows the two commands of the service and
/// reports success at once: nothing is run, and the operation is over.
pub proof fn law_dry_run_only_shows(op: OpView)
    requires
        op.dry_run,
        op.stage == Stage::Ready,
    ensures
        actions_after(op, &Event::Begin) == seq![
            ActionView::Echo(rendered_argv(step_argv(op, Stage::First))),
            ActionView::Echo(rendered_argv(step_argv(op, Stage::Second))),
            report_ok(op),
        ],
        actions_after(op, &Event::Begin)[2] == ActionView::Report(op.label, op.scope, true, None),
        stage_after(op, &Event::Begin) == Stage::Done,
{
    assert(actions_after(op, &Event::Begin) =~= seq![
        ActionView::Echo(rendered_argv(step_argv(op, Stage::First))),
        ActionView::Echo(rendered_argv(step_argv(op, Stage::Second))),
        report_ok(op),
    ]);
}

/// An operation that is done stays done and asks for nothing more.
pub proof fn law_done_is_final(op: OpView, ev: &Event)
    requires
        op.stage == Stage::Done,
    ensures
        actions_after(op, ev) == Seq::<ActionView>::empty(),
        stage_after(op, ev) == Stage::Done,
{
}

/// Every answer that asks for something ends either with one command to
/// run, and the operation then waits for its output, or with the one report
/// of the service (of this operation's service), and the operation is then done. Nothing else in the
/// answer runs a command or reports. An empty answer changes nothing.
pub proof fn law_answer_shape(op: OpView, ev: &Event)
    ensures
        ({
            let acts = actions_after(op, ev);
            let next = stage_after(op, ev);
            &&& acts.len() == 0 ==> next == op.stage
            &&& acts.len() > 0 ==> {
                ||| (acts.last() is Launch && (next == Stage::First || next == Stage::Second))
                ||| (acts.last() is Report && next == Stage::Done && op.stage != Stage::Done)
            }
            &&& forall|i: int|
                0 <= i < acts.len() - 1 ==> !(#[trigger] acts[i] is Launch) && !(acts[i] is Report)
            &&& acts.len() > 0 ==> (acts.last() matches ActionView::Report(l, sc, _, _) ==> l
                == op.label && sc == op.scope)
        }),
{
    let acts = actions_after(op, ev);
    match ev {
        Event::Begin => {},
        Event::Exited(o) => {
            if op.stage == Stage::First {
                if step_passed(op.toggle, Stage::First, o) {
                    assert(acts =~= logs(op, o) + enter_second(op));
                } else {
                    assert(acts =~= logs(op, o) + seq![report_failed(op, Stage::First, o)]);
                }
            } else if op.stage == Stage::Second {
                if step_passed(op.toggle, Stage::Second, o) {
                    assert(acts =~= logs(op, o) + tolerance_notes(op, o) + seq![report_ok(op)]);
                } else {
                    assert(acts =~= logs(op, o) + seq![report_failed(op, Stage::Second, o)]);
                }
            }
        },
    }
}

/// A failure of the first step (`disable` or `enable`) is always reported as
/// a failure of the service, and the second step is not attempted.
pub proof fn law_first_step_failure_is_error(op: OpView, o: Output)
    requires
        op.stage == Stage::First,
        !succeeded(&o),
    ensures
        actions_after(op, &Event::Exited(o)) == logs(op, &o) + seq![
            report_failed(op, Stage::First, &o),
        ],
        actions_after(op, &Event::Exited(o)) == logs(op, &o) + seq![
            ActionView::Report(
                op.label,
                op.scope,
                false,
                Some(
                    match op.toggle {
                        Toggle::Off => "disable"@,
                        Toggle::On => "enable"@,
                    } + ": "@ + failure_reason_of(&o),
                ),
            ),
        ],
        stage_after(op, &Event::Exited(o)) == Stage::Done,
{
}

/// A `bootout` that fails because the service is not loaded counts as
/// success, as does a `bootstrap` that fails because it is already loaded;
/// the operation notes that it passed over the failure.
pub proof fn law_second_step_tolerance(op: OpView, o: Output)
    requires
        op.stage == Stage::Second,
        !succeeded(&o),
        match op.toggle {
            Toggle::Off => says_not_loaded(lowercase(combined_text(&o))),
            Toggle::On => says_already_loaded(lowercase(combined_text(&o))),
        },
    ensures
        actions_after(op, &Event::Exited(o)) == logs(op, &o) + seq![
            ActionView::Note(tolerance_note(op.toggle)),
            report_ok(op),
        ],
        actions_after(op, &Event::Exited(o)) == logs(op, &o) + seq![
            ActionView::Note(
                match op.toggle {
                    Toggle::Off => "bootout reported service not loaded (ok)"@,
                    Toggle::On => "bootstrap reported service already loaded (ok)"@,
                },
            ),
            ActionView::Report(op.label, op.scope, true, None),
        ],
        stage_after(op, &Event::Exited(o)) == Stage::Done,
{
}

/// A second step that did not succeed, and whose lower-cased output names
/// none of the phrases by which launchctl says the service is already as
/// wanted, fails the service: the report is a failure that names the step
/// and the reason, and nothing else is reported or noted. For `off` the
/// phrases are "could not find", "no such process", "not loaded" and "113";
/// for `on` they are "already loaded", "already bootstrapped", "service
/// already", "operation already in progress", "37:" and "17:".
pub proof fn law_second_step_failure_is_error(op: OpView, o: Output)
    requires
        op.stage == Stage::Second,
        o.timed_out || o.status != Some(0i32),
        ({
            let t = lowercase(o.stdout@ + "\n"@ + o.stderr@);
            match op.toggle {
                Toggle::Off => {
                    &&& !contains(t, "could not find"@)
                    &&& !contains(t, "no such process"@)
                    &&& !contains(t, "not loaded"@)
                    &&& !contains(t, "113"@)
                },
                Toggle::On => {
                    &&& !contains(t, "already loaded"@)
                    &&& !contains(t, "already bootstrapped"@)
                    &&& !contains(t, "service already"@)
                    &&& !contains(t, "operation already in progress"@)
                    &&& !contains(t, "37:"@)
                    &&& !contains(t, "17:"@)
                },
            }
        }),
    ensures
        actions_after(op, &Event::Exited(o)) == logs(op, &o) + seq![
            ActionView::Report(
                op.label,
                op.scope,
                false,
                Some(
                    match op.toggle {
                        Toggle::Off => "bootout"@,
                        Toggle::On => "bootstrap"@,
                    } + ": "@ + failure_reason_of(&o),
                ),
            ),
        ],
        stage_after(op, &Event::Exited(o)) == Stage::Done,
{
}

/// A list of outcomes counts as failed exactly when one of them, at any
/// position and whatever follows it, is not ok.
pub proof fn law_any_failure_fails_the_run(outcomes: Seq<OpOutcome>, i: int)
    ensures
        0 <= i < outcomes.len() && !outcomes[i].ok ==> any_failed(outcomes),
        (forall|j: int| 0 <= j < outcomes.len() ==> (#[trigger] outcomes[j]).ok) ==> !any_failed(
            outcomes,
        ),
{
    if 0 <= i < outcomes.len() && !outcomes[i].ok {
        assert(!outcomes[i].ok);
    }
}

/// No character of `s` is white space.
pub open spec fn no_ws(s: Seq<char>) -> bool {
    forall|k: int| 0 <= k < s.len() ==> !is_ws(#[trigger] s[k])
}

proof fn lemma_no_ws_concat(a: Seq<char>, b: Seq<char>)
    requires
        no_ws(a),
        no_ws(b),
    ensures
        no_ws(a + b),
{
    assert forall|k: int| 0 <= k < (a + b).len() implies !is_ws(#[trigger] (a + b)[k]) by {
        if k < a.len() {
            assert((a + b)[k] == a[k]);
        } else {
            assert((a + b)[k] == b[k - a.len()]);
        }
    }
}

proof fn lemma_decimal_no_ws(n: nat)
    ensures
        no_ws(decimal(n)),
        decimal(n).len() > 0,
    decreases n,
{
    if n >= 10 {
        lemma_decimal_no_ws(n / 10);
        let d = seq![digit_char(n % 10)];
        assert(no_ws(d));
        lemma_no_ws_concat(decimal(n / 10), d);
    } else {
        assert(no_ws(seq![digit_char(n)]));
    }
}

proof fn lemma_labels_no_ws(i: int)
    requires
        0 <= i < managed().len(),
    ensures
        no_ws(managed()[i].0),
        managed()[i].0.len() > 0,
{
    reveal_strlit("com.zscaler.tunnel");
    reveal_strlit("com.zscaler.service");
    reveal_strlit("com.zscaler.UPMServiceController");
    reveal_strlit("com.zscaler.tray");
}

proof fn lemma_literals_no_ws()
    ensures
        no_ws("system"@),
        no_ws("gui/"@),
        no_ws("/"@),
        no_ws(".plist"@),
        no_ws("/Library/LaunchDaemons"@),
        no_ws("/Library/LaunchAgents"@),
        no_ws("disable"@),
        no_ws("bootout"@),
        no_ws("enable"@),
        no_ws("bootstrap"@),
        "disable"@.len() > 0,
        "bootout"@.len() > 0,
        "enable"@.len() > 0,
        "bootstrap"@.len() > 0,
        "system"@.len() > 0,
{
    reveal_strlit("system");
    reveal_strlit("gui/");
    reveal_strlit("/");
    reveal_strlit(".plist");
    reveal_strlit("/Library/LaunchDaemons");
    reveal_strlit("/Library/LaunchAgents");
    reveal_strlit("disable");
    reveal_strlit("bootout");
    reveal_strlit("enable");
    reveal_strlit("bootstrap");
}

proof fn lemma_shown_plain(a: Seq<char>)
    requires
        a.len() > 0,
        no_ws(a),
    ensures
        shown_arg(a) == a,
{
    if needs_quotes(a) {
        let k = choose|k: int| 0 <= k < a.len() && is_ws(#[trigger] a[k]);
        assert(!is_ws(a[k]));
    }
}

proof fn lemma_render_two(a: Seq<char>, b: Seq<char>)
    requires
        a.len() > 0,
        no_ws(a),
        b.len() > 0,
        no_ws(b),
    ensures
        rendered_argv(seq![a, b]) == "launchctl"@ + " "@ + a + " "@ + b,
{
    lemma_shown_plain(a);
    lemma_shown_plain(b);
    let args = seq![a, b];
    assert(args.drop_last() =~= seq![a]);
    assert(seq![a].drop_last() =~= Seq::<Seq<char>>::empty());
    assert(rendered_command("launchctl"@, Seq::<Seq<char>>::empty()) == "launchctl"@);
    assert(rendered_command("launchctl"@, seq![a].drop_last()) == "launchctl"@);
    assert(seq![a].last() == a);
    assert(rendered_command("launchctl"@, seq![a]) == "launchctl"@ + " "@ + a);
}

proof fn lemma_render_three(a: Seq<char>, b: Seq<char>, c: Seq<char>)
    requires
        a.len() > 0,
        no_ws(a),
        b.len() > 0,
        no_ws(b),
        c.len() > 0,
        no_ws(c),
    ensures
        rendered_argv(seq![a, b, c]) == "launchctl"@ + " "@ + a + " "@ + b + " "@ + c,
{
    lemma_shown_plain(c);
    let args = seq![a, b, c];
    assert(args.drop_last() =~= seq![a, b]);
    lemma_render_two(a, b);
}

/// What the domain and plist path of a managed service look like: one plain
/// word each, free of white space.
proof fn lemma_service_words(i: int, uid: u32)
    requires
        0 <= i < managed().len(),
    ensures
        ({
            let (label, scope) = managed()[i];
            &&& no_ws(domain_of(scope, uid)) && domain_of(scope, uid).len() > 0
            &&& no_ws(qualified_name(domain_of(scope, uid), label))
            &&& qualified_name(domain_of(scope, uid), label).len() > 0
            &&& no_ws(plist_path_of(label, scope)) && plist_path_of(label, scope).len() > 0
        }),
{
    let (label, scope) = managed()[i];
    lemma_labels_no_ws(i);
    lemma_literals_no_ws();
    lemma_decimal_no_ws(uid as nat);
    lemma_no_ws_concat("gui/"@, decimal(uid as nat));
    let d = domain_of(scope, uid);
    lemma_no_ws_concat(d, "/"@);
    lemma_no_ws_concat(d + "/"@, label);
    let dir = scope_plist_dir(scope);
    lemma_no_ws_concat(dir, "/"@);
    lemma_no_ws_concat(dir + "/"@, label);
    lemma_no_ws_concat(dir + "/"@ + label, ".plist"@);
}

/// A dry run of `off` for a managed service shows exactly
/// `launchctl disable <domain>/<label>` and then
/// `launchctl bootout <domain>/<label>`, and reports success.
pub proof fn law_dry_run_off_shows(op: OpView, i: int, uid: u32)
    requires
        0 <= i < managed().len(),
        (op.label, op.scope) == managed()[i],
        op.toggle == Toggle::Off,
        op.domain == domain_of(op.scope, uid),
        op.target_label == op.label,
        op.dry_run,
        op.stage == Stage::Ready,
    ensures
        actions_after(op, &Event::Begin) == seq![
            ActionView::Echo(
                "launchctl"@ + " "@ + "disable"@ + " "@ + domain_of(op.scope, uid) + "/"@
                    + op.label,
            ),
            ActionView::Echo(
                "launchctl"@ + " "@ + "bootout"@ + " "@ + domain_of(op.scope, uid) + "/"@
                    + op.label,
            ),
            report_ok(op),
        ],
{
    law_dry_run_only_shows(op);
    lemma_service_words(i, uid);
    lemma_literals_no_ws();
    let q = qualified_name(domain_of(op.scope, uid), op.label);
    lemma_render_two("disable"@, q);
    lemma_render_two("bootout"@, q);
    assert("launchctl"@ + " "@ + "disable"@ + " "@ + q =~= "launchctl"@ + " "@ + "disable"@ + " "@
        + domain_of(op.scope, uid) + "/"@ + op.label);
    assert("launchctl"@ + " "@ + "bootout"@ + " "@ + q =~= "launchctl"@ + " "@ + "bootout"@ + " "@
        + domain_of(op.scope, uid) + "/"@ + op.label);
}

/// A dry run of `on` for a managed service shows exactly
/// `launchctl enable <domain>/<label>` and then
/// `launchctl bootstrap <domain> <plist dir>/<label>.plist`, and reports success.
pub proof fn law_dry_run_on_shows(op: OpView, i: int, uid: u32)
    requires
        0 <= i < managed().len(),
        (op.label, op.scope) == managed()[i],
        op.toggle == Toggle::On,
        op.domain == domain_of(op.scope, uid),
        op.target_label == op.label,
        op.plist == plist_path_of(op.label, op.scope),
        op.dry_run,
        op.stage == Stage::Ready,
    ensures
        actions_after(op, &Event::Begin) == seq![
            ActionView::Echo(
                "launchctl"@ + " "@ + "enable"@ + " "@ + domain_of(op.scope, uid) + "/"@
                    + op.label,
            ),
            ActionView::Echo(
                "launchctl"@ + " "@ + "bootstrap"@ + " "@ + domain_of(op.scope, uid) + " "@
                    + scope_plist_dir(op.scope) + "/"@ + op.label + ".plist"@,
            ),
            report_ok(op),
        ],
{
    law_dry_run_only_shows(op);
    lemma_service_words(i, uid);
    lemma_literals_no_ws();
    let d = domain_of(op.scope, uid);
    let q = qualified_name(d, op.label);
    let p = plist_path_of(op.label, op.scope);
    lemma_render_two("enable"@, q);
    lemma_render_three("bootstrap"@, d, p);
    assert("launchctl"@ + " "@ + "enable"@ + " "@ + q =~= "launchctl"@ + " "@ + "enable"@ + " "@
        + d + "/"@ + op.label);
    assert("launchctl"@ + " "@ + "bootstrap"@ + " "@ + d + " "@ + p =~= "launchctl"@ + " "@
        + "bootstrap"@ + " "@ + d + " "@ + scope_plist_dir(op.scope) + "/"@
        + op.label + ".plist"@);
}

} // verus!
