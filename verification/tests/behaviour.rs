use muzzle::command::{finished, render_command, wait_step, Output, WaitStep, DEFAULT_TIMEOUT_MS, POLL_MS};
use muzzle::launchctl::{
    domain_for, is_bootout_not_loaded, is_bootstrap_already_loaded, print_argv,
    print_disabled_argv, reply_says_already_loaded, reply_says_not_loaded, Target, Verb,
};
use muzzle::ops::{
    exit_code, needs_root, ops_for, Action, Cmd, Event, ServiceOp, Stage, EX_OK, EX_OP_FAILED,
};
use muzzle::output::{
    failure_reason, first_error_line, footer, header, log_lines, mark, summary_line, OpOutcome,
    Toggle,
};
use muzzle::privilege::{is_root, original_uid, parse_uid};
use muzzle::services::{services, Scope, Service, LABEL_PAD};
use muzzle::run::{Phase, RunAction, RunEvent, ToggleRun};
use muzzle::status::{parse_disabled, status_row, status_rows, Tri};
use muzzle::text::{lines_of, push_decimal};

fn out(status: Option<i32>, stdout: &str, stderr: &str) -> Output {
    Output {
        status,
        stdout: stdout.to_string(),
        stderr: stderr.to_string(),
        timed_out: false,
    }
}

fn echoes(actions: &[Action]) -> Vec<String> {
    actions
        .iter()
        .filter_map(|a| match a {
            Action::Echo(s) => Some(s.clone()),
            _ => None,
        })
        .collect()
}

const TUNNEL: Service = Service {
    label: "com.zscaler.tunnel",
    scope: Scope::System,
};
const TRAY: Service = Service {
    label: "com.zscaler.tray",
    scope: Scope::User,
};

// ---- services ----

#[test]
fn plist_paths_follow_scope() {
    assert_eq!(TUNNEL.plist_path(), "/Library/LaunchDaemons/com.zscaler.tunnel.plist");
    assert_eq!(TRAY.plist_path(), "/Library/LaunchAgents/com.zscaler.tray.plist");
}

#[test]
fn scope_names() {
    assert_eq!(Scope::System.as_str(), "system");
    assert_eq!(Scope::User.as_str(), "user");
    assert_eq!(Scope::System.plist_dir(), "/Library/LaunchDaemons");
    assert_eq!(Scope::User.plist_dir(), "/Library/LaunchAgents");
}

#[test]
fn services_list_in_order() {
    let s = services();
    let labels: Vec<&str> = s.iter().map(|x| x.label).collect();
    assert_eq!(
        labels,
        vec![
            "com.zscaler.tunnel",
            "com.zscaler.service",
            "com.zscaler.UPMServiceController",
            "com.zscaler.tray"
        ]
    );
    assert_eq!(s[3].scope, Scope::User);
    assert!(s.iter().all(|x| x.label.chars().count() <= LABEL_PAD));
}

// ---- text ----

#[test]
fn lines_split_like_std() {
    for text in ["", "a", "a\n", "a\r\nb", "a\n\nb\n", "\n", "x\r", "a\rb\n"] {
        let want: Vec<String> = text.lines().map(str::to_string).collect();
        assert_eq!(lines_of(text), want, "{text:?}");
    }
}

#[test]
fn decimal_rendering() {
    let mut s = String::from("uid=");
    push_decimal(&mut s, 0);
    assert_eq!(s, "uid=0");
    let mut s = String::new();
    push_decimal(&mut s, 4294967295);
    assert_eq!(s, "4294967295");
}

// ---- command rendering ----

#[test]
fn render_quotes_empty_and_unicode_space() {
    assert_eq!(render_command("p", &[""]), "p ''");
    assert_eq!(render_command("p", &["a\u{3000}b", "c"]), "p 'a\u{3000}b' c");
    assert_eq!(render_command("p", &[]), "p");
}

#[test]
fn output_success_needs_zero_and_no_timeout() {
    assert!(out(Some(0), "", "").success());
    assert!(!out(Some(1), "", "").success());
    assert!(!out(None, "", "").success());
    let mut o = out(Some(0), "", "");
    o.timed_out = true;
    assert!(!o.success());
}

// ---- launchctl ----

#[test]
fn domains() {
    assert_eq!(domain_for(Scope::System, 501), "system");
    assert_eq!(domain_for(Scope::User, 0), "gui/0");
    assert_eq!(domain_for(Scope::User, 4294967295), "gui/4294967295");
}

#[test]
fn print_argvs() {
    assert_eq!(print_disabled_argv("gui/501"), vec!["print-disabled", "gui/501"]);
    let t = Target::for_service(&TRAY, 501);
    assert_eq!(print_argv(&t), vec!["print", "gui/501/com.zscaler.tray"]);
}

#[test]
fn verbs() {
    assert_eq!(Verb::Disable.as_str(), "disable");
    assert_eq!(Verb::Enable.as_str(), "enable");
    assert_eq!(Verb::Bootout.as_str(), "bootout");
}

#[test]
fn failure_classification_is_case_insensitive() {
    // The text is lower-cased before it is searched.
    let o = out(Some(3), "", "COULD NOT FIND SERVICE");
    assert!(is_bootout_not_loaded(&o));
    let o = out(Some(5), "Service Already Loaded", "");
    assert!(is_bootstrap_already_loaded(&o));
    assert!(!reply_says_not_loaded("COULD NOT FIND"));
    assert!(reply_says_not_loaded("could not find"));
}

#[test]
fn success_is_never_a_tolerated_failure() {
    let o = out(Some(0), "", "Could not find service");
    assert!(!is_bootout_not_loaded(&o));
    let o = out(Some(0), "", "already loaded");
    assert!(!is_bootstrap_already_loaded(&o));
}

#[test]
fn classification_markers() {
    assert!(reply_says_not_loaded("boot-out failed: 113: x"));
    assert!(reply_says_not_loaded("no such process"));
    assert!(reply_says_not_loaded("service not loaded"));
    assert!(reply_says_already_loaded("bootstrap failed: 17: file exists"));
    assert!(reply_says_already_loaded("already bootstrapped"));
    assert!(reply_says_already_loaded("service already in use"));
    assert!(!reply_says_already_loaded("load failed: 5: input/output error"));
    // stdout and stderr are joined by a newline, so no marker spans them
    let o = out(Some(1), "could not", " find");
    assert!(!is_bootout_not_loaded(&o));
}

// ---- status ----

#[test]
fn parse_variants() {
    let text = "x:\n  com.zscaler.tray => \"TRUE\" ;\r\n";
    assert_eq!(parse_disabled(text, "com.zscaler.tray"), Tri::True);
    let text = "  \"a\" => Enabled\n  \"a\" => disabled\n";
    assert_eq!(parse_disabled(text, "a"), Tri::False, "first listing decides");
    let text = "\"a\" => maybe\n\"a\" => disabled\n";
    assert_eq!(parse_disabled(text, "a"), Tri::Unknown, "first listing decides");
    let text = "\"a\" => \"b\" => true";
    assert_eq!(parse_disabled(text, "a"), Tri::Unknown);
    assert_eq!(parse_disabled("", "a"), Tri::Unknown);
    assert_eq!(parse_disabled("a disabled", "a"), Tri::Unknown);
}

#[test]
fn listed_line_reads_back() {
    for (word, want) in [("disabled", Tri::True), ("enabled", Tri::False)] {
        let text = format!("    \"com.example.x\" => {word}\n");
        assert_eq!(parse_disabled(&text, "com.example.x"), want);
    }
}

#[test]
fn unlisted_label_is_unknown() {
    assert_eq!(parse_disabled("\"b\" => true\n", "zzz"), Tri::Unknown);
}

#[test]
fn tri_names() {
    assert_eq!(Tri::True.as_str(), "true");
    assert_eq!(Tri::False.as_str(), "false");
    assert_eq!(Tri::Unknown.as_str(), "unknown");
}

#[test]
fn status_rows_read_their_own_domain() {
    let sys = "\"com.zscaler.tunnel\" => disabled\n\"com.zscaler.tray\" => enabled\n";
    let gui = "\"com.zscaler.tray\" => disabled\n\"com.zscaler.tunnel\" => enabled\n";
    let r = status_row(&TUNNEL, sys, gui, Some(Some(0)));
    assert_eq!(r.label, "com.zscaler.tunnel");
    assert_eq!(r.scope, Scope::System);
    assert_eq!(r.disabled, Tri::True);
    assert_eq!(r.loaded, Tri::True);
    let r = status_row(&TRAY, sys, gui, Some(Some(113)));
    assert_eq!(r.disabled, Tri::True);
    assert_eq!(r.loaded, Tri::False);
    let r = status_row(&TRAY, sys, "", None);
    assert_eq!(r.disabled, Tri::Unknown);
    assert_eq!(r.loaded, Tri::Unknown);
    let r = status_row(&TRAY, sys, gui, Some(None));
    assert_eq!(r.loaded, Tri::Unknown);
}

// ---- output ----

#[test]
fn headers_and_footers() {
    assert_eq!(header(Toggle::Off), "Disabling Zscaler for this session.");
    assert_eq!(header(Toggle::On), "Re-enabling Zscaler launchd services.");
    assert_eq!(footer(Toggle::Off), "Done. Run `muzzle on` to re-enable.");
    assert!(footer(Toggle::On).starts_with("Done."));
}

#[test]
fn summary_lines() {
    let ok = OpOutcome {
        service: TUNNEL,
        ok: true,
        reason: None,
    };
    assert_eq!(
        summary_line(&ok, "v"),
        format!("  v {:<32} (system)", "com.zscaler.tunnel")
    );
    let bad = OpOutcome {
        service: TRAY,
        ok: false,
        reason: Some("disable: nope".to_string()),
    };
    assert_eq!(
        summary_line(&bad, "x"),
        "  x com.zscaler.tray                 (user) failed: disable: nope"
    );
    let bad = OpOutcome {
        service: TRAY,
        ok: false,
        reason: None,
    };
    assert!(summary_line(&bad, "x").ends_with("(user) failed: unknown error"));
    let long = OpOutcome {
        service: Service {
            label: "a.label.that.is.longer.than.thirty-two.chars",
            scope: Scope::User,
        },
        ok: true,
        reason: None,
    };
    assert_eq!(
        summary_line(&long, "v"),
        "  v a.label.that.is.longer.than.thirty-two.chars (user)"
    );
}

#[test]
fn verbose_log_lines() {
    let o = out(Some(0), "one\ntwo\n", "err\r\n");
    assert_eq!(
        log_lines(&o),
        vec!["    │ one", "    │ two", "    │ err"]
    );
    assert!(log_lines(&out(Some(0), "", "")).is_empty());
}

#[test]
fn error_lines_and_reasons() {
    assert_eq!(first_error_line("\n   \n  boom  \nlater"), Some("boom".to_string()));
    assert_eq!(first_error_line(" \t\n"), None);
    assert_eq!(failure_reason(&out(Some(1), "", "  bad thing\n")), "bad thing");
    assert_eq!(failure_reason(&out(Some(-2), "", "")), "exit Some(-2)");
    assert_eq!(failure_reason(&out(Some(i32::MIN), "", "")), "exit Some(-2147483648)");
    assert_eq!(failure_reason(&out(None, "noise", "")), "exit None");
}

// ---- privilege ----

#[test]
fn uid_parsing() {
    assert_eq!(parse_uid("501"), Some(501));
    assert_eq!(parse_uid("+7"), Some(7));
    assert_eq!(parse_uid("007"), Some(7));
    assert_eq!(parse_uid("4294967295"), Some(4294967295));
    assert_eq!(parse_uid("4294967296"), None);
    assert_eq!(parse_uid("99999999999999999999x"), None);
    assert_eq!(parse_uid(""), None);
    assert_eq!(parse_uid("+"), None);
    assert_eq!(parse_uid("-1"), None);
    assert_eq!(parse_uid(" 1"), None);
    for s in ["0", "12", "+3", "-0", "١٢", "1_000"] {
        assert_eq!(parse_uid(s), s.parse::<u32>().ok(), "{s}");
    }
}

#[test]
fn original_uid_priority() {
    assert_eq!(original_uid(Some("501"), Some("502"), 0), 501);
    assert_eq!(original_uid(Some("bad"), Some("502"), 0), 502);
    assert_eq!(original_uid(None, Some("x"), 7), 7);
    assert_eq!(original_uid(None, None, 9), 9);
    assert!(is_root(0));
    assert!(!is_root(501));
}

// ---- ops ----

#[test]
fn dry_run_off_shows_each_command() {
    let ops = ops_for(Toggle::Off, 501, true, false);
    let mut shown = Vec::new();
    for mut op in ops {
        let acts = op.advance(Event::Begin);
        assert!(!acts.iter().any(|a| matches!(a, Action::Launch(_))));
        match acts.last() {
            Some(Action::Report(o)) => assert!(o.ok),
            _ => panic!("expected a report"),
        }
        assert_eq!(op.stage, Stage::Done);
        shown.extend(echoes(&acts));
    }
    assert_eq!(
        shown,
        vec![
            "launchctl disable system/com.zscaler.tunnel",
            "launchctl bootout system/com.zscaler.tunnel",
            "launchctl disable system/com.zscaler.service",
            "launchctl bootout system/com.zscaler.service",
            "launchctl disable system/com.zscaler.UPMServiceController",
            "launchctl bootout system/com.zscaler.UPMServiceController",
            "launchctl disable gui/501/com.zscaler.tray",
            "launchctl bootout gui/501/com.zscaler.tray",
        ]
    );
}

#[test]
fn dry_run_on_shows_each_command() {
    let ops = ops_for(Toggle::On, 501, true, true);
    let mut shown = Vec::new();
    for mut op in ops {
        let acts = op.advance(Event::Begin);
        assert!(!acts.iter().any(|a| matches!(a, Action::Launch(_))));
        shown.extend(echoes(&acts));
    }
    assert_eq!(shown.len(), 8);
    assert_eq!(shown[0], "launchctl enable system/com.zscaler.tunnel");
    assert_eq!(
        shown[1],
        "launchctl bootstrap system /Library/LaunchDaemons/com.zscaler.tunnel.plist"
    );
    assert_eq!(
        shown[7],
        "launchctl bootstrap gui/501 /Library/LaunchAgents/com.zscaler.tray.plist"
    );
    assert!(!shown.iter().any(|s| s.contains("disable") || s.contains("bootout")));
}

#[test]
fn live_off_runs_both_steps() {
    let mut op = ServiceOp::new(Toggle::Off, &TRAY, 501, false, false);
    let acts = op.advance(Event::Begin);
    assert_eq!(acts.len(), 1);
    match &acts[0] {
        Action::Launch(a) => assert_eq!(a, &vec!["disable", "gui/501/com.zscaler.tray"]),
        _ => panic!("expected a launch"),
    }
    assert_eq!(op.stage, Stage::First);
    let acts = op.advance(Event::Exited(out(Some(0), "", "")));
    match &acts[..] {
        [Action::Launch(a)] => assert_eq!(a, &vec!["bootout", "gui/501/com.zscaler.tray"]),
        _ => panic!("expected one launch"),
    }
    assert_eq!(op.stage, Stage::Second);
    // bootout failing with "not loaded" is fine
    let acts = op.advance(Event::Exited(out(
        Some(113),
        "",
        "Boot-out failed: 113: Could not find specified service",
    )));
    match &acts[..] {
        [Action::Note(n), Action::Report(o)] => {
            assert_eq!(n, "bootout reported service not loaded (ok)");
            assert!(o.ok);
            assert_eq!(o.service.label, "com.zscaler.tray");
        }
        _ => panic!("expected a note and a report"),
    }
    assert_eq!(op.stage, Stage::Done);
    assert!(op.advance(Event::Begin).is_empty());
    assert!(op.advance(Event::Exited(out(Some(0), "", ""))).is_empty());
}

#[test]
fn live_first_step_failure_stops() {
    let mut op = ServiceOp::new(Toggle::On, &TUNNEL, 501, false, true);
    let acts = op.advance(Event::Begin);
    assert_eq!(echoes(&acts), vec!["launchctl enable system/com.zscaler.tunnel"]);
    // even "already loaded" wording does not save the first step
    let acts = op.advance(Event::Exited(out(Some(1), "out", "already loaded\n")));
    assert_eq!(acts.len(), 2);
    match &acts[0] {
        Action::Log(lines) => assert_eq!(lines, &vec!["    │ out", "    │ already loaded"]),
        _ => panic!("expected log"),
    }
    match &acts[1] {
        Action::Report(o) => {
            assert!(!o.ok);
            assert_eq!(o.reason.as_deref(), Some("enable: already loaded"));
        }
        _ => panic!("expected report"),
    }
    assert_eq!(op.stage, Stage::Done);
}

#[test]
fn live_second_step_real_failure() {
    let mut op = ServiceOp::new(Toggle::On, &TUNNEL, 501, false, false);
    op.advance(Event::Begin);
    let acts = op.advance(Event::Exited(out(Some(0), "", "")));
    match &acts[..] {
        [Action::Launch(a)] => assert_eq!(
            a,
            &vec![
                "bootstrap",
                "system",
                "/Library/LaunchDaemons/com.zscaler.tunnel.plist"
            ]
        ),
        _ => panic!("expected launch"),
    }
    let acts = op.advance(Event::Exited(out(Some(5), "", "")));
    match &acts[..] {
        [Action::Report(o)] => {
            assert!(!o.ok);
            assert_eq!(o.reason.as_deref(), Some("bootstrap: exit Some(5)"));
        }
        _ => panic!("expected report"),
    }
}

#[test]
fn timeout_is_a_failure() {
    let mut op = ServiceOp::new(Toggle::Off, &TUNNEL, 0, false, false);
    op.advance(Event::Begin);
    let mut o = out(None, "", "");
    o.timed_out = true;
    let acts = op.advance(Event::Exited(o));
    match &acts[..] {
        [Action::Report(r)] => assert_eq!(r.reason.as_deref(), Some("disable: exit None")),
        _ => panic!("expected report"),
    }
}

#[test]
fn exit_codes() {
    let ok = OpOutcome {
        service: TUNNEL,
        ok: true,
        reason: None,
    };
    let bad = OpOutcome {
        service: TRAY,
        ok: false,
        reason: None,
    };
    assert_eq!(exit_code(&vec![]), EX_OK);
    assert_eq!(exit_code(&vec![ok]), 0);
    let ok2 = OpOutcome {
        service: TUNNEL,
        ok: true,
        reason: None,
    };
    assert_eq!(exit_code(&vec![ok2, bad]), EX_OP_FAILED);
}

#[test]
fn root_only_when_live() {
    assert!(!needs_root(true));
    assert!(needs_root(false));
}

#[test]
fn cmd_verbose() {
    assert!(Cmd::Off { dry_run: false, verbose: true }.verbose());
    assert!(!Cmd::On { dry_run: true, verbose: false }.verbose());
    assert!(Cmd::Status { json: true, verbose: true }.verbose());
}

#[test]
fn second_step_success_has_no_note() {
    let mut op = ServiceOp::new(Toggle::On, &TRAY, 501, false, false);
    op.advance(Event::Begin);
    op.advance(Event::Exited(out(Some(0), "", "")));
    let acts = op.advance(Event::Exited(out(Some(0), "", "")));
    assert!(matches!(&acts[..], [Action::Report(o)] if o.ok));
    let mut op = ServiceOp::new(Toggle::On, &TRAY, 501, false, false);
    op.advance(Event::Begin);
    op.advance(Event::Exited(out(Some(0), "", "")));
    let acts = op.advance(Event::Exited(out(Some(37), "", "Bootstrap failed: 37: x")));
    match &acts[..] {
        [Action::Note(n), Action::Report(o)] => {
            assert_eq!(n, "bootstrap reported service already loaded (ok)");
            assert!(o.ok);
        }
        _ => panic!("expected a note and a report"),
    }
}

#[test]
fn marks() {
    assert_eq!(mark(true), "✓");
    assert_eq!(mark(false), "✗");
    let bad = OpOutcome {
        service: TUNNEL,
        ok: false,
        reason: Some("disable: denied".to_string()),
    };
    assert_eq!(
        summary_line(&bad, mark(bad.ok)),
        format!("  ✗ {:<32} (system) failed: disable: denied", "com.zscaler.tunnel")
    );
}

/// Collect what a run hands out as plain text, answering every command with `reply`.
fn drive_run(mut run: ToggleRun, mut reply: impl FnMut(&[String]) -> Output) -> (Vec<String>, u8) {
    let mut printed = Vec::new();
    let mut event = RunEvent::Start;
    loop {
        let mut ran = None;
        for a in run.advance(event) {
            match a {
                RunAction::Say(t) => printed.push(t),
                RunAction::Step(Action::Echo(s)) => printed.push(format!("+ {s}")),
                RunAction::Step(Action::Launch(argv)) => ran = Some(reply(&argv)),
                RunAction::Step(_) => {}
                RunAction::Summarize(o) => printed.push(summary_line(&o, mark(o.ok))),
                RunAction::Finish(code) => {
                    assert_eq!(run.phase, Phase::Finished);
                    return (printed, code);
                }
            }
        }
        event = RunEvent::Exited(ran.expect("a waiting run asks for a command"));
    }
}

#[test]
fn dry_run_whole_off_run() {
    let mut run = ToggleRun::new(Toggle::Off, 501, true, false);
    let acts = run.advance(RunEvent::Start);
    assert_eq!(run.phase, Phase::Finished);
    assert!(!acts.iter().any(|a| matches!(a, RunAction::Step(Action::Launch(_)))));
    let (printed, code) = drive_run(ToggleRun::new(Toggle::Off, 501, true, false), |_| panic!("ran"));
    assert_eq!(code, 0);
    assert_eq!(printed[0], "Disabling Zscaler for this session.");
    assert_eq!(printed[1], "+ launchctl disable system/com.zscaler.tunnel");
    assert_eq!(printed[2], "+ launchctl bootout system/com.zscaler.tunnel");
    assert!(printed[3].starts_with("  ✓ com.zscaler.tunnel"));
    assert_eq!(printed.len(), 1 + 4 * 3 + 1);
    assert_eq!(printed[13], "Done. Run `muzzle on` to re-enable.");
    // nothing more once finished
    assert!(run.advance(RunEvent::Start).is_empty());
}

#[test]
fn live_run_goes_on_after_a_failure() {
    let run = ToggleRun::new(Toggle::On, 501, false, false);
    let (printed, code) = drive_run(run, |argv| {
        if argv[0] == "enable" && argv[1] == "system/com.zscaler.service" {
            out(Some(1), "", "Operation not permitted\n")
        } else if argv[0] == "bootstrap" {
            out(Some(37), "", "Bootstrap failed: 37: Operation already in progress")
        } else {
            out(Some(0), "", "")
        }
    });
    assert_eq!(code, 3);
    assert_eq!(
        printed,
        vec![
            "Re-enabling Zscaler launchd services.".to_string(),
            format!("  ✓ {:<32} (system)", "com.zscaler.tunnel"),
            format!(
                "  ✗ {:<32} (system) failed: enable: Operation not permitted",
                "com.zscaler.service"
            ),
            format!("  ✓ {:<32} (system)", "com.zscaler.UPMServiceController"),
            format!("  ✓ {:<32} (user)", "com.zscaler.tray"),
            "Done. Zscaler launchd services are enabled and bootstrapped in the current session."
                .to_string(),
        ]
    );
}

#[test]
fn live_run_all_well_exits_zero() {
    let mut count = 0;
    let run = ToggleRun::new(Toggle::Off, 0, false, true);
    let (printed, code) = drive_run(run, |_| {
        count += 1;
        out(Some(0), "", "")
    });
    assert_eq!(code, 0);
    assert_eq!(count, 8);
    assert!(printed.iter().any(|p| p == "+ launchctl bootout gui/0/com.zscaler.tray"));
}

#[test]
fn run_ignores_out_of_turn_events() {
    let mut run = ToggleRun::new(Toggle::Off, 501, false, false);
    assert!(run.advance(RunEvent::Exited(out(Some(0), "", ""))).is_empty());
    assert_eq!(run.phase, Phase::Ready);
    let acts = run.advance(RunEvent::Start);
    assert_eq!(acts.len(), 2);
    assert!(run.advance(RunEvent::Start).is_empty());
    assert_eq!(run.phase, Phase::Running);
}

#[test]
fn status_report_rows() {
    let sys = "\"com.zscaler.tunnel\" => disabled\n\"com.zscaler.service\" => enabled\n";
    let gui = "\"com.zscaler.tray\" => true\n";
    let rows = status_rows(sys, gui, &vec![Some(Some(0)), Some(Some(1)), None, Some(None)]);
    let got: Vec<(String, Scope, Tri, Tri)> = rows
        .into_iter()
        .map(|r| (r.label, r.scope, r.disabled, r.loaded))
        .collect();
    assert_eq!(
        got,
        vec![
            ("com.zscaler.tunnel".to_string(), Scope::System, Tri::True, Tri::True),
            ("com.zscaler.service".to_string(), Scope::System, Tri::False, Tri::False),
            ("com.zscaler.UPMServiceController".to_string(), Scope::System, Tri::Unknown, Tri::Unknown),
            ("com.zscaler.tray".to_string(), Scope::User, Tri::True, Tri::Unknown),
        ]
    );
}

#[test]
fn dry_run_whole_on_run_shows_every_command() {
    let (printed, code) = drive_run(ToggleRun::new(Toggle::On, 501, true, false), |_| panic!("ran"));
    assert_eq!(code, 0);
    let text = printed.join("\n");
    assert_eq!(text.matches("launchctl enable ").count(), 4);
    assert_eq!(text.matches("launchctl bootstrap ").count(), 4);
    assert!(text.contains(
        "launchctl bootstrap system /Library/LaunchDaemons/com.zscaler.tunnel.plist"
    ));
    assert!(text.contains("launchctl bootstrap gui/501 /Library/LaunchAgents/com.zscaler.tray.plist"));
    assert!(!text.contains("preloginui"));
    assert!(!text.contains("loginwindow"));
    assert!(!text.contains("launchctl disable "));
    assert!(!text.contains("launchctl bootout "));
}

#[test]
fn dry_run_whole_off_run_counts() {
    let (printed, code) = drive_run(ToggleRun::new(Toggle::Off, 501, true, false), |_| panic!("ran"));
    assert_eq!(code, 0);
    let text = printed.join("\n");
    assert_eq!(text.matches("launchctl disable ").count(), 4);
    assert_eq!(text.matches("launchctl bootout ").count(), 4);
    assert!(text.contains("launchctl disable system/com.zscaler.UPMServiceController"));
    assert!(text.contains("launchctl bootout gui/501/com.zscaler.tray"));
    assert!(text.contains("Done."));
}

#[test]
fn live_run_second_step_failure_fails_the_run() {
    let run = ToggleRun::new(Toggle::Off, 501, false, false);
    let (printed, code) = drive_run(run, |argv| {
        if argv[0] == "bootout" && argv[1] == "gui/501/com.zscaler.tray" {
            out(Some(5), "", "Boot-out failed: 5: Input/output error\n")
        } else {
            out(Some(0), "", "")
        }
    });
    assert_eq!(code, 3);
    assert_eq!(printed.len(), 6);
    assert!(printed[4].starts_with("  ✗ com.zscaler.tray"));
    assert!(printed[4].ends_with("failed: bootout: Boot-out failed: 5: Input/output error"));
}

#[test]
fn waiting_for_a_subprocess() {
    assert_eq!(wait_step(true, 0, DEFAULT_TIMEOUT_MS), WaitStep::Collect);
    assert_eq!(wait_step(true, 9000, DEFAULT_TIMEOUT_MS), WaitStep::Collect);
    assert_eq!(wait_step(false, 4999, DEFAULT_TIMEOUT_MS), WaitStep::Poll);
    assert_eq!(wait_step(false, 5000, DEFAULT_TIMEOUT_MS), WaitStep::Kill);
    assert_eq!(wait_step(false, 0, 0), WaitStep::Kill);
    assert_eq!(POLL_MS, 25);
}

#[test]
fn finished_reports() {
    let o = finished(Some(1), "a".to_string(), "b".to_string(), false);
    assert_eq!(o.status, Some(1));
    assert!(!o.timed_out);
    assert_eq!(o.stdout, "a");
    assert_eq!(o.stderr, "b");
    assert!(!o.success());
    let k = finished(Some(0), String::new(), "late".to_string(), true);
    assert_eq!(k.status, None);
    assert!(k.timed_out);
    assert!(!k.success());
    assert!(finished(Some(0), String::new(), String::new(), false).success());
    assert!(!finished(None, String::new(), String::new(), false).success());
}
