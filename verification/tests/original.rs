use muzzle::command::{render_command, Output};
use muzzle::launchctl::{
    build_argv, build_bootstrap_argv, is_bootout_not_loaded, is_bootstrap_already_loaded,
    render_argv, Target, Verb,
};
use muzzle::services::{has_system_services, services, Scope, Service};
use muzzle::status::{loaded_from_print_status, parse_disabled, Tri};
use std::collections::HashSet;

const SYS_FIXTURE: &str = "Disabled services for system:
\t\"com.apple.ftp-proxy\" => disabled
\t\"com.zscaler.tunnel\" => disabled
\t\"com.apple.mdmclient.daemon.runatboot\" => true
\t\"com.zscaler.service\" => enabled
\t\"com.zscaler.UPMServiceController\" => enabled
\t\"com.openssh.sshd\" => false
";

const GUI_FIXTURE: &str = "Disabled services for gui/501:
\t\"com.apple.Siri.agent\" => enabled
\t\"com.zscaler.tray\" => disabled
\t\"com.zscaler.preloginui\" => enabled
\t\"com.apple.ScreenTimeAgent\" => disabled
";

#[test]
fn render_basic() {
    assert_eq!(
        render_command("launchctl", &["disable", "system/com.zscaler.tunnel"]),
        "launchctl disable system/com.zscaler.tunnel"
    );
}

#[test]
fn render_quotes_whitespace() {
    assert_eq!(render_command("echo", &["hello world"]), "echo 'hello world'");
}

#[test]
fn target_system() {
    let s = Service {
        label: "com.zscaler.tunnel",
        scope: Scope::System,
    };
    let t = Target::for_service(&s, 501);
    assert_eq!(t.qualified(), "system/com.zscaler.tunnel");
}

#[test]
fn target_user() {
    let s = Service {
        label: "com.zscaler.tray",
        scope: Scope::User,
    };
    let t = Target::for_service(&s, 501);
    assert_eq!(t.qualified(), "gui/501/com.zscaler.tray");
}

#[test]
fn build_argv_disable_system() {
    let s = Service {
        label: "com.zscaler.tunnel",
        scope: Scope::System,
    };
    let t = Target::for_service(&s, 501);
    let argv = build_argv(Verb::Disable, &t);
    assert_eq!(
        argv,
        vec![
            "disable".to_string(),
            "system/com.zscaler.tunnel".to_string()
        ]
    );
}

#[test]
fn render_argv_format() {
    let argv = vec![
        "disable".to_string(),
        "system/com.zscaler.tunnel".to_string(),
    ];
    assert_eq!(
        render_argv(&argv),
        "launchctl disable system/com.zscaler.tunnel"
    );
}

#[test]
fn bootout_not_loaded_detection() {
    let o = Output {
        status: Some(113),
        stdout: String::new(),
        stderr: "Could not find service \"com.zscaler.tunnel\" in domain for system".into(),
        timed_out: false,
    };
    assert!(is_bootout_not_loaded(&o));
}

#[test]
fn bootout_real_failure_not_misclassified() {
    let o = Output {
        status: Some(1),
        stdout: String::new(),
        stderr: "Operation not permitted".into(),
        timed_out: false,
    };
    assert!(!is_bootout_not_loaded(&o));
}

#[test]
fn bootstrap_argv_format() {
    let argv = build_bootstrap_argv("system", "/Library/LaunchDaemons/com.zscaler.tunnel.plist");
    assert_eq!(
        argv,
        vec![
            "bootstrap".to_string(),
            "system".to_string(),
            "/Library/LaunchDaemons/com.zscaler.tunnel.plist".to_string(),
        ]
    );
    assert_eq!(
        render_argv(&argv),
        "launchctl bootstrap system /Library/LaunchDaemons/com.zscaler.tunnel.plist"
    );
}

#[test]
fn bootstrap_already_loaded_detection() {
    let o = Output {
        status: Some(37),
        stdout: String::new(),
        stderr: "Bootstrap failed: 37: Operation already in progress".into(),
        timed_out: false,
    };
    assert!(is_bootstrap_already_loaded(&o));
}

#[test]
fn bootstrap_real_failure_not_misclassified() {
    let o = Output {
        status: Some(1),
        stdout: String::new(),
        stderr: "Load failed: no such file".into(),
        timed_out: false,
    };
    assert!(!is_bootstrap_already_loaded(&o));
}

#[test]
fn services_non_empty() {
    assert!(!services().is_empty());
}

#[test]
fn labels_are_unique() {
    let mut seen = HashSet::new();
    for s in services() {
        assert!(seen.insert(s.label), "duplicate label: {}", s.label);
    }
}

#[test]
fn has_system_services_true() {
    assert!(has_system_services());
}

#[test]
fn preloginui_not_managed() {
    assert!(
        !services().iter().any(|s| s.label == "com.zscaler.preloginui"),
        "preloginui must not be in SERVICES; see module docs"
    );
}

#[test]
fn parses_disabled_true_from_system_fixture() {
    assert_eq!(parse_disabled(SYS_FIXTURE, "com.zscaler.tunnel"), Tri::True);
}

#[test]
fn parses_disabled_false_from_system_fixture() {
    assert_eq!(
        parse_disabled(SYS_FIXTURE, "com.zscaler.service"),
        Tri::False
    );
}

#[test]
fn parses_missing_label_as_unknown() {
    assert_eq!(
        parse_disabled(SYS_FIXTURE, "com.example.does.not.exist"),
        Tri::Unknown
    );
}

#[test]
fn parses_disabled_true_from_gui_fixture() {
    assert_eq!(parse_disabled(GUI_FIXTURE, "com.zscaler.tray"), Tri::True);
}

#[test]
fn parses_disabled_false_from_gui_fixture() {
    assert_eq!(
        parse_disabled(GUI_FIXTURE, "com.zscaler.preloginui"),
        Tri::False
    );
}

#[test]
fn loaded_status_mapping() {
    assert_eq!(loaded_from_print_status(Some(0)), Tri::True);
    assert_eq!(loaded_from_print_status(Some(113)), Tri::False);
    assert_eq!(loaded_from_print_status(None), Tri::Unknown);
}
