use codex_enhanced::doctor::{CheckStatus, DoctorArgsError, DoctorCheck, DoctorCommand, DoctorIssue};
use codex_enhanced::preflight::{
    capability_remedy, execution_preflight_check_from_inputs, ready_inputs, result_detail,
    simple_result_detail,
};

#[test]
fn ready_preflight_is_ok() {
    let check = execution_preflight_check_from_inputs(ready_inputs());

    assert_eq!(check.status, CheckStatus::Pass);
    assert_eq!(check.summary, "local execution capabilities are ready");
    assert!(check.issues.is_empty());
}

#[test]
fn doctor_command_accepts_preflight_mode() {
    let command = DoctorCommand::try_parse_from(["doctor", "--preflight"])
        .expect("parse doctor preflight command");

    assert!(command.preflight);
}

#[test]
fn filesystem_failure_blocks_preflight() {
    let mut inputs = ready_inputs();
    inputs.codex_home_writable = Err("permission denied".to_string());

    let check = execution_preflight_check_from_inputs(inputs);

    assert_eq!(check.status, CheckStatus::Fail);
    assert_eq!(check.issues.len(), 1);
    assert_eq!(check.issues[0].severity, CheckStatus::Fail);
}

#[test]
fn optional_capability_failure_warns_without_blocking() {
    let mut inputs = ready_inputs();
    inputs.loopback_bind = Err("operation not permitted".to_string());

    let check = execution_preflight_check_from_inputs(inputs);

    assert_eq!(check.status, CheckStatus::Warning);
    assert_eq!(check.issues.len(), 1);
    assert_eq!(check.issues[0].fields, vec!["loopback bind"]);
}

#[test]
fn ready_preflight_details_list_every_measurement() {
    let check = execution_preflight_check_from_inputs(ready_inputs());
    assert_eq!(check.id, "preflight.execution");
    assert_eq!(check.category, "preflight");
    assert_eq!(
        check.details,
        vec![
            "working directory: /work (ok)",
            "CODEX_HOME writable: /codex-home (ok)",
            "loopback bind: available",
            "shell: /bin/sh",
            "shell executable: available",
            "PATH entries: 3",
        ]
    );
    assert_eq!(check.remediation, None);
}

#[test]
fn unreadable_working_directory_and_missing_shell_are_reported() {
    let mut inputs = ready_inputs();
    inputs.cwd_readable = Err("no such directory".to_string());
    inputs.shell = None;
    inputs.shell_executable = Err("shell environment variable is not set".to_string());
    inputs.path_entries = 0;

    let check = execution_preflight_check_from_inputs(inputs);

    assert_eq!(check.status, CheckStatus::Fail);
    assert_eq!(check.summary, "local execution has blocking filesystem failures");
    assert_eq!(check.details[0], "working directory: /work (no such directory)");
    assert_eq!(check.details[3], "shell: not configured");
    assert_eq!(
        check.details[4],
        "shell executable: unavailable (shell environment variable is not set)"
    );
    assert_eq!(check.details[5], "PATH entries: 0");
    assert_eq!(check.issues.len(), 3);
    assert_eq!(check.issues[0].severity, CheckStatus::Fail);
    assert_eq!(check.issues[0].message, "working directory check failed");
    assert_eq!(check.issues[0].measured.as_deref(), Some("no such directory"));
    assert_eq!(
        check.issues[0].expected.as_deref(),
        Some("accessible before starting an agent turn")
    );
    assert_eq!(check.issues[1].severity, CheckStatus::Warning);
    assert_eq!(check.issues[1].message, "shell executable is unavailable");
    assert_eq!(
        check.issues[1].remedy.as_deref(),
        Some("Fix SHELL/COMSPEC or install the configured shell executable.")
    );
    assert_eq!(check.issues[2].message, "PATH is empty or unavailable");
    assert_eq!(check.issues[2].measured, None);
    assert_eq!(check.issues[2].fields, vec!["PATH entries"]);
}

#[test]
fn empty_path_only_warns() {
    let mut inputs = ready_inputs();
    inputs.path_entries = 0;
    let check = execution_preflight_check_from_inputs(inputs);
    assert_eq!(check.status, CheckStatus::Warning);
    assert_eq!(check.summary, "local execution has capability limitations");
    assert_eq!(check.issues.len(), 1);
}

#[test]
fn detail_lines_render_probe_results() {
    assert_eq!(result_detail("cwd", "/tmp", &Ok(())), "cwd: /tmp (ok)");
    assert_eq!(
        result_detail("cwd", "/tmp", &Err("denied".to_string())),
        "cwd: /tmp (denied)"
    );
    assert_eq!(simple_result_detail("loopback bind", &Ok(())), "loopback bind: available");
    assert_eq!(
        simple_result_detail("loopback bind", &Err("refused".to_string())),
        "loopback bind: unavailable (refused)"
    );
}

#[test]
fn capability_remedies_name_the_capability() {
    assert_eq!(
        capability_remedy("loopback bind"),
        "Allow local loopback binding or run loopback-dependent tests/tools outside the restrictive sandbox."
    );
    assert_eq!(
        capability_remedy("shell executable"),
        "Fix SHELL/COMSPEC or install the configured shell executable."
    );
    assert_eq!(
        capability_remedy("other"),
        "Fix the reported local capability, then rerun codex doctor --preflight."
    );
}

#[test]
fn doctor_command_without_flags_is_not_preflight() {
    let command = DoctorCommand::try_parse_from(["doctor"]).expect("parse doctor command");
    assert!(!command.preflight);
}

#[test]
fn doctor_command_refuses_unknown_repeated_and_help_arguments() {
    assert_eq!(
        DoctorCommand::try_parse_from(["doctor", "--bogus"]),
        Err(DoctorArgsError::UnexpectedArgument("--bogus".to_string()))
    );
    assert_eq!(
        DoctorCommand::try_parse_from(["doctor", "--preflight", "--preflight"]),
        Err(DoctorArgsError::RepeatedArgument("--preflight".to_string()))
    );
    assert_eq!(
        DoctorCommand::try_parse_from(["doctor", "--help"]),
        Err(DoctorArgsError::HelpRequested)
    );
    assert_eq!(
        DoctorCommand::try_parse_from(["doctor", "-h"]),
        Err(DoctorArgsError::HelpRequested)
    );
}

#[test]
fn doctor_check_builders_set_their_fields() {
    let issue = DoctorIssue::new(CheckStatus::Warning, "message")
        .measured("measured")
        .expected("expected")
        .remedy("remedy")
        .field("a")
        .field("b");
    assert_eq!(issue.fields, vec!["a", "b"]);
    let check = DoctorCheck::new("id", "category", CheckStatus::Pass, "summary")
        .details(vec!["one".to_string()])
        .remediation("fix it")
        .issue(issue);
    assert_eq!(check.details, vec!["one"]);
    assert_eq!(check.remediation.as_deref(), Some("fix it"));
    assert_eq!(check.issues.len(), 1);
    assert_eq!(check.issues[0].measured.as_deref(), Some("measured"));
}
