//! The execution preflight check of `codex doctor --preflight`: it classifies
//! the measured local capabilities into a pass, a warning or a failure, and
//! explains each problem.
use vstd::prelude::*;
use crate::doctor::{CheckStatus, CheckView, DoctorCheck, DoctorIssue, IssueView, owned, string_views};
use crate::text::{chars_of, decimal, extend_str, push_decimal, str_eq, string_of};

verus! {

broadcast use vstd::string::group_string_axioms;

/// What the preflight measured: the working directory and whether it could
/// be read, the Codex home and whether it could be written, whether a
/// loopback socket could be bound, the configured shell and whether it is
/// executable, and the number of `PATH` entries. Paths are held as their
/// displayed text.
#[derive(Debug, PartialEq, Eq)]
pub struct PreflightInputs {
    pub cwd: String,
    pub cwd_readable: Result<(), String>,
    pub codex_home: String,
    pub codex_home_writable: Result<(), String>,
    pub loopback_bind: Result<(), String>,
    pub shell: Option<String>,
    pub shell_executable: Result<(), String>,
    pub path_entries: usize,
}

/// The view of a probe result: `None` for success, the error text otherwise.
pub open spec fn probe_error(r: Result<(), String>) -> Option<Seq<char>> {
    match r {
        Ok(()) => None,
        Err(e) => Some(e@),
    }
}

/// The detail line for a probe of a path.
pub open spec fn result_detail_text(label: Seq<char>, path: Seq<char>, error: Option<Seq<char>>) -> Seq<
    char,
> {
    match error {
        None => label + ": "@ + path + " (ok)"@,
        Some(e) => label + ": "@ + path + " ("@ + e + ")"@,
    }
}

/// The detail line for a probe of a capability.
pub open spec fn simple_result_detail_text(label: Seq<char>, error: Option<Seq<char>>) -> Seq<char> {
    match error {
        None => label + ": available"@,
        Some(e) => label + ": unavailable ("@ + e + ")"@,
    }
}

/// `result_detail`: `label: path (ok)` or `label: path (error)`.
pub fn result_detail(label: &str, path: &str, result: &Result<(), String>) -> (line: String)
    ensures
        line@ == result_detail_text(label@, path@, probe_error(*result)),
{
    let mut out = chars_of(label);
    extend_str(&mut out, ": ");
    extend_str(&mut out, path);
    match result {
        Ok(()) => {
            extend_str(&mut out, " (ok)");
        },
        Err(error) => {
            extend_str(&mut out, " (");
            extend_str(&mut out, error.as_str());
            extend_str(&mut out, ")");
        },
    }
    string_of(&out)
}

/// `simple_result_detail`: `label: available` or `label: unavailable (error)`.
pub fn simple_result_detail(label: &str, result: &Result<(), String>) -> (line: String)
    ensures
        line@ == simple_result_detail_text(label@, probe_error(*result)),
{
    let mut out = chars_of(label);
    match result {
        Ok(()) => {
            extend_str(&mut out, ": available");
        },
        Err(error) => {
            extend_str(&mut out, ": unavailable (");
            extend_str(&mut out, error.as_str());
            extend_str(&mut out, ")");
        },
    }
    string_of(&out)
}

/// The remedy for an unavailable optional capability.
pub open spec fn capability_remedy_text(field: Seq<char>) -> Seq<char> {
    if field == "loopback bind"@ {
        "Allow local loopback binding or run loopback-dependent tests/tools outside the restrictive sandbox."@
    } else if field == "shell executable"@ {
        "Fix SHELL/COMSPEC or install the configured shell executable."@
    } else {
        "Fix the reported local capability, then rerun codex doctor --preflight."@
    }
}

/// `capability_remedy`.
pub fn capability_remedy(field: &str) -> (remedy: &'static str)
    ensures
        remedy@ == capability_remedy_text(field@),
{
    if str_eq(field, "loopback bind") {
        "Allow local loopback binding or run loopback-dependent tests/tools outside the restrictive sandbox."
    } else if str_eq(field, "shell executable") {
        "Fix SHELL/COMSPEC or install the configured shell executable."
    } else {
        "Fix the reported local capability, then rerun codex doctor --preflight."
    }
}

/// The status of the preflight: a failure when the working directory cannot
/// be read or the Codex home cannot be written; otherwise a warning when
/// loopback binding or the shell is unavailable or `PATH` is empty;
/// otherwise a pass.
pub open spec fn preflight_status(inputs: PreflightInputs) -> CheckStatus {
    if inputs.cwd_readable is Err || inputs.codex_home_writable is Err {
        CheckStatus::Fail
    } else if inputs.loopback_bind is Err || inputs.shell_executable is Err || inputs.path_entries
        == 0 {
        CheckStatus::Warning
    } else {
        CheckStatus::Pass
    }
}

/// The summary for a preflight status.
pub open spec fn preflight_summary(status: CheckStatus) -> Seq<char> {
    match status {
        CheckStatus::Pass => "local execution capabilities are ready"@,
        CheckStatus::Warning => "local execution has capability limitations"@,
        CheckStatus::Fail => "local execution has blocking filesystem failures"@,
    }
}

/// The detail lines of the preflight, in order.
pub open spec fn preflight_details(inputs: PreflightInputs) -> Seq<Seq<char>> {
    seq![
        result_detail_text("working directory"@, inputs.cwd@, probe_error(inputs.cwd_readable)),
        result_detail_text(
            "CODEX_HOME writable"@,
            inputs.codex_home@,
            probe_error(inputs.codex_home_writable),
        ),
        simple_result_detail_text("loopback bind"@, probe_error(inputs.loopback_bind)),
        "shell: "@ + match inputs.shell {
            Some(s) => s@,
            None => "not configured"@,
        },
        simple_result_detail_text("shell executable"@, probe_error(inputs.shell_executable)),
        "PATH entries: "@ + decimal(inputs.path_entries as nat),
    ]
}

/// The issue raised for a failed filesystem probe.
pub open spec fn hard_failure_issue(field: Seq<char>, error: Seq<char>) -> IssueView {
    IssueView {
        severity: CheckStatus::Fail,
        message: field + " check failed"@,
        measured: Some(error),
        expected: Some("accessible before starting an agent turn"@),
        remedy: Some(
            "Fix the directory path or permissions, then rerun codex doctor --preflight."@,
        ),
        fields: seq![field],
    }
}

/// The issue raised for an unavailable optional capability.
pub open spec fn warning_issue(field: Seq<char>, error: Seq<char>) -> IssueView {
    IssueView {
        severity: CheckStatus::Warning,
        message: field + " is unavailable"@,
        measured: Some(error),
        expected: Some("available for tools that require this capability"@),
        remedy: Some(capability_remedy_text(field)),
        fields: seq![field],
    }
}

/// The issue raised when `PATH` has no entry.
pub open spec fn empty_path_issue() -> IssueView {
    IssueView {
        severity: CheckStatus::Warning,
        message: "PATH is empty or unavailable"@,
        measured: None,
        expected: Some("at least one PATH entry"@),
        remedy: Some("Set PATH before starting Codex so shell commands can resolve tools."@),
        fields: seq!["PATH entries"@],
    }
}

/// One issue when the probe failed, none otherwise.
pub open spec fn issue_if(error: Option<Seq<char>>, make: spec_fn(Seq<char>) -> IssueView) -> Seq<
    IssueView,
> {
    match error {
        Some(e) => seq![make(e)],
        None => seq![],
    }
}

/// The issues of the preflight, in order: the failed filesystem probes, the
/// unavailable capabilities, then an empty `PATH`.
pub open spec fn preflight_issues(inputs: PreflightInputs) -> Seq<IssueView> {
    issue_if(
        probe_error(inputs.cwd_readable),
        |e: Seq<char>| hard_failure_issue("working directory"@, e),
    ) + issue_if(
        probe_error(inputs.codex_home_writable),
        |e: Seq<char>| hard_failure_issue("CODEX_HOME writable"@, e),
    ) + issue_if(
        probe_error(inputs.loopback_bind),
        |e: Seq<char>| warning_issue("loopback bind"@, e),
    ) + issue_if(
        probe_error(inputs.shell_executable),
        |e: Seq<char>| warning_issue("shell executable"@, e),
    ) + (if inputs.path_entries == 0 {
        seq![empty_path_issue()]
    } else {
        seq![]
    })
}

/// The whole preflight check for the given measurements.
pub open spec fn preflight_check(inputs: PreflightInputs) -> CheckView {
    CheckView {
        id: "preflight.execution"@,
        category: "preflight"@,
        status: preflight_status(inputs),
        summary: preflight_summary(preflight_status(inputs)),
        details: preflight_details(inputs),
        issues: preflight_issues(inputs),
        remediation: None,
    }
}

fn hard_failure(check: DoctorCheck, field: &str, result: &Result<(), String>) -> (out: DoctorCheck)
    ensures
        out@ == (CheckView {
            issues: check@.issues + issue_if(
                probe_error(*result),
                |e: Seq<char>| hard_failure_issue(field@, e),
            ),
            ..check@
        }),
{
    match result {
        Err(error) => {
            let mut message = chars_of(field);
            extend_str(&mut message, " check failed");
            let message = string_of(&message);
            let issue = DoctorIssue::new(CheckStatus::Fail, message.as_str()).measured(
                error.as_str(),
            ).expected("accessible before starting an agent turn").remedy(
                "Fix the directory path or permissions, then rerun codex doctor --preflight.",
            ).field(field);
            assert(issue@.fields =~= seq![field@]);
            let out = check.issue(issue);
            assert(out@.issues =~= check@.issues + seq![hard_failure_issue(field@, error@)]);
            out
        },
        Ok(()) => {
            assert(check@.issues + seq![] =~= check@.issues);
            check
        },
    }
}

fn capability_warning(check: DoctorCheck, field: &str, result: &Result<(), String>) -> (out:
    DoctorCheck)
    ensures
        out@ == (CheckView {
            issues: check@.issues + issue_if(
                probe_error(*result),
                |e: Seq<char>| warning_issue(field@, e),
            ),
            ..check@
        }),
{
    match result {
        Err(error) => {
            let mut message = chars_of(field);
            extend_str(&mut message, " is unavailable");
            let message = string_of(&message);
            let issue = DoctorIssue::new(CheckStatus::Warning, message.as_str()).measured(
                error.as_str(),
            ).expected("available for tools that require this capability").remedy(
                capability_remedy(field),
            ).field(field);
            assert(issue@.fields =~= seq![field@]);
            let out = check.issue(issue);
            assert(out@.issues =~= check@.issues + seq![warning_issue(field@, error@)]);
            out
        },
        Ok(()) => {
            assert(check@.issues + seq![] =~= check@.issues);
            check
        },
    }
}

/// `execution_preflight_check_from_inputs`: the preflight check for the
/// given measurements.
pub fn execution_preflight_check_from_inputs(inputs: PreflightInputs) -> (check: DoctorCheck)
    ensures
        check@ == preflight_check(inputs),
{
    let mut details: Vec<String> = Vec::new();
    details.push(result_detail("working directory", inputs.cwd.as_str(), &inputs.cwd_readable));
    details.push(
        result_detail(
            "CODEX_HOME writable",
            inputs.codex_home.as_str(),
            &inputs.codex_home_writable,
        ),
    );
    details.push(simple_result_detail("loopback bind", &inputs.loopback_bind));
    let mut shell_line = chars_of("shell: ");
    match &inputs.shell {
        Some(shell) => extend_str(&mut shell_line, shell.as_str()),
        None => extend_str(&mut shell_line, "not configured"),
    }
    details.push(string_of(&shell_line));
    details.push(simple_result_detail("shell executable", &inputs.shell_executable));
    let mut path_line = chars_of("PATH entries: ");
    push_decimal(&mut path_line, inputs.path_entries as u64);
    details.push(string_of(&path_line));
    assert(string_views(details@) =~= preflight_details(inputs));

    let status = if inputs.cwd_readable.is_err() || inputs.codex_home_writable.is_err() {
        CheckStatus::Fail
    } else if inputs.loopback_bind.is_err() || inputs.shell_executable.is_err()
        || inputs.path_entries == 0 {
        CheckStatus::Warning
    } else {
        CheckStatus::Pass
    };
    let summary = match status {
        CheckStatus::Pass => "local execution capabilities are ready",
        CheckStatus::Warning => "local execution has capability limitations",
        CheckStatus::Fail => "local execution has blocking filesystem failures",
    };
    let check = DoctorCheck::new("preflight.execution", "preflight", status, summary);
    let check = check.details(details);
    let check = hard_failure(check, "working directory", &inputs.cwd_readable);
    let check = hard_failure(check, "CODEX_HOME writable", &inputs.codex_home_writable);
    let check = capability_warning(check, "loopback bind", &inputs.loopback_bind);
    let check = capability_warning(check, "shell executable", &inputs.shell_executable);
    let check = if inputs.path_entries == 0 {
        let issue = DoctorIssue::new(CheckStatus::Warning, "PATH is empty or unavailable").expected(
            "at least one PATH entry",
        ).remedy("Set PATH before starting Codex so shell commands can resolve tools.").field(
            "PATH entries",
        );
        assert(issue@.fields =~= seq!["PATH entries"@]);
        check.issue(issue)
    } else {
        check
    };
    assert(check@.issues =~= preflight_issues(inputs));
    check
}

/// The measurements of a machine on which every capability is available.
pub fn ready_inputs() -> (inputs: PreflightInputs)
    ensures
        inputs.cwd@ == "/work"@,
        inputs.cwd_readable is Ok,
        inputs.codex_home@ == "/codex-home"@,
        inputs.codex_home_writable is Ok,
        inputs.loopback_bind is Ok,
        inputs.shell matches Some(s) && s@ == "/bin/sh"@,
        inputs.shell_executable is Ok,
        inputs.path_entries == 3,
{
    PreflightInputs {
        cwd: owned("/work"),
        cwd_readable: Ok(()),
        codex_home: owned("/codex-home"),
        codex_home_writable: Ok(()),
        loopback_bind: Ok(()),
        shell: Some(owned("/bin/sh")),
        shell_executable: Ok(()),
        path_entries: 3,
    }
}

/// A preflight fails exactly when a filesystem probe failed, and then it
/// raises one failure issue per failed probe.
pub proof fn lemma_preflight_fails_exactly_on_filesystem_errors(inputs: PreflightInputs)
    ensures
        (preflight_check(inputs).status == CheckStatus::Fail) <==> (inputs.cwd_readable is Err
            || inputs.codex_home_writable is Err),
        preflight_check(inputs).issues.filter(|i: IssueView| i.severity == CheckStatus::Fail).len()
            == (if inputs.cwd_readable is Err {
            1int
        } else {
            0
        }) + (if inputs.codex_home_writable is Err {
            1int
        } else {
            0
        }),
{
    let issues = preflight_issues(inputs);
    let is_fail = |i: IssueView| i.severity == CheckStatus::Fail;
    let a = issue_if(
        probe_error(inputs.cwd_readable),
        |e: Seq<char>| hard_failure_issue("working directory"@, e),
    );
    let b = issue_if(
        probe_error(inputs.codex_home_writable),
        |e: Seq<char>| hard_failure_issue("CODEX_HOME writable"@, e),
    );
    let c = issue_if(
        probe_error(inputs.loopback_bind),
        |e: Seq<char>| warning_issue("loopback bind"@, e),
    );
    let d = issue_if(
        probe_error(inputs.shell_executable),
        |e: Seq<char>| warning_issue("shell executable"@, e),
    );
    let p: Seq<IssueView> = if inputs.path_entries == 0 {
        seq![empty_path_issue()]
    } else {
        seq![]
    };
    Seq::filter_distributes_over_add(a + b + c + d, p, is_fail);
    Seq::filter_distributes_over_add(a + b + c, d, is_fail);
    Seq::filter_distributes_over_add(a + b, c, is_fail);
    Seq::filter_distributes_over_add(a, b, is_fail);
    reveal_with_fuel(Seq::filter, 2);
    assert(a.filter(is_fail).len() == (if inputs.cwd_readable is Err {
        1int
    } else {
        0
    }));
    assert(b.filter(is_fail).len() == (if inputs.codex_home_writable is Err {
        1int
    } else {
        0
    }));
    assert(c.filter(is_fail).len() == 0);
    assert(d.filter(is_fail).len() == 0);
    assert(p.filter(is_fail).len() == 0);
}

/// A preflight passes exactly when every probe succeeded and `PATH` has an
/// entry, and then it raises no issue; it warns exactly when it raises
/// issues and all of them are warnings.
pub proof fn lemma_preflight_passes_only_without_issues(inputs: PreflightInputs)
    ensures
        (preflight_check(inputs).status == CheckStatus::Pass) <==> (inputs.cwd_readable is Ok
            && inputs.codex_home_writable is Ok && inputs.loopback_bind is Ok
            && inputs.shell_executable is Ok && inputs.path_entries > 0),
        (preflight_check(inputs).status == CheckStatus::Pass) <==> preflight_check(
            inputs,
        ).issues.len() == 0,
        (preflight_check(inputs).status == CheckStatus::Warning) <==> (preflight_check(
            inputs,
        ).issues.len() > 0 && forall|i: int|
            0 <= i < preflight_check(inputs).issues.len() ==> (#[trigger] preflight_check(
                inputs,
            ).issues[i]).severity == CheckStatus::Warning),
        preflight_check(inputs).summary == (if preflight_check(inputs).status == CheckStatus::Pass {
            "local execution capabilities are ready"@
        } else if preflight_check(inputs).status == CheckStatus::Warning {
            "local execution has capability limitations"@
        } else {
            "local execution has blocking filesystem failures"@
        }),
{
    let a = issue_if(
        probe_error(inputs.cwd_readable),
        |e: Seq<char>| hard_failure_issue("working directory"@, e),
    );
    let b = issue_if(
        probe_error(inputs.codex_home_writable),
        |e: Seq<char>| hard_failure_issue("CODEX_HOME writable"@, e),
    );
    let c = issue_if(
        probe_error(inputs.loopback_bind),
        |e: Seq<char>| warning_issue("loopback bind"@, e),
    );
    let d = issue_if(
        probe_error(inputs.shell_executable),
        |e: Seq<char>| warning_issue("shell executable"@, e),
    );
    let p: Seq<IssueView> = if inputs.path_entries == 0 {
        seq![empty_path_issue()]
    } else {
        seq![]
    };
    let issues = preflight_check(inputs).issues;
    assert(issues =~= a + b + c + d + p);
    assert(issues.len() == a.len() + b.len() + c.len() + d.len() + p.len());
    if inputs.cwd_readable is Err {
        assert(issues[0] == a[0]);
        assert(issues[0].severity == CheckStatus::Fail);
    } else if inputs.codex_home_writable is Err {
        assert(issues[0] == b[0]);
        assert(issues[0].severity == CheckStatus::Fail);
    } else {
        assert(issues =~= c + d + p);
        assert forall|i: int| 0 <= i < issues.len() implies (#[trigger] issues[i]).severity
            == CheckStatus::Warning by {
            if i < c.len() {
                assert(issues[i] == c[i]);
            } else if i < c.len() + d.len() {
                assert(issues[i] == d[i - c.len()]);
            } else {
                assert(issues[i] == p[i - c.len() - d.len()]);
            }
        }
    }
}

} // verus!
