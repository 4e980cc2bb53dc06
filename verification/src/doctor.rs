//! The records that `codex doctor` reports: check statuses, issues and
//! checks, and the arguments of the `doctor` command.
use vstd::prelude::*;
use crate::text::str_eq;

verus! {

broadcast use vstd::string::group_string_axioms;

/// The outcome of one doctor check, or the severity of one issue.
#[derive(Clone, Copy, Debug, PartialEq, Eq, Structural)]
pub enum CheckStatus {
    Pass,
    Warning,
    Fail,
}

/// The views of a vector of strings.
pub open spec fn string_views(v: Seq<String>) -> Seq<Seq<char>> {
    v.map_values(|s: String| s@)
}

/// The view of an optional string.
pub open spec fn opt_view(o: Option<String>) -> Option<Seq<char>> {
    match o {
        Some(s) => Some(s@),
        None => None,
    }
}

/// What a [`DoctorIssue`] says, as plain values.
pub struct IssueView {
    pub severity: CheckStatus,
    pub message: Seq<char>,
    pub measured: Option<Seq<char>>,
    pub expected: Option<Seq<char>>,
    pub remedy: Option<Seq<char>>,
    pub fields: Seq<Seq<char>>,
}

/// One problem found by a doctor check: its severity, a message, what was
/// measured and expected, a remedy, and the input fields it concerns.
#[derive(Clone, Debug)]
pub struct DoctorIssue {
    pub severity: CheckStatus,
    pub message: String,
    pub measured: Option<String>,
    pub expected: Option<String>,
    pub remedy: Option<String>,
    pub fields: Vec<String>,
}

impl View for DoctorIssue {
    type V = IssueView;

    open spec fn view(&self) -> IssueView {
        IssueView {
            severity: self.severity,
            message: self.message@,
            measured: opt_view(self.measured),
            expected: opt_view(self.expected),
            remedy: opt_view(self.remedy),
            fields: string_views(self.fields@),
        }
    }
}

/// A string holding the characters of `s`.
pub fn owned(s: &str) -> (r: String)
    ensures
        r@ == s@,
{
    s.to_owned()
}

impl DoctorIssue {
    /// An issue with the given severity and message and nothing else.
    pub fn new(severity: CheckStatus, message: &str) -> (issue: DoctorIssue)
        ensures
            issue@ == (IssueView {
                severity,
                message: message@,
                measured: None,
                expected: None,
                remedy: None,
                fields: seq![],
            }),
    {
        let issue = DoctorIssue {
            severity,
            message: owned(message),
            measured: None,
            expected: None,
            remedy: None,
            fields: Vec::new(),
        };
        assert(string_views(issue.fields@) =~= Seq::<Seq<char>>::empty());
        issue
    }

    /// The issue with `measured` set.
    pub fn measured(self, measured: &str) -> (issue: DoctorIssue)
        ensures
            issue@ == (IssueView { measured: Some(measured@), ..self@ }),
    {
        DoctorIssue { measured: Some(owned(measured)), ..self }
    }

    /// The issue with `expected` set.
    pub fn expected(self, expected: &str) -> (issue: DoctorIssue)
        ensures
            issue@ == (IssueView { expected: Some(expected@), ..self@ }),
    {
        DoctorIssue { expected: Some(owned(expected)), ..self }
    }

    /// The issue with `remedy` set.
    pub fn remedy(self, remedy: &str) -> (issue: DoctorIssue)
        ensures
            issue@ == (IssueView { remedy: Some(remedy@), ..self@ }),
    {
        DoctorIssue { remedy: Some(owned(remedy)), ..self }
    }

    /// The issue with `field` added to the fields it concerns.
    pub fn field(self, field: &str) -> (issue: DoctorIssue)
        ensures
            issue@ == (IssueView { fields: self@.fields.push(field@), ..self@ }),
    {
        let mut fields = self.fields;
        let ghost before = string_views(fields@);
        fields.push(owned(field));
        assert(string_views(fields@) =~= before.push(field@));
        DoctorIssue { fields, ..self }
    }
}

/// The views of a vector of issues.
pub open spec fn issue_views(v: Seq<DoctorIssue>) -> Seq<IssueView> {
    v.map_values(|i: DoctorIssue| i@)
}

/// What a [`DoctorCheck`] says, as plain values.
pub struct CheckView {
    pub id: Seq<char>,
    pub category: Seq<char>,
    pub status: CheckStatus,
    pub summary: Seq<char>,
    pub details: Seq<Seq<char>>,
    pub issues: Seq<IssueView>,
    pub remediation: Option<Seq<char>>,
}

/// One row of the doctor report: an identifier, a category, a status, a
/// summary, detail lines, issues and an optional remediation.
#[derive(Clone, Debug)]
pub struct DoctorCheck {
    pub id: String,
    pub category: String,
    pub status: CheckStatus,
    pub summary: String,
    pub details: Vec<String>,
    pub issues: Vec<DoctorIssue>,
    pub remediation: Option<String>,
}

impl View for DoctorCheck {
    type V = CheckView;

    open spec fn view(&self) -> CheckView {
        CheckView {
            id: self.id@,
            category: self.category@,
            status: self.status,
            summary: self.summary@,
            details: string_views(self.details@),
            issues: issue_views(self.issues@),
            remediation: opt_view(self.remediation),
        }
    }
}

impl DoctorCheck {
    /// A check with no details, issues or remediation.
    pub fn new(id: &str, category: &str, status: CheckStatus, summary: &str) -> (check:
        DoctorCheck)
        ensures
            check@ == (CheckView {
                id: id@,
                category: category@,
                status,
                summary: summary@,
                details: seq![],
                issues: seq![],
                remediation: None,
            }),
    {
        let check = DoctorCheck {
            id: owned(id),
            category: owned(category),
            status,
            summary: owned(summary),
            details: Vec::new(),
            issues: Vec::new(),
            remediation: None,
        };
        assert(string_views(check.details@) =~= Seq::<Seq<char>>::empty());
        assert(issue_views(check.issues@) =~= Seq::<IssueView>::empty());
        check
    }

    /// The check with `issue` appended to its issues.
    pub fn issue(self, issue: DoctorIssue) -> (check: DoctorCheck)
        ensures
            check@ == (CheckView { issues: self@.issues.push(issue@), ..self@ }),
    {
        let mut issues = self.issues;
        let ghost before = issue_views(issues@);
        let ghost iv = issue@;
        issues.push(issue);
        assert(issue_views(issues@) =~= before.push(iv));
        DoctorCheck { issues, ..self }
    }

    /// The check with its detail lines replaced by `details`.
    pub fn details(self, details: Vec<String>) -> (check: DoctorCheck)
        ensures
            check@ == (CheckView { details: string_views(details@), ..self@ }),
    {
        DoctorCheck { details, ..self }
    }

    /// The check with `remediation` set.
    pub fn remediation(self, remediation: &str) -> (check: DoctorCheck)
        ensures
            check@ == (CheckView { remediation: Some(remediation@), ..self@ }),
    {
        DoctorCheck { remediation: Some(owned(remediation)), ..self }
    }
}

/// Why the arguments of `codex doctor` were refused.
#[derive(Clone, Debug, PartialEq, Eq)]
pub enum DoctorArgsError {
    /// `--help` or `-h` was given: help is shown instead of running.
    HelpRequested,
    /// An argument that the command does not define.
    UnexpectedArgument(String),
    /// A flag given more than once.
    RepeatedArgument(String),
}

/// What `DoctorArgsError` says, as plain values.
pub enum ArgsErrorView {
    HelpRequested,
    UnexpectedArgument(Seq<char>),
    RepeatedArgument(Seq<char>),
}

impl View for DoctorArgsError {
    type V = ArgsErrorView;

    open spec fn view(&self) -> ArgsErrorView {
        match self {
            DoctorArgsError::HelpRequested => ArgsErrorView::HelpRequested,
            DoctorArgsError::UnexpectedArgument(a) => ArgsErrorView::UnexpectedArgument(a@),
            DoctorArgsError::RepeatedArgument(a) => ArgsErrorView::RepeatedArgument(a@),
        }
    }
}

/// The `doctor` command line: `doctor [--preflight]`.
#[derive(Clone, Copy, Debug, PartialEq, Eq, Structural)]
pub struct DoctorCommand {
    /// Run only the deterministic local preflight checks.
    pub preflight: bool,
}

/// The outcome of reading the arguments `args` (program name excluded), with
/// `preflight` telling whether `--preflight` was already seen: arguments are
/// read from the left, and the first one that is not a flag of the command,
/// that repeats `--preflight`, or that asks for help decides the error.
pub open spec fn parse_doctor_flags(args: Seq<Seq<char>>, preflight: bool) -> Result<
    bool,
    ArgsErrorView,
>
    decreases args.len(),
{
    if args.len() == 0 {
        Ok(preflight)
    } else if args[0] == "--preflight"@ {
        if preflight {
            Err(ArgsErrorView::RepeatedArgument(args[0]))
        } else {
            parse_doctor_flags(args.drop_first(), true)
        }
    } else if args[0] == "--help"@ || args[0] == "-h"@ {
        Err(ArgsErrorView::HelpRequested)
    } else {
        Err(ArgsErrorView::UnexpectedArgument(args[0]))
    }
}

/// The outcome of parsing a whole command line, program name first.
pub open spec fn parse_doctor_args(args: Seq<Seq<char>>) -> Result<bool, ArgsErrorView> {
    if args.len() == 0 {
        Ok(false)
    } else {
        parse_doctor_flags(args.drop_first(), false)
    }
}

/// The views of a sequence of string slices.
pub open spec fn str_views(v: Seq<&str>) -> Seq<Seq<char>> {
    v.map_values(|s: &str| s@)
}

impl DoctorCommand {
    /// Parses the `doctor` command line, program name first.
    pub fn try_parse_from<const N: usize>(args: [&str; N]) -> (r: Result<
        DoctorCommand,
        DoctorArgsError,
    >)
        ensures
            match parse_doctor_args(str_views(args@)) {
                Ok(p) => r == Ok::<DoctorCommand, DoctorArgsError>(DoctorCommand { preflight: p }),
                Err(e) => r is Err && r->Err_0@ == e,
            },
    {
        Self::parse_args(&args)
    }

    /// Parses the `doctor` command line given as a slice, program name first.
    pub fn parse_args(args: &[&str]) -> (r: Result<DoctorCommand, DoctorArgsError>)
        ensures
            match parse_doctor_args(str_views(args@)) {
                Ok(p) => r == Ok::<DoctorCommand, DoctorArgsError>(DoctorCommand { preflight: p }),
                Err(e) => r is Err && r->Err_0@ == e,
            },
    {
        let n = args.len();
        if n == 0 {
            return Ok(DoctorCommand { preflight: false });
        }
        let ghost all = str_views(args@);
        let mut preflight = false;
        let mut i: usize = 1;
        assert(all.drop_first().skip(0) =~= all.drop_first());
        while i < n
            invariant
                n == args@.len(),
                n >= 1,
                1 <= i <= n,
                all == str_views(args@),
                parse_doctor_args(all) == parse_doctor_flags(all.skip(i as int), preflight),
            decreases n - i,
        {
            let arg = args[i];
            let ghost rest = all.skip(i as int);
            assert(rest[0] == arg@);
            assert(rest.drop_first() =~= all.skip(i + 1));
            if str_eq(arg, "--preflight") {
                if preflight {
                    return Err(DoctorArgsError::RepeatedArgument(owned(arg)));
                }
                preflight = true;
            } else if str_eq(arg, "--help") || str_eq(arg, "-h") {
                return Err(DoctorArgsError::HelpRequested);
            } else {
                return Err(DoctorArgsError::UnexpectedArgument(owned(arg)));
            }
            i = i + 1;
        }
        assert(all.skip(n as int) =~= Seq::<Seq<char>>::empty());
        Ok(DoctorCommand { preflight })
    }
}

} // verus!
