//! The decisions of running a hook command: the command line that runs it,
//! whether a failed write to its standard input stops it, and the result
//! that each way of ending produces. Spawning, waiting, timing out and
//! killing are done by the caller.
use vstd::prelude::*;
use crate::doctor::owned;
use crate::text::{chars_of, decimal, extend_str, push_decimal, str_eq, string_of};

verus! {

broadcast use vstd::string::group_string_axioms;

/// The shell that runs hook commands: a program and its arguments before the
/// command. An empty program selects the platform's default shell.
pub struct CommandShell {
    pub program: String,
    pub args: Vec<String>,
}

/// One argument of a command line: passed as is and quoted by the platform
/// when needed, or written raw into the Windows command line.
pub enum CommandArg {
    Plain(String),
    Raw(String),
}

/// What a [`CommandArg`] says, as plain values.
pub enum ArgView {
    Plain(Seq<char>),
    Raw(Seq<char>),
}

impl View for CommandArg {
    type V = ArgView;

    open spec fn view(&self) -> ArgView {
        match self {
            CommandArg::Plain(s) => ArgView::Plain(s@),
            CommandArg::Raw(s) => ArgView::Raw(s@),
        }
    }
}

/// A program and its arguments.
pub struct CommandLine {
    pub program: String,
    pub args: Vec<CommandArg>,
}

/// The views of a sequence of arguments.
pub open spec fn arg_views(v: Seq<CommandArg>) -> Seq<ArgView> {
    v.map_values(|a: CommandArg| a@)
}

/// The views of a sequence of strings as plain arguments.
pub open spec fn plain_args(v: Seq<String>) -> Seq<ArgView> {
    v.map_values(|s: String| ArgView::Plain(s@))
}

/// The default shell: the value of `SHELL` (`COMSPEC` on Windows) when set,
/// else `/bin/sh` (`cmd.exe`).
pub open spec fn spec_default_shell(variable: Option<Seq<char>>, windows: bool) -> Seq<char> {
    match variable {
        Some(v) => v,
        None => if windows {
            "cmd.exe"@
        } else {
            "/bin/sh"@
        },
    }
}

/// The default shell program from the value of `SHELL` (or `COMSPEC`).
pub fn default_shell_program(variable: Option<String>, windows: bool) -> (program: String)
    ensures
        program@ == spec_default_shell(
            match variable {
                Some(v) => Some(v@),
                None => None,
            },
            windows,
        ),
{
    match variable {
        Some(v) => v,
        None => if windows {
            owned("cmd.exe")
        } else {
            owned("/bin/sh")
        },
    }
}

/// Whether an argument is `/c` in any ASCII case.
pub open spec fn is_cmd_c_switch(arg: Seq<char>) -> bool {
    arg == "/c"@ || arg == "/C"@
}

/// The command quoted for the Windows command line.
pub open spec fn quoted(command: Seq<char>) -> Seq<char> {
    "\""@ + command + "\""@
}

/// The arguments that run `command` through `shell`: the default shell gets
/// `-lc` and the command (on Windows `/C` and the quoted command); a
/// configured shell gets its arguments and the command (on Windows quoted
/// when one of its arguments is `/c`).
pub open spec fn spec_command_args(shell_args: Seq<String>, default_shell: bool, command: Seq<char>, windows: bool) -> Seq<
    ArgView,
> {
    if default_shell {
        if windows {
            seq![ArgView::Plain("/C"@), ArgView::Raw(quoted(command))]
        } else {
            seq![ArgView::Plain("-lc"@), ArgView::Plain(command)]
        }
    } else if windows && exists|i: int|
        0 <= i < shell_args.len() && is_cmd_c_switch(#[trigger] shell_args[i]@) {
        plain_args(shell_args).push(ArgView::Raw(quoted(command)))
    } else {
        plain_args(shell_args).push(ArgView::Plain(command))
    }
}

fn quote_command(command: &str) -> (q: String)
    ensures
        q@ == quoted(command@),
{
    let mut out = chars_of("\"");
    extend_str(&mut out, command);
    extend_str(&mut out, "\"");
    string_of(&out)
}

/// The command line that runs `command` through `shell`, with
/// `default_program` as the default shell and `windows` telling the platform.
pub fn build_command_line(shell: &CommandShell, command: &str, default_program: &str, windows: bool) -> (line:
    CommandLine)
    ensures
        line.program@ == (if shell.program@.len() == 0 {
            default_program@
        } else {
            shell.program@
        }),
        arg_views(line.args@) == spec_command_args(
            shell.args@,
            shell.program@.len() == 0,
            command@,
            windows,
        ),
{
    let mut args: Vec<CommandArg> = Vec::new();
    if shell.program.as_str().is_empty() {
        if windows {
            args.push(CommandArg::Plain(owned("/C")));
            args.push(CommandArg::Raw(quote_command(command)));
        } else {
            args.push(CommandArg::Plain(owned("-lc")));
            args.push(CommandArg::Plain(owned(command)));
        }
        assert(arg_views(args@) =~= spec_command_args(shell.args@, true, command@, windows));
        return CommandLine { program: owned(default_program), args };
    }
    let n = shell.args.len();
    let mut has_switch = false;
    for i in 0..n
        invariant
            n == shell.args@.len(),
            arg_views(args@) == plain_args(shell.args@).take(i as int),
            has_switch == exists|j: int|
                0 <= j < i && is_cmd_c_switch(#[trigger] shell.args@[j]@),
    {
        let a = shell.args[i].as_str();
        if str_eq(a, "/c") || str_eq(a, "/C") {
            has_switch = true;
        }
        let ghost before = arg_views(args@);
        args.push(CommandArg::Plain(owned(a)));
        assert(arg_views(args@) =~= before.push(ArgView::Plain(shell.args@[i as int]@)));
        assert(plain_args(shell.args@).take(i + 1) =~= plain_args(shell.args@).take(i as int).push(
            ArgView::Plain(shell.args@[i as int]@),
        ));
    }
    assert(plain_args(shell.args@).take(n as int) =~= plain_args(shell.args@));
    let ghost before = arg_views(args@);
    if windows && has_switch {
        let q = quote_command(command);
        let ghost qv = q@;
        args.push(CommandArg::Raw(q));
        assert(arg_views(args@) =~= before.push(ArgView::Raw(qv)));
    } else {
        args.push(CommandArg::Plain(owned(command)));
        assert(arg_views(args@) =~= before.push(ArgView::Plain(command@)));
    }
    CommandLine { program: owned(shell.program.as_str()), args }
}

/// Whether a failed write to the hook's standard input stops the hook: every
/// error does except a broken pipe (the hook exited without reading).
pub fn stdin_error_stops_hook(broken_pipe: bool) -> (stops: bool)
    ensures
        stops == !broken_pipe,
{
    !broken_pipe
}

/// How a hook run ended.
pub enum HookEnding {
    /// The process could not be spawned.
    SpawnFailed(String),
    /// Writing its standard input failed with an error other than a broken pipe.
    StdinFailed(String),
    /// It exited, with its exit code when it has one.
    Exited(Option<i32>),
    /// Waiting for it failed.
    WaitFailed(String),
    /// It ran longer than its timeout, in seconds.
    TimedOut(u64),
}

/// What happens to a hook's process tree when the run ends.
#[derive(Clone, Copy, Debug, PartialEq, Eq, Structural)]
pub enum HookAction {
    /// The hook exited by itself: its descendants are left alone.
    Disarm,
    /// The hook failed or timed out: its whole process tree is killed.
    Terminate,
}

/// `run_command`'s choice for each ending: a hook that exited is disarmed;
/// on every other ending its process tree is terminated.
pub fn hook_action(ending: &HookEnding) -> (a: HookAction)
    ensures
        a == (if *ending is Exited {
            HookAction::Disarm
        } else {
            HookAction::Terminate
        }),
{
    match ending {
        HookEnding::Exited(_) => HookAction::Disarm,
        _ => HookAction::Terminate,
    }
}

/// What a hook run reports when it ends.
pub struct CommandRunCompletion {
    pub exit_code: Option<i32>,
    pub stdout: String,
    pub stderr: String,
    pub error: Option<String>,
    pub outcome: &'static str,
}

/// The outcome label of an ending.
pub open spec fn outcome_label(e: HookEnding) -> Seq<char> {
    match e {
        HookEnding::SpawnFailed(_) => "spawn_error"@,
        HookEnding::StdinFailed(_) => "stdin_error"@,
        HookEnding::Exited(_) => "completed"@,
        HookEnding::WaitFailed(_) => "wait_error"@,
        HookEnding::TimedOut(_) => "timeout"@,
    }
}

/// The error message of an ending, if any.
pub open spec fn ending_error(e: HookEnding) -> Option<Seq<char>> {
    match e {
        HookEnding::SpawnFailed(msg) => Some(msg@),
        HookEnding::StdinFailed(msg) => Some("failed to write hook stdin: "@ + msg@),
        HookEnding::Exited(_) => None,
        HookEnding::WaitFailed(msg) => Some(msg@),
        HookEnding::TimedOut(secs) => Some(
            "hook timed out after "@ + decimal(secs as nat) + "s"@,
        ),
    }
}

/// The exit code of an ending: only a process that exited has one.
pub open spec fn ending_exit_code(e: HookEnding) -> Option<i32> {
    match e {
        HookEnding::Exited(code) => code,
        _ => None,
    }
}

/// The completion for an ending, with the captured outputs (empty when the
/// process never started).
pub fn completion_for(ending: HookEnding, stdout: String, stderr: String) -> (c:
    CommandRunCompletion)
    ensures
        c.exit_code == ending_exit_code(ending),
        c.outcome@ == outcome_label(ending),
        match c.error {
            Some(e) => ending_error(ending) == Some(e@),
            None => ending_error(ending) is None,
        },
        ending is SpawnFailed ==> c.stdout@.len() == 0 && c.stderr@.len() == 0,
        !(ending is SpawnFailed) ==> c.stdout@ == stdout@ && c.stderr@ == stderr@,
{
    match ending {
        HookEnding::SpawnFailed(msg) => CommandRunCompletion {
            exit_code: None,
            stdout: String::new(),
            stderr: String::new(),
            error: Some(msg),
            outcome: "spawn_error",
        },
        HookEnding::StdinFailed(msg) => {
            let mut text = chars_of("failed to write hook stdin: ");
            extend_str(&mut text, msg.as_str());
            CommandRunCompletion {
                exit_code: None,
                stdout,
                stderr,
                error: Some(string_of(&text)),
                outcome: "stdin_error",
            }
        },
        HookEnding::Exited(code) => CommandRunCompletion {
            exit_code: code,
            stdout,
            stderr,
            error: None,
            outcome: "completed",
        },
        HookEnding::WaitFailed(msg) => CommandRunCompletion {
            exit_code: None,
            stdout,
            stderr,
            error: Some(msg),
            outcome: "wait_error",
        },
        HookEnding::TimedOut(secs) => {
            let mut text = chars_of("hook timed out after ");
            push_decimal(&mut text, secs);
            extend_str(&mut text, "s");
            CommandRunCompletion {
                exit_code: None,
                stdout,
                stderr,
                error: Some(string_of(&text)),
                outcome: "timeout",
            }
        },
    }
}

/// The result of a hook run.
pub struct CommandRunResult {
    pub started_at: i64,
    pub completed_at: i64,
    pub duration_ms: i64,
    pub exit_code: Option<i32>,
    pub stdout: String,
    pub stderr: String,
    pub error: Option<String>,
}

/// The run's duration in milliseconds, saturated at `i64::MAX`.
pub open spec fn duration_millis(elapsed_millis: u128) -> i64 {
    if elapsed_millis <= i64::MAX {
        elapsed_millis as i64
    } else {
        i64::MAX
    }
}

/// `finish_command_run`: the result of a run that started at `started_at`,
/// completed at `completed_at` (Unix seconds), took `elapsed_millis`
/// milliseconds, and ended with `completion`.
pub fn finish_command_run(
    started_at: i64,
    completed_at: i64,
    elapsed_millis: u128,
    completion: CommandRunCompletion,
) -> (r: CommandRunResult)
    ensures
        r.started_at == started_at,
        r.completed_at == completed_at,
        r.duration_ms == duration_millis(elapsed_millis),
        r.exit_code == completion.exit_code,
        r.stdout == completion.stdout,
        r.stderr == completion.stderr,
        r.error == completion.error,
{
    let duration_ms: i64 = if elapsed_millis <= i64::MAX as u128 {
        elapsed_millis as i64
    } else {
        i64::MAX
    };
    CommandRunResult {
        started_at,
        completed_at,
        duration_ms,
        exit_code: completion.exit_code,
        stdout: completion.stdout,
        stderr: completion.stderr,
        error: completion.error,
    }
}

} // verus!
