use codex_enhanced::hook_command::{
    build_command_line, completion_for, hook_action, HookAction, default_shell_program, finish_command_run,
    stdin_error_stops_hook, CommandArg, CommandShell, HookEnding,
};
use codex_enhanced::hook_stream::{
    append_bounded_preview, ChunkAction, StreamCapture, INLINE_OUTPUT_LIMIT_BYTES,
    PREVIEW_HEAD_BYTES, PREVIEW_TAIL_BYTES,
};
use std::collections::VecDeque;

/// Feeds `data` to a capture in chunks of `chunk` bytes, with every spill
/// write succeeding when `spill_ok`.
fn capture(data: &[u8], chunk: usize, spill_ok: bool) -> (StreamCapture, Vec<u8>) {
    let mut capture = StreamCapture::new();
    let mut spilled = Vec::new();
    let mut alive = false;
    for piece in data.chunks(chunk) {
        match capture.on_chunk(piece) {
            ChunkAction::KeepInline => {}
            ChunkAction::StartSpill => {
                alive = spill_ok;
                if alive {
                    spilled.extend_from_slice(capture.inline_bytes());
                    spilled.extend_from_slice(piece);
                }
                capture.after_spill(piece, alive);
            }
            ChunkAction::WriteSpill => {
                spilled.extend_from_slice(piece);
                capture.after_spill(piece, alive);
            }
        }
    }
    (capture, spilled)
}

#[test]
fn small_stream_stays_inline() {
    let (capture, spilled) = capture(b"hook output", 8 * 1024, true);
    assert_eq!(capture.finish("stdout", "/unused"), "hook output");
    assert!(spilled.is_empty());
}

#[test]
fn oversized_stream_is_bounded_and_spilled_while_reading() {
    let output = vec![b'x'; INLINE_OUTPUT_LIMIT_BYTES + 1024];
    let (capture, spilled) = capture(&output, 8 * 1024, true);
    let captured = capture.finish("stdout", "/tmp/spill.txt");
    let path = captured
        .lines()
        .last()
        .and_then(|line| line.strip_prefix("[hook stdout truncated; full output saved to: "))
        .and_then(|line| line.strip_suffix(']'))
        .expect("spill path footer");
    assert_eq!(path, "/tmp/spill.txt");
    assert!(captured.len() < output.len() + 512);
    assert_eq!(spilled, output);
}

#[test]
fn exact_limit_stays_inline() {
    let output = vec![b'y'; INLINE_OUTPUT_LIMIT_BYTES];
    let (capture, spilled) = capture(&output, 4096, true);
    assert_eq!(capture.finish("stderr", "/unused").len(), INLINE_OUTPUT_LIMIT_BYTES);
    assert!(spilled.is_empty());
}

#[test]
fn preview_keeps_head_and_tail() {
    let mut output = vec![b'h'; PREVIEW_HEAD_BYTES];
    output.extend(vec![b'm'; 600_000]);
    output.extend(vec![b't'; PREVIEW_TAIL_BYTES]);
    let (capture, _) = capture(&output, 8 * 1024, true);
    let text = capture.finish("stdout", "p");
    let preview = text.strip_suffix("\n\n[hook stdout truncated; full output saved to: p]").unwrap();
    assert_eq!(preview.len(), PREVIEW_HEAD_BYTES + PREVIEW_TAIL_BYTES);
    assert!(preview[..PREVIEW_HEAD_BYTES].bytes().all(|b| b == b'h'));
    assert!(preview[PREVIEW_HEAD_BYTES..].bytes().all(|b| b == b't'));
}

#[test]
fn failed_spill_falls_back_to_inline_bytes() {
    let output = vec![b'z'; INLINE_OUTPUT_LIMIT_BYTES + 10];
    let (capture, spilled) = capture(&output, INLINE_OUTPUT_LIMIT_BYTES, false);
    assert!(spilled.is_empty());
    // The first chunk fills the inline buffer; the second overflows, cannot
    // be spilled, and only shortens the inline bytes to the head.
    let text = capture.finish("stdout", "p");
    assert_eq!(text.len(), PREVIEW_HEAD_BYTES);
    assert!(!text.contains("truncated"));
}

#[test]
fn invalid_utf8_is_replaced() {
    let (capture, _) = capture(b"ok\xffend", 64, true);
    assert_eq!(capture.finish("stdout", "p"), "ok\u{fffd}end");
}

#[test]
fn bounded_preview_drops_oldest_tail_bytes() {
    let mut inline = vec![1u8; PREVIEW_HEAD_BYTES + 5];
    let mut tail: VecDeque<u8> = VecDeque::new();
    tail.extend(vec![2u8; PREVIEW_TAIL_BYTES - 1]);
    append_bounded_preview(&mut inline, &mut tail, &[3, 4]);
    assert_eq!(inline.len(), PREVIEW_HEAD_BYTES);
    assert_eq!(tail.len(), PREVIEW_TAIL_BYTES);
    assert_eq!(tail[0], 2);
    assert_eq!(tail[PREVIEW_TAIL_BYTES - 2], 3);
    assert_eq!(tail[PREVIEW_TAIL_BYTES - 1], 4);
}

fn plain(arg: &CommandArg) -> (&str, bool) {
    match arg {
        CommandArg::Plain(s) => (s.as_str(), false),
        CommandArg::Raw(s) => (s.as_str(), true),
    }
}

#[test]
fn default_shell_runs_command_with_login_flag() {
    let shell = CommandShell { program: String::new(), args: Vec::new() };
    let line = build_command_line(&shell, "echo hook-ran", "/bin/bash", false);
    assert_eq!(line.program, "/bin/bash");
    let args: Vec<_> = line.args.iter().map(plain).collect();
    assert_eq!(args, vec![("-lc", false), ("echo hook-ran", false)]);

    let line = build_command_line(&shell, "C:\\hook.cmd notify", "cmd.exe", true);
    let args: Vec<_> = line.args.iter().map(plain).collect();
    assert_eq!(args, vec![("/C", false), ("\"C:\\hook.cmd notify\"", true)]);
}

#[test]
fn configured_shell_gets_its_arguments_then_the_command() {
    let shell = CommandShell { program: "zsh".to_string(), args: vec!["-c".to_string()] };
    let line = build_command_line(&shell, "true", "/bin/sh", false);
    assert_eq!(line.program, "zsh");
    let args: Vec<_> = line.args.iter().map(plain).collect();
    assert_eq!(args, vec![("-c", false), ("true", false)]);

    let cmd = CommandShell { program: "cmd.exe".to_string(), args: vec!["/c".to_string()] };
    let line = build_command_line(&cmd, "x y", "cmd.exe", true);
    let args: Vec<_> = line.args.iter().map(plain).collect();
    assert_eq!(args, vec![("/c", false), ("\"x y\"", true)]);

    let pwsh = CommandShell { program: "pwsh".to_string(), args: vec!["-Command".to_string()] };
    let line = build_command_line(&pwsh, "x y", "cmd.exe", true);
    let args: Vec<_> = line.args.iter().map(plain).collect();
    assert_eq!(args, vec![("-Command", false), ("x y", false)]);
}

#[test]
fn default_shell_falls_back_per_platform() {
    assert_eq!(default_shell_program(None, false), "/bin/sh");
    assert_eq!(default_shell_program(None, true), "cmd.exe");
    assert_eq!(default_shell_program(Some("/bin/zsh".to_string()), false), "/bin/zsh");
}

#[test]
fn broken_pipe_on_stdin_does_not_stop_the_hook() {
    assert!(!stdin_error_stops_hook(true));
    assert!(stdin_error_stops_hook(false));
}

#[test]
fn completions_describe_each_ending() {
    let c = completion_for(HookEnding::TimedOut(1), "partial".to_string(), String::new());
    assert_eq!(c.exit_code, None);
    assert_eq!(c.stdout, "partial");
    assert_eq!(c.error.as_deref(), Some("hook timed out after 1s"));
    assert_eq!(c.outcome, "timeout");

    let c = completion_for(HookEnding::Exited(Some(0)), "hook-ran\n".to_string(), String::new());
    assert_eq!(c.exit_code, Some(0));
    assert_eq!(c.error, None);
    assert_eq!(c.outcome, "completed");

    let c = completion_for(
        HookEnding::StdinFailed("connection reset".to_string()),
        String::new(),
        String::new(),
    );
    assert_eq!(c.error.as_deref(), Some("failed to write hook stdin: connection reset"));
    assert_eq!(c.outcome, "stdin_error");

    let c = completion_for(
        HookEnding::SpawnFailed("No such file".to_string()),
        "ignored".to_string(),
        "ignored".to_string(),
    );
    assert_eq!(c.stdout, "");
    assert_eq!(c.stderr, "");
    assert_eq!(c.outcome, "spawn_error");

    let c = completion_for(HookEnding::WaitFailed("interrupted".to_string()), String::new(), String::new());
    assert_eq!(c.error.as_deref(), Some("interrupted"));
    assert_eq!(c.outcome, "wait_error");
}

#[test]
fn run_result_saturates_duration() {
    let c = completion_for(HookEnding::Exited(Some(3)), "o".to_string(), "e".to_string());
    let r = finish_command_run(10, 12, 2_500, c);
    assert_eq!(r.duration_ms, 2_500);
    assert_eq!(r.exit_code, Some(3));
    assert_eq!(r.started_at, 10);
    assert_eq!(r.completed_at, 12);
    let c = completion_for(HookEnding::Exited(None), String::new(), String::new());
    let r = finish_command_run(0, 0, u128::MAX, c);
    assert_eq!(r.duration_ms, i64::MAX);
}

#[test]
fn only_an_exited_hook_keeps_its_descendants() {
    assert_eq!(hook_action(&HookEnding::Exited(Some(0))), HookAction::Disarm);
    assert_eq!(hook_action(&HookEnding::Exited(None)), HookAction::Disarm);
    assert_eq!(hook_action(&HookEnding::TimedOut(1)), HookAction::Terminate);
    assert_eq!(hook_action(&HookEnding::WaitFailed("x".to_string())), HookAction::Terminate);
    assert_eq!(hook_action(&HookEnding::StdinFailed("x".to_string())), HookAction::Terminate);
}
