use codex_enhanced::output::{
    approx_bytes_for_tokens, coalesce_repeated_diagnostics, extract_key_diagnostics,
    prepare_model_output, strip_ansi_sgr,
};

#[test]
fn strip_removes_color_sequences_only() {
    assert_eq!(strip_ansi_sgr("\u{1b}[31merror\u{1b}[0m: bad"), "error: bad");
    assert_eq!(strip_ansi_sgr("\u{1b}[1;38:5:9mx"), "x");
    assert_eq!(strip_ansi_sgr("\u{1b}[mplain"), "plain");
    // Cursor movement is not a colour sequence and is kept.
    assert_eq!(strip_ansi_sgr("a\u{1b}[2Kb"), "a\u{1b}[2Kb");
    // An unterminated sequence is kept.
    assert_eq!(strip_ansi_sgr("a\u{1b}[31"), "a\u{1b}[31");
    assert_eq!(strip_ansi_sgr("no escapes é"), "no escapes é");
    assert_eq!(strip_ansi_sgr(""), "");
}

#[test]
fn strip_can_expose_a_new_sequence() {
    // Removing the inner sequence joins its neighbours into a new one, which
    // a single pass keeps.
    assert_eq!(strip_ansi_sgr("\u{1b}[\u{1b}[1mm"), "\u{1b}[m");
}

#[test]
fn coalesce_collapses_three_or_more_repeats() {
    let text = "error: boom\nerror: boom\nerror: boom\nerror: boom\nok\n";
    assert_eq!(
        coalesce_repeated_diagnostics(text),
        "error: boom\n[same diagnostic repeated 3 more times]\nok\n"
    );
}

#[test]
fn coalesce_keeps_pairs_and_other_lines() {
    assert_eq!(
        coalesce_repeated_diagnostics("warning: x\nwarning: x\ninfo\ninfo\ninfo\n"),
        "warning: x\nwarning: x\ninfo\ninfo\ninfo\n"
    );
    assert_eq!(coalesce_repeated_diagnostics("  error: y"), "  error: y");
}

#[test]
fn coalesce_counts_only_identical_pieces() {
    assert_eq!(
        coalesce_repeated_diagnostics("error: a\nerror: a\nerror: a"),
        "error: a\nerror: a\nerror: a"
    );
    assert_eq!(
        coalesce_repeated_diagnostics("x\nwarning: w\nwarning: w\nwarning: w\n"),
        "x\nwarning: w\n[same diagnostic repeated 2 more times]\n"
    );
}

#[test]
fn extraction_keeps_unique_key_diagnostics_in_order() {
    let text = "compiling\n  error: first\nerror: first\n--> src/lib.rs:1\nfailures:\nfailures: not\npanicked at 'x'\nfatal: bad\ntest result: FAILED. 1 passed\r\nwarning: w\n";
    assert_eq!(
        extract_key_diagnostics(text, 1000),
        "error: first\n--> src/lib.rs:1\nfailures:\npanicked at 'x'\nfatal: bad\ntest result: FAILED. 1 passed"
    );
}

#[test]
fn extraction_stops_at_the_byte_budget() {
    // Two tokens allow eight bytes: "error: a" fits, the next would not.
    assert_eq!(extract_key_diagnostics("error: a\nerror: b\n", 2), "error: a");
    assert_eq!(extract_key_diagnostics("error: abc\n", 2), "");
}

#[test]
fn token_budget_is_four_bytes_per_token() {
    assert_eq!(approx_bytes_for_tokens(0), 0);
    assert_eq!(approx_bytes_for_tokens(10), 40);
    assert_eq!(approx_bytes_for_tokens(usize::MAX), usize::MAX);
}

#[test]
fn successful_output_is_only_normalized() {
    let text = "\u{1b}[32mok\u{1b}[0m\nerror: e\nerror: e\nerror: e\n";
    assert_eq!(
        prepare_model_output(text, false, 1),
        "ok\nerror: e\n[same diagnostic repeated 2 more times]\n"
    );
}

#[test]
fn long_failed_output_leads_with_key_diagnostics() {
    let text = "line one of output\nerror: broken\nmore output here, more output here, more output here, more output here\n";
    let out = prepare_model_output(text, true, 20);
    assert_eq!(
        out,
        format!(
            "Key diagnostics extracted from full output:\nerror: broken\n\nFull output (head/tail preserved below):\n{text}"
        )
    );
}

#[test]
fn failed_output_within_budget_is_unchanged() {
    let text = "error: broken\n";
    assert_eq!(prepare_model_output(text, true, 100), text);
}

#[test]
fn long_failed_output_without_diagnostics_is_unchanged() {
    let text = "just a lot of ordinary output without anything special in it\n";
    assert_eq!(prepare_model_output(text, true, 2), text);
}

#[test]
fn budgets_count_utf8_bytes() {
    // "error: é" is eight characters but nine bytes.
    assert_eq!(extract_key_diagnostics("error: é\n", 2), "");
    assert_eq!(extract_key_diagnostics("error: é\n", 3), "error: é");
    let text = "ééééé";
    assert_eq!(prepare_model_output(text, true, 2), text);
}

/// Replaces each repetition notice line by that many copies of the line
/// before it.
fn expand_repetition_notices(text: &str) -> String {
    let mut out = String::new();
    let mut previous = "";
    for line in text.split_inclusive('\n') {
        let count = line
            .strip_prefix("[same diagnostic repeated ")
            .and_then(|rest| rest.strip_suffix(" more times]\n"))
            .and_then(|n| n.parse::<usize>().ok());
        match count {
            Some(n) => {
                for _ in 0..n {
                    out.push_str(previous);
                }
            }
            None => {
                out.push_str(line);
                previous = line;
            }
        }
    }
    out
}

#[test]
fn coalesced_output_expands_back_to_its_input() {
    let inputs = [
        "error: boom\nerror: boom\nerror: boom\nerror: boom\nok\n",
        "x\nwarning: w\nwarning: w\nwarning: w\n",
        "  error: y\n  error: y\nerror: y\nerror: y\nerror: y",
        "warning: a\nwarning: a\nwarning: b\nwarning: b\nwarning: b\n\n\n\n",
        "",
    ];
    for input in inputs {
        let coalesced = coalesce_repeated_diagnostics(input);
        assert_eq!(expand_repetition_notices(&coalesced), input);
    }
    assert_ne!(
        coalesce_repeated_diagnostics(inputs[0]),
        inputs[0],
        "a run of four errors is shortened"
    );
}
