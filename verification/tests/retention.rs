use codex_enhanced::cleanup::{
    is_active_marker_name, marker_step, parse_marker_pid, session_eligible, total_bytes, Candidate,
    CleanupPolicy, CleanupRun, MarkerStep,
};
use codex_enhanced::spill::{is_log_file_name, spill_file_name, ACTIVE_MARKER_SUFFIX, OUTPUT_ROOT};

const SECOND: i128 = 1_000_000_000;

fn log(session: &str, name: &str, bytes: u64, modified_nanos: i128, eligible: bool) -> Candidate {
    Candidate {
        path: vec![
            "/".to_string(),
            "home".to_string(),
            OUTPUT_ROOT.to_string(),
            session.to_string(),
            name.to_string(),
        ],
        modified_nanos,
        bytes,
        eligible,
    }
}

/// Runs the cleanup with every removal succeeding; returns the file names
/// removed, in order, and the bytes that remain.
fn run_cleanup(candidates: Vec<Candidate>, policy: CleanupPolicy, now: i128) -> (Vec<String>, u64) {
    assert!(total_bytes(&candidates).is_some());
    let mut run = CleanupRun::new(candidates, policy, now);
    let mut removed = Vec::new();
    while let Some(i) = run.next_removal() {
        removed.push(run.candidate(i).path.last().unwrap().clone());
        run.record_removal(true);
    }
    (removed, run.remaining_bytes())
}

#[test]
fn cleanup_removes_expired_then_oldest_until_under_budget() {
    let now = 1_700_000_000 * SECOND;
    let candidates = vec![
        log("newest", "newest.log", 4, now - 4 * SECOND, true),
        log("expired", "expired.log", 4, now - 20 * SECOND, true),
        log("oldest", "oldest.log", 4, now - 8 * SECOND, true),
    ];
    let policy = CleanupPolicy {
        retention_nanos: 10 * SECOND as u128,
        max_bytes: 4,
    };
    let (removed, remaining) = run_cleanup(candidates, policy, now);
    assert_eq!(removed, vec!["expired.log", "oldest.log"]);
    assert_eq!(remaining, 4);
}

/// A log of `session`, with its eligibility decided from the protected
/// session and the session's markers, as the cleanup does.
fn session_log(
    session: &str,
    name: &str,
    bytes: u64,
    modified_nanos: i128,
    protected_session: &str,
    markers: &[(Option<u32>, bool)],
) -> Candidate {
    let mut live = false;
    for (pid, alive) in markers {
        if marker_step(*pid, *alive, true) == MarkerStep::SessionActive {
            live = true;
            break;
        }
    }
    let path = log(session, name, bytes, modified_nanos, true).path;
    Candidate::for_session(path, modified_nanos, bytes, session, protected_session, live)
}

#[test]
fn cleanup_preserves_current_and_active_sessions_even_over_budget() {
    let now = 1_700_000_000 * SECOND;
    let candidates = vec![
        session_log("current", "current.log", 4, now, "current", &[]),
        // The active session's marker holds the id of a running process.
        session_log("active", "active.log", 4, now, "current", &[(parse_marker_pid("4242"), true)]),
    ];
    assert!(!candidates[0].eligible);
    assert!(!candidates[1].eligible);
    let policy = CleanupPolicy {
        retention_nanos: 0,
        max_bytes: 0,
    };
    let (removed, remaining) = run_cleanup(candidates, policy, now);
    assert!(removed.is_empty());
    assert_eq!(remaining, 8);
}

#[test]
fn cleanup_reclaims_session_with_dead_process_marker() {
    let now = 1_700_000_000 * SECOND;
    let marker_pid = parse_marker_pid(&u32::MAX.to_string());
    assert_eq!(marker_pid, Some(u32::MAX));
    // No process has id u32::MAX, so the marker is stale and is removed.
    assert_eq!(marker_step(marker_pid, false, true), MarkerStep::RemoveStaleMarker);
    let candidates = vec![session_log(
        "stale",
        "stale.log",
        4,
        now,
        "current",
        &[(marker_pid, false)],
    )];
    assert!(candidates[0].eligible);
    let policy = CleanupPolicy {
        retention_nanos: 0,
        max_bytes: 0,
    };
    let (removed, remaining) = run_cleanup(candidates, policy, now);
    assert_eq!(removed, vec!["stale.log"]);
    assert_eq!(remaining, 0);
}

#[test]
fn marker_steps_decide_activity() {
    assert_eq!(marker_step(Some(1), true, true), MarkerStep::SessionActive);
    assert_eq!(marker_step(Some(1), false, true), MarkerStep::RemoveStaleMarker);
    assert_eq!(marker_step(None, false, true), MarkerStep::RemoveStaleMarker);
    // Where dead processes cannot be told apart, any marker keeps the session.
    assert_eq!(marker_step(None, false, false), MarkerStep::SessionActive);
    assert_eq!(marker_step(Some(1), false, false), MarkerStep::SessionActive);
}

#[test]
fn session_eligibility_protects_current_and_live_sessions() {
    assert!(!session_eligible("current", "current", false));
    assert!(!session_eligible("other", "current", true));
    assert!(session_eligible("other", "current", false));
}

#[test]
fn cleanup_within_budget_removes_only_expired() {
    let now = 100 * SECOND;
    let candidates = vec![
        log("a", "a.log", 10, 10 * SECOND, true),
        log("b", "b.log", 10, 95 * SECOND, true),
    ];
    let policy = CleanupPolicy {
        retention_nanos: 50 * SECOND as u128,
        max_bytes: 1000,
    };
    let (removed, remaining) = run_cleanup(candidates, policy, now);
    assert_eq!(removed, vec!["a.log"]);
    assert_eq!(remaining, 10);
}

#[test]
fn budget_pass_breaks_ties_by_path_components() {
    let now = 100 * SECOND;
    // Same modification time: "a" sorts before "a-b" component-wise, although
    // the joined text "a-b/..." sorts before "a/...".
    let candidates = vec![
        log("a-b", "y.log", 5, 90 * SECOND, true),
        log("a", "x.log", 5, 90 * SECOND, true),
    ];
    let policy = CleanupPolicy {
        retention_nanos: 1000 * SECOND as u128,
        max_bytes: 5,
    };
    let (removed, remaining) = run_cleanup(candidates, policy, now);
    assert_eq!(removed, vec!["x.log"]);
    assert_eq!(remaining, 5);
}

#[test]
fn missing_file_is_not_counted_as_reclaimed() {
    let now = 100 * SECOND;
    let candidates = vec![
        log("a", "a.log", 10, 10 * SECOND, true),
        log("b", "b.log", 10, 20 * SECOND, true),
    ];
    let policy = CleanupPolicy {
        retention_nanos: 1000 * SECOND as u128,
        max_bytes: 10,
    };
    let mut run = CleanupRun::new(candidates, policy, now);
    let first = run.next_removal().expect("a removal");
    assert_eq!(run.candidate(first).path.last().unwrap(), "a.log");
    run.record_removal(false);
    assert_eq!(run.remaining_bytes(), 20);
    let second = run.next_removal().expect("another removal");
    assert_eq!(run.candidate(second).path.last().unwrap(), "b.log");
    run.record_removal(true);
    assert_eq!(run.remaining_bytes(), 10);
    assert_eq!(run.next_removal(), None);
    assert!(run.is_finished());
}

#[test]
fn default_policy_keeps_a_week_and_half_a_gibibyte() {
    let policy = CleanupPolicy::default();
    assert_eq!(policy.retention_nanos, 7 * 24 * 60 * 60 * 1_000_000_000);
    assert_eq!(policy.max_bytes, 512 * 1024 * 1024);
}

#[test]
fn total_bytes_detects_overflow() {
    let candidates = vec![log("a", "a.log", u64::MAX, 0, true), log("b", "b.log", 1, 0, true)];
    assert_eq!(total_bytes(&candidates), None);
    let candidates = vec![log("a", "a.log", 3, 0, true), log("b", "b.log", 4, 0, true)];
    assert_eq!(total_bytes(&candidates), Some(7));
}

#[test]
fn marker_pid_is_trimmed_and_parsed() {
    assert_eq!(parse_marker_pid("1234"), Some(1234));
    assert_eq!(parse_marker_pid("  42\n"), Some(42));
    assert_eq!(parse_marker_pid("+7"), Some(7));
    assert_eq!(parse_marker_pid("4294967295"), Some(u32::MAX));
    assert_eq!(parse_marker_pid("4294967296"), None);
    assert_eq!(parse_marker_pid("99999999999999999999"), None);
    assert_eq!(parse_marker_pid(""), None);
    assert_eq!(parse_marker_pid("+"), None);
    assert_eq!(parse_marker_pid("-1"), None);
    assert_eq!(parse_marker_pid("12a"), None);
    assert_eq!(parse_marker_pid("\u{a0}5\u{3000}"), Some(5));
}

#[test]
fn marker_and_log_names() {
    assert!(is_active_marker_name(&format!("call{ACTIVE_MARKER_SUFFIX}")));
    assert!(is_active_marker_name(".active"));
    assert!(!is_active_marker_name("call.log"));
    assert!(is_log_file_name("a.log"));
    assert!(!is_log_file_name(".log"));
    assert!(!is_log_file_name("a.logs"));
    assert!(!is_log_file_name("log"));
}

#[test]
fn spill_file_is_named_by_call_id_digest() {
    assert_eq!(
        spill_file_name("call/id"),
        "b2b495d015b844c1b6f08fc240afca67487009b1dea0a185fa53d965742f462c.log"
    );
    assert_ne!(spill_file_name("same-call"), spill_file_name("other-call"));
    assert_eq!(spill_file_name("same-call"), spill_file_name("same-call"));
}

#[test]
fn marker_written_with_a_process_id_reads_back() {
    let pid: u32 = 31337;
    assert_eq!(parse_marker_pid(&pid.to_string()), Some(pid));
    assert_eq!(parse_marker_pid(&u32::MAX.to_string()), Some(u32::MAX));
    assert_eq!(parse_marker_pid(&0u32.to_string()), Some(0));
}
