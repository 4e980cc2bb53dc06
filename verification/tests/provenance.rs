use codex_enhanced::doctor::CheckStatus;
use codex_enhanced::runtime::{
    fnv1a, git_stdout_text, install_method_name, parse_dirty, runtime_check_report, search_check_report,
    search_command_is_path, search_provider, source_fingerprint_from, source_parity,
    untracked_paths, BuildProvenance, InstallContext, InstallMethod, RuntimeFacts,
    SearchReadiness, SourceObservation, UntrackedFile,
};

fn components(path: &str) -> Vec<String> {
    let mut parts = vec!["/".to_string()];
    parts.extend(path.split('/').filter(|p| !p.is_empty()).map(|p| p.to_string()));
    parts
}

fn build(fingerprint: &str) -> BuildProvenance {
    BuildProvenance::embedded(
        Some("abc123"),
        None,
        Some("false"),
        Some("test"),
        Some("/src"),
        Some(fingerprint),
    )
}

#[test]
fn source_parity_detects_matching_and_changed_source() {
    let build = build("00000000000000ff");
    let matched = source_parity(
        &build,
        &SourceObservation {
            commit: Some("abc123".to_string()),
            status: Some(String::new()),
            fingerprint: Some("00000000000000ff".to_string()),
        },
    );
    assert_eq!(matched.status, CheckStatus::Pass);
    assert_eq!(matched.summary, "matched");
    assert_eq!(
        matched.details,
        vec![
            "current source commit: abc123",
            "current source dirty: false",
            "current source fingerprint: 00000000000000ff",
            "source parity: matched",
        ]
    );

    let mismatched = source_parity(
        &build,
        &SourceObservation {
            commit: Some("abc123".to_string()),
            status: Some(" M tracked.txt\n".to_string()),
            fingerprint: Some("1111111111111111".to_string()),
        },
    );
    assert_eq!(mismatched.status, CheckStatus::Warning);
    assert_eq!(mismatched.summary, "mismatched");
    assert_eq!(mismatched.details[1], "current source dirty: true");
}

#[test]
fn source_parity_without_provenance_or_source() {
    let unknown = BuildProvenance::embedded(None, None, None, None, None, None);
    assert_eq!(unknown.commit, "unknown");
    let parity = source_parity(
        &unknown,
        &SourceObservation { commit: None, status: None, fingerprint: None },
    );
    assert_eq!(parity.status, CheckStatus::Warning);
    assert_eq!(parity.summary, "unverifiable");
    assert_eq!(parity.details, vec!["source parity: build provenance unavailable"]);

    let parity = source_parity(
        &build("f"),
        &SourceObservation { commit: None, status: None, fingerprint: None },
    );
    assert_eq!(parity.status, CheckStatus::Pass);
    assert_eq!(parity.summary, "source unavailable");

    let parity = source_parity(
        &build("f"),
        &SourceObservation { commit: Some("abc123".to_string()), status: None, fingerprint: None },
    );
    assert_eq!(parity.status, CheckStatus::Warning);
    assert_eq!(parity.details[1], "current source dirty: unknown");
    assert_eq!(parity.details[2], "current source fingerprint: unknown");
}

#[test]
fn embedded_provenance_falls_back_to_git_commit() {
    let b = BuildProvenance::embedded(None, Some("fedcba"), None, None, None, None);
    assert_eq!(b.commit, "fedcba");
    assert_eq!(b.dirty, "unknown");
    assert!(!b.is_verifiable());
    assert!(build("x").is_verifiable());
}

#[test]
fn dirty_flags_parse() {
    assert_eq!(parse_dirty("true"), Some(true));
    assert_eq!(parse_dirty("false"), Some(false));
    assert_eq!(parse_dirty("unknown"), None);
    assert_eq!(parse_dirty("True"), None);
}

#[test]
fn fnv1a_matches_reference_values() {
    assert_eq!(fnv1a(0xcbf29ce484222325, b""), 0xcbf29ce484222325);
    assert_eq!(fnv1a(0xcbf29ce484222325, b"a"), 0xaf63dc4c8601ec8c);
    assert_eq!(
        fnv1a(fnv1a(0xcbf29ce484222325, b"ab"), b"c"),
        fnv1a(0xcbf29ce484222325, b"abc")
    );
}

#[test]
fn fingerprint_hashes_status_diff_and_untracked_files() {
    let files = vec![UntrackedFile {
        path: "new.txt".to_string(),
        contents: Some(b"hello".to_vec()),
    }];
    assert_eq!(
        source_fingerprint_from(" M tracked.txt\n", "diff", &files),
        "6677113335021173"
    );
    assert_eq!(source_fingerprint_from("", "", &Vec::new()), "cbf29ce484222325");
}

#[test]
fn untracked_listing_is_split_into_lines() {
    assert_eq!(untracked_paths("a.txt\nb/c.txt\n"), vec!["a.txt", "b/c.txt"]);
    assert!(untracked_paths("").is_empty());
}

#[test]
fn install_methods_have_names() {
    let ctx = |method| InstallContext {
        method,
        package_path_dir: None,
        rg_command: vec!["rg".to_string()],
    };
    assert_eq!(install_method_name(&ctx(InstallMethod::Npm)), "npm");
    assert_eq!(install_method_name(&ctx(InstallMethod::Bun)), "bun");
    assert_eq!(install_method_name(&ctx(InstallMethod::Pnpm)), "pnpm");
    assert_eq!(install_method_name(&ctx(InstallMethod::Brew)), "brew");
    assert_eq!(install_method_name(&ctx(InstallMethod::Other)), "local build");
    assert_eq!(
        install_method_name(&ctx(InstallMethod::Standalone { resources_dir: None })),
        "standalone"
    );
}

#[test]
fn search_provider_is_bundled_inside_the_package() {
    let packaged = InstallContext {
        method: InstallMethod::Npm,
        package_path_dir: Some(components("/opt/codex/path")),
        rg_command: components("/opt/codex/path/rg"),
    };
    assert_eq!(search_provider(&packaged), "bundled");
    assert!(search_command_is_path(&packaged));

    let standalone = InstallContext {
        method: InstallMethod::Standalone {
            resources_dir: Some(components("/home/u/.codex/resources")),
        },
        package_path_dir: None,
        rg_command: components("/home/u/.codex/resources/rg"),
    };
    assert_eq!(search_provider(&standalone), "bundled");

    let system = InstallContext {
        method: InstallMethod::Other,
        package_path_dir: Some(components("/opt/codex/path")),
        rg_command: vec!["rg".to_string()],
    };
    assert_eq!(search_provider(&system), "system");
    assert!(!search_command_is_path(&system));

    // A sibling directory sharing a text prefix is not inside the package.
    let sibling = InstallContext {
        method: InstallMethod::Npm,
        package_path_dir: Some(components("/opt/codex/path")),
        rg_command: components("/opt/codex/path2/rg"),
    };
    assert_eq!(search_provider(&sibling), "system");
}

#[test]
fn search_check_reports_readiness() {
    let ok = search_check_report(
        "rg",
        "system",
        &SearchReadiness::Version(b"ripgrep 14.1.0\nfeatures\n".to_vec()),
    );
    assert_eq!(ok.status, CheckStatus::Pass);
    assert_eq!(ok.summary, "search is OK (system)");
    assert_eq!(
        ok.details,
        vec![
            "search command: rg",
            "search provider: system",
            "search command readiness: ripgrep 14.1.0",
        ]
    );
    assert_eq!(ok.remediation, None);

    let empty = search_check_report("rg", "system", &SearchReadiness::Version(Vec::new()));
    assert_eq!(empty.details[2], "search command readiness: rg version unknown");

    let missing = search_check_report(
        "/opt/rg",
        "bundled",
        &SearchReadiness::MetadataError("No such file or directory (os error 2)".to_string()),
    );
    assert_eq!(missing.status, CheckStatus::Warning);
    assert_eq!(missing.summary, "search command could not be verified");
    assert_eq!(
        missing.details[2],
        "search command readiness: No such file or directory (os error 2)"
    );
    assert_eq!(
        missing.remediation.as_deref(),
        Some("Install ripgrep or repair the bundled Codex package.")
    );

    let exited = search_check_report(
        "rg",
        "system",
        &SearchReadiness::ExitedWith("exit status: 2".to_string()),
    );
    assert_eq!(exited.details[2], "search command readiness: exited with status exit status: 2");
    let dir = search_check_report("/opt/rg", "bundled", &SearchReadiness::NotAFile);
    assert_eq!(dir.details[2], "search command readiness: path is not a file");
    let file = search_check_report("/opt/rg", "bundled", &SearchReadiness::FileExists);
    assert_eq!(file.status, CheckStatus::Pass);
}

#[test]
fn runtime_check_reports_provenance_and_parity() {
    let build = build("f");
    let parity = source_parity(
        &build,
        &SourceObservation { commit: Some("other".to_string()), status: None, fingerprint: None },
    );
    let context = InstallContext {
        method: InstallMethod::Brew,
        package_path_dir: None,
        rg_command: vec!["rg".to_string()],
    };
    let check = runtime_check_report(
        RuntimeFacts {
            version: "0.146.0-enhanced".to_string(),
            upstream_version: "0.146.0".to_string(),
            platform: "linux-x86_64".to_string(),
            install_description: "brew".to_string(),
            executable_details: vec!["current executable: /usr/bin/codex".to_string()],
        },
        &context,
        &build,
        parity,
    );
    assert_eq!(check.id, "runtime.provenance");
    assert_eq!(check.status, CheckStatus::Warning);
    assert_eq!(check.summary, "running brew on linux-x86_64; source parity mismatched");
    assert_eq!(check.details[0], "version: 0.146.0-enhanced");
    assert_eq!(check.details[5], "build commit: abc123");
    assert_eq!(check.details[9], "current source commit: other");
    assert_eq!(check.details.last().unwrap(), "current executable: /usr/bin/codex");
    assert_eq!(check.details.len(), 14);
    assert_eq!(
        check.remediation.as_deref(),
        Some("Rebuild and atomically reinstall codex-enhanced from the current source tree.")
    );
}

#[test]
fn git_output_is_decoded_and_trimmed() {
    assert_eq!(git_stdout_text(b"abc123\n"), "abc123");
    assert_eq!(git_stdout_text(b"  M a.txt\n?? b\n"), "M a.txt\n?? b");
    assert_eq!(git_stdout_text(b"x\xffy\n"), "x\u{fffd}y");
    assert_eq!(git_stdout_text(b""), "");
}

#[test]
fn fingerprint_is_sixteen_lower_hex_digits() {
    let files = vec![UntrackedFile { path: "a".to_string(), contents: None }];
    let f = source_fingerprint_from("status", "diff", &files);
    assert_eq!(f.len(), 16);
    assert!(f.chars().all(|c| c.is_ascii_digit() || ('a'..='f').contains(&c)));
    assert_eq!(f, source_fingerprint_from("status", "diff", &files));
}
