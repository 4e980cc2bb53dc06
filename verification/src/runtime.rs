//! Runtime provenance for `codex doctor`: the build provenance embedded at
//! compile time, its comparison with the current source tree (source
//! parity), the source fingerprint, and the install-context and search
//! checks.
use vstd::prelude::*;
use vstd::utf8::{decode_utf8, encode_utf8, valid_utf8};
use crate::hook_stream::{lossy_utf8, utf8_lossy};
use crate::doctor::{CheckStatus, CheckView, DoctorCheck, owned, string_views};
use crate::text::{
    chars_of, extend_chars, extend_str, hex_digits, is_lower_hex_digit, lemma_hex_digits_injective, lemma_hex_digits_shape,
    pow16,
    lines_of, push_hex_digits, str_eq, trim, trim_chars,
    string_of, text_lines, views,
};

verus! {

broadcast use vstd::string::group_string_axioms;

/// The provenance embedded in the binary when it was built. A value that was
/// not available at build time reads `unknown`.
pub struct BuildProvenance {
    pub commit: String,
    pub dirty: String,
    pub enhancement_revision: String,
    pub source_root: String,
    pub source_fingerprint: String,
}

/// The value, or `unknown` when it is missing.
pub open spec fn or_unknown(v: Option<Seq<char>>) -> Seq<char> {
    match v {
        Some(s) => s,
        None => "unknown"@,
    }
}

/// The view of an optional string slice.
pub open spec fn opt_str_view(v: Option<&str>) -> Option<Seq<char>> {
    match v {
        Some(s) => Some(s@),
        None => None,
    }
}

fn or_unknown_string(v: Option<&str>) -> (s: String)
    ensures
        s@ == or_unknown(opt_str_view(v)),
{
    match v {
        Some(value) => owned(value),
        None => owned("unknown"),
    }
}

impl BuildProvenance {
    /// The provenance from the compile-time values: the commit is
    /// `CODEX_BUILD_COMMIT`, else `GIT_COMMIT`; every missing value reads
    /// `unknown`.
    pub fn embedded(
        build_commit: Option<&str>,
        git_commit: Option<&str>,
        dirty: Option<&str>,
        enhancement_revision: Option<&str>,
        source_root: Option<&str>,
        source_fingerprint: Option<&str>,
    ) -> (build: BuildProvenance)
        ensures
            build.commit@ == or_unknown(
                if build_commit is Some {
                    opt_str_view(build_commit)
                } else {
                    opt_str_view(git_commit)
                },
            ),
            build.dirty@ == or_unknown(opt_str_view(dirty)),
            build.enhancement_revision@ == or_unknown(opt_str_view(enhancement_revision)),
            build.source_root@ == or_unknown(opt_str_view(source_root)),
            build.source_fingerprint@ == or_unknown(opt_str_view(source_fingerprint)),
    {
        let commit = match build_commit {
            Some(c) => Some(c),
            None => git_commit,
        };
        BuildProvenance {
            commit: or_unknown_string(commit),
            dirty: or_unknown_string(dirty),
            enhancement_revision: or_unknown_string(enhancement_revision),
            source_root: or_unknown_string(source_root),
            source_fingerprint: or_unknown_string(source_fingerprint),
        }
    }

    /// Whether the provenance names both a source root and a commit, so
    /// that the current source tree can be compared with it.
    pub fn is_verifiable(&self) -> (r: bool)
        ensures
            r == (self.source_root@ != "unknown"@ && self.commit@ != "unknown"@),
    {
        !str_eq(self.source_root.as_str(), "unknown") && !str_eq(self.commit.as_str(), "unknown")
    }
}

/// `parse_dirty`: `true` and `false` are read as such, anything else is unknown.
pub open spec fn spec_parse_dirty(value: Seq<char>) -> Option<bool> {
    if value == "true"@ {
        Some(true)
    } else if value == "false"@ {
        Some(false)
    } else {
        None
    }
}

/// `parse_dirty`.
pub fn parse_dirty(value: &str) -> (r: Option<bool>)
    ensures
        r == spec_parse_dirty(value@),
{
    if str_eq(value, "true") {
        Some(true)
    } else if str_eq(value, "false") {
        Some(false)
    } else {
        None
    }
}

/// What could be learned of the current source tree: its commit (`None` when
/// the tree is unavailable), the output of `git status` (`None` when it
/// failed), and its fingerprint (`None` when it could not be computed).
pub struct SourceObservation {
    pub commit: Option<String>,
    pub status: Option<String>,
    pub fingerprint: Option<String>,
}

/// The result of comparing the build provenance with the source tree.
pub struct SourceParity {
    pub status: CheckStatus,
    pub summary: String,
    pub details: Vec<String>,
}

/// What a [`SourceParity`] says, as plain values.
pub struct ParityView {
    pub status: CheckStatus,
    pub summary: Seq<char>,
    pub details: Seq<Seq<char>>,
}

impl View for SourceParity {
    type V = ParityView;

    open spec fn view(&self) -> ParityView {
        ParityView {
            status: self.status,
            summary: self.summary@,
            details: string_views(self.details@),
        }
    }
}

/// Whether the source tree is dirty, as far as `git status` tells.
pub open spec fn observed_dirty(status: Option<String>) -> Option<bool> {
    match status {
        Some(s) => Some(s@.len() > 0),
        None => None,
    }
}

/// Whether the source tree matches the build: same commit, same dirty
/// state, same fingerprint.
pub open spec fn parity_matches(build: BuildProvenance, commit: Seq<char>, observed: SourceObservation) -> bool {
    &&& commit == build.commit@
    &&& observed_dirty(observed.status) == spec_parse_dirty(build.dirty@)
    &&& observed.fingerprint matches Some(f) && f@ == build.source_fingerprint@
}

/// The text of a tri-state dirty flag.
pub open spec fn dirty_text(d: Option<bool>) -> Seq<char> {
    match d {
        Some(true) => "true"@,
        Some(false) => "false"@,
        None => "unknown"@,
    }
}

/// The text of `matched` or `mismatched`.
pub open spec fn match_text(m: bool) -> Seq<char> {
    if m {
        "matched"@
    } else {
        "mismatched"@
    }
}

/// What `source_parity` reports: unverifiable without build provenance
/// (a warning); `source unavailable` when the source tree cannot be read
/// (a pass); otherwise matched (a pass) or mismatched (a warning), with the
/// current commit, dirty state and fingerprint.
pub open spec fn spec_source_parity(build: BuildProvenance, observed: SourceObservation) -> ParityView {
    if build.source_root@ == "unknown"@ || build.commit@ == "unknown"@ {
        ParityView {
            status: CheckStatus::Warning,
            summary: "unverifiable"@,
            details: seq!["source parity: build provenance unavailable"@],
        }
    } else {
        match observed.commit {
            None => ParityView {
                status: CheckStatus::Pass,
                summary: "source unavailable"@,
                details: seq![
                    "source parity: source tree is unavailable; embedded provenance retained"@,
                ],
            },
            Some(c) => {
                let m = parity_matches(build, c@, observed);
                ParityView {
                    status: if m {
                        CheckStatus::Pass
                    } else {
                        CheckStatus::Warning
                    },
                    summary: match_text(m),
                    details: seq![
                        "current source commit: "@ + c@,
                        "current source dirty: "@ + dirty_text(observed_dirty(observed.status)),
                        "current source fingerprint: "@ + or_unknown(
                            match observed.fingerprint {
                                Some(f) => Some(f@),
                                None => None,
                            },
                        ),
                        "source parity: "@ + match_text(m),
                    ],
                }
            },
        }
    }
}

fn line_of(prefix: &str, value: &str) -> (s: String)
    ensures
        s@ == prefix@ + value@,
{
    let mut out = chars_of(prefix);
    extend_str(&mut out, value);
    string_of(&out)
}

fn single_line(line: &str) -> (v: Vec<String>)
    ensures
        string_views(v@) == seq![line@],
{
    let mut v: Vec<String> = Vec::new();
    v.push(owned(line));
    assert(string_views(v@) =~= seq![line@]);
    v
}

/// `source_parity`: compares the build provenance with what was observed of
/// the current source tree.
pub fn source_parity(build: &BuildProvenance, observed: &SourceObservation) -> (parity: SourceParity)
    ensures
        parity@ == spec_source_parity(*build, *observed),
{
    if !build.is_verifiable() {
        return SourceParity {
            status: CheckStatus::Warning,
            summary: owned("unverifiable"),
            details: single_line("source parity: build provenance unavailable"),
        };
    }
    let commit = match &observed.commit {
        None => {
            return SourceParity {
                status: CheckStatus::Pass,
                summary: owned("source unavailable"),
                details: single_line(
                    "source parity: source tree is unavailable; embedded provenance retained",
                ),
            };
        },
        Some(c) => c,
    };
    let dirty: Option<bool> = match &observed.status {
        Some(s) => Some(!s.as_str().is_empty()),
        None => None,
    };
    let fingerprint_matches = match &observed.fingerprint {
        Some(f) => str_eq(f.as_str(), build.source_fingerprint.as_str()),
        None => false,
    };
    let expected_dirty = parse_dirty(build.dirty.as_str());
    let dirty_matches = match (dirty, expected_dirty) {
        (Some(a), Some(b)) => a == b,
        (None, None) => true,
        _ => false,
    };
    let matches = str_eq(commit.as_str(), build.commit.as_str()) && dirty_matches
        && fingerprint_matches;
    let dirty_value = match dirty {
        Some(true) => "true",
        Some(false) => "false",
        None => "unknown",
    };
    let fingerprint_value = match &observed.fingerprint {
        Some(f) => f.as_str(),
        None => "unknown",
    };
    let verdict = if matches {
        "matched"
    } else {
        "mismatched"
    };
    let mut details: Vec<String> = Vec::new();
    details.push(line_of("current source commit: ", commit.as_str()));
    details.push(line_of("current source dirty: ", dirty_value));
    details.push(line_of("current source fingerprint: ", fingerprint_value));
    details.push(line_of("source parity: ", verdict));
    let parity = SourceParity {
        status: if matches {
            CheckStatus::Pass
        } else {
            CheckStatus::Warning
        },
        summary: owned(verdict),
        details,
    };
    assert(parity@.details =~= spec_source_parity(*build, *observed).details);
    parity
}

/// The FNV-1a offset basis.
pub open spec fn fnv_offset_basis() -> u64 {
    0xcbf29ce484222325
}

/// One FNV-1a step: the byte is XORed into the state, which is then
/// multiplied by the FNV prime modulo 2^64.
pub open spec fn fnv_step(hash: u64, byte: u8) -> u64 {
    (((hash ^ (byte as u64)) as nat * 0x100000001b3nat) % 0x1_0000_0000_0000_0000nat) as u64
}

/// The FNV-1a hash state after feeding `bytes` to state `hash`: each byte is
/// XORed into the state, which is then multiplied by the FNV prime modulo 2^64.
pub open spec fn spec_fnv1a(hash: u64, bytes: Seq<u8>) -> u64
    decreases bytes.len(),
{
    if bytes.len() == 0 {
        hash
    } else {
        spec_fnv1a(fnv_step(hash, bytes[0]), bytes.drop_first())
    }
}

/// Feeding two byte strings in turn is feeding their concatenation.
pub proof fn lemma_fnv1a_concat(hash: u64, a: Seq<u8>, b: Seq<u8>)
    ensures
        spec_fnv1a(spec_fnv1a(hash, a), b) == spec_fnv1a(hash, a + b),
    decreases a.len(),
{
    if a.len() > 0 {
        let next = fnv_step(hash, a[0]);
        lemma_fnv1a_concat(next, a.drop_first(), b);
        assert((a + b).drop_first() =~= a.drop_first() + b);
        assert((a + b)[0] == a[0]);
    } else {
        assert(a + b =~= b);
    }
}

/// `fnv1a`: feeds `bytes` to the FNV-1a hash state `hash`.
pub fn fnv1a(hash: u64, bytes: &[u8]) -> (r: u64)
    ensures
        r == spec_fnv1a(hash, bytes@),
{
    let mut h = hash;
    let n = bytes.len();
    assert(bytes@.skip(0) =~= bytes@);
    for i in 0..n
        invariant
            n == bytes@.len(),
            spec_fnv1a(h, bytes@.skip(i as int)) == spec_fnv1a(hash, bytes@),
    {
        proof {
            assert(bytes@.skip(i as int).drop_first() =~= bytes@.skip(i + 1));
            assert(bytes@.skip(i as int)[0] == bytes@[i as int]);
        }
        h = (h ^ (bytes[i] as u64)).wrapping_mul(0x100000001b3);
    }
    proof {
        assert(bytes@.skip(n as int) =~= Seq::<u8>::empty());
    }
    h
}

/// One file that git lists as untracked: its path and, when it could be
/// read, its contents.
pub struct UntrackedFile {
    pub path: String,
    pub contents: Option<Vec<u8>>,
}

/// The hash state after the untracked files: each path's bytes, then the
/// file's contents when it could be read.
pub open spec fn fingerprint_untracked(hash: u64, files: Seq<UntrackedFile>) -> u64
    decreases files.len(),
{
    if files.len() == 0 {
        hash
    } else {
        let h = spec_fnv1a(hash, encode_utf8(files[0].path@));
        let h = match files[0].contents {
            Some(c) => spec_fnv1a(h, c@),
            None => h,
        };
        fingerprint_untracked(h, files.drop_first())
    }
}

/// The source fingerprint: the FNV-1a hash of the `git status` output, the
/// diff against `HEAD`, and the untracked files, rendered as sixteen
/// lower-case hexadecimal digits.
pub open spec fn spec_source_fingerprint(status: Seq<u8>, diff: Seq<u8>, files: Seq<UntrackedFile>) -> Seq<
    char,
> {
    hex_digits(
        fingerprint_untracked(spec_fnv1a(spec_fnv1a(fnv_offset_basis(), status), diff), files)
            as nat,
        16,
    )
}

/// The bytes that one untracked file feeds to the fingerprint: its path,
/// then its contents when they could be read.
pub open spec fn untracked_file_bytes(f: UntrackedFile) -> Seq<u8> {
    encode_utf8(f.path@) + match f.contents {
        Some(c) => c@,
        None => Seq::<u8>::empty(),
    }
}

/// The hash state after the untracked files is the left fold over all of
/// them: no file leaves the state as it was, and each further file is fed
/// to the state that the files before it left.
pub proof fn lemma_fingerprint_folds_every_untracked_file(
    hash: u64,
    files: Seq<UntrackedFile>,
    next: UntrackedFile,
)
    ensures
        fingerprint_untracked(hash, Seq::<UntrackedFile>::empty()) == hash,
        fingerprint_untracked(hash, files.push(next)) == spec_fnv1a(
            fingerprint_untracked(hash, files),
            untracked_file_bytes(next),
        ),
    decreases files.len(),
{
    let ext = files.push(next);
    if files.len() == 0 {
        assert(ext[0] == next);
        assert(ext.drop_first() =~= Seq::<UntrackedFile>::empty());
        let path = encode_utf8(next.path@);
        let h = spec_fnv1a(hash, path);
        match next.contents {
            Some(c) => {
                lemma_fnv1a_concat(hash, path, c@);
                assert(untracked_file_bytes(next) == path + c@);
                let h2 = spec_fnv1a(h, c@);
                assert(fingerprint_untracked(h2, ext.drop_first()) == h2);
            },
            None => {
                assert(untracked_file_bytes(next) =~= path);
                assert(fingerprint_untracked(h, ext.drop_first()) == h);
            },
        }
        assert(files =~= Seq::<UntrackedFile>::empty());
    } else {
        assert(ext[0] == files[0]);
        assert(ext.drop_first() =~= files.drop_first().push(next));
        let h = spec_fnv1a(hash, encode_utf8(files[0].path@));
        let h = match files[0].contents {
            Some(c) => spec_fnv1a(h, c@),
            None => h,
        };
        lemma_fingerprint_folds_every_untracked_file(h, files.drop_first(), next);
    }
}

/// The hash state that the status and diff leave before the untracked
/// files.
pub open spec fn fingerprint_start(status: Seq<u8>, diff: Seq<u8>) -> u64 {
    spec_fnv1a(spec_fnv1a(fnv_offset_basis(), status), diff)
}

/// The status and the diff are fed to the hash as one stream, status first,
/// from the FNV-1a offset basis.
pub proof fn lemma_fingerprint_start_is_one_stream(status: Seq<u8>, diff: Seq<u8>)
    ensures
        fingerprint_start(status, diff) == spec_fnv1a(fnv_offset_basis(), status + diff),
{
    lemma_fnv1a_concat(fnv_offset_basis(), status, diff);
}

/// Two source trees with the same status and diff get the same fingerprint
/// exactly when their untracked files leave the hash in the same state; in
/// particular two trees that differ only in their last untracked file get
/// different fingerprints whenever FNV-1a tells that file's bytes apart.
pub proof fn lemma_fingerprint_tells_untracked_files_apart(
    status: Seq<u8>,
    diff: Seq<u8>,
    files: Seq<UntrackedFile>,
    other: Seq<UntrackedFile>,
    last: UntrackedFile,
    changed: UntrackedFile,
)
    ensures
        (spec_source_fingerprint(status, diff, files) == spec_source_fingerprint(
            status,
            diff,
            other,
        )) <==> (fingerprint_untracked(fingerprint_start(status, diff), files)
            == fingerprint_untracked(fingerprint_start(status, diff), other)),
        (spec_source_fingerprint(status, diff, files.push(last)) == spec_source_fingerprint(
            status,
            diff,
            files.push(changed),
        )) <==> (spec_fnv1a(
            fingerprint_untracked(fingerprint_start(status, diff), files),
            untracked_file_bytes(last),
        ) == spec_fnv1a(
            fingerprint_untracked(fingerprint_start(status, diff), files),
            untracked_file_bytes(changed),
        )),
{
    reveal_with_fuel(pow16, 17);
    assert(pow16(16) == 0x1_0000_0000_0000_0000nat);
    let start = fingerprint_start(status, diff);
    let a = fingerprint_untracked(start, files);
    let b = fingerprint_untracked(start, other);
    if hex_digits(a as nat, 16) == hex_digits(b as nat, 16) {
        lemma_hex_digits_injective(a as nat, b as nat, 16);
    }
    lemma_fingerprint_folds_every_untracked_file(start, files, last);
    lemma_fingerprint_folds_every_untracked_file(start, files, changed);
    let c = fingerprint_untracked(start, files.push(last));
    let d = fingerprint_untracked(start, files.push(changed));
    if hex_digits(c as nat, 16) == hex_digits(d as nat, 16) {
        lemma_hex_digits_injective(c as nat, d as nat, 16);
    }
}

/// The fingerprint of a source tree from its `git status` output, its diff
/// against `HEAD`, and its untracked files.
pub fn source_fingerprint_from(status: &str, diff: &str, files: &Vec<UntrackedFile>) -> (f: String)
    ensures
        f@ == spec_source_fingerprint(encode_utf8(status@), encode_utf8(diff@), files@),
        f@.len() == 16,
        forall|i: int| 0 <= i < 16 ==> is_lower_hex_digit(#[trigger] f@[i]),
{
    let mut hash = fnv1a(0xcbf29ce484222325, status.as_bytes());
    hash = fnv1a(hash, diff.as_bytes());
    let ghost start = hash;
    let n = files.len();
    assert(files@.skip(0) =~= files@);
    for i in 0..n
        invariant
            n == files@.len(),
            fingerprint_untracked(hash, files@.skip(i as int)) == fingerprint_untracked(
                start,
                files@,
            ),
    {
        proof {
            assert(files@.skip(i as int).drop_first() =~= files@.skip(i + 1));
            assert(files@.skip(i as int)[0] == files@[i as int]);
        }
        let file = &files[i];
        hash = fnv1a(hash, file.path.as_str().as_bytes());
        match &file.contents {
            Some(contents) => {
                hash = fnv1a(hash, contents.as_slice());
            },
            None => {},
        }
    }
    proof {
        assert(files@.skip(n as int) =~= Seq::<UntrackedFile>::empty());
        assert(files@.skip(0) =~= files@);
    }
    let mut out: Vec<char> = Vec::new();
    push_hex_digits(&mut out, hash, 16);
    assert(out@ =~= hex_digits(hash as nat, 16));
    proof {
        lemma_hex_digits_shape(hash as nat, 16);
    }
    string_of(&out)
}

/// The text of a git command's standard output: the bytes read as UTF-8
/// with invalid sequences replaced, then trimmed.
pub fn git_stdout_text(stdout: &[u8]) -> (t: String)
    ensures
        t@ == trim(lossy_utf8(stdout@)),
        valid_utf8(stdout@) ==> t@ == trim(decode_utf8(stdout@)),
{
    let text = utf8_lossy(stdout);
    let cs = chars_of(text.as_str());
    let trimmed = trim_chars(&cs);
    string_of(&trimmed)
}

/// The untracked paths in the output of `git ls-files --others`: one per line.
pub fn untracked_paths(listing: &str) -> (paths: Vec<String>)
    ensures
        string_views(paths@) == text_lines(listing@),
{
    let cs = chars_of(listing);
    let lines = lines_of(&cs);
    let mut paths: Vec<String> = Vec::new();
    let n = lines.len();
    for i in 0..n
        invariant
            n == lines@.len(),
            views(lines@) == text_lines(cs@),
            paths@.len() == i,
            forall|j: int| 0 <= j < i ==> paths@[j]@ == lines@[j]@,
    {
        paths.push(string_of(&lines[i]));
    }
    assert(string_views(paths@) =~= text_lines(listing@)) by {
        assert forall|j: int| 0 <= j < n implies string_views(paths@)[j] == text_lines(
            listing@,
        )[j] by {
            assert(views(lines@)[j] == lines@[j]@);
        }
    }
    paths
}

/// The way Codex was installed.
pub enum InstallMethod {
    /// The standalone installer, with its resources directory when known
    /// (as path components).
    Standalone { resources_dir: Option<Vec<String>> },
    Npm,
    Bun,
    Pnpm,
    Brew,
    Other,
}

/// The install context as far as the checks read it: the install method,
/// the `bin` directory of the package layout when there is one, and the
/// search command that the context selects. Paths are held as their
/// components.
pub struct InstallContext {
    pub method: InstallMethod,
    pub package_path_dir: Option<Vec<String>>,
    pub rg_command: Vec<String>,
}

/// The name of an install method.
pub open spec fn spec_install_method_name(method: InstallMethod) -> Seq<char> {
    match method {
        InstallMethod::Standalone { .. } => "standalone"@,
        InstallMethod::Npm => "npm"@,
        InstallMethod::Bun => "bun"@,
        InstallMethod::Pnpm => "pnpm"@,
        InstallMethod::Brew => "brew"@,
        InstallMethod::Other => "local build"@,
    }
}

/// `install_method_name`.
pub fn install_method_name(context: &InstallContext) -> (name: &'static str)
    ensures
        name@ == spec_install_method_name(context.method),
{
    match &context.method {
        InstallMethod::Standalone { .. } => "standalone",
        InstallMethod::Npm => "npm",
        InstallMethod::Bun => "bun",
        InstallMethod::Pnpm => "pnpm",
        InstallMethod::Brew => "brew",
        InstallMethod::Other => "local build",
    }
}

/// The component sequence of a path held as components.
pub open spec fn components(p: Vec<String>) -> Seq<Seq<char>> {
    string_views(p@)
}

/// `Path::starts_with`: whether `base` is a component-wise prefix of `path`.
pub open spec fn path_starts_with(path: Seq<Seq<char>>, base: Seq<Seq<char>>) -> bool {
    base.is_prefix_of(path)
}

/// `Path::starts_with` on paths held as components.
pub fn path_has_prefix(path: &Vec<String>, base: &Vec<String>) -> (r: bool)
    ensures
        r == path_starts_with(components(*path), components(*base)),
{
    if base.len() > path.len() {
        return false;
    }
    let n = base.len();
    for i in 0..n
        invariant
            n == base@.len(),
            n <= path@.len(),
            forall|j: int| 0 <= j < i ==> path@[j]@ == base@[j]@,
    {
        if !str_eq(path[i].as_str(), base[i].as_str()) {
            assert(components(*path)[i as int] == path@[i as int]@);
            assert(components(*base)[i as int] == base@[i as int]@);
            return false;
        }
    }
    assert(components(*base) =~= components(*path).subrange(0, n as int));
    true
}

/// Whether the search command comes from the Codex package: it lies in the
/// package layout's `bin` directory, or in the standalone installer's
/// resources directory.
pub open spec fn spec_search_is_bundled(context: InstallContext) -> bool {
    ||| (context.package_path_dir matches Some(dir) && path_starts_with(
        components(context.rg_command),
        components(dir),
    ))
    ||| (context.method matches InstallMethod::Standalone { resources_dir: Some(dir) }
        && path_starts_with(components(context.rg_command), components(dir)))
}

/// `search_provider`: `bundled` or `system`.
pub fn search_provider(context: &InstallContext) -> (provider: &'static str)
    ensures
        provider@ == (if spec_search_is_bundled(*context) {
            "bundled"@
        } else {
            "system"@
        }),
{
    let from_package_layout = match &context.package_path_dir {
        Some(dir) => path_has_prefix(&context.rg_command, dir),
        None => false,
    };
    let from_legacy_standalone = match &context.method {
        InstallMethod::Standalone { resources_dir: Some(dir) } => path_has_prefix(
            &context.rg_command,
            dir,
        ),
        _ => false,
    };
    if from_package_layout || from_legacy_standalone {
        "bundled"
    } else {
        "system"
    }
}

/// Whether the search command is a path (more than one component), to be
/// checked on disk, rather than a name resolved through `PATH`, to be run.
pub fn search_command_is_path(context: &InstallContext) -> (r: bool)
    ensures
        r == (context.rg_command@.len() > 1),
{
    context.rg_command.len() > 1
}

/// What probing the search command found.
pub enum SearchReadiness {
    /// The command path names a file.
    FileExists,
    /// The command path exists but is not a file.
    NotAFile,
    /// Reading the path's metadata failed with this error.
    MetadataError(String),
    /// `rg --version` succeeded with this standard output.
    Version(Vec<u8>),
    /// `rg --version` exited unsuccessfully with this status.
    ExitedWith(String),
    /// `rg --version` could not be run.
    SpawnError(String),
}

/// Whether the probe found the search command usable.
pub open spec fn readiness_ok(r: SearchReadiness) -> bool {
    r is FileExists || r is Version
}

/// The first line of `rg --version`, or `rg version unknown` when there is none.
pub open spec fn version_line(stdout: Seq<char>) -> Seq<char> {
    if text_lines(stdout).len() > 0 {
        text_lines(stdout)[0]
    } else {
        "rg version unknown"@
    }
}

/// The readiness detail line for a probe result.
pub open spec fn readiness_detail(r: SearchReadiness) -> Seq<char> {
    "search command readiness: "@ + match r {
        SearchReadiness::FileExists => "file exists"@,
        SearchReadiness::NotAFile => "path is not a file"@,
        SearchReadiness::MetadataError(e) => e@,
        SearchReadiness::Version(out) => version_line(lossy_utf8(out@)),
        SearchReadiness::ExitedWith(status) => "exited with status "@ + status@,
        SearchReadiness::SpawnError(e) => e@,
    }
}

/// The search check: passes when the search command was found usable,
/// warns otherwise and then asks to install ripgrep or repair the package.
pub open spec fn search_check_view(command: Seq<char>, provider: Seq<char>, r: SearchReadiness) -> CheckView {
    CheckView {
        id: "runtime.search"@,
        category: "search"@,
        status: if readiness_ok(r) {
            CheckStatus::Pass
        } else {
            CheckStatus::Warning
        },
        summary: if readiness_ok(r) {
            "search is OK ("@ + provider + ")"@
        } else {
            "search command could not be verified"@
        },
        details: seq![
            "search command: "@ + command,
            "search provider: "@ + provider,
            readiness_detail(r),
        ],
        issues: seq![],
        remediation: if readiness_ok(r) {
            None
        } else {
            Some("Install ripgrep or repair the bundled Codex package."@)
        },
    }
}

/// The search check for the displayed search command, its provider and
/// what probing it found.
pub fn search_check_report(command: &str, provider: &str, readiness: &SearchReadiness) -> (check:
    DoctorCheck)
    ensures
        check@ == search_check_view(command@, provider@, *readiness),
{
    let mut details: Vec<String> = Vec::new();
    details.push(line_of("search command: ", command));
    details.push(line_of("search provider: ", provider));
    let mut readiness_line = chars_of("search command readiness: ");
    let ok = match readiness {
        SearchReadiness::FileExists => {
            extend_str(&mut readiness_line, "file exists");
            true
        },
        SearchReadiness::NotAFile => {
            extend_str(&mut readiness_line, "path is not a file");
            false
        },
        SearchReadiness::MetadataError(e) => {
            extend_str(&mut readiness_line, e.as_str());
            false
        },
        SearchReadiness::Version(out) => {
            let text = utf8_lossy(out.as_slice());
            let cs = chars_of(text.as_str());
            let lines = lines_of(&cs);
            if lines.len() > 0 {
                assert(views(lines@)[0] == lines@[0]@);
                extend_chars(&mut readiness_line, &lines[0]);
            } else {
                extend_str(&mut readiness_line, "rg version unknown");
            }
            true
        },
        SearchReadiness::ExitedWith(status) => {
            extend_str(&mut readiness_line, "exited with status ");
            extend_str(&mut readiness_line, status.as_str());
            false
        },
        SearchReadiness::SpawnError(e) => {
            extend_str(&mut readiness_line, e.as_str());
            false
        },
    };
    assert(readiness_line@ == readiness_detail(*readiness));
    assert(ok == readiness_ok(*readiness));
    details.push(string_of(&readiness_line));
    assert(string_views(details@) =~= search_check_view(command@, provider@, *readiness).details);
    if ok {
        let mut summary = chars_of("search is OK (");
        extend_str(&mut summary, provider);
        extend_str(&mut summary, ")");
        let summary = string_of(&summary);
        DoctorCheck::new("runtime.search", "search", CheckStatus::Pass, summary.as_str()).details(
            details,
        )
    } else {
        DoctorCheck::new(
            "runtime.search",
            "search",
            CheckStatus::Warning,
            "search command could not be verified",
        ).details(details).remediation("Install ripgrep or repair the bundled Codex package.")
    }
}

/// What the runtime check reports besides the parity details.
pub struct RuntimeFacts {
    /// The Codex CLI version.
    pub version: String,
    /// The upstream package version.
    pub upstream_version: String,
    /// `os-arch`.
    pub platform: String,
    /// The description of the install context.
    pub install_description: String,
    /// The detail lines about the current executable.
    pub executable_details: Vec<String>,
}

/// The first detail lines of the runtime check.
pub open spec fn runtime_head_details(facts: RuntimeFacts, build: BuildProvenance) -> Seq<Seq<char>> {
    seq![
        "version: "@ + facts.version@,
        "upstream version: "@ + facts.upstream_version@,
        "enhancement revision: "@ + build.enhancement_revision@,
        "platform: "@ + facts.platform@,
        "install method: "@ + facts.install_description@,
        "build commit: "@ + build.commit@,
        "build source dirty: "@ + build.dirty@,
        "build source fingerprint: "@ + build.source_fingerprint@,
        "build source root: "@ + build.source_root@,
    ]
}

/// The runtime provenance check: its status is that of source parity; it
/// names the install method, the platform and the parity summary; a
/// warning asks to rebuild and reinstall.
pub open spec fn runtime_check_view(
    facts: RuntimeFacts,
    context: InstallContext,
    build: BuildProvenance,
    parity: ParityView,
) -> CheckView {
    CheckView {
        id: "runtime.provenance"@,
        category: "runtime"@,
        status: parity.status,
        summary: "running "@ + spec_install_method_name(context.method) + " on "@ + facts.platform@
            + "; source parity "@ + parity.summary,
        details: runtime_head_details(facts, build) + parity.details + string_views(
            facts.executable_details@,
        ),
        issues: seq![],
        remediation: if parity.status == CheckStatus::Warning {
            Some("Rebuild and atomically reinstall codex-enhanced from the current source tree."@)
        } else {
            None
        },
    }
}

fn append_strings(dst: &mut Vec<String>, src: Vec<String>)
    ensures
        string_views(final(dst)@) == string_views(old(dst)@) + string_views(src@),
{
    let ghost start = string_views(dst@);
    let mut src = src;
    let ghost srcv = string_views(src@);
    dst.append(&mut src);
    assert(string_views(dst@) =~= start + srcv);
}

/// The runtime provenance check from the facts gathered about the running
/// process, its install context, its build provenance and source parity.
pub fn runtime_check_report(
    facts: RuntimeFacts,
    context: &InstallContext,
    build: &BuildProvenance,
    parity: SourceParity,
) -> (check: DoctorCheck)
    ensures
        check@ == runtime_check_view(facts, *context, *build, parity@),
{
    let ghost parity_view = parity@;
    let ghost facts_view = facts;
    let install_method = install_method_name(context);
    let mut details: Vec<String> = Vec::new();
    details.push(line_of("version: ", facts.version.as_str()));
    details.push(line_of("upstream version: ", facts.upstream_version.as_str()));
    details.push(line_of("enhancement revision: ", build.enhancement_revision.as_str()));
    details.push(line_of("platform: ", facts.platform.as_str()));
    details.push(line_of("install method: ", facts.install_description.as_str()));
    details.push(line_of("build commit: ", build.commit.as_str()));
    details.push(line_of("build source dirty: ", build.dirty.as_str()));
    details.push(line_of("build source fingerprint: ", build.source_fingerprint.as_str()));
    details.push(line_of("build source root: ", build.source_root.as_str()));
    assert(string_views(details@) =~= runtime_head_details(facts, *build));
    let mut summary = chars_of("running ");
    extend_str(&mut summary, install_method);
    extend_str(&mut summary, " on ");
    extend_str(&mut summary, facts.platform.as_str());
    extend_str(&mut summary, "; source parity ");
    extend_str(&mut summary, parity.summary.as_str());
    let summary = string_of(&summary);
    let status = parity.status;
    append_strings(&mut details, parity.details);
    append_strings(&mut details, facts.executable_details);
    let check = DoctorCheck::new("runtime.provenance", "runtime", status, summary.as_str()).details(
        details,
    );
    if status == CheckStatus::Warning {
        check.remediation(
            "Rebuild and atomically reinstall codex-enhanced from the current source tree.",
        )
    } else {
        check
    }
}

/// With verifiable provenance and a readable source tree, parity is matched,
/// a pass, exactly when the tree is at the build's commit, in the build's
/// dirty state, and has the build's fingerprint; anything else, a missing
/// fingerprint among it, is mismatched, a warning. The verdict is the last
/// detail line.
pub proof fn lemma_parity_matches_only_the_build_tree(
    build: BuildProvenance,
    observed: SourceObservation,
)
    requires
        build.source_root@ != "unknown"@,
        build.commit@ != "unknown"@,
        observed.commit is Some,
    ensures
        ({
            let p = spec_source_parity(build, observed);
            let same = observed.commit->Some_0@ == build.commit@ && observed_dirty(
                observed.status,
            ) == spec_parse_dirty(build.dirty@) && observed.fingerprint is Some
                && observed.fingerprint->Some_0@ == build.source_fingerprint@;
            &&& (p.status == CheckStatus::Pass) <==> same
            &&& (p.status == CheckStatus::Warning) <==> !same
            &&& p.summary == (if same {
                "matched"@
            } else {
                "mismatched"@
            })
            &&& p.details.len() == 4
            &&& p.details[0] == "current source commit: "@ + observed.commit->Some_0@
            &&& p.details[3] == "source parity: "@ + p.summary
        }),
        observed.fingerprint is None ==> spec_source_parity(build, observed).status
            == CheckStatus::Warning,
{
}

/// Without build provenance (an `unknown` source root or commit) parity
/// cannot be verified, a warning; with it, an unreadable source tree is
/// reported as unavailable, a pass, and the embedded provenance is kept.
pub proof fn lemma_parity_without_comparison(build: BuildProvenance, observed: SourceObservation)
    ensures
        (build.source_root@ == "unknown"@ || build.commit@ == "unknown"@) ==> {
            let p = spec_source_parity(build, observed);
            &&& p.status == CheckStatus::Warning
            &&& p.summary == "unverifiable"@
        },
        (build.source_root@ != "unknown"@ && build.commit@ != "unknown"@ && observed.commit is None)
            ==> {
            let p = spec_source_parity(build, observed);
            &&& p.status == CheckStatus::Pass
            &&& p.summary == "source unavailable"@
        },
{
}

/// The search check passes only when the probe found the command usable:
/// the path names a file, or `--version` succeeded. Any other probe result,
/// a command that could not be run among them, warns that the command could
/// not be verified and asks to install ripgrep or repair the package.
pub proof fn lemma_search_passes_only_when_usable(
    command: Seq<char>,
    provider: Seq<char>,
    r: SearchReadiness,
)
    ensures
        (search_check_view(command, provider, r).status == CheckStatus::Pass) <==> (
        r is FileExists || r is Version),
        !(r is FileExists || r is Version) ==> {
            let v = search_check_view(command, provider, r);
            &&& v.status == CheckStatus::Warning
            &&& v.summary == "search command could not be verified"@
            &&& v.remediation == Some(
                "Install ripgrep or repair the bundled Codex package."@,
            )
        },
        (r is FileExists || r is Version) ==> search_check_view(command, provider, r).remediation
            is None,
        r is SpawnError ==> search_check_view(command, provider, r).details[2]
            == "search command readiness: "@ + r->SpawnError_0@,
{
}

} // verus!
