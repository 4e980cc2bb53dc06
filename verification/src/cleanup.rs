//! Bounded retention of spilled command output.
//!
//! A cleanup run goes over the spilled log files in two passes. First every
//! eligible file (not in the current session, not in a session with a live
//! marker) that is older than the retention window is removed. Then, while
//! the remaining files take more than the byte budget, eligible files are
//! removed oldest first (ties broken by path). The file-system work is done
//! by the caller: [`CleanupRun::next_removal`] says which file to remove next,
//! and [`CleanupRun::record_removal`] is told whether it was removed.
use vstd::prelude::*;
use crate::text::{
    chars_of, decimal, str_eq, digit_char, has_str_prefix_at, is_whitespace, trim, trim_chars, trim_end,
    trim_start,
};

verus! {

broadcast use vstd::string::group_string_axioms;

/// The suffix of the file that marks a session as active.
pub open spec fn active_marker_suffix() -> Seq<char> {
    ".active"@
}

/// How long spilled output is kept and how many bytes of it may remain.
#[derive(Clone, Copy, Debug)]
pub struct CleanupPolicy {
    /// The retention window, in nanoseconds.
    pub retention_nanos: u128,
    /// The byte budget for all spilled output.
    pub max_bytes: u64,
}

impl Default for CleanupPolicy {
    /// Seven days of retention and a budget of 512 MiB.
    fn default() -> (policy: Self)
        ensures
            policy.retention_nanos == 7 * 24 * 60 * 60 * 1_000_000_000,
            policy.max_bytes == 512 * 1024 * 1024,
    {
        CleanupPolicy { retention_nanos: 604_800_000_000_000, max_bytes: 536_870_912 }
    }
}

/// One spilled log file: its path (as components), its modification time
/// (nanoseconds since the Unix epoch), its size, and whether it may be
/// removed at all.
#[derive(Debug)]
pub struct Candidate {
    pub path: Vec<String>,
    pub modified_nanos: i128,
    pub bytes: u64,
    pub eligible: bool,
}

/// Whether the files of a session may be removed: the session is not the
/// current (protected) one and has no live active marker.
pub open spec fn spec_session_eligible(
    session_name: Seq<char>,
    protected_session: Seq<char>,
    live_marker: bool,
) -> bool {
    session_name != protected_session && !live_marker
}

/// Whether the files of session `session_name` may be removed, when
/// `protected_session` is the current session and `live_marker` tells
/// whether the session has a live active marker.
pub fn session_eligible(session_name: &str, protected_session: &str, live_marker: bool) -> (e: bool)
    ensures
        e == spec_session_eligible(session_name@, protected_session@, live_marker),
{
    !str_eq(session_name, protected_session) && !live_marker
}

/// What one active marker of a session means.
#[derive(Clone, Copy, Debug, PartialEq, Eq, Structural)]
pub enum MarkerStep {
    /// The session is active: its files are kept.
    SessionActive,
    /// The marker is stale: it is removed and the next marker is looked at.
    RemoveStaleMarker,
}

/// What an active marker holding `pid` (if it could be read as one) means,
/// with `pid_alive` telling whether that process runs and `reclaims_stale`
/// whether the platform can tell dead processes (Linux): a marker of a live
/// process keeps the session active; without a way to tell, any marker
/// does; otherwise the marker is stale.
pub open spec fn spec_marker_step(pid: Option<u32>, pid_alive: bool, reclaims_stale: bool) -> MarkerStep {
    if pid is Some && pid_alive {
        MarkerStep::SessionActive
    } else if !reclaims_stale {
        MarkerStep::SessionActive
    } else {
        MarkerStep::RemoveStaleMarker
    }
}

/// `session_is_active`'s decision for one marker.
pub fn marker_step(pid: Option<u32>, pid_alive: bool, reclaims_stale: bool) -> (s: MarkerStep)
    ensures
        s == spec_marker_step(pid, pid_alive, reclaims_stale),
{
    if pid.is_some() && pid_alive {
        MarkerStep::SessionActive
    } else if !reclaims_stale {
        MarkerStep::SessionActive
    } else {
        MarkerStep::RemoveStaleMarker
    }
}

impl Candidate {
    /// A log file of session `session_name`, eligible for removal exactly
    /// when [`session_eligible`] says so.
    pub fn for_session(
        path: Vec<String>,
        modified_nanos: i128,
        bytes: u64,
        session_name: &str,
        protected_session: &str,
        live_marker: bool,
    ) -> (c: Candidate)
        ensures
            c.path == path,
            c.modified_nanos == modified_nanos,
            c.bytes == bytes,
            c.eligible == spec_session_eligible(session_name@, protected_session@, live_marker),
    {
        Candidate {
            path,
            modified_nanos,
            bytes,
            eligible: session_eligible(session_name, protected_session, live_marker),
        }
    }
}

/// The components of a candidate's path.
pub open spec fn path_view(c: Candidate) -> Seq<Seq<char>> {
    c.path@.map_values(|s: String| s@)
}

/// Whether a file modified at `modified` is at least `retention` old at `now`.
pub open spec fn is_expired(modified: i128, retention: u128, now: i128) -> bool {
    now - modified >= retention
}

/// Three-way comparison of two strings by their characters.
pub open spec fn compare_chars(a: Seq<char>, b: Seq<char>) -> int
    decreases a.len(),
{
    if a.len() == 0 {
        if b.len() == 0 {
            0
        } else {
            -1
        }
    } else if b.len() == 0 {
        1
    } else if (a[0] as u32) < (b[0] as u32) {
        -1
    } else if (a[0] as u32) > (b[0] as u32) {
        1
    } else {
        compare_chars(a.drop_first(), b.drop_first())
    }
}

/// Three-way comparison of two paths component by component (`Path::cmp`).
pub open spec fn compare_paths(a: Seq<Seq<char>>, b: Seq<Seq<char>>) -> int
    decreases a.len(),
{
    if a.len() == 0 {
        if b.len() == 0 {
            0
        } else {
            -1
        }
    } else if b.len() == 0 {
        1
    } else if compare_chars(a[0], b[0]) != 0 {
        compare_chars(a[0], b[0])
    } else {
        compare_paths(a.drop_first(), b.drop_first())
    }
}

/// Whether candidate `a` (at position `ia`) comes before candidate `b` (at
/// position `ib`) in the budget pass: older first, then by path, then by
/// position.
pub open spec fn comes_before(a: Candidate, ia: int, b: Candidate, ib: int) -> bool {
    ||| a.modified_nanos < b.modified_nanos
    ||| (a.modified_nanos == b.modified_nanos && compare_paths(path_view(a), path_view(b)) < 0)
    ||| (a.modified_nanos == b.modified_nanos && compare_paths(path_view(a), path_view(b)) == 0
        && ia < ib)
}

/// The sum of the sizes of the candidates.
pub open spec fn sum_bytes(cands: Seq<Candidate>) -> nat
    decreases cands.len(),
{
    if cands.len() == 0 {
        0
    } else {
        cands[0].bytes as nat + sum_bytes(cands.drop_first())
    }
}

/// The state of a cleanup run.
pub struct CleanupRun {
    candidates: Vec<Candidate>,
    policy: CleanupPolicy,
    now_nanos: i128,
    total_bytes: u64,
    expired_next: usize,
    visited: Vec<bool>,
    pending: Option<usize>,
    finished: bool,
}

/// The state of a cleanup run, as plain values.
pub struct CleanupState {
    /// The candidates; a removed one has size 0.
    pub candidates: Seq<Candidate>,
    pub policy: CleanupPolicy,
    pub now_nanos: i128,
    /// The bytes that the run counts as remaining.
    pub total_bytes: u64,
    /// The position from which the expiry pass goes on; the number of
    /// candidates once that pass is over.
    pub expired_next: nat,
    /// The candidates that the budget pass has handed out.
    pub visited: Seq<bool>,
    /// The candidate handed out and not yet reported on.
    pub pending: Option<nat>,
    /// Whether the run is over.
    pub finished: bool,
}

impl View for CleanupRun {
    type V = CleanupState;

    closed spec fn view(&self) -> CleanupState {
        CleanupState {
            candidates: self.candidates@,
            policy: self.policy,
            now_nanos: self.now_nanos,
            total_bytes: self.total_bytes,
            expired_next: self.expired_next as nat,
            visited: self.visited@,
            pending: match self.pending {
                Some(i) => Some(i as nat),
                None => None,
            },
            finished: self.finished,
        }
    }
}

impl CleanupState {
    /// The state is consistent.
    pub open spec fn wf(self) -> bool {
        &&& self.visited.len() == self.candidates.len()
        &&& self.expired_next <= self.candidates.len()
        &&& self.pending matches Some(i) ==> i < self.candidates.len()
    }

    /// Whether candidate `i` is removed by the expiry pass.
    pub open spec fn expires(self, i: int) -> bool {
        &&& self.candidates[i].eligible
        &&& is_expired(self.candidates[i].modified_nanos, self.policy.retention_nanos, self.now_nanos)
    }

    /// The first candidate at or after `from` that the expiry pass removes,
    /// or the number of candidates when there is none.
    pub open spec fn next_expired(self, from: int) -> int
        decreases self.candidates.len() - from,
    {
        if from >= self.candidates.len() {
            self.candidates.len() as int
        } else if self.expires(from) {
            from
        } else {
            self.next_expired(from + 1)
        }
    }

    /// Whether candidate `i` is still open to the budget pass: eligible,
    /// not removed, and not yet handed out by that pass.
    pub open spec fn budget_open(self, i: int) -> bool {
        &&& 0 <= i < self.candidates.len()
        &&& !self.visited[i]
        &&& self.candidates[i].eligible
        &&& self.candidates[i].bytes > 0
    }

    /// Whether `k` is the candidate that the budget pass takes next: open,
    /// and before every other open candidate.
    pub open spec fn budget_next(self, k: int) -> bool {
        &&& self.budget_open(k)
        &&& forall|j: int|
            #![trigger self.budget_open(j)]
            self.budget_open(j) && j != k ==> comes_before(
                self.candidates[k],
                k,
                self.candidates[j],
                j,
            )
    }
}

proof fn lemma_next_expired_bounds(s: CleanupState, from: int)
    requires
        0 <= from <= s.candidates.len(),
    ensures
        from <= s.next_expired(from) <= s.candidates.len(),
        s.next_expired(from) < s.candidates.len() ==> s.expires(s.next_expired(from)),
        forall|j: int| from <= j < s.next_expired(from) ==> !s.expires(j),
    decreases s.candidates.len() - from,
{
    if from < s.candidates.len() && !s.expires(from) {
        lemma_next_expired_bounds(s, from + 1);
    }
}

/// The sum of the sizes of `cands`, or `None` when it exceeds `u64::MAX`.
pub fn total_bytes(cands: &Vec<Candidate>) -> (total: Option<u64>)
    ensures
        match total {
            Some(t) => t == sum_bytes(cands@),
            None => sum_bytes(cands@) > u64::MAX,
        },
{
    let n = cands.len();
    let mut total: u64 = 0;
    let mut i = n;
    while i > 0
        invariant
            n == cands@.len(),
            i <= n,
            total == sum_bytes(cands@.skip(i as int)),
        decreases i,
    {
        i = i - 1;
        assert(cands@.skip(i as int).drop_first() =~= cands@.skip(i + 1));
        assert(cands@.skip(i as int)[0] == cands@[i as int]);
        if cands[i].bytes > u64::MAX - total {
            proof {
                lemma_sum_bytes_suffix_bound(cands@, i as int);
            }
            return None;
        }
        total = total + cands[i].bytes;
    }
    assert(cands@.skip(0) =~= cands@);
    Some(total)
}

proof fn lemma_sum_bytes_suffix_bound(cands: Seq<Candidate>, i: int)
    requires
        0 <= i <= cands.len(),
    ensures
        sum_bytes(cands.skip(i)) <= sum_bytes(cands),
    decreases i,
{
    if i > 0 {
        lemma_sum_bytes_suffix_bound(cands.drop_first(), i - 1);
        assert(cands.drop_first().skip(i - 1) =~= cands.skip(i));
    } else {
        assert(cands.skip(0) =~= cands);
    }
}

fn compare_strings(a: &String, b: &String) -> (r: i8)
    ensures
        r == compare_chars(a@, b@),
{
    let x = chars_of(a.as_str());
    let y = chars_of(b.as_str());
    let mut i: usize = 0;
    assert(x@.skip(0) =~= x@);
    assert(y@.skip(0) =~= y@);
    loop
        invariant
            x@ == a@,
            y@ == b@,
            i <= x@.len(),
            i <= y@.len(),
            compare_chars(x@.skip(i as int), y@.skip(i as int)) == compare_chars(a@, b@),
        decreases x@.len() - i,
    {
        if i == x.len() {
            if i == y.len() {
                return 0;
            }
            return -1;
        }
        if i == y.len() {
            return 1;
        }
        let ghost xs = x@.skip(i as int);
        let ghost ys = y@.skip(i as int);
        assert(xs[0] == x@[i as int] && ys[0] == y@[i as int]);
        let cx = x[i] as u32;
        let cy = y[i] as u32;
        if cx < cy {
            return -1;
        }
        if cx > cy {
            return 1;
        }
        assert(xs.drop_first() =~= x@.skip(i + 1));
        assert(ys.drop_first() =~= y@.skip(i + 1));
        i = i + 1;
    }
}

fn compare_path_components(a: &Vec<String>, b: &Vec<String>) -> (r: i8)
    ensures
        r == compare_paths(a@.map_values(|s: String| s@), b@.map_values(|s: String| s@)),
{
    let ghost av = a@.map_values(|s: String| s@);
    let ghost bv = b@.map_values(|s: String| s@);
    let mut i: usize = 0;
    assert(av.skip(0) =~= av);
    assert(bv.skip(0) =~= bv);
    loop
        invariant
            av == a@.map_values(|s: String| s@),
            bv == b@.map_values(|s: String| s@),
            i <= a@.len(),
            i <= b@.len(),
            compare_paths(av.skip(i as int), bv.skip(i as int)) == compare_paths(av, bv),
        decreases a@.len() - i,
    {
        if i == a.len() {
            if i == b.len() {
                return 0;
            }
            return -1;
        }
        if i == b.len() {
            return 1;
        }
        let ghost xs = av.skip(i as int);
        let ghost ys = bv.skip(i as int);
        assert(xs[0] == a@[i as int]@ && ys[0] == b@[i as int]@);
        let c = compare_strings(&a[i], &b[i]);
        if c != 0 {
            return c;
        }
        assert(xs.drop_first() =~= av.skip(i + 1));
        assert(ys.drop_first() =~= bv.skip(i + 1));
        i = i + 1;
    }
}

fn candidate_comes_before(a: &Candidate, ia: usize, b: &Candidate, ib: usize) -> (r: bool)
    ensures
        r == comes_before(*a, ia as int, *b, ib as int),
{
    if a.modified_nanos < b.modified_nanos {
        return true;
    }
    if a.modified_nanos > b.modified_nanos {
        return false;
    }
    let c = compare_path_components(&a.path, &b.path);
    c < 0 || (c == 0 && ia < ib)
}

impl CleanupRun {
    /// A run over `candidates` at time `now_nanos`; it counts the sum of
    /// their sizes as remaining, and starts with the expiry pass.
    pub fn new(candidates: Vec<Candidate>, policy: CleanupPolicy, now_nanos: i128) -> (run:
        CleanupRun)
        requires
            sum_bytes(candidates@) <= u64::MAX,
        ensures
            run@.wf(),
            run@.candidates == candidates@,
            run@.policy == policy,
            run@.now_nanos == now_nanos,
            run@.total_bytes == sum_bytes(candidates@),
            run@.expired_next == 0,
            forall|i: int| 0 <= i < candidates@.len() ==> !run@.visited[i],
            run@.pending is None,
            !run@.finished,
    {
        let total = match total_bytes(&candidates) {
            Some(t) => t,
            None => 0,
        };
        let n = candidates.len();
        let mut visited: Vec<bool> = Vec::new();
        for i in 0..n
            invariant
                visited@.len() == i,
                forall|j: int| 0 <= j < i ==> !visited@[j],
        {
            visited.push(false);
        }
        CleanupRun {
            candidates,
            policy,
            now_nanos,
            total_bytes: total,
            expired_next: 0,
            visited,
            pending: None,
            finished: false,
        }
    }

    /// The candidate at position `i`.
    pub fn candidate(&self, i: usize) -> (c: &Candidate)
        requires
            i < self@.candidates.len(),
        ensures
            *c == self@.candidates[i as int],
    {
        &self.candidates[i]
    }

    /// The bytes that the run counts as remaining.
    pub fn remaining_bytes(&self) -> (b: u64)
        ensures
            b == self@.total_bytes,
    {
        self.total_bytes
    }

    fn is_expired_at(&self, i: usize) -> (r: bool)
        requires
            self@.wf(),
            i < self@.candidates.len(),
        ensures
            r == self@.expires(i as int),
    {
        let c = &self.candidates[i];
        if !c.eligible {
            return false;
        }
        if self.now_nanos < c.modified_nanos {
            return false;
        }
        let age: u128 = if c.modified_nanos >= 0 || self.now_nanos < 0 {
            (self.now_nanos - c.modified_nanos) as u128
        } else {
            (self.now_nanos as u128) + ((-(c.modified_nanos + 1)) as u128) + 1
        };
        age >= self.policy.retention_nanos
    }

    /// The next candidate to remove, or `None` when the run is over.
    ///
    /// During the expiry pass this is the next eligible candidate, in the
    /// given order, that is at least the retention window old. After it,
    /// while the remaining bytes exceed the budget, it is the eligible,
    /// not yet removed candidate that comes first by age and path among
    /// those the budget pass has not handed out.
    pub fn next_removal(&mut self) -> (r: Option<usize>)
        requires
            old(self)@.wf(),
        ensures
            final(self)@.wf(),
            final(self)@.candidates == old(self)@.candidates,
            final(self)@.policy == old(self)@.policy,
            final(self)@.now_nanos == old(self)@.now_nanos,
            final(self)@.total_bytes == old(self)@.total_bytes,
            old(self)@.finished ==> r is None && final(self)@ == old(self)@,
            !old(self)@.finished ==> {
                let s = old(self)@;
                let e = s.next_expired(s.expired_next as int);
                if e < s.candidates.len() {
                    &&& r == Some(e as usize)
                    &&& final(self)@.expired_next == e + 1
                    &&& final(self)@.visited == s.visited
                    &&& final(self)@.pending == Some(e as nat)
                    &&& !final(self)@.finished
                } else {
                    &&& final(self)@.expired_next == s.candidates.len()
                    &&& if s.total_bytes <= s.policy.max_bytes {
                        r is None && final(self)@.finished && final(self)@.visited == s.visited
                    } else {
                        match r {
                            Some(k) => {
                                &&& s.budget_next(k as int)
                                &&& final(self)@.visited == s.visited.update(k as int, true)
                                &&& final(self)@.pending == Some(k as nat)
                                &&& !final(self)@.finished
                            },
                            None => {
                                &&& forall|j: int| !#[trigger] s.budget_open(j)
                                &&& final(self)@.finished
                                &&& final(self)@.visited == s.visited
                            },
                        }
                    }
                }
            },
            r matches Some(i) ==> i < final(self)@.candidates.len()
                && final(self)@.candidates[i as int].eligible,
    {
        if self.finished {
            return None;
        }
        let n = self.candidates.len();
        let ghost s = self@;
        proof {
            lemma_next_expired_bounds(s, s.expired_next as int);
        }
        let mut i = self.expired_next;
        while i < n && !self.is_expired_at(i)
            invariant
                self@ == s,
                s.wf(),
                n == s.candidates.len(),
                s.expired_next <= i <= n,
                s.next_expired(s.expired_next as int) == s.next_expired(i as int),
            decreases n - i,
        {
            i = i + 1;
        }
        if i < n {
            self.expired_next = i + 1;
            self.pending = Some(i);
            return Some(i);
        }
        self.expired_next = n;
        if self.total_bytes <= self.policy.max_bytes {
            self.finished = true;
            self.pending = None;
            return None;
        }
        let mut best: Option<usize> = None;
        for j in 0..n
            invariant
                n == self.candidates@.len(),
                self.candidates@ == s.candidates,
                self.visited@ == s.visited,
                s.wf(),
                match best {
                    Some(b) => {
                        &&& b < j
                        &&& s.budget_open(b as int)
                        &&& forall|m: int|
                            #![trigger s.budget_open(m)]
                            0 <= m < j && s.budget_open(m) && m != b ==> comes_before(
                                s.candidates[b as int],
                                b as int,
                                s.candidates[m],
                                m,
                            )
                    },
                    None => forall|m: int| 0 <= m < j ==> !#[trigger] s.budget_open(m),
                },
        {
            let c = &self.candidates[j];
            if !self.visited[j] && c.eligible && c.bytes > 0 {
                match best {
                    None => {
                        best = Some(j);
                    },
                    Some(b) => {
                        if candidate_comes_before(c, j, &self.candidates[b], b) {
                            proof {
                                assert forall|m: int|
                                    #![trigger s.budget_open(m)]
                                    0 <= m < j + 1 && s.budget_open(m) && m != j implies comes_before(
                                    s.candidates[j as int],
                                    j as int,
                                    s.candidates[m],
                                    m,
                                ) by {
                                    if m != b {
                                        lemma_comes_before_transitive(
                                            s.candidates[j as int],
                                            j as int,
                                            s.candidates[b as int],
                                            b as int,
                                            s.candidates[m],
                                            m,
                                        );
                                    }
                                }
                            }
                            best = Some(j);
                        } else {
                            proof {
                                lemma_comes_before_total(
                                    s.candidates[j as int],
                                    j as int,
                                    s.candidates[b as int],
                                    b as int,
                                );
                            }
                        }
                    },
                }
            }
        }
        match best {
            Some(b) => {
                self.visited.set(b, true);
                self.pending = Some(b);
                Some(b)
            },
            None => {
                self.finished = true;
                self.pending = None;
                proof {
                    assert forall|m: int| !#[trigger] s.budget_open(m) by {
                        if 0 <= m < n {
                        }
                    }
                }
                None
            },
        }
    }

    /// Reports whether the candidate handed out last was removed. A removed
    /// candidate's size is taken off the remaining bytes (saturating) and set
    /// to 0. Without a candidate handed out, nothing changes.
    pub fn record_removal(&mut self, removed: bool)
        requires
            old(self)@.wf(),
        ensures
            final(self)@.wf(),
            final(self)@.policy == old(self)@.policy,
            final(self)@.now_nanos == old(self)@.now_nanos,
            final(self)@.expired_next == old(self)@.expired_next,
            final(self)@.visited == old(self)@.visited,
            final(self)@.finished == old(self)@.finished,
            final(self)@.pending is None,
            final(self)@.candidates.len() == old(self)@.candidates.len(),
            forall|j: int|
                0 <= j < old(self)@.candidates.len() ==> (#[trigger] final(self)@.candidates[j]).eligible
                    == old(self)@.candidates[j].eligible,
            match old(self)@.pending {
                Some(i) => if removed {
                    let c = old(self)@.candidates[i as int];
                    &&& final(self)@.total_bytes == (if old(self)@.total_bytes >= c.bytes {
                        old(self)@.total_bytes - c.bytes
                    } else {
                        0
                    })
                    &&& final(self)@.candidates == old(self)@.candidates.update(
                        i as int,
                        Candidate { bytes: 0, ..c },
                    )
                } else {
                    &&& final(self)@.total_bytes == old(self)@.total_bytes
                    &&& final(self)@.candidates == old(self)@.candidates
                },
                None => {
                    &&& final(self)@.total_bytes == old(self)@.total_bytes
                    &&& final(self)@.candidates == old(self)@.candidates
                },
            },
    {
        match self.pending {
            Some(i) => {
                if removed {
                    let bytes = self.candidates[i].bytes;
                    self.total_bytes = self.total_bytes.saturating_sub(bytes);
                    let mut cands: Vec<Candidate> = Vec::new();
                    std::mem::swap(&mut cands, &mut self.candidates);
                    let ghost before = cands@;
                    let mut c = cands.remove(i);
                    c.bytes = 0;
                    cands.insert(i, c);
                    assert(cands@ =~= before.update(i as int, Candidate { bytes: 0, ..before[i as int] }));
                    self.candidates = cands;
                }
                self.pending = None;
            },
            None => {},
        }
    }

    /// Whether the run is over.
    pub fn is_finished(&self) -> (r: bool)
        ensures
            r == self@.finished,
    {
        self.finished
    }
}

proof fn lemma_next_expired_skips_ineligible(s: CleanupState, from: int, i: int)
    requires
        0 <= i < s.candidates.len(),
        !s.candidates[i].eligible,
    ensures
        s.next_expired(from) != i,
    decreases s.candidates.len() - from,
{
    if from < s.candidates.len() && !s.expires(from) {
        lemma_next_expired_skips_ineligible(s, from + 1, i);
    }
}

/// A candidate that is not eligible (a file of the protected session or of
/// a session with a live marker) is never the next one of either pass, in
/// any state of a run; as `record_removal` keeps every candidate's
/// eligibility and `next_removal` hands out only the next one of a pass,
/// such a file is never handed out for removal.
pub proof fn lemma_ineligible_never_next(s: CleanupState, i: int)
    requires
        0 <= i < s.candidates.len(),
        !s.candidates[i].eligible,
    ensures
        forall|from: int| #[trigger] s.next_expired(from) != i,
        !s.budget_next(i),
{
    assert forall|from: int| #[trigger] s.next_expired(from) != i by {
        lemma_next_expired_skips_ineligible(s, from, i);
    }
}

/// Files of the current session, and of a session with a live active
/// marker, are not eligible for removal.
pub proof fn lemma_protected_sessions_ineligible(
    session_name: Seq<char>,
    protected_session: Seq<char>,
    live_marker: bool,
)
    requires
        session_name == protected_session || live_marker,
    ensures
        !spec_session_eligible(session_name, protected_session, live_marker),
{
}

proof fn lemma_compare_chars_antisym(a: Seq<char>, b: Seq<char>)
    ensures
        compare_chars(a, b) == -compare_chars(b, a),
        -1 <= compare_chars(a, b) <= 1,
        compare_chars(a, b) == 0 ==> a == b,
    decreases a.len(),
{
    if a.len() > 0 && b.len() > 0 && (a[0] as u32) == (b[0] as u32) {
        lemma_compare_chars_antisym(a.drop_first(), b.drop_first());
        if compare_chars(a, b) == 0 {
            vstd::utf8::char_u32_cast(a[0], a[0] as u32);
            vstd::utf8::char_u32_cast(b[0], b[0] as u32);
            assert(a[0] == b[0]);
            assert(a =~= seq![a[0]] + a.drop_first());
            assert(b =~= seq![b[0]] + b.drop_first());
        }
    } else if a.len() == 0 && b.len() == 0 {
        assert(a =~= b);
    }
}

proof fn lemma_compare_chars_trans(a: Seq<char>, b: Seq<char>, c: Seq<char>)
    requires
        compare_chars(a, b) < 0,
        compare_chars(b, c) < 0,
    ensures
        compare_chars(a, c) < 0,
    decreases a.len(),
{
    if a.len() > 0 && b.len() > 0 && c.len() > 0 {
        if (a[0] as u32) == (b[0] as u32) && (b[0] as u32) == (c[0] as u32) {
            lemma_compare_chars_trans(a.drop_first(), b.drop_first(), c.drop_first());
        }
    }
}

proof fn lemma_compare_paths_antisym(a: Seq<Seq<char>>, b: Seq<Seq<char>>)
    ensures
        compare_paths(a, b) == -compare_paths(b, a),
        -1 <= compare_paths(a, b) <= 1,
        compare_paths(a, b) == 0 ==> a == b,
    decreases a.len(),
{
    if a.len() > 0 && b.len() > 0 {
        lemma_compare_chars_antisym(a[0], b[0]);
        if compare_chars(a[0], b[0]) == 0 {
            lemma_compare_paths_antisym(a.drop_first(), b.drop_first());
            if compare_paths(a, b) == 0 {
                assert(a =~= seq![a[0]] + a.drop_first());
                assert(b =~= seq![b[0]] + b.drop_first());
            }
        }
    } else if a.len() == 0 && b.len() == 0 {
        assert(a =~= b);
    }
}

proof fn lemma_compare_paths_trans(a: Seq<Seq<char>>, b: Seq<Seq<char>>, c: Seq<Seq<char>>)
    requires
        compare_paths(a, b) < 0,
        compare_paths(b, c) < 0,
    ensures
        compare_paths(a, c) < 0,
    decreases a.len(),
{
    if a.len() > 0 && b.len() > 0 && c.len() > 0 {
        lemma_compare_chars_antisym(a[0], b[0]);
        lemma_compare_chars_antisym(b[0], c[0]);
        lemma_compare_chars_antisym(a[0], c[0]);
        if compare_chars(a[0], b[0]) == 0 && compare_chars(b[0], c[0]) == 0 {
            lemma_compare_paths_trans(a.drop_first(), b.drop_first(), c.drop_first());
        } else if compare_chars(a[0], b[0]) == 0 {
            assert(a[0] == b[0]);
        } else if compare_chars(b[0], c[0]) == 0 {
            assert(b[0] == c[0]);
        } else {
            lemma_compare_chars_trans(a[0], b[0], c[0]);
        }
    }
}

proof fn lemma_comes_before_transitive(
    a: Candidate,
    ia: int,
    b: Candidate,
    ib: int,
    c: Candidate,
    ic: int,
)
    requires
        comes_before(a, ia, b, ib),
        comes_before(b, ib, c, ic),
    ensures
        comes_before(a, ia, c, ic),
{
    lemma_compare_paths_antisym(path_view(a), path_view(b));
    lemma_compare_paths_antisym(path_view(b), path_view(c));
    lemma_compare_paths_antisym(path_view(a), path_view(c));
    if a.modified_nanos == b.modified_nanos && b.modified_nanos == c.modified_nanos {
        if compare_paths(path_view(a), path_view(b)) < 0 && compare_paths(path_view(b), path_view(c))
            < 0 {
            lemma_compare_paths_trans(path_view(a), path_view(b), path_view(c));
        }
    }
}

proof fn lemma_comes_before_total(a: Candidate, ia: int, b: Candidate, ib: int)
    requires
        ia != ib,
        !comes_before(a, ia, b, ib),
    ensures
        comes_before(b, ib, a, ia),
{
    lemma_compare_paths_antisym(path_view(a), path_view(b));
}

/// Whether a file name marks its session as active.
pub open spec fn is_active_marker(name: Seq<char>) -> bool {
    active_marker_suffix().is_suffix_of(name)
}

/// Whether a file name ends with `.active`, the suffix of session markers.
pub fn is_active_marker_name(name: &str) -> (r: bool)
    ensures
        r == is_active_marker(name@),
{
    let cs = chars_of(name);
    let suffix = chars_of(".active");
    if cs.len() < suffix.len() {
        return false;
    }
    let start = cs.len() - suffix.len();
    let r = has_str_prefix_at(&cs, start, ".active");
    assert(r == (".active"@ =~= cs@.subrange(start as int, cs@.len() as int))) by {
        assert(cs@.skip(start as int) =~= cs@.subrange(start as int, cs@.len() as int));
    }
    r
}

/// Whether a character is an ASCII decimal digit.
pub open spec fn is_digit(c: char) -> bool {
    0x30 <= (c as u32) <= 0x39
}

/// The value of a string of decimal digits.
pub open spec fn digits_value(s: Seq<char>) -> nat
    decreases s.len(),
{
    if s.len() == 0 {
        0
    } else {
        digits_value(s.drop_last()) * 10 + ((s.last() as u32) - 0x30) as nat
    }
}

/// The digits of an unsigned number: the text without a leading `+`.
pub open spec fn unsigned_digits(s: Seq<char>) -> Seq<char> {
    if s.len() > 0 && s[0] == '+' {
        s.drop_first()
    } else {
        s
    }
}

/// Whether every character is an ASCII decimal digit.
pub open spec fn all_digits(d: Seq<char>) -> bool {
    forall|i: int| 0 <= i < d.len() ==> is_digit(#[trigger] d[i])
}

/// `u32::from_str`: an optional `+` and one or more decimal digits whose
/// value fits in a `u32`.
pub open spec fn spec_parse_u32(s: Seq<char>) -> Option<u32> {
    let d = unsigned_digits(s);
    if d.len() > 0 && all_digits(d) && digits_value(d) <= u32::MAX {
        Some(digits_value(d) as u32)
    } else {
        None
    }
}

/// The process id that an active marker holds: its trimmed contents read as
/// a `u32`.
pub open spec fn marker_pid(contents: Seq<char>) -> Option<u32> {
    spec_parse_u32(trim(contents))
}

proof fn lemma_saturated_step(v: nat, d: nat)
    requires
        d < 10,
    ensures
        (if v > 0x1_0000_0000 {
            0x1_0000_0000nat
        } else {
            v
        }) * 10 + d >= 0x1_0000_0000 <==> v * 10 + d >= 0x1_0000_0000,
        v <= 0x1_0000_0000 ==> (if v > 0x1_0000_0000 {
            0x1_0000_0000nat
        } else {
            v
        }) * 10 + d == v * 10 + d,
{
}

/// Reads a `u32` as `u32::from_str` does.
pub fn parse_u32_chars(s: &Vec<char>) -> (r: Option<u32>)
    ensures
        r == spec_parse_u32(s@),
{
    let n = s.len();
    let start: usize = if n > 0 && s[0] == '+' {
        1
    } else {
        0
    };
    let ghost d = unsigned_digits(s@);
    assert(d =~= s@.skip(start as int));
    if start == n {
        return None;
    }
    let mut value: u64 = 0;
    let mut i = start;
    while i < n
        invariant
            start <= i <= n,
            n == s@.len(),
            start < n,
            d == s@.skip(start as int),
            d == unsigned_digits(s@),
            forall|j: int| start <= j < i ==> is_digit(#[trigger] s@[j]),
            value == (if digits_value(d.take(i - start)) > 0x1_0000_0000 {
                0x1_0000_0000nat
            } else {
                digits_value(d.take(i - start))
            }),
        decreases n - i,
    {
        let c = s[i];
        let v = c as u32;
        if v < 0x30 || v > 0x39 {
            assert(d[i - start] == s@[i as int]);
            assert(!is_digit(d[i - start]));
            assert(!all_digits(d));
            assert(spec_parse_u32(s@) is None);
            return None;
        }
        let ghost prev = digits_value(d.take(i - start));
        assert(d.take(i - start + 1).drop_last() =~= d.take(i - start));
        assert(d.take(i - start + 1).last() == s@[i as int]);
        proof {
            lemma_saturated_step(prev, (v - 0x30) as nat);
        }
        let next = value * 10 + (v - 0x30) as u64;
        value = if next > 0x1_0000_0000 {
            0x1_0000_0000
        } else {
            next
        };
        i = i + 1;
    }
    assert(d.take(n - start) =~= d);
    assert forall|j: int| 0 <= j < d.len() implies is_digit(#[trigger] d[j]) by {
        assert(d[j] == s@[start + j]);
    }
    if value > 0xFFFF_FFFF {
        None
    } else {
        Some(value as u32)
    }
}

/// A decimal rendering is a non-empty string of digits whose value is the number.
pub proof fn lemma_decimal_digits(n: nat)
    ensures
        decimal(n).len() > 0,
        all_digits(decimal(n)),
        digits_value(decimal(n)) == n,
    decreases n,
{
    if n < 10 {
        let s = decimal(n);
        assert(s =~= seq![digit_char(n)]);
        assert(s.drop_last() =~= Seq::<char>::empty());
        assert((digit_char(n) as u32) == 0x30 + n);
        assert(s.last() == digit_char(n));
        assert(digits_value(Seq::<char>::empty()) == 0);
    } else {
        lemma_decimal_digits(n / 10);
        let s = decimal(n);
        let d = digit_char(n % 10);
        assert(s =~= decimal(n / 10).push(d));
        assert(s.drop_last() =~= decimal(n / 10));
        assert((d as u32) == 0x30 + n % 10);
        assert(s.last() == d);
        assert(n == (n / 10) * 10 + n % 10) by (nonlinear_arith);
        assert forall|i: int| 0 <= i < s.len() implies is_digit(#[trigger] s[i]) by {
            if i < s.len() - 1 {
                assert(s[i] == decimal(n / 10)[i]);
            }
        }
    }
}

/// A process id written in decimal, as `u32::to_string` writes it into an
/// active marker, is read back as the same process id.
pub proof fn lemma_marker_pid_round_trip(pid: u32)
    ensures
        marker_pid(decimal(pid as nat)) == Some(pid),
{
    let s = decimal(pid as nat);
    lemma_decimal_digits(pid as nat);
    assert(is_digit(s[0]) && is_digit(s.last()));
    assert(!is_whitespace(s[0]));
    assert(trim_start(s) == s);
    assert(!is_whitespace(s.last()));
    assert(trim_end(s) == s);
    assert(unsigned_digits(s) == s);
}

/// The process id held by an active marker with the given contents.
pub fn parse_marker_pid(contents: &str) -> (pid: Option<u32>)
    ensures
        pid == marker_pid(contents@),
{
    let cs = chars_of(contents);
    let t = trim_chars(&cs);
    parse_u32_chars(&t)
}

} // verus!
