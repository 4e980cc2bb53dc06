//! Preparation of command output for the model: ANSI colour removal,
//! coalescing of repeated diagnostics, and extraction of key diagnostics from
//! long failed output.
use vstd::prelude::*;
use crate::text::{
    chars_eq, chars_eq_str, chars_of, decimal, extend_chars, extend_str, has_str_prefix_at,
    lemma_utf8_len_bound, lemma_utf8_len_concat, lemma_utf8_len_push, lines_of, push_decimal, slice_chars,
    split_inclusive_from, split_inclusive_lines, split_inclusive_newline, string_of, text_lines, trim_start,
    trim_start_index, utf8_len, utf8_len_of, views,
};

verus! {

broadcast use vstd::string::group_string_axioms;

/// The number of bytes that a budget of `tokens` tokens allows (four bytes per
/// token, saturating).
pub open spec fn spec_approx_bytes_for_tokens(tokens: usize) -> usize {
    if tokens * 4 > usize::MAX {
        usize::MAX
    } else {
        (tokens * 4) as usize
    }
}

/// `approx_bytes_for_tokens`: four bytes per token, saturating at `usize::MAX`.
pub fn approx_bytes_for_tokens(tokens: usize) -> (bytes: usize)
    ensures
        bytes == spec_approx_bytes_for_tokens(tokens),
{
    if tokens > usize::MAX / 4 {
        usize::MAX
    } else {
        tokens * 4
    }
}

/// The escape character that opens an ANSI control sequence.
pub open spec fn esc_char() -> char {
    '\u{1b}'
}

/// A parameter character of a Select Graphic Rendition sequence: an ASCII
/// digit, `;` or `:`.
pub open spec fn is_sgr_param(c: char) -> bool {
    (0x30 <= (c as u32) <= 0x39) || c == ';' || c == ':'
}

/// The number of consecutive SGR parameter characters of `s` from position `i`.
pub open spec fn sgr_param_run(s: Seq<char>, i: int) -> nat
    decreases s.len() - i,
{
    if 0 <= i < s.len() && is_sgr_param(s[i]) {
        1 + sgr_param_run(s, i + 1)
    } else {
        0
    }
}

/// The length of the SGR sequence `ESC [ params m` at the start of `s`, or 0
/// when `s` does not start with one.
pub open spec fn sgr_len(s: Seq<char>) -> nat {
    if s.len() >= 2 && s[0] == esc_char() && s[1] == '[' {
        let end: int = 2 + sgr_param_run(s, 2) as int;
        if end < s.len() && s[end] == 'm' {
            (end + 1) as nat
        } else {
            0
        }
    } else {
        0
    }
}

/// `s` with every ANSI SGR (colour) sequence removed, scanning from the left;
/// every other character, other control sequences included, is kept.
pub open spec fn strip_sgr(s: Seq<char>) -> Seq<char>
    decreases s.len(),
{
    if s.len() == 0 {
        s
    } else if sgr_len(s) > 0 {
        strip_sgr(s.skip(sgr_len(s) as int))
    } else {
        seq![s[0]] + strip_sgr(s.drop_first())
    }
}

fn is_sgr_param_char(c: char) -> (r: bool)
    ensures
        r == is_sgr_param(c),
{
    let v = c as u32;
    (0x30 <= v && v <= 0x39) || c == ';' || c == ':'
}

/// The length of the SGR sequence that starts at position `i` of `s`, or 0.
fn sgr_len_at(s: &Vec<char>, i: usize) -> (n: usize)
    requires
        i <= s@.len(),
    ensures
        n == sgr_len(s@.skip(i as int)),
        n <= s@.len() - i,
{
    let len = s.len();
    let ghost t = s@.skip(i as int);
    if len - i < 2 || s[i] != '\u{1b}' || s[i + 1] != '[' {
        return 0;
    }
    assert(t[0] == s@[i as int] && t[1] == s@[i + 1]);
    let mut end = i + 2;
    while end < len && is_sgr_param_char(s[end])
        invariant
            len == s@.len(),
            i + 2 <= end <= len,
            t == s@.skip(i as int),
            sgr_param_run(t, 2) == (end - i - 2) + sgr_param_run(t, end - i),
        decreases len - end,
    {
        assert(t[end - i] == s@[end as int]);
        end = end + 1;
    }
    if end < len {
        assert(t[end - i] == s@[end as int]);
    }
    if end < len && s[end] == 'm' {
        end + 1 - i
    } else {
        0
    }
}

/// `strip_ansi_sgr`: removes ANSI Select Graphic Rendition (colour)
/// sequences and keeps every other character, other control sequences
/// included.
pub fn strip_ansi_sgr(text: &str) -> (out: String)
    ensures
        out@ == strip_sgr(text@),
{
    let cs = chars_of(text);
    let out = strip_sgr_chars(&cs);
    string_of(&out)
}

/// `strip_ansi_sgr` on characters.
pub fn strip_sgr_chars(cs: &Vec<char>) -> (out: Vec<char>)
    ensures
        out@ == strip_sgr(cs@),
{
    let mut out: Vec<char> = Vec::new();
    let len = cs.len();
    let mut i: usize = 0;
    assert(cs@.skip(0) =~= cs@);
    while i < len
        invariant
            len == cs@.len(),
            i <= len,
            out@ + strip_sgr(cs@.skip(i as int)) == strip_sgr(cs@),
        decreases len - i,
    {
        let ghost rest = cs@.skip(i as int);
        let n = sgr_len_at(cs, i);
        if n > 0 {
            assert(rest.skip(n as int) =~= cs@.skip(i + n));
            i = i + n;
        } else {
            assert(rest.drop_first() =~= cs@.skip(i + 1));
            assert(rest[0] == cs@[i as int]);
            let ghost before = out@;
            out.push(cs[i]);
            assert(before + (seq![cs@[i as int]] + strip_sgr(cs@.skip(i + 1))) =~= out@
                + strip_sgr(cs@.skip(i + 1)));
            i = i + 1;
        }
    }
    assert(cs@.skip(len as int) =~= Seq::<char>::empty());
    assert(out@ + Seq::<char>::empty() =~= out@);
    out
}

/// Text without the escape character is left unchanged by `strip_sgr`.
pub proof fn lemma_strip_sgr_without_escape(s: Seq<char>)
    requires
        !s.contains(esc_char()),
    ensures
        strip_sgr(s) == s,
    decreases s.len(),
{
    if s.len() > 0 {
        assert(s[0] != esc_char()) by {
            assert(s.contains(s[0]));
        }
        let t = s.drop_first();
        assert(!t.contains(esc_char())) by {
            if t.contains(esc_char()) {
                let k = choose|k: int| 0 <= k < t.len() && t[k] == esc_char();
                assert(s[k + 1] == esc_char());
            }
        }
        lemma_strip_sgr_without_escape(t);
        assert(seq![s[0]] + t =~= s);
    }
}

/// Removing colour sequences never lengthens the text.
pub proof fn lemma_strip_sgr_shortens(s: Seq<char>)
    ensures
        strip_sgr(s).len() <= s.len(),
    decreases s.len(),
{
    if s.len() > 0 {
        if sgr_len(s) > 0 {
            lemma_strip_sgr_shortens(s.skip(sgr_len(s) as int));
        } else {
            lemma_strip_sgr_shortens(s.drop_first());
        }
    }
}

/// Whether a line, after its leading white space, starts with `warning:` or
/// `error:`.
pub open spec fn is_warning_or_error(line: Seq<char>) -> bool {
    let t = trim_start(line);
    "warning:"@.is_prefix_of(t) || "error:"@.is_prefix_of(t)
}

/// The number of leading elements of `lines` that equal `x`.
pub open spec fn run_length(lines: Seq<Seq<char>>, x: Seq<char>) -> nat
    decreases lines.len(),
{
    if lines.len() > 0 && lines[0] == x {
        1 + run_length(lines.drop_first(), x)
    } else {
        0
    }
}

pub proof fn lemma_run_length_bound(lines: Seq<Seq<char>>, x: Seq<char>)
    ensures
        run_length(lines, x) <= lines.len(),
        lines.len() > 0 && lines[0] == x ==> run_length(lines, x) >= 1,
    decreases lines.len(),
{
    if lines.len() > 0 && lines[0] == x {
        lemma_run_length_bound(lines.drop_first(), x);
    }
}

/// The notice that replaces the third and later copies of a repeated line
/// that occurs `count` times in a row.
pub open spec fn repeat_notice(line: Seq<char>, count: nat) -> Seq<char> {
    (if line.len() > 0 && line.last() == '\n' {
        seq![]
    } else {
        seq!['\n']
    }) + "[same diagnostic repeated "@ + decimal((count - 1) as nat) + " more times]\n"@
}

/// What a run of `count` identical copies of a warning or error line becomes:
/// one or two copies stay as they are, three or more collapse into one copy
/// and a notice.
pub open spec fn coalesced_run(line: Seq<char>, count: nat) -> Seq<char> {
    if count >= 3 {
        line + repeat_notice(line, count)
    } else if count == 2 {
        line + line
    } else {
        line
    }
}

/// The concatenation of `lines` (pieces of `split_inclusive('\n')`) with
/// every run of identical consecutive warning or error lines coalesced.
pub open spec fn coalesced(lines: Seq<Seq<char>>) -> Seq<char>
    decreases lines.len(),
{
    if lines.len() == 0 {
        seq![]
    } else if !is_warning_or_error(lines[0]) {
        lines[0] + coalesced(lines.drop_first())
    } else {
        let count = run_length(lines, lines[0]);
        proof {
            lemma_run_length_bound(lines, lines[0]);
        }
        coalesced_run(lines[0], count) + coalesced(lines.skip(count as int))
    }
}

/// `coalesce_repeated_diagnostics` as a function of the text.
pub open spec fn coalesce_diagnostics(text: Seq<char>) -> Seq<char> {
    coalesced(split_inclusive_lines(text))
}

fn is_warning_or_error_line(line: &Vec<char>) -> (r: bool)
    ensures
        r == is_warning_or_error(line@),
{
    let k = trim_start_index(line);
    has_str_prefix_at(line, k, "warning:") || has_str_prefix_at(line, k, "error:")
}

/// `coalesce_repeated_diagnostics`: three or more identical consecutive
/// warning or error lines become one line and a notice of how many more
/// times it was repeated; every other line is kept.
pub fn coalesce_repeated_diagnostics(text: &str) -> (out: String)
    ensures
        out@ == coalesce_diagnostics(text@),
{
    let cs = chars_of(text);
    let out = coalesce_chars(&cs);
    string_of(&out)
}

/// `coalesce_repeated_diagnostics` on characters.
pub fn coalesce_chars(cs: &Vec<char>) -> (out: Vec<char>)
    ensures
        out@ == coalesce_diagnostics(cs@),
{
    let lines = split_inclusive_newline(cs);
    let ghost all = views(lines@);
    let mut out: Vec<char> = Vec::new();
    let n = lines.len();
    let mut i: usize = 0;
    assert(all.skip(0) =~= all);
    while i < n
        invariant
            n == lines@.len(),
            all == views(lines@),
            i <= n,
            out@ + coalesced(all.skip(i as int)) == coalesced(all),
        decreases n - i,
    {
        let ghost rest = all.skip(i as int);
        assert(rest[0] == lines@[i as int]@);
        let ghost before = out@;
        if !is_warning_or_error_line(&lines[i]) {
            extend_chars(&mut out, &lines[i]);
            assert(rest.drop_first() =~= all.skip(i + 1));
            assert(before + (lines@[i as int]@ + coalesced(all.skip(i + 1))) =~= out@ + coalesced(
                all.skip(i + 1),
            ));
            i = i + 1;
        } else {
            let mut j = i + 1;
            assert(rest.drop_first() =~= all.skip(i + 1));
            while j < n && chars_eq(&lines[j], &lines[i])
                invariant
                    n == lines@.len(),
                    all == views(lines@),
                    i < j <= n,
                    rest == all.skip(i as int),
                    run_length(rest, rest[0]) == (j - i) + run_length(all.skip(j as int), rest[0]),
                decreases n - j,
            {
                assert(all.skip(j as int)[0] == lines@[j as int]@);
                assert(all.skip(j as int).drop_first() =~= all.skip(j + 1));
                j = j + 1;
            }
            proof {
                if j < n {
                    assert(all.skip(j as int)[0] == lines@[j as int]@);
                }
                assert(run_length(all.skip(j as int), rest[0]) == 0);
                assert(rest.drop_first() =~= all.skip(i + 1));
            }
            let count = j - i;
            let ghost line = lines@[i as int]@;
            extend_chars(&mut out, &lines[i]);
            if count >= 3 {
                let last = lines[i].len();
                if !(last > 0 && lines[i][last - 1] == '\n') {
                    out.push('\n');
                }
                extend_str(&mut out, "[same diagnostic repeated ");
                push_decimal(&mut out, (count - 1) as u64);
                extend_str(&mut out, " more times]\n");
                assert(out@ =~= before + coalesced_run(line, count as nat));
            } else if count == 2 {
                extend_chars(&mut out, &lines[i]);
                assert(out@ =~= before + coalesced_run(line, count as nat));
            } else {
                assert(out@ =~= before + coalesced_run(line, count as nat));
            }
            assert(rest.skip(count as int) =~= all.skip(j as int));
            assert(before + (coalesced_run(line, count as nat) + coalesced(all.skip(j as int)))
                =~= out@ + coalesced(all.skip(j as int)));
            i = j;
        }
    }
    assert(all.skip(n as int) =~= Seq::<Seq<char>>::empty());
    assert(out@ + Seq::<char>::empty() =~= out@);
    out
}

/// The concatenation of a sequence of pieces.
pub open spec fn concat_pieces(pieces: Seq<Seq<char>>) -> Seq<char>
    decreases pieces.len(),
{
    if pieces.len() == 0 {
        seq![]
    } else {
        pieces[0] + concat_pieces(pieces.drop_first())
    }
}

/// Splitting at newlines loses nothing: the pieces put back together give
/// the unfinished piece followed by the text.
pub proof fn lemma_split_inclusive_concat(s: Seq<char>, cur: Seq<char>)
    ensures
        concat_pieces(split_inclusive_from(s, cur)) == cur + s,
    decreases s.len(),
{
    if s.len() == 0 {
        if cur.len() == 0 {
            assert(cur + s =~= Seq::<char>::empty());
        } else {
            let one = seq![cur];
            assert(one.drop_first() =~= Seq::<Seq<char>>::empty());
            assert(concat_pieces(one.drop_first()) == Seq::<char>::empty());
            assert(one[0] == cur);
            assert(concat_pieces(one) == cur + Seq::<char>::empty());
            assert(cur + s =~= cur + Seq::<char>::empty());
        }
    } else if s[0] == '\n' {
        lemma_split_inclusive_concat(s.drop_first(), seq![]);
        let rest = split_inclusive_from(s.drop_first(), seq![]);
        let all = seq![cur.push('\n')] + rest;
        assert(all[0] == cur.push('\n'));
        assert(all.drop_first() =~= rest);
        assert(concat_pieces(all) == cur.push('\n') + concat_pieces(rest));
        assert(s =~= seq!['\n'] + s.drop_first());
        assert(cur.push('\n') + (Seq::<char>::empty() + s.drop_first()) =~= cur + s);
    } else {
        lemma_split_inclusive_concat(s.drop_first(), cur.push(s[0]));
        assert(cur.push(s[0]) + s.drop_first() =~= cur + s);
    }
}

proof fn lemma_coalesced_plain(lines: Seq<Seq<char>>)
    requires
        forall|i: int| 0 <= i < lines.len() ==> !is_warning_or_error(#[trigger] lines[i]),
    ensures
        coalesced(lines) == concat_pieces(lines),
    decreases lines.len(),
{
    if lines.len() > 0 {
        assert(!is_warning_or_error(lines[0]));
        let rest = lines.drop_first();
        assert forall|i: int| 0 <= i < rest.len() implies !is_warning_or_error(#[trigger] rest[i]) by {
            assert(rest[i] == lines[i + 1]);
        }
        lemma_coalesced_plain(rest);
    }
}

/// Text in which no line is a warning or an error comes out of
/// `coalesce_repeated_diagnostics` unchanged.
pub proof fn lemma_coalesce_keeps_text_without_diagnostics(text: Seq<char>)
    requires
        forall|i: int|
            0 <= i < split_inclusive_lines(text).len() ==> !is_warning_or_error(
                #[trigger] split_inclusive_lines(text)[i],
            ),
    ensures
        coalesce_diagnostics(text) == text,
{
    lemma_coalesced_plain(split_inclusive_lines(text));
    lemma_split_inclusive_concat(text, seq![]);
    assert(Seq::<char>::empty() + text =~= text);
}

/// Whether a piece of `split_inclusive('\n')` is well formed: not empty,
/// with a newline at most as its last character.
pub open spec fn is_piece(p: Seq<char>) -> bool {
    p.len() > 0 && !p.drop_last().contains('\n')
}

/// Whether pieces are what `split_inclusive('\n')` yields: each well
/// formed, and each but the last ending with a newline.
pub open spec fn well_split(ps: Seq<Seq<char>>) -> bool {
    &&& forall|i: int| 0 <= i < ps.len() ==> is_piece(#[trigger] ps[i])
    &&& forall|i: int| 0 <= i < ps.len() - 1 ==> (#[trigger] ps[i]).last() == '\n'
}

/// The notice line that stands for `k` further copies of the line before it.
pub open spec fn notice_line(k: nat) -> Seq<char> {
    "[same diagnostic repeated "@ + decimal(k) + " more times]\n"@
}

/// Whether a piece is a repetition notice.
pub open spec fn is_notice_line(p: Seq<char>) -> bool {
    exists|k: nat| p == notice_line(k)
}

/// `n` copies of `l`, one after the other.
pub open spec fn repeat_piece(l: Seq<char>, n: nat) -> Seq<char>
    decreases n,
{
    if n == 0 {
        seq![]
    } else {
        l + repeat_piece(l, (n - 1) as nat)
    }
}

/// The pieces put back together, each repetition notice replaced by that
/// many more copies of the piece before it.
pub open spec fn expand_notices(ps: Seq<Seq<char>>) -> Seq<char>
    decreases ps.len(),
{
    if ps.len() == 0 {
        seq![]
    } else if ps.len() >= 2 && is_notice_line(ps[1]) {
        let k = choose|k: nat| ps[1] == notice_line(k);
        repeat_piece(ps[0], k + 1) + expand_notices(ps.skip(2))
    } else {
        ps[0] + expand_notices(ps.drop_first())
    }
}

/// The pieces that one run of `count` identical warning or error lines
/// becomes.
pub open spec fn run_pieces(line: Seq<char>, count: nat) -> Seq<Seq<char>> {
    if count >= 3 {
        seq![line, repeat_notice(line, count)]
    } else if count == 2 {
        seq![line, line]
    } else {
        seq![line]
    }
}

/// The pieces of the coalesced text, group by group.
pub open spec fn coalesced_pieces(lines: Seq<Seq<char>>) -> Seq<Seq<char>>
    decreases lines.len(),
{
    if lines.len() == 0 {
        seq![]
    } else if !is_warning_or_error(lines[0]) {
        seq![lines[0]] + coalesced_pieces(lines.drop_first())
    } else {
        let count = run_length(lines, lines[0]);
        proof {
            lemma_run_length_bound(lines, lines[0]);
        }
        run_pieces(lines[0], count) + coalesced_pieces(lines.skip(count as int))
    }
}

proof fn lemma_push_no_newline(s: Seq<char>, c: char)
    requires
        !s.contains('\n'),
        c != '\n',
    ensures
        !s.push(c).contains('\n'),
{
    assert forall|i: int| 0 <= i < s.push(c).len() implies s.push(c)[i] != '\n' by {
        if i < s.len() {
            assert(s.push(c)[i] == s[i]);
        }
    }
}

proof fn lemma_sub_no_newline(s: Seq<char>, a: int, b: int)
    requires
        !s.contains('\n'),
        0 <= a <= b <= s.len(),
    ensures
        !s.subrange(a, b).contains('\n'),
{
    assert forall|i: int| 0 <= i < b - a implies s.subrange(a, b)[i] != '\n' by {
        assert(s.subrange(a, b)[i] == s[a + i]);
    }
}

proof fn lemma_well_split_prepend(p: Seq<char>, rest: Seq<Seq<char>>)
    requires
        is_piece(p),
        rest.len() > 0 ==> p.last() == '\n',
        well_split(rest),
    ensures
        well_split(seq![p] + rest),
{
    let ps = seq![p] + rest;
    assert forall|i: int| 0 <= i < ps.len() implies is_piece(#[trigger] ps[i]) by {
        if i > 0 {
            assert(ps[i] == rest[i - 1]);
        }
    }
    assert forall|i: int| 0 <= i < ps.len() - 1 implies (#[trigger] ps[i]).last() == '\n' by {
        if i > 0 {
            assert(ps[i] == rest[i - 1]);
        }
    }
}

proof fn lemma_well_split_skip(ps: Seq<Seq<char>>, n: int)
    requires
        well_split(ps),
        0 <= n <= ps.len(),
    ensures
        well_split(ps.skip(n)),
{
    let t = ps.skip(n);
    assert forall|i: int| 0 <= i < t.len() implies is_piece(#[trigger] t[i]) by {
        assert(t[i] == ps[n + i]);
    }
    assert forall|i: int| 0 <= i < t.len() - 1 implies (#[trigger] t[i]).last() == '\n' by {
        assert(t[i] == ps[n + i]);
    }
}

proof fn lemma_split_well_formed(s: Seq<char>, cur: Seq<char>)
    requires
        !cur.contains('\n'),
    ensures
        well_split(split_inclusive_from(s, cur)),
    decreases s.len(),
{
    if s.len() == 0 {
        if cur.len() > 0 {
            lemma_sub_no_newline(cur, 0, cur.len() - 1);
            assert(cur.drop_last() =~= cur.subrange(0, cur.len() - 1));
            lemma_well_split_prepend(cur, seq![]);
            assert(seq![cur] + Seq::<Seq<char>>::empty() =~= seq![cur]);
        }
    } else if s[0] == '\n' {
        lemma_split_well_formed(s.drop_first(), seq![]);
        let p = cur.push('\n');
        assert(p.drop_last() =~= cur);
        lemma_well_split_prepend(p, split_inclusive_from(s.drop_first(), seq![]));
    } else {
        lemma_push_no_newline(cur, s[0]);
        lemma_split_well_formed(s.drop_first(), cur.push(s[0]));
    }
}

proof fn lemma_split_plain_prefix(p: Seq<char>, t: Seq<char>, cur: Seq<char>)
    requires
        !p.contains('\n'),
    ensures
        split_inclusive_from(p + t, cur) == split_inclusive_from(t, cur + p),
    decreases p.len(),
{
    if p.len() == 0 {
        assert(p + t =~= t);
        assert(cur + p =~= cur);
    } else {
        assert((p + t)[0] == p[0]);
        assert(p[0] != '\n') by {
            assert(p.contains(p[0]));
        }
        assert((p + t).drop_first() =~= p.drop_first() + t);
        lemma_sub_no_newline(p, 1, p.len() as int);
        assert(p.drop_first() =~= p.subrange(1, p.len() as int));
        lemma_split_plain_prefix(p.drop_first(), t, cur.push(p[0]));
        assert(cur.push(p[0]) + p.drop_first() =~= cur + p);
    }
}

proof fn lemma_split_concat(ps: Seq<Seq<char>>)
    requires
        well_split(ps),
    ensures
        split_inclusive_lines(concat_pieces(ps)) == ps,
    decreases ps.len(),
{
    if ps.len() > 0 {
        let p = ps[0];
        let rest = ps.drop_first();
        assert(is_piece(p));
        lemma_well_split_skip(ps, 1);
        assert(ps.skip(1) =~= rest);
        lemma_split_concat(rest);
        if p.last() == '\n' {
            let q = p.drop_last();
            assert(q.push('\n') =~= p);
            assert(p + concat_pieces(rest) =~= q + (seq!['\n'] + concat_pieces(rest)));
            lemma_split_plain_prefix(q, seq!['\n'] + concat_pieces(rest), seq![]);
            let t = seq!['\n'] + concat_pieces(rest);
            assert(t[0] == '\n');
            assert(t.drop_first() =~= concat_pieces(rest));
            assert((Seq::<char>::empty() + q).push('\n') =~= p);
            assert(seq![p] + rest =~= ps);
        } else {
            assert(ps.len() == 1);
            assert(rest =~= Seq::<Seq<char>>::empty());
            assert(!p.contains('\n')) by {
                assert forall|i: int| 0 <= i < p.len() implies p[i] != '\n' by {
                    if i < p.len() - 1 {
                        assert(p[i] == p.drop_last()[i]);
                    }
                }
            }
            lemma_split_plain_prefix(p, seq![], seq![]);
            assert(p + Seq::<char>::empty() =~= p);
            assert(Seq::<char>::empty() + p =~= p);
            assert(seq![p] =~= ps);
        }
    }
}

proof fn lemma_concat_pieces_add(a: Seq<Seq<char>>, b: Seq<Seq<char>>)
    ensures
        concat_pieces(a + b) == concat_pieces(a) + concat_pieces(b),
    decreases a.len(),
{
    if a.len() == 0 {
        assert(a + b =~= b);
        assert(Seq::<char>::empty() + concat_pieces(b) =~= concat_pieces(b));
    } else {
        assert((a + b)[0] == a[0]);
        assert((a + b).drop_first() =~= a.drop_first() + b);
        lemma_concat_pieces_add(a.drop_first(), b);
        assert(a[0] + (concat_pieces(a.drop_first()) + concat_pieces(b)) =~= (a[0]
            + concat_pieces(a.drop_first())) + concat_pieces(b));
    }
}

proof fn lemma_concat_single(p: Seq<char>)
    ensures
        concat_pieces(seq![p]) == p,
{
    let ps: Seq<Seq<char>> = seq![p];
    assert(ps.len() == 1);
    assert(ps[0] == p);
    assert(ps.drop_first() =~= Seq::<Seq<char>>::empty());
    assert(concat_pieces(ps.drop_first()) == Seq::<char>::empty());
    assert(p + Seq::<char>::empty() =~= p);
}

proof fn lemma_coalesced_as_pieces(lines: Seq<Seq<char>>)
    ensures
        coalesced(lines) == concat_pieces(coalesced_pieces(lines)),
    decreases lines.len(),
{
    if lines.len() > 0 {
        let l = lines[0];
        if !is_warning_or_error(l) {
            lemma_coalesced_as_pieces(lines.drop_first());
            lemma_concat_pieces_add(seq![l], coalesced_pieces(lines.drop_first()));
            lemma_concat_single(l);
        } else {
            let count = run_length(lines, l);
            lemma_run_length_bound(lines, l);
            lemma_coalesced_as_pieces(lines.skip(count as int));
            lemma_concat_pieces_add(run_pieces(l, count), coalesced_pieces(lines.skip(count as int)));
            lemma_concat_single(l);
            lemma_concat_single(repeat_notice(l, count));
            if count >= 3 {
                let g = seq![l, repeat_notice(l, count)];
                assert(g[0] == l);
                assert(g.drop_first() =~= seq![repeat_notice(l, count)]);
            } else if count == 2 {
                let g = seq![l, l];
                assert(g[0] == l);
                assert(g.drop_first() =~= seq![l]);
            }
        }
    }
}

proof fn lemma_run_length_prefix(lines: Seq<Seq<char>>, x: Seq<char>)
    ensures
        run_length(lines, x) <= lines.len(),
        forall|j: int| 0 <= j < run_length(lines, x) ==> #[trigger] lines[j] == x,
    decreases lines.len(),
{
    if lines.len() > 0 && lines[0] == x {
        lemma_run_length_prefix(lines.drop_first(), x);
        assert forall|j: int| 0 <= j < run_length(lines, x) implies #[trigger] lines[j] == x by {
            if j > 0 {
                assert(lines[j] == lines.drop_first()[j - 1]);
            }
        }
    }
}

proof fn lemma_notice_line_shape(k: nat)
    ensures
        is_piece(notice_line(k)),
        notice_line(k).last() == '\n',
{
    reveal_strlit("[same diagnostic repeated ");
    reveal_strlit(" more times]\n");
    crate::cleanup::lemma_decimal_digits(k);
    let n = notice_line(k);
    let pre = "[same diagnostic repeated "@;
    let d = decimal(k);
    let suf = " more times]\n"@;
    assert(n.drop_last() =~= pre + d + suf.drop_last());
    assert forall|i: int| 0 <= i < n.drop_last().len() implies n.drop_last()[i] != '\n' by {
        if i < pre.len() {
        } else if i < pre.len() + d.len() {
            assert(n.drop_last()[i] == d[i - pre.len()]);
            assert(crate::cleanup::is_digit(d[i - pre.len()]));
        } else {
            assert(n.drop_last()[i] == suf[i - pre.len() - d.len()]);
        }
    }
}

proof fn lemma_notice_line_injective(a: nat, b: nat)
    requires
        notice_line(a) == notice_line(b),
    ensures
        a == b,
{
    let pre = "[same diagnostic repeated "@;
    let suf = " more times]\n"@;
    let na = notice_line(a);
    let nb = notice_line(b);
    assert(na.subrange(pre.len() as int, na.len() - suf.len()) =~= decimal(a));
    assert(nb.subrange(pre.len() as int, nb.len() - suf.len()) =~= decimal(b));
    crate::cleanup::lemma_decimal_digits(a);
    crate::cleanup::lemma_decimal_digits(b);
}

proof fn lemma_coalesced_pieces_head(lines: Seq<Seq<char>>)
    ensures
        (coalesced_pieces(lines).len() == 0) == (lines.len() == 0),
        lines.len() > 0 ==> coalesced_pieces(lines)[0] == lines[0],
{
    if lines.len() > 0 {
        lemma_run_length_bound(lines, lines[0]);
    }
}

proof fn lemma_coalesced_pieces_well_split(lines: Seq<Seq<char>>)
    requires
        well_split(lines),
    ensures
        well_split(coalesced_pieces(lines)),
    decreases lines.len(),
{
    if lines.len() > 0 {
        let l = lines[0];
        let count: nat = if is_warning_or_error(l) {
            run_length(lines, l)
        } else {
            1
        };
        lemma_run_length_bound(lines, l);
        lemma_run_length_prefix(lines, l);
        assert(1 <= count <= lines.len());
        let rest_lines = lines.skip(count as int);
        lemma_well_split_skip(lines, count as int);
        lemma_coalesced_pieces_well_split(rest_lines);
        let rest = coalesced_pieces(rest_lines);
        lemma_coalesced_pieces_head(rest_lines);
        assert(lines[count - 1] == l);
        assert(is_piece(l));
        if count >= 2 {
            assert(l.last() == '\n');
        }
        if rest.len() > 0 {
            assert(l.last() == '\n');
        }
        if !is_warning_or_error(l) {
            assert(lines.drop_first() =~= rest_lines);
            lemma_well_split_prepend(l, rest);
        } else if count >= 3 {
            assert(repeat_notice(l, count) =~= notice_line((count - 1) as nat));
            lemma_notice_line_shape((count - 1) as nat);
            lemma_well_split_prepend(repeat_notice(l, count), rest);
            lemma_well_split_prepend(l, seq![repeat_notice(l, count)] + rest);
            assert(seq![l] + (seq![repeat_notice(l, count)] + rest) =~= run_pieces(l, count)
                + rest);
        } else if count == 2 {
            lemma_well_split_prepend(l, rest);
            lemma_well_split_prepend(l, seq![l] + rest);
            assert(seq![l] + (seq![l] + rest) =~= run_pieces(l, count) + rest);
        } else {
            lemma_well_split_prepend(l, rest);
        }
    }
}

proof fn lemma_concat_repeated(lines: Seq<Seq<char>>, l: Seq<char>, count: nat)
    requires
        count <= lines.len(),
        forall|j: int| 0 <= j < count ==> #[trigger] lines[j] == l,
    ensures
        concat_pieces(lines) == repeat_piece(l, count) + concat_pieces(lines.skip(count as int)),
    decreases count,
{
    if count == 0 {
        assert(lines.skip(0) =~= lines);
        assert(Seq::<char>::empty() + concat_pieces(lines) =~= concat_pieces(lines));
    } else {
        let rest = lines.drop_first();
        assert forall|j: int| 0 <= j < count - 1 implies #[trigger] rest[j] == l by {
            assert(rest[j] == lines[j + 1]);
        }
        lemma_concat_repeated(rest, l, (count - 1) as nat);
        assert(rest.skip(count - 1) =~= lines.skip(count as int));
        assert(lines[0] == l);
        assert(l + (repeat_piece(l, (count - 1) as nat) + concat_pieces(lines.skip(count as int)))
            =~= (l + repeat_piece(l, (count - 1) as nat)) + concat_pieces(
            lines.skip(count as int),
        ));
    }
}

proof fn lemma_expand_after_plain(l: Seq<char>, rest_lines: Seq<Seq<char>>)
    requires
        rest_lines.len() > 0 ==> !is_notice_line(rest_lines[0]),
    ensures
        expand_notices(seq![l] + coalesced_pieces(rest_lines)) == l + expand_notices(
            coalesced_pieces(rest_lines),
        ),
{
    let r = coalesced_pieces(rest_lines);
    let ps = seq![l] + r;
    lemma_coalesced_pieces_head(rest_lines);
    assert(ps[0] == l);
    if r.len() > 0 {
        assert(ps[1] == r[0]);
    }
    assert(ps.drop_first() =~= r);
}

proof fn lemma_expand_coalesced(lines: Seq<Seq<char>>)
    requires
        well_split(lines),
        forall|i: int| 0 <= i < lines.len() ==> !is_notice_line(#[trigger] lines[i]),
    ensures
        expand_notices(coalesced_pieces(lines)) == concat_pieces(lines),
    decreases lines.len(),
{
    if lines.len() > 0 {
        let l = lines[0];
        assert(!is_notice_line(lines[0]));
        lemma_run_length_bound(lines, l);
        lemma_run_length_prefix(lines, l);
        let count: nat = if is_warning_or_error(l) {
            run_length(lines, l)
        } else {
            1
        };
        let rest_lines = lines.skip(count as int);
        lemma_well_split_skip(lines, count as int);
        assert forall|i: int| 0 <= i < rest_lines.len() implies !is_notice_line(
            #[trigger] rest_lines[i],
        ) by {
            assert(rest_lines[i] == lines[count + i]);
        }
        lemma_expand_coalesced(rest_lines);
        if rest_lines.len() > 0 {
            assert(rest_lines[0] == lines[count as int]);
        }
        lemma_concat_repeated(lines, l, count);
        assert(repeat_piece(l, 0) == Seq::<char>::empty());
        assert(repeat_piece(l, 1) == l + repeat_piece(l, 0));
        assert(repeat_piece(l, 1) =~= l + Seq::<char>::empty());
        if !is_warning_or_error(l) || count == 1 {
            assert(lines.drop_first() =~= rest_lines);
            lemma_expand_after_plain(l, rest_lines);
            assert(l + Seq::<char>::empty() =~= l);
        } else if count == 2 {
            let r = coalesced_pieces(rest_lines);
            lemma_expand_after_plain(l, rest_lines);
            let ps = seq![l, l] + r;
            assert(ps =~= seq![l] + (seq![l] + r));
            assert(ps[1] == l);
            assert(ps.drop_first() =~= seq![l] + r);
            assert(repeat_piece(l, 2) == l + repeat_piece(l, 1));
            assert(repeat_piece(l, 2) =~= l + (l + Seq::<char>::empty()));
            assert(l + (l + expand_notices(r)) =~= (l + (l + Seq::<char>::empty()))
                + expand_notices(r));
        } else {
            let r = coalesced_pieces(rest_lines);
            assert(l.last() == '\n') by {
                assert(lines[1] == l);
            }
            let notice = repeat_notice(l, count);
            assert(notice =~= notice_line((count - 1) as nat));
            let ps = seq![l, notice] + r;
            assert(ps[1] == notice_line((count - 1) as nat));
            assert(is_notice_line(ps[1]));
            let k = choose|k: nat| ps[1] == notice_line(k);
            lemma_notice_line_injective(k, (count - 1) as nat);
            assert(ps.skip(2) =~= r);
            assert(ps[0] == l);
        }
    }
}

/// Coalescing loses nothing: when no line of the text is itself a
/// repetition notice, replacing each notice line of the result by that many
/// more copies of the line before it gives back the text exactly.
pub proof fn lemma_coalesce_round_trip(text: Seq<char>)
    requires
        forall|i: int|
            0 <= i < split_inclusive_lines(text).len() ==> !is_notice_line(
                #[trigger] split_inclusive_lines(text)[i],
            ),
    ensures
        expand_notices(split_inclusive_lines(coalesce_diagnostics(text))) == text,
{
    let lines = split_inclusive_lines(text);
    lemma_split_well_formed(text, seq![]);
    lemma_coalesced_as_pieces(lines);
    lemma_coalesced_pieces_well_split(lines);
    lemma_split_concat(coalesced_pieces(lines));
    lemma_expand_coalesced(lines);
    lemma_split_inclusive_concat(text, seq![]);
    assert(Seq::<char>::empty() + text =~= text);
}

/// Whether a trimmed line is a key diagnostic: it starts with `error:`,
/// `fatal:`, `panicked at`, `-->` or `test result: FAILED`, or it is
/// `failures:`.
pub open spec fn is_key_diagnostic(t: Seq<char>) -> bool {
    ||| "error:"@.is_prefix_of(t)
    ||| "fatal:"@.is_prefix_of(t)
    ||| "panicked at"@.is_prefix_of(t)
    ||| "-->"@.is_prefix_of(t)
    ||| t == "failures:"@
    ||| "test result: FAILED"@.is_prefix_of(t)
}

/// `x`, saturated at `usize::MAX`.
pub open spec fn saturate_usize(x: int) -> int {
    if x > usize::MAX {
        usize::MAX as int
    } else {
        x
    }
}

/// The key diagnostics of `lines`, given those already `seen` and the
/// diagnostics text `out` collected so far: each new key diagnostic (trimmed
/// at its start) is appended on a line of its own, until the next one would
/// take the text past `max_bytes` bytes.
pub open spec fn collect_key_diagnostics(
    lines: Seq<Seq<char>>,
    max_bytes: nat,
    seen: Seq<Seq<char>>,
    out: Seq<char>,
) -> Seq<char>
    decreases lines.len(),
{
    if lines.len() == 0 {
        out
    } else {
        let t = trim_start(lines[0]);
        if !is_key_diagnostic(t) || seen.contains(t) {
            collect_key_diagnostics(lines.drop_first(), max_bytes, seen, out)
        } else {
            let sep: int = if out.len() == 0 {
                0
            } else {
                1
            };
            if saturate_usize(utf8_len(out) + sep + utf8_len(t)) > max_bytes {
                out
            } else {
                collect_key_diagnostics(
                    lines.drop_first(),
                    max_bytes,
                    seen.push(t),
                    if out.len() == 0 {
                        t
                    } else {
                        out.push('\n') + t
                    },
                )
            }
        }
    }
}

/// `extract_key_diagnostics` as a function of the text and byte budget.
pub open spec fn key_diagnostics(text: Seq<char>, max_bytes: nat) -> Seq<char> {
    collect_key_diagnostics(text_lines(text), max_bytes, seq![], seq![])
}

fn is_key_diagnostic_line(t: &Vec<char>) -> (r: bool)
    ensures
        r == is_key_diagnostic(t@),
{
    proof {
        assert(t@.skip(0) =~= t@);
    }
    has_str_prefix_at(t, 0, "error:") || has_str_prefix_at(t, 0, "fatal:") || has_str_prefix_at(
        t,
        0,
        "panicked at",
    ) || has_str_prefix_at(t, 0, "-->") || chars_eq_str(t, "failures:") || has_str_prefix_at(
        t,
        0,
        "test result: FAILED",
    )
}

fn contains_line(seen: &Vec<Vec<char>>, t: &Vec<char>) -> (r: bool)
    ensures
        r == views(seen@).contains(t@),
{
    let n = seen.len();
    for i in 0..n
        invariant
            n == seen@.len(),
            forall|j: int| 0 <= j < i ==> seen@[j]@ != t@,
    {
        if chars_eq(&seen[i], t) {
            assert(views(seen@)[i as int] == t@);
            return true;
        }
    }
    assert forall|j: int| 0 <= j < views(seen@).len() implies views(seen@)[j] != t@ by {
        assert(views(seen@)[j] == seen@[j]@);
    }
    false
}

/// `extract_key_diagnostics`: the distinct key diagnostic lines of `text`,
/// trimmed at their start and joined by newlines, as many as fit in
/// `approx_bytes_for_tokens(max_tokens)` bytes.
pub fn extract_key_diagnostics(text: &str, max_tokens: usize) -> (out: String)
    ensures
        out@ == key_diagnostics(text@, spec_approx_bytes_for_tokens(max_tokens) as nat),
{
    let cs = chars_of(text);
    let out = key_diagnostics_chars(&cs, max_tokens);
    string_of(&out)
}

/// `extract_key_diagnostics` on characters.
pub fn key_diagnostics_chars(cs: &Vec<char>, max_tokens: usize) -> (out: Vec<char>)
    ensures
        out@ == key_diagnostics(cs@, spec_approx_bytes_for_tokens(max_tokens) as nat),
{
    let max_bytes = approx_bytes_for_tokens(max_tokens);
    let lines = lines_of(cs);
    let ghost all = views(lines@);
    let mut seen: Vec<Vec<char>> = Vec::new();
    let mut out: Vec<char> = Vec::new();
    let mut out_bytes: u128 = 0;
    let n = lines.len();
    assert(all.skip(0) =~= all);
    assert(views(seen@) =~= Seq::<Seq<char>>::empty());
    for i in 0..n
        invariant
            n == lines@.len(),
            all == views(lines@),
            max_bytes == spec_approx_bytes_for_tokens(max_tokens),
            out_bytes == utf8_len(out@),
            collect_key_diagnostics(all.skip(i as int), max_bytes as nat, views(seen@), out@)
                == key_diagnostics(cs@, max_bytes as nat),
    {
        let ghost rest = all.skip(i as int);
        assert(rest[0] == lines@[i as int]@);
        assert(rest.drop_first() =~= all.skip(i + 1));
        let k = trim_start_index(&lines[i]);
        let t = slice_chars(&lines[i], k, lines[i].len());
        assert(t@ =~= trim_start(rest[0]));
        if is_key_diagnostic_line(&t) && !contains_line(&seen, &t) {
        let out_len = out.len();
        let t_len = t.len();
        proof {
            lemma_utf8_len_bound(out@);
            lemma_utf8_len_bound(t@);
        }
        let t_bytes = utf8_len_of(&t);
        let sep: u128 = if out_len == 0 {
            0
        } else {
            1
        };
        let total: u128 = out_bytes + sep + t_bytes;
        let saturated: usize = if total > usize::MAX as u128 {
            usize::MAX
        } else {
            total as usize
        };
        if saturated > max_bytes {
            assert(collect_key_diagnostics(rest, max_bytes as nat, views(seen@), out@) == out@);
            assert(out@ == key_diagnostics(cs@, max_bytes as nat));
            return out;
        }
        let ghost seen_before = views(seen@);
        seen.push(t.clone());
        assert(views(seen@) =~= seen_before.push(t@));
        if out_len > 0 {
            let ghost before_nl = out@;
            out.push('\n');
            proof {
                lemma_utf8_len_push(before_nl, '\n');
            }
        }
        let ghost mid = out@;
        extend_chars(&mut out, &t);
        proof {
            lemma_utf8_len_concat(mid, t@);
            if out_len == 0 {
                assert(out@ =~= t@);
            }
        }
        out_bytes = total;
        }
    }
    assert(all.skip(n as int) =~= Seq::<Seq<char>>::empty());
    out
}

/// The key diagnostics never take more than the byte budget (short of a
/// budget of `usize::MAX`, where the saturating sum can no longer exceed it).
pub proof fn lemma_key_diagnostics_within_budget(
    lines: Seq<Seq<char>>,
    max_bytes: nat,
    seen: Seq<Seq<char>>,
    out: Seq<char>,
)
    requires
        saturate_usize(utf8_len(out) as int) <= max_bytes,
    ensures
        saturate_usize(utf8_len(collect_key_diagnostics(lines, max_bytes, seen, out)) as int)
            <= max_bytes,
    decreases lines.len(),
{
    if lines.len() > 0 {
        let t = trim_start(lines[0]);
        if !is_key_diagnostic(t) || seen.contains(t) {
            lemma_key_diagnostics_within_budget(lines.drop_first(), max_bytes, seen, out);
        } else {
            let sep: int = if out.len() == 0 {
                0
            } else {
                1
            };
            if saturate_usize(utf8_len(out) + sep + utf8_len(t)) <= max_bytes {
                let next = if out.len() == 0 {
                    t
                } else {
                    out.push('\n') + t
                };
                if out.len() > 0 {
                    lemma_utf8_len_concat(out.push('\n'), t);
                    lemma_utf8_len_push(out, '\n');
                }
                lemma_key_diagnostics_within_budget(
                    lines.drop_first(),
                    max_bytes,
                    seen.push(t),
                    next,
                );
            }
        }
    }
}

/// The key diagnostics extracted from any text fit in the byte budget.
pub proof fn lemma_extracted_diagnostics_fit_budget(text: Seq<char>, max_bytes: nat)
    ensures
        saturate_usize(utf8_len(key_diagnostics(text, max_bytes)) as int) <= max_bytes,
{
    assert(utf8_len(Seq::<char>::empty()) == 0);
    lemma_key_diagnostics_within_budget(text_lines(text), max_bytes, seq![], seq![]);
}

/// Lines joined with newlines between them.
pub open spec fn join_lines(ls: Seq<Seq<char>>) -> Seq<char>
    decreases ls.len(),
{
    if ls.len() == 0 {
        seq![]
    } else if ls.len() == 1 {
        ls[0]
    } else {
        join_lines(ls.drop_last()) + seq!['\n'] + ls.last()
    }
}

/// The key diagnostics that `collect_key_diagnostics` appends, as a list:
/// `seen` with the diagnostics it goes on to take.
pub open spec fn selected_key_diagnostics(
    lines: Seq<Seq<char>>,
    max_bytes: nat,
    seen: Seq<Seq<char>>,
    out: Seq<char>,
) -> Seq<Seq<char>>
    decreases lines.len(),
{
    if lines.len() == 0 {
        seen
    } else {
        let t = trim_start(lines[0]);
        if !is_key_diagnostic(t) || seen.contains(t) {
            selected_key_diagnostics(lines.drop_first(), max_bytes, seen, out)
        } else {
            let sep: int = if out.len() == 0 {
                0
            } else {
                1
            };
            if saturate_usize(utf8_len(out) + sep + utf8_len(t)) > max_bytes {
                seen
            } else {
                selected_key_diagnostics(
                    lines.drop_first(),
                    max_bytes,
                    seen.push(t),
                    if out.len() == 0 {
                        t
                    } else {
                        out.push('\n') + t
                    },
                )
            }
        }
    }
}

proof fn lemma_key_diagnostic_nonempty(t: Seq<char>)
    requires
        is_key_diagnostic(t),
    ensures
        t.len() > 0,
{
    reveal_strlit("error:");
    reveal_strlit("fatal:");
    reveal_strlit("panicked at");
    reveal_strlit("-->");
    reveal_strlit("failures:");
    reveal_strlit("test result: FAILED");
}

proof fn lemma_join_lines_empty(ls: Seq<Seq<char>>)
    requires
        forall|i: int| 0 <= i < ls.len() ==> (#[trigger] ls[i]).len() > 0,
    ensures
        (join_lines(ls).len() == 0) == (ls.len() == 0),
    decreases ls.len(),
{
    if ls.len() > 1 {
        lemma_join_lines_empty(ls.drop_last());
    }
}

proof fn lemma_selected_key_diagnostics(
    lines: Seq<Seq<char>>,
    max_bytes: nat,
    seen: Seq<Seq<char>>,
    out: Seq<char>,
)
    requires
        seen.no_duplicates(),
        out == join_lines(seen),
        forall|i: int| 0 <= i < seen.len() ==> is_key_diagnostic(#[trigger] seen[i]),
    ensures
        ({
            let sel = selected_key_diagnostics(lines, max_bytes, seen, out);
            &&& sel.no_duplicates()
            &&& collect_key_diagnostics(lines, max_bytes, seen, out) == join_lines(sel)
            &&& forall|i: int| 0 <= i < sel.len() ==> is_key_diagnostic(#[trigger] sel[i])
            &&& seen.is_prefix_of(sel)
            &&& forall|i: int|
                seen.len() <= i < sel.len() ==> exists|j: int|
                    0 <= j < lines.len() && (#[trigger] sel[i]) == trim_start(lines[j])
        }),
    decreases lines.len(),
{
    if lines.len() > 0 {
        let t = trim_start(lines[0]);
        let rest = lines.drop_first();
        if !is_key_diagnostic(t) || seen.contains(t) {
            lemma_selected_key_diagnostics(rest, max_bytes, seen, out);
            let sel = selected_key_diagnostics(rest, max_bytes, seen, out);
            assert forall|i: int| seen.len() <= i < sel.len() implies exists|j: int|
                0 <= j < lines.len() && (#[trigger] sel[i]) == trim_start(lines[j]) by {
                let j = choose|j: int| 0 <= j < rest.len() && sel[i] == trim_start(rest[j]);
                assert(rest[j] == lines[j + 1]);
            }
        } else {
            let sep: int = if out.len() == 0 {
                0
            } else {
                1
            };
            if saturate_usize(utf8_len(out) + sep + utf8_len(t)) <= max_bytes {
                let next_seen = seen.push(t);
                let next_out = if out.len() == 0 {
                    t
                } else {
                    out.push('\n') + t
                };
                assert(next_seen.no_duplicates()) by {
                    assert forall|a: int, b: int|
                        0 <= a < next_seen.len() && 0 <= b < next_seen.len() && a != b implies next_seen[a]
                        != next_seen[b] by {
                        if a == seen.len() as int {
                            assert(next_seen[b] == seen[b]);
                        } else if b == seen.len() as int {
                            assert(next_seen[a] == seen[a]);
                        }
                    }
                }
                assert(next_out == join_lines(next_seen)) by {
                    assert forall|i: int| 0 <= i < seen.len() implies (#[trigger] seen[i]).len() > 0 by {
                        lemma_key_diagnostic_nonempty(seen[i]);
                    }
                    lemma_join_lines_empty(seen);
                    assert(next_seen.drop_last() =~= seen);
                    if seen.len() == 0 {
                        assert(next_seen =~= seq![t]);
                    } else {
                        assert(out.push('\n') + t =~= out + seq!['\n'] + t);
                    }
                }
                assert forall|i: int| 0 <= i < next_seen.len() implies is_key_diagnostic(
                    #[trigger] next_seen[i],
                ) by {
                    if i < seen.len() {
                        assert(next_seen[i] == seen[i]);
                    }
                }
                lemma_selected_key_diagnostics(rest, max_bytes, next_seen, next_out);
                let sel = selected_key_diagnostics(rest, max_bytes, next_seen, next_out);
                assert(sel[seen.len() as int] == next_seen[seen.len() as int]);
                assert forall|i: int| seen.len() <= i < sel.len() implies exists|j: int|
                    0 <= j < lines.len() && (#[trigger] sel[i]) == trim_start(lines[j]) by {
                    if i == seen.len() as int {
                        assert(sel[i] == trim_start(lines[0]));
                    } else {
                        let j = choose|j: int| 0 <= j < rest.len() && sel[i] == trim_start(rest[j]);
                        assert(rest[j] == lines[j + 1]);
                    }
                }
                assert(seen.is_prefix_of(sel)) by {
                    assert forall|i: int| 0 <= i < seen.len() implies sel[i] == seen[i] by {
                        assert(sel[i] == next_seen[i]);
                    }
                    assert(seen =~= sel.subrange(0, seen.len() as int));
                }
            } else {
                assert(seen =~= seen.subrange(0, seen.len() as int));
            }
        }
    } else {
        assert(seen =~= seen.subrange(0, seen.len() as int));
    }
}

/// The key diagnostics are distinct lines of the text, each trimmed at its
/// start and each a key diagnostic, joined by newlines.
pub proof fn lemma_extracted_diagnostics_are_distinct(text: Seq<char>, max_bytes: nat)
    ensures
        exists|sel: Seq<Seq<char>>|
            {
                &&& sel.no_duplicates()
                &&& key_diagnostics(text, max_bytes) == join_lines(sel)
                &&& forall|i: int| 0 <= i < sel.len() ==> is_key_diagnostic(#[trigger] sel[i])
                &&& forall|i: int|
                    0 <= i < sel.len() ==> exists|j: int|
                        0 <= j < text_lines(text).len() && (#[trigger] sel[i]) == trim_start(
                            text_lines(text)[j],
                        )
            },
{
    let lines = text_lines(text);
    let empty: Seq<Seq<char>> = seq![];
    assert(empty.no_duplicates());
    assert(join_lines(empty) == Seq::<char>::empty());
    lemma_selected_key_diagnostics(lines, max_bytes, empty, seq![]);
    let sel = selected_key_diagnostics(lines, max_bytes, empty, seq![]);
    assert(sel.no_duplicates());
    assert(key_diagnostics(text, max_bytes) == join_lines(sel));
}

/// The header placed before the extracted key diagnostics.
pub open spec fn diagnostics_header() -> Seq<char> {
    "Key diagnostics extracted from full output:\n"@
}

/// The header placed between the key diagnostics and the full output.
pub open spec fn full_output_header() -> Seq<char> {
    "\n\nFull output (head/tail preserved below):\n"@
}

/// What `prepare_model_output` returns for `text`: the text with colour
/// removed and repeated diagnostics coalesced; when the command failed and
/// that text is longer than the token budget allows, and key diagnostics can
/// be found in a fifth of the budget, those diagnostics come first.
pub open spec fn model_output(text: Seq<char>, failed: bool, max_tokens: usize) -> Seq<char> {
    let normalized = coalesce_diagnostics(strip_sgr(text));
    if !failed || utf8_len(normalized) <= spec_approx_bytes_for_tokens(max_tokens) {
        normalized
    } else {
        let diagnostics = key_diagnostics(
            normalized,
            spec_approx_bytes_for_tokens(max_tokens / 5) as nat,
        );
        if diagnostics.len() == 0 {
            normalized
        } else {
            diagnostics_header() + diagnostics + full_output_header() + normalized
        }
    }
}

/// `prepare_model_output`.
pub fn prepare_model_output(text: &str, failed: bool, max_tokens: usize) -> (out: String)
    ensures
        out@ == model_output(text@, failed, max_tokens),
{
    let cs = chars_of(text);
    let stripped = strip_sgr_chars(&cs);
    let normalized = coalesce_chars(&stripped);
    let limit = approx_bytes_for_tokens(max_tokens);
    if !failed || utf8_len_of(&normalized) <= limit as u128 {
        return string_of(&normalized);
    }
    let diagnostics = key_diagnostics_chars(&normalized, max_tokens / 5);
    if diagnostics.len() == 0 {
        return string_of(&normalized);
    }
    let mut out: Vec<char> = Vec::new();
    extend_str(&mut out, "Key diagnostics extracted from full output:\n");
    extend_chars(&mut out, &diagnostics);
    extend_str(&mut out, "\n\nFull output (head/tail preserved below):\n");
    extend_chars(&mut out, &normalized);
    assert(out@ =~= diagnostics_header() + diagnostics@ + full_output_header() + normalized@);
    string_of(&out)
}

/// Preparing output is the composition of the other operations: the text
/// is stripped of colour and its repeated diagnostics coalesced, and when the
/// command failed and that text is over the budget, the key diagnostics
/// extracted from that same stripped, coalesced text (within a fifth of the
/// budget) lead it under their header. The output always ends with the
/// stripped, coalesced text, and each diagnostic put before it is a distinct
/// key-diagnostic line of that text, trimmed at its start.
pub proof fn lemma_prepared_output_leads_with_normalized_diagnostics(
    text: Seq<char>,
    failed: bool,
    max_tokens: usize,
)
    ensures
        ({
            let normalized = coalesce_diagnostics(strip_sgr(text));
            let over = failed && utf8_len(normalized) > spec_approx_bytes_for_tokens(max_tokens);
            let diagnostics = key_diagnostics(
                normalized,
                spec_approx_bytes_for_tokens(max_tokens / 5) as nat,
            );
            let out = model_output(text, failed, max_tokens);
            &&& out == (if over && diagnostics.len() > 0 {
                "Key diagnostics extracted from full output:\n"@ + diagnostics
                    + "\n\nFull output (head/tail preserved below):\n"@ + normalized
            } else {
                normalized
            })
            &&& out.len() >= normalized.len()
            &&& out.subrange(out.len() - normalized.len(), out.len() as int) == normalized
            &&& exists|sel: Seq<Seq<char>>|
                {
                    &&& sel.no_duplicates()
                    &&& diagnostics == join_lines(sel)
                    &&& forall|i: int|
                        0 <= i < sel.len() ==> is_key_diagnostic(#[trigger] sel[i])
                    &&& forall|i: int|
                        0 <= i < sel.len() ==> exists|j: int|
                            0 <= j < text_lines(normalized).len() && (#[trigger] sel[i])
                                == trim_start(text_lines(normalized)[j])
                }
        }),
{
    let normalized = coalesce_diagnostics(strip_sgr(text));
    let b5 = spec_approx_bytes_for_tokens(max_tokens / 5) as nat;
    lemma_extracted_diagnostics_are_distinct(normalized, b5);
    let out = model_output(text, failed, max_tokens);
    let diagnostics = key_diagnostics(normalized, b5);
    let prefix = diagnostics_header() + diagnostics + full_output_header();
    assert((prefix + normalized).subrange(prefix.len() as int, (prefix + normalized).len() as int)
        =~= normalized);
    assert(normalized.subrange(0, normalized.len() as int) =~= normalized);
}

} // verus!
