//! Character-sequence helpers shared by the text-processing modules.
//!
//! Strings are modelled by their `Seq<char>` view. The helpers here give
//! executable counterparts, proved against spec functions, for the handful of
//! `str` operations that the library needs (`trim_start`, `lines`,
//! `split_inclusive('\n')`, prefix tests, decimal and hexadecimal rendering).
use vstd::prelude::*;
use vstd::utf8::*;

verus! {

broadcast use vstd::string::group_string_axioms;

/// `String::push`: the contract claims that the string's characters are
/// the old ones followed by `c`, as std documents.
#[verifier::external_body]
pub(crate) fn push_char(s: &mut String, c: char)
    ensures
        final(s)@ == old(s)@.push(c),
{
    s.push(c);
}

/// The view of each element of a vector of character vectors.
pub open spec fn views(v: Seq<Vec<char>>) -> Seq<Seq<char>> {
    v.map_values(|l: Vec<char>| l@)
}

/// The characters of a string slice, in order.
pub fn chars_of(s: &str) -> (v: Vec<char>)
    ensures
        v@ == s@,
{
    let mut v: Vec<char> = Vec::new();
    for c in it: s.chars()
        invariant
            v@ == it.seq().take(it.index() as int),
    {
        v.push(c);
    }
    v
}

/// A string holding exactly the given characters.
pub fn string_of(cs: &Vec<char>) -> (s: String)
    ensures
        s@ == cs@,
{
    let mut s = String::new();
    let n = cs.len();
    for i in 0..n
        invariant
            n == cs@.len(),
            s@ == cs@.take(i as int),
    {
        push_char(&mut s, cs[i]);
        assert(cs@.take(i + 1) =~= cs@.take(i as int).push(cs@[i as int]));
    }
    assert(cs@.take(n as int) =~= cs@);
    s
}

/// Appends all of `src` to `dst`.
pub fn extend_chars(dst: &mut Vec<char>, src: &Vec<char>)
    ensures
        final(dst)@ == old(dst)@ + src@,
{
    let n = src.len();
    for i in 0..n
        invariant
            n == src@.len(),
            dst@ == old(dst)@ + src@.take(i as int),
    {
        dst.push(src[i]);
        assert(src@.take(i + 1) =~= src@.take(i as int).push(src@[i as int]));
    }
    assert(src@.take(n as int) =~= src@);
}

/// Appends the characters of a string slice to `dst`.
pub fn extend_str(dst: &mut Vec<char>, src: &str)
    ensures
        final(dst)@ == old(dst)@ + src@,
{
    let cs = chars_of(src);
    extend_chars(dst, &cs);
}

/// Equality of two character vectors.
pub fn chars_eq(a: &Vec<char>, b: &Vec<char>) -> (r: bool)
    ensures
        r == (a@ == b@),
{
    if a.len() != b.len() {
        return false;
    }
    let n = a.len();
    for i in 0..n
        invariant
            n == a@.len(),
            n == b@.len(),
            forall|j: int| 0 <= j < i ==> a@[j] == b@[j],
    {
        if a[i] != b[i] {
            return false;
        }
    }
    assert(a@ =~= b@);
    true
}

/// Equality of a character vector and a string slice.
pub fn chars_eq_str(a: &Vec<char>, b: &str) -> (r: bool)
    ensures
        r == (a@ == b@),
{
    let bs = chars_of(b);
    chars_eq(a, &bs)
}

/// Equality of two string slices, by their characters.
pub fn str_eq(a: &str, b: &str) -> (r: bool)
    ensures
        r == (a@ == b@),
{
    let cs = chars_of(a);
    chars_eq_str(&cs, b)
}

/// Whether `p` occurs in `s` starting at character position `start`.
pub fn has_prefix_at(s: &Vec<char>, start: usize, p: &Vec<char>) -> (r: bool)
    requires
        start <= s@.len(),
    ensures
        r == p@.is_prefix_of(s@.skip(start as int)),
{
    if s.len() - start < p.len() {
        return false;
    }
    let n = p.len();
    let sl = s.len();
    for i in 0..n
        invariant
            n == p@.len(),
            sl == s@.len(),
            start + n <= sl,
            forall|j: int| 0 <= j < i ==> p@[j] == s@[start + j],
    {
        if s[start + i] != p[i] {
            assert(s@.skip(start as int)[i as int] == s@[start + i]);
            return false;
        }
    }
    assert(p@ =~= s@.skip(start as int).subrange(0, p@.len() as int));
    true
}

/// Whether the string slice `p` occurs in `s` starting at character position `start`.
pub fn has_str_prefix_at(s: &Vec<char>, start: usize, p: &str) -> (r: bool)
    requires
        start <= s@.len(),
    ensures
        r == p@.is_prefix_of(s@.skip(start as int)),
{
    let ps = chars_of(p);
    has_prefix_at(s, start, &ps)
}

/// The Unicode `White_Space` property, as `char::is_whitespace` decides it.
pub open spec fn is_whitespace(c: char) -> bool {
    let v = c as u32;
    ||| 0x9 <= v <= 0xD
    ||| v == 0x20
    ||| v == 0x85
    ||| v == 0xA0
    ||| v == 0x1680
    ||| 0x2000 <= v <= 0x200A
    ||| v == 0x2028
    ||| v == 0x2029
    ||| v == 0x202F
    ||| v == 0x205F
    ||| v == 0x3000
}

/// `char::is_whitespace`.
pub fn char_is_whitespace(c: char) -> (r: bool)
    ensures
        r == is_whitespace(c),
{
    let v = c as u32;
    (0x9 <= v && v <= 0xD) || v == 0x20 || v == 0x85 || v == 0xA0 || v == 0x1680 || (0x2000 <= v
        && v <= 0x200A) || v == 0x2028 || v == 0x2029 || v == 0x202F || v == 0x205F || v == 0x3000
}

/// `str::trim_start`: the sequence without its leading white space.
pub open spec fn trim_start(s: Seq<char>) -> Seq<char>
    decreases s.len(),
{
    if s.len() > 0 && is_whitespace(s[0]) {
        trim_start(s.drop_first())
    } else {
        s
    }
}

/// `str::trim_end`: the sequence without its trailing white space.
pub open spec fn trim_end(s: Seq<char>) -> Seq<char>
    decreases s.len(),
{
    if s.len() > 0 && is_whitespace(s.last()) {
        trim_end(s.drop_last())
    } else {
        s
    }
}

/// `str::trim`.
pub open spec fn trim(s: Seq<char>) -> Seq<char> {
    trim_end(trim_start(s))
}

/// The position of the first character that `trim_start` keeps.
pub fn trim_start_index(s: &Vec<char>) -> (k: usize)
    ensures
        k <= s@.len(),
        trim_start(s@) == s@.skip(k as int),
{
    let mut k: usize = 0;
    assert(s@.skip(0) =~= s@);
    while k < s.len() && char_is_whitespace(s[k as usize])
        invariant
            k <= s@.len(),
            trim_start(s@) == trim_start(s@.skip(k as int)),
        decreases s@.len() - k,
    {
        assert(s@.skip(k as int).drop_first() =~= s@.skip(k + 1));
        k = k + 1;
    }
    k
}

/// The sequence `s[from..to]` as a new vector.
pub fn slice_chars(s: &Vec<char>, from: usize, to: usize) -> (r: Vec<char>)
    requires
        from <= to <= s@.len(),
    ensures
        r@ == s@.subrange(from as int, to as int),
{
    let mut r: Vec<char> = Vec::new();
    let mut i = from;
    while i < to
        invariant
            from <= i <= to <= s@.len(),
            r@ == s@.subrange(from as int, i as int),
        decreases to - i,
    {
        r.push(s[i]);
        assert(s@.subrange(from as int, i + 1) =~= s@.subrange(from as int, i as int).push(
            s@[i as int],
        ));
        i = i + 1;
    }
    r
}

/// `str::trim`, on characters.
pub fn trim_chars(s: &Vec<char>) -> (r: Vec<char>)
    ensures
        r@ == trim(s@),
{
    let k = trim_start_index(s);
    let ghost t = s@.skip(k as int);
    let mut end = s.len();
    assert(s@.subrange(k as int, end as int) =~= t);
    while end > k && char_is_whitespace(s[end - 1])
        invariant
            k <= end <= s@.len(),
            t == s@.skip(k as int),
            trim_end(t) == trim_end(s@.subrange(k as int, end as int)),
        decreases end,
    {
        assert(s@.subrange(k as int, end as int).drop_last() =~= s@.subrange(
            k as int,
            end - 1,
        ));
        end = end - 1;
    }
    slice_chars(s, k, end)
}

/// The pieces of `split_inclusive('\n')`: `s` is cut after each newline, each
/// piece keeps its newline, and no empty piece is produced. `cur` holds the
/// characters of the unfinished piece.
pub open spec fn split_inclusive_from(s: Seq<char>, cur: Seq<char>) -> Seq<Seq<char>>
    decreases s.len(),
{
    if s.len() == 0 {
        if cur.len() == 0 {
            seq![]
        } else {
            seq![cur]
        }
    } else if s[0] == '\n' {
        seq![cur.push('\n')] + split_inclusive_from(s.drop_first(), seq![])
    } else {
        split_inclusive_from(s.drop_first(), cur.push(s[0]))
    }
}

/// `str::split_inclusive('\n')`.
pub open spec fn split_inclusive_lines(s: Seq<char>) -> Seq<Seq<char>> {
    split_inclusive_from(s, seq![])
}

/// The line that `str::lines` yields for one piece of `split_inclusive('\n')`:
/// a final `\n` is dropped, and then a `\r` before it.
pub open spec fn strip_line_ending(piece: Seq<char>) -> Seq<char> {
    if piece.len() > 0 && piece.last() == '\n' {
        let line = piece.drop_last();
        if line.len() > 0 && line.last() == '\r' {
            line.drop_last()
        } else {
            line
        }
    } else {
        piece
    }
}

/// `str::lines`.
pub open spec fn text_lines(s: Seq<char>) -> Seq<Seq<char>> {
    split_inclusive_lines(s).map_values(|p: Seq<char>| strip_line_ending(p))
}

/// Splits `s` into the pieces of `split_inclusive('\n')`.
pub fn split_inclusive_newline(s: &Vec<char>) -> (pieces: Vec<Vec<char>>)
    ensures
        views(pieces@) == split_inclusive_lines(s@),
{
    let mut pieces: Vec<Vec<char>> = Vec::new();
    let mut cur: Vec<char> = Vec::new();
    let n = s.len();
    assert(s@.skip(0) =~= s@);
    for i in 0..n
        invariant
            n == s@.len(),
            views(pieces@) + split_inclusive_from(s@.skip(i as int), cur@)
                == split_inclusive_lines(s@),
    {
        let ghost rest = s@.skip(i as int);
        assert(rest.drop_first() =~= s@.skip(i + 1));
        assert(rest[0] == s@[i as int]);
        let c = s[i];
        if c == '\n' {
            cur.push('\n');
            let piece = cur;
            cur = Vec::new();
            let ghost before = views(pieces@);
            pieces.push(piece);
            assert(views(pieces@) =~= before.push(piece@));
            assert(cur@ =~= Seq::<char>::empty());
            assert(before.push(piece@) + split_inclusive_from(s@.skip(i + 1), cur@) =~= before + (
            seq![piece@] + split_inclusive_from(s@.skip(i + 1), cur@)));
        } else {
            cur.push(c);
        }
    }
    assert(s@.skip(n as int) =~= Seq::<char>::empty());
    if cur.len() > 0 {
        let ghost before = views(pieces@);
        pieces.push(cur);
        assert(views(pieces@) =~= before.push(pieces@.last()@));
    } else {
        assert(views(pieces@) + seq![] =~= views(pieces@));
    }
    assert(views(pieces@) =~= split_inclusive_lines(s@));
    pieces
}

/// The line of `str::lines` for one piece of `split_inclusive('\n')`.
pub fn strip_line_ending_chars(piece: &Vec<char>) -> (line: Vec<char>)
    ensures
        line@ == strip_line_ending(piece@),
{
    let n = piece.len();
    if n > 0 && piece[n - 1] == '\n' {
        if n > 1 && piece[n - 2] == '\r' {
            slice_chars(piece, 0, n - 2)
        } else {
            slice_chars(piece, 0, n - 1)
        }
    } else {
        slice_chars(piece, 0, n)
    }
}

/// Splits `s` into the lines of `str::lines`.
pub fn lines_of(s: &Vec<char>) -> (lines: Vec<Vec<char>>)
    ensures
        views(lines@) == text_lines(s@),
{
    let pieces = split_inclusive_newline(s);
    let mut lines: Vec<Vec<char>> = Vec::new();
    let n = pieces.len();
    for i in 0..n
        invariant
            n == pieces@.len(),
            views(pieces@) == split_inclusive_lines(s@),
            lines@.len() == i,
            forall|j: int| 0 <= j < i ==> lines@[j]@ == strip_line_ending(pieces@[j]@),
    {
        let line = strip_line_ending_chars(&pieces[i]);
        lines.push(line);
    }
    assert(views(lines@) =~= text_lines(s@)) by {
        assert(views(pieces@).len() == n);
        assert forall|j: int| 0 <= j < n implies views(lines@)[j] == text_lines(s@)[j] by {
            assert(views(pieces@)[j] == pieces@[j]@);
        }
    }
    lines
}

/// The decimal digit character for `d < 10`.
pub open spec fn digit_char(d: nat) -> char {
    if d == 0 {
        '0'
    } else if d == 1 {
        '1'
    } else if d == 2 {
        '2'
    } else if d == 3 {
        '3'
    } else if d == 4 {
        '4'
    } else if d == 5 {
        '5'
    } else if d == 6 {
        '6'
    } else if d == 7 {
        '7'
    } else if d == 8 {
        '8'
    } else {
        '9'
    }
}

/// The decimal rendering of `n`, as `Display` for unsigned integers writes it.
pub open spec fn decimal(n: nat) -> Seq<char>
    decreases n,
{
    if n < 10 {
        seq![digit_char(n)]
    } else {
        decimal(n / 10).push(digit_char(n % 10))
    }
}

fn digit(d: u64) -> (c: char)
    requires
        d < 10,
    ensures
        c == digit_char(d as nat),
{
    if d == 0 {
        '0'
    } else if d == 1 {
        '1'
    } else if d == 2 {
        '2'
    } else if d == 3 {
        '3'
    } else if d == 4 {
        '4'
    } else if d == 5 {
        '5'
    } else if d == 6 {
        '6'
    } else if d == 7 {
        '7'
    } else if d == 8 {
        '8'
    } else {
        '9'
    }
}

/// Appends the decimal rendering of `n` to `dst`.
pub fn push_decimal(dst: &mut Vec<char>, n: u64)
    ensures
        final(dst)@ == old(dst)@ + decimal(n as nat),
    decreases n,
{
    if n < 10 {
        dst.push(digit(n));
        assert(decimal(n as nat) =~= seq![digit_char(n as nat)]);
    } else {
        push_decimal(dst, n / 10);
        dst.push(digit(n % 10));
        assert(decimal(n as nat) =~= decimal((n / 10) as nat).push(digit_char((n % 10) as nat)));
    }
}

/// The lower-case hexadecimal digit character for `d < 16`.
pub open spec fn hex_digit_char(d: nat) -> char {
    if d < 10 {
        digit_char(d)
    } else if d == 10 {
        'a'
    } else if d == 11 {
        'b'
    } else if d == 12 {
        'c'
    } else if d == 13 {
        'd'
    } else if d == 14 {
        'e'
    } else {
        'f'
    }
}

/// The lower-case hexadecimal digit for `d < 16`.
pub fn hex_digit(d: u64) -> (c: char)
    requires
        d < 16,
    ensures
        c == hex_digit_char(d as nat),
{
    if d < 10 {
        digit(d)
    } else if d == 10 {
        'a'
    } else if d == 11 {
        'b'
    } else if d == 12 {
        'c'
    } else if d == 13 {
        'd'
    } else if d == 14 {
        'e'
    } else {
        'f'
    }
}

/// The `width` lowest hexadecimal digits of `n`, most significant first
/// (`format!("{n:0width$x}")` when `n < 16^width`).
pub open spec fn hex_digits(n: nat, width: nat) -> Seq<char>
    decreases width,
{
    if width == 0 {
        seq![]
    } else {
        hex_digits(n / 16, (width - 1) as nat).push(hex_digit_char(n % 16))
    }
}

/// Whether a character is a lower-case hexadecimal digit.
pub open spec fn is_lower_hex_digit(c: char) -> bool {
    (0x30 <= (c as u32) <= 0x39) || (0x61 <= (c as u32) <= 0x66)
}

/// `hex_digits(n, width)` is `width` lower-case hexadecimal digits.
pub proof fn lemma_hex_digits_shape(n: nat, width: nat)
    ensures
        hex_digits(n, width).len() == width,
        forall|i: int| 0 <= i < width ==> is_lower_hex_digit(#[trigger] hex_digits(n, width)[i]),
    decreases width,
{
    if width > 0 {
        lemma_hex_digits_shape(n / 16, (width - 1) as nat);
        let prev = hex_digits(n / 16, (width - 1) as nat);
        let d = hex_digit_char(n % 16);
        assert(is_lower_hex_digit(d));
        assert forall|i: int| 0 <= i < width implies is_lower_hex_digit(
            #[trigger] hex_digits(n, width)[i],
        ) by {
            if i < width - 1 {
                assert(hex_digits(n, width)[i] == prev[i]);
            }
        }
    }
}

/// `16` to the power `w`.
pub open spec fn pow16(w: nat) -> nat
    decreases w,
{
    if w == 0 {
        1
    } else {
        16 * pow16((w - 1) as nat)
    }
}

/// Distinct hexadecimal digit values give distinct characters.
proof fn lemma_hex_digit_char_injective(a: nat, b: nat)
    requires
        a < 16,
        b < 16,
        hex_digit_char(a) == hex_digit_char(b),
    ensures
        a == b,
{
}

/// Two numbers below `16^width` with the same `width` hexadecimal digits are
/// equal.
pub proof fn lemma_hex_digits_injective(a: nat, b: nat, width: nat)
    requires
        a < pow16(width),
        b < pow16(width),
        hex_digits(a, width) == hex_digits(b, width),
    ensures
        a == b,
    decreases width,
{
    if width > 0 {
        let w = (width - 1) as nat;
        let pa = hex_digits(a / 16, w);
        let pb = hex_digits(b / 16, w);
        assert(hex_digits(a, width) == pa.push(hex_digit_char(a % 16)));
        assert(hex_digits(b, width) == pb.push(hex_digit_char(b % 16)));
        assert(pa =~= hex_digits(a, width).drop_last());
        assert(pb =~= hex_digits(b, width).drop_last());
        assert(hex_digits(a, width).last() == hex_digit_char(a % 16));
        assert(hex_digits(b, width).last() == hex_digit_char(b % 16));
        lemma_hex_digit_char_injective(a % 16, b % 16);
        assert(a / 16 < pow16(w)) by (nonlinear_arith)
            requires
                a < 16 * pow16(w),
        ;
        assert(b / 16 < pow16(w)) by (nonlinear_arith)
            requires
                b < 16 * pow16(w),
        ;
        lemma_hex_digits_injective(a / 16, b / 16, w);
    } else {
        assert(pow16(0) == 1);
    }
}

/// Appends the `width` lowest hexadecimal digits of `n` to `dst`.
pub fn push_hex_digits(dst: &mut Vec<char>, n: u64, width: u64)
    ensures
        final(dst)@ == old(dst)@ + hex_digits(n as nat, width as nat),
    decreases width,
{
    if width == 0 {
        assert(hex_digits(n as nat, 0) =~= Seq::<char>::empty());
        assert(dst@ =~= dst@ + Seq::<char>::empty());
    } else {
        push_hex_digits(dst, n / 16, width - 1);
        dst.push(hex_digit(n % 16));
        assert(hex_digits(n as nat, width as nat) =~= hex_digits(
            (n / 16) as nat,
            (width - 1) as nat,
        ).push(hex_digit_char((n % 16) as nat)));
    }
}

/// The number of bytes of the UTF-8 encoding of `c`.
pub open spec fn char_utf8_width(c: char) -> nat {
    let v = c as u32;
    if v <= 0x7F {
        1
    } else if v <= 0x7FF {
        2
    } else if v <= 0xFFFF {
        3
    } else {
        4
    }
}

/// The number of bytes of the UTF-8 encoding of `s` (`str::len` of such a string).
pub open spec fn utf8_len(s: Seq<char>) -> nat
    decreases s.len(),
{
    if s.len() == 0 {
        0
    } else {
        char_utf8_width(s[0]) + utf8_len(s.drop_first())
    }
}

/// `utf8_len` is the length of vstd's UTF-8 encoding.
pub proof fn lemma_utf8_len_encoding(s: Seq<char>)
    ensures
        utf8_len(s) == encode_utf8(s).len(),
    decreases s.len(),
{
    if s.len() > 0 {
        let v = s[0] as u32;
        assert(is_scalar(v)) by {
            char_is_scalar(s[0]);
        }
        lemma_utf8_len_encoding(s.drop_first());
    }
}

/// The byte length of a concatenation is the sum of the byte lengths.
pub proof fn lemma_utf8_len_concat(a: Seq<char>, b: Seq<char>)
    ensures
        utf8_len(a + b) == utf8_len(a) + utf8_len(b),
    decreases a.len(),
{
    if a.len() > 0 {
        assert((a + b).drop_first() =~= a.drop_first() + b);
        lemma_utf8_len_concat(a.drop_first(), b);
    } else {
        assert(a + b =~= b);
    }
}

/// Appending a character adds its width to the byte length.
pub proof fn lemma_utf8_len_push(s: Seq<char>, c: char)
    ensures
        utf8_len(s.push(c)) == utf8_len(s) + char_utf8_width(c),
{
    lemma_utf8_len_concat(s, seq![c]);
    assert(s + seq![c] =~= s.push(c));
    assert(seq![c][0] == c);
    assert(seq![c].drop_first() =~= Seq::<char>::empty());
    assert(utf8_len(Seq::<char>::empty()) == 0);
}

/// The byte length of a sequence of characters is at most four per character.
pub proof fn lemma_utf8_len_bound(s: Seq<char>)
    ensures
        s.len() <= utf8_len(s) <= 4 * s.len(),
    decreases s.len(),
{
    if s.len() > 0 {
        lemma_utf8_len_bound(s.drop_first());
    }
}

/// The UTF-8 width of one character.
pub fn utf8_width(c: char) -> (w: u128)
    ensures
        w == char_utf8_width(c),
        w == utf8_len(seq![c]),
{
    let v = c as u32;
    assert(seq![c].drop_first() =~= Seq::<char>::empty());
    assert(seq![c][0] == c);
    assert(utf8_len(Seq::<char>::empty()) == 0);
    if v <= 0x7F {
        1
    } else if v <= 0x7FF {
        2
    } else if v <= 0xFFFF {
        3
    } else {
        4
    }
}

/// The UTF-8 byte length of a character vector.
pub fn utf8_len_of(s: &Vec<char>) -> (n: u128)
    ensures
        n == utf8_len(s@),
{
    let mut total: u128 = 0;
    let len = s.len();
    for i in 0..len
        invariant
            len == s@.len(),
            total == utf8_len(s@.take(i as int)),
            total <= 4 * i,
    {
        proof {
            lemma_utf8_len_concat(s@.take(i as int), seq![s@[i as int]]);
            assert(s@.take(i + 1) =~= s@.take(i as int) + seq![s@[i as int]]);
        }
        let w = utf8_width(s[i]);
        total = total + w;
    }
    assert(s@.take(len as int) =~= s@);
    total
}

} // verus!
