//! Shared parsing primitives: character classes, line splitting with source
//! offsets, decimal numbers, and the error payload that parsers hand back so
//! callers can render source-annotated diagnostics.
use vstd::prelude::*;

verus! {

/// One recorded parse failure: a character-offset span into the source text
/// plus a human-readable message.
#[derive(Debug, Clone)]
pub struct ParseError {
    pub start: usize,
    pub end: usize,
    pub message: String,
}

/// The diagnostic payload of a failed parse: the original source text and
/// every error collected while walking it.
#[derive(Debug)]
pub struct ParseErrors {
    pub source: String,
    pub errors: Vec<ParseError>,
}

/// Names what `char::is_alphabetic` returns: a function of the character
/// alone (the Unicode `Alphabetic` property).
pub uninterp spec fn char_alphabetic(c: char) -> bool;

/// Relies on `char::is_alphabetic`: true exactly for characters with the
/// Unicode `Alphabetic` property; on ASCII these are the letters.
#[verifier::external_body]
pub fn exec_char_alphabetic(c: char) -> (r: bool)
    ensures
        r == char_alphabetic(c),
        'a' <= c <= 'z' || 'A' <= c <= 'Z' ==> r,
        c < '\u{80}' && !('a' <= c <= 'z') && !('A' <= c <= 'Z') ==> !r,
{
    c.is_alphabetic()
}

/// Relies on `str::chars` and `Iterator::collect`: the characters of the
/// string, in order.
#[verifier::external_body]
pub fn chars_of(s: &str) -> (r: Vec<char>)
    ensures
        r@ == s@,
{
    s.chars().collect()
}

/// Relies on `Iterator::collect` for `String`: the string made of exactly
/// these characters, in order.
#[verifier::external_body]
pub fn string_of(cs: &Vec<char>) -> (r: String)
    ensures
        r@ == cs@,
{
    cs.iter().collect()
}

/// Whether the two strings hold the same characters.
pub fn str_eq(a: &str, b: &str) -> (r: bool)
    ensures
        r == (a@ == b@),
{
    let va = chars_of(a);
    let vb = chars_of(b);
    if va.len() != vb.len() {
        return false;
    }
    let mut i: usize = 0;
    while i < va.len()
        invariant
            i <= va@.len(),
            va@.len() == vb@.len(),
            va@ == a@,
            vb@ == b@,
            forall|k: int| 0 <= k < i ==> va@[k] == vb@[k],
        decreases va@.len() - i,
    {
        if va[i] != vb[i] {
            return false;
        }
        i += 1;
    }
    proof {
        assert(a@ =~= b@);
    }
    true
}

/// Decimal digits `0` through `9`.
pub open spec fn spec_java_digit(c: char) -> bool {
    '0' <= c && c <= '9'
}

/// A character that can start or continue a Java identifier: a letter
/// (an ASCII letter, or a non-ASCII character with the Unicode `Alphabetic`
/// property), `$`, `_`, or a digit.
pub open spec fn spec_java_letter(c: char) -> bool {
    if (c as u32) < 128 {
        ('a' <= c && c <= 'z') || ('A' <= c && c <= 'Z') || c == '$' || c == '_'
    } else {
        char_alphabetic(c)
    }
}

pub open spec fn spec_java_identifier_part(c: char) -> bool {
    spec_java_digit(c) || spec_java_letter(c)
}

pub fn is_java_digit(c: char) -> (r: bool)
    ensures
        r == spec_java_digit(c),
{
    '0' <= c && c <= '9'
}

pub fn is_java_letter(c: char) -> (r: bool)
    ensures
        r == spec_java_letter(c),
{
    if (c as u32) < 128 {
        ('a' <= c && c <= 'z') || ('A' <= c && c <= 'Z') || c == '$' || c == '_'
    } else {
        exec_char_alphabetic(c)
    }
}

pub fn is_java_identifier_part(c: char) -> (r: bool)
    ensures
        r == spec_java_identifier_part(c),
{
    is_java_digit(c) || is_java_letter(c)
}

/// The characters accepted inside a dotted type name or a file name in the
/// loose scanning the trace and proguard grammars use.
pub open spec fn spec_jtype_char(c: char) -> bool {
    spec_java_identifier_part(c) || c == '.' || c == '[' || c == ']' || c == '-'
}

pub fn is_jtype_char(c: char) -> (r: bool)
    ensures
        r == spec_jtype_char(c),
{
    is_java_identifier_part(c) || c == '.' || c == '[' || c == ']' || c == '-'
}

/// Copy `s[from..to]` into a fresh vector.
pub fn copy_range(s: &Vec<char>, from: usize, to: usize) -> (r: Vec<char>)
    requires
        from <= to <= s@.len(),
    ensures
        r@ == s@.subrange(from as int, to as int),
{
    let mut out: Vec<char> = Vec::new();
    let mut i: usize = from;
    while i < to
        invariant
            from <= i <= to <= s@.len(),
            out@ == s@.subrange(from as int, i as int),
        decreases to - i,
    {
        out.push(s[i]);
        proof {
            assert(out@ =~= s@.subrange(from as int, i + 1));
        }
        i += 1;
    }
    out
}

/// The position of the first newline at or after `i`, or the end of the
/// sequence (`i` itself when `i` is already out of range).
pub open spec fn first_nl_from(s: Seq<char>, i: int) -> int
    decreases s.len() - i,
{
    if !(0 <= i < s.len()) {
        i
    } else if s[i] == '\n' {
        i
    } else {
        first_nl_from(s, i + 1)
    }
}

pub proof fn lemma_first_nl_from(s: Seq<char>, i: int)
    requires
        0 <= i <= s.len(),
    ensures
        i <= first_nl_from(s, i) <= s.len(),
        forall|k: int| i <= k < first_nl_from(s, i) ==> s[k] != '\n',
        first_nl_from(s, i) < s.len() ==> s[first_nl_from(s, i)] == '\n',
    decreases s.len() - i,
{
    if i < s.len() && s[i] != '\n' {
        lemma_first_nl_from(s, i + 1);
    }
}

/// A line with a trailing `\r` (from a `\r\n` terminator) removed.
pub open spec fn strip_cr(l: Seq<char>) -> Seq<char> {
    if l.len() > 0 && l[l.len() - 1] == '\r' {
        l.drop_last()
    } else {
        l
    }
}

/// The logical lines of `s` from position `pos` on: the text of each line
/// without its terminator, and whether a terminator was present.  A final
/// fragment without a newline is a single unterminated line.
pub open spec fn spec_lines_from(s: Seq<char>, pos: int) -> Seq<(Seq<char>, bool)>
    decreases s.len() - pos,
    when 0 <= pos
    via spec_lines_from_decreases
{
    if pos >= s.len() {
        Seq::empty()
    } else {
        let i = first_nl_from(s, pos);
        if i >= s.len() {
            seq![(s.subrange(pos, s.len() as int), false)]
        } else {
            seq![(strip_cr(s.subrange(pos, i)), true)] + spec_lines_from(s, i + 1)
        }
    }
}

#[via_fn]
proof fn spec_lines_from_decreases(s: Seq<char>, pos: int) {
    if 0 <= pos < s.len() {
        lemma_first_nl_from(s, pos);
    }
}

pub open spec fn spec_split_lines(s: Seq<char>) -> Seq<(Seq<char>, bool)> {
    spec_lines_from(s, 0)
}

/// One source line: its text without the terminator, the offset of its first
/// character in the source, and whether a newline terminated it.
pub struct SrcLine {
    pub start: usize,
    pub text: Vec<char>,
    pub terminated: bool,
}

pub open spec fn line_model(l: SrcLine) -> (Seq<char>, bool) {
    (l.text@, l.terminated)
}

pub open spec fn lines_model(ls: Seq<SrcLine>) -> Seq<(Seq<char>, bool)> {
    ls.map_values(|l: SrcLine| line_model(l))
}

/// Split source text into logical lines, accepting both `\n` and `\r\n`
/// terminators and keeping the source offset of each line for diagnostics.
pub fn split_lines(s: &Vec<char>) -> (r: Vec<SrcLine>)
    ensures
        lines_model(r@) == spec_split_lines(s@),
        forall|k: int|
            0 <= k < r@.len() ==> r@[k].start + r@[k].text@.len() <= s@.len(),
{
    let mut out: Vec<SrcLine> = Vec::new();
    let mut pos: usize = 0;
    while pos < s.len()
        invariant
            pos <= s@.len(),
            lines_model(out@) + spec_lines_from(s@, pos as int) == spec_split_lines(s@),
            forall|k: int|
                0 <= k < out@.len() ==> out@[k].start + out@[k].text@.len() <= s@.len(),
        decreases s@.len() - pos,
    {
        let ghost prev = out@;
        let mut j: usize = pos;
        while j < s.len() && s[j] != '\n'
            invariant
                pos <= j <= s@.len(),
                forall|k: int| pos <= k < j ==> s@[k] != '\n',
            decreases s@.len() - j,
        {
            j += 1;
        }
        proof {
            lemma_first_nl_eq(s@, pos as int, j as int);
        }
        if j < s.len() {
            let end = if j > pos && s[j - 1] == '\r' {
                j - 1
            } else {
                j
            };
            let text = copy_range(s, pos, end);
            proof {
                assert(text@ =~= strip_cr(s@.subrange(pos as int, j as int)));
            }
            out.push(SrcLine { start: pos, text, terminated: true });
            proof {
                assert(lines_model(out@) =~= lines_model(prev) + seq![
                    (strip_cr(s@.subrange(pos as int, j as int)), true),
                ]);
            }
            pos = j + 1;
        } else {
            let text = copy_range(s, pos, s.len());
            out.push(SrcLine { start: pos, text, terminated: false });
            proof {
                assert(lines_model(out@) =~= lines_model(prev) + seq![
                    (s@.subrange(pos as int, s@.len() as int), false),
                ]);
            }
            pos = s.len();
        }
    }
    out
}

pub proof fn lemma_first_nl_eq(s: Seq<char>, pos: int, j: int)
    requires
        0 <= pos <= j <= s.len(),
        forall|k: int| pos <= k < j ==> s[k] != '\n',
        j < s.len() ==> s[j] == '\n',
    ensures
        first_nl_from(s, pos) == j,
    decreases j - pos,
{
    if pos < j {
        lemma_first_nl_eq(s, pos + 1, j);
    }
}

/// The numeric value of a digit string, most significant first.
pub open spec fn dec_val(s: Seq<char>) -> int
    decreases s.len(),
{
    if s.len() == 0 {
        0
    } else {
        dec_val(s.drop_last()) * 10 + (s[s.len() - 1] as int - ('0' as int))
    }
}

/// The end of the run of decimal digits starting at `i`.
pub open spec fn scan_digits(l: Seq<char>, i: int) -> int
    decreases l.len() - i,
{
    if !(0 <= i < l.len()) {
        i
    } else if spec_java_digit(l[i]) {
        scan_digits(l, i + 1)
    } else {
        i
    }
}

pub proof fn lemma_scan_digits(l: Seq<char>, i: int)
    requires
        0 <= i <= l.len(),
    ensures
        i <= scan_digits(l, i) <= l.len(),
        forall|k: int| i <= k < scan_digits(l, i) ==> spec_java_digit(l[k]),
        scan_digits(l, i) < l.len() ==> !spec_java_digit(l[scan_digits(l, i)]),
    decreases l.len() - i,
{
    if i < l.len() && spec_java_digit(l[i]) {
        lemma_scan_digits(l, i + 1);
    }
}

/// Reads `u32` decimal digits at position `i` in the line: the parsed value
/// and the position after the digits, or nothing if there is no digit at `i`
/// or the value overflows a `u32`.
pub open spec fn spec_u32_at(l: Seq<char>, i: int) -> Option<(u32, int)> {
    let j = scan_digits(l, i);
    if j == i {
        None
    } else if dec_val(l.subrange(i, j)) > u32::MAX {
        None
    } else {
        Some((dec_val(l.subrange(i, j)) as u32, j))
    }
}

/// Parse an unsigned decimal number at `i`, exactly as [`spec_u32_at`] says.
pub fn parse_u32_at(l: &Vec<char>, i: usize) -> (r: Option<(u32, usize)>)
    requires
        i <= l@.len(),
    ensures
        match r {
            Some((v, j)) => spec_u32_at(l@, i as int) == Some((v, j as int)) && i < j <= l@.len(),
            None => spec_u32_at(l@, i as int) is None,
        },
{
    proof {
        lemma_scan_digits(l@, i as int);
    }
    let ghost jj = scan_digits(l@, i as int);
    let mut j: usize = i;
    let mut acc: u32 = 0;
    let mut overflow = false;
    while j < l.len() && is_java_digit(l[j])
        invariant
            i <= j <= l@.len(),
            jj == scan_digits(l@, i as int),
            i <= jj <= l@.len(),
            forall|k: int| i <= k < jj ==> spec_java_digit(l@[k]),
            jj < l@.len() ==> !spec_java_digit(l@[jj]),
            j <= jj,
            forall|k: int| i <= k < j ==> spec_java_digit(l@[k]),
            !overflow ==> acc == dec_val(l@.subrange(i as int, j as int)),
            overflow ==> dec_val(l@.subrange(i as int, j as int)) > u32::MAX,
        decreases l@.len() - j,
    {
        let d: u32 = (l[j] as u32) - ('0' as u32);
        let ghost prefix = l@.subrange(i as int, j as int);
        proof {
            assert(l@.subrange(i as int, j + 1).drop_last() =~= prefix);
            assert(dec_val(l@.subrange(i as int, j + 1)) == dec_val(prefix) * 10 + (l@[
                j as int
            ] as int - ('0' as int)));
        }
        if !overflow {
            if acc > (u32::MAX - d) / 10 {
                overflow = true;
                proof {
                    assert(dec_val(l@.subrange(i as int, j + 1)) > u32::MAX);
                }
            } else {
                acc = acc * 10 + d;
            }
        }
        j += 1;
    }
    proof {
        assert(j == jj) by {
            if j < jj {
                assert(spec_java_digit(l@[j as int]));
            }
        }
        assert(l@.subrange(i as int, j as int) == l@.subrange(i as int, jj));
    }
    if j == i {
        return None;
    }
    if overflow {
        proof {
            assert(spec_u32_at(l@, i as int) is None);
        }
        return None;
    }
    Some((acc, j))
}

/// The character for one decimal digit.
pub open spec fn digit_char(d: nat) -> char {
    (('0' as u8) + (d as u8)) as char
}

/// The decimal rendering of `n`, most significant digit first.
pub open spec fn dec_str(n: nat) -> Seq<char>
    decreases n,
{
    if n < 10 {
        seq![digit_char(n)]
    } else {
        dec_str(n / 10) + seq![digit_char(n % 10)]
    }
}

/// Append the decimal rendering of `n` to `out`.
pub fn push_dec_u64(n: u64, out: &mut Vec<char>)
    ensures
        final(out)@ == old(out)@ + dec_str(n as nat),
    decreases n,
{
    if n < 10 {
        out.push((('0' as u8) + (n as u8)) as char);
    } else {
        push_dec_u64(n / 10, out);
        out.push((('0' as u8) + ((n % 10) as u8)) as char);
    }
}

/// Append the decimal rendering of `n` to `out`.
pub fn push_dec_u32(n: u32, out: &mut Vec<char>)
    ensures
        final(out)@ == old(out)@ + dec_str(n as nat),
    decreases n,
{
    if n < 10 {
        out.push((('0' as u8) + (n as u8)) as char);
    } else {
        push_dec_u32(n / 10, out);
        out.push((('0' as u8) + ((n % 10) as u8)) as char);
    }
}


/// The end of the run of jtype characters starting at `i`.
pub open spec fn scan_jtype(l: Seq<char>, i: int) -> int
    decreases l.len() - i,
{
    if !(0 <= i < l.len()) {
        i
    } else if spec_jtype_char(l[i]) {
        scan_jtype(l, i + 1)
    } else {
        i
    }
}

pub proof fn lemma_scan_jtype(l: Seq<char>, i: int)
    requires
        0 <= i <= l.len(),
    ensures
        i <= scan_jtype(l, i) <= l.len(),
        forall|k: int| i <= k < scan_jtype(l, i) ==> spec_jtype_char(l[k]),
        scan_jtype(l, i) < l.len() ==> !spec_jtype_char(l[scan_jtype(l, i)]),
    decreases l.len() - i,
{
    if i < l.len() && spec_jtype_char(l[i]) {
        lemma_scan_jtype(l, i + 1);
    }
}

/// Scan to the end of the jtype run starting at `i`.
pub fn scan_jtype_end(l: &Vec<char>, i: usize) -> (r: usize)
    requires
        i <= l@.len(),
    ensures
        r == scan_jtype(l@, i as int),
        i <= r <= l@.len(),
{
    proof {
        lemma_scan_jtype(l@, i as int);
    }
    let mut j: usize = i;
    while j < l.len() && is_jtype_char(l[j])
        invariant
            i <= j <= l@.len(),
            j <= scan_jtype(l@, i as int),
            forall|k: int| i <= k < j ==> spec_jtype_char(l@[k]),
        decreases l@.len() - j,
    {
        proof {
            lemma_scan_jtype(l@, i as int);
        }
        j += 1;
    }
    proof {
        if j < scan_jtype(l@, i as int) {
            assert(spec_jtype_char(l@[j as int]));
        }
    }
    j
}

/// An inline whitespace character: a space or a tab.
pub open spec fn spec_inline_ws(c: char) -> bool {
    c == ' ' || c == '\t'
}

pub open spec fn scan_inline_ws(l: Seq<char>, i: int) -> int
    decreases l.len() - i,
{
    if !(0 <= i < l.len()) {
        i
    } else if spec_inline_ws(l[i]) {
        scan_inline_ws(l, i + 1)
    } else {
        i
    }
}

pub fn scan_inline_ws_end(l: &Vec<char>, i: usize) -> (r: usize)
    requires
        i <= l@.len(),
    ensures
        r == scan_inline_ws(l@, i as int),
        i <= r <= l@.len(),
{
    proof {
        lemma_scan_inline_ws(l@, i as int);
    }
    let mut j: usize = i;
    while j < l.len() && (l[j] == ' ' || l[j] == '\t')
        invariant
            i <= j <= l@.len(),
            j <= scan_inline_ws(l@, i as int),
            forall|k: int| i <= k < j ==> spec_inline_ws(l@[k]),
        decreases l@.len() - j,
    {
        proof {
            lemma_scan_inline_ws(l@, i as int);
        }
        j += 1;
    }
    proof {
        if j < scan_inline_ws(l@, i as int) {
            assert(spec_inline_ws(l@[j as int]));
        }
    }
    j
}

pub proof fn lemma_scan_inline_ws(l: Seq<char>, i: int)
    requires
        0 <= i <= l.len(),
    ensures
        i <= scan_inline_ws(l, i) <= l.len(),
        forall|k: int| i <= k < scan_inline_ws(l, i) ==> spec_inline_ws(l[k]),
        scan_inline_ws(l, i) < l.len() ==> !spec_inline_ws(l[scan_inline_ws(l, i)]),
    decreases l.len() - i,
{
    if i < l.len() && spec_inline_ws(l[i]) {
        lemma_scan_inline_ws(l, i + 1);
    }
}

/// The index of the last occurrence of `c`, or `-1`.
pub open spec fn find_last(s: Seq<char>, c: char) -> int
    decreases s.len(),
{
    if s.len() == 0 {
        -1
    } else if s[s.len() - 1] == c {
        s.len() - 1
    } else {
        find_last(s.drop_last(), c)
    }
}

proof fn lemma_find_last_skip(s: Seq<char>, c: char, j: int)
    requires
        0 <= j <= s.len(),
        forall|k: int| j <= k < s.len() ==> s[k] != c,
    ensures
        find_last(s, c) == find_last(s.subrange(0, j), c),
    decreases s.len() - j,
{
    if j == s.len() {
        assert(s.subrange(0, j) =~= s);
    } else {
        lemma_find_last_skip(s, c, j + 1);
        let t = s.subrange(0, j + 1);
        assert(t[t.len() - 1] == s[j]);
        assert(t.drop_last() =~= s.subrange(0, j));
    }
}

/// Find the last occurrence of `c`, scanning from the end.
pub fn find_last_char(l: &Vec<char>, c: char) -> (r: Option<usize>)
    ensures
        match r {
            Some(i) => find_last(l@, c) == i && i < l@.len(),
            None => find_last(l@, c) == -1,
        },
{
    let mut j: usize = l.len();
    while j > 0
        invariant
            j <= l@.len(),
            forall|k: int| j <= k < l@.len() ==> l@[k] != c,
        decreases j,
    {
        if l[j - 1] == c {
            proof {
                lemma_find_last_skip(l@, c, j as int);
                let t = l@.subrange(0, j as int);
                assert(t[t.len() - 1] == l@[j - 1]);
            }
            return Some(j - 1);
        }
        j -= 1;
    }
    proof {
        lemma_find_last_skip(l@, c, 0);
        assert(l@.subrange(0, 0) =~= Seq::<char>::empty());
    }
    None
}

/// Whether the characters of `lit` stand at position `i` of `l`.
pub open spec fn spec_lit_at(l: Seq<char>, i: int, lit: Seq<char>) -> bool {
    0 <= i && i + lit.len() <= l.len() && l.subrange(i, i + lit.len()) == lit
}

pub fn has_lit_at(l: &Vec<char>, i: usize, lit: &str) -> (r: bool)
    requires
        i <= l@.len(),
    ensures
        r == spec_lit_at(l@, i as int, lit@),
{
    let lv = chars_of(lit);
    let n = l.len();
    if n - i < lv.len() {
        proof {
            assert(!spec_lit_at(l@, i as int, lit@));
        }
        return false;
    }
    let mut k: usize = 0;
    while k < lv.len()
        invariant
            k <= lv@.len(),
            lv@ == lit@,
            n == l@.len(),
            i + lv@.len() <= n,
            forall|j: int| 0 <= j < k ==> l@[i + j] == lv@[j],
        decreases lv@.len() - k,
    {
        if l[i + k] != lv[k] {
            proof {
                assert(l@.subrange(i as int, i + lit@.len())[k as int] == l@[i + k]);
            }
            return false;
        }
        k += 1;
    }
    proof {
        assert(l@.subrange(i as int, i + lit@.len()) =~= lit@);
    }
    true
}

/// The end of the run of Java identifier characters starting at `i`.
pub open spec fn scan_ident(l: Seq<char>, i: int) -> int
    decreases l.len() - i,
{
    if !(0 <= i < l.len()) {
        i
    } else if spec_java_identifier_part(l[i]) {
        scan_ident(l, i + 1)
    } else {
        i
    }
}

pub proof fn lemma_scan_ident(l: Seq<char>, i: int)
    requires
        0 <= i <= l.len(),
    ensures
        i <= scan_ident(l, i) <= l.len(),
        forall|k: int| i <= k < scan_ident(l, i) ==> spec_java_identifier_part(l[k]),
        scan_ident(l, i) < l.len() ==> !spec_java_identifier_part(l[scan_ident(l, i)]),
    decreases l.len() - i,
{
    if i < l.len() && spec_java_identifier_part(l[i]) {
        lemma_scan_ident(l, i + 1);
    }
}

pub fn scan_ident_end(l: &Vec<char>, i: usize) -> (r: usize)
    requires
        i <= l@.len(),
    ensures
        r == scan_ident(l@, i as int),
        i <= r <= l@.len(),
{
    proof {
        lemma_scan_ident(l@, i as int);
    }
    let mut j: usize = i;
    while j < l.len() && is_java_identifier_part(l[j])
        invariant
            i <= j <= l@.len(),
            j <= scan_ident(l@, i as int),
            forall|k: int| i <= k < j ==> spec_java_identifier_part(l@[k]),
        decreases l@.len() - j,
    {
        proof {
            lemma_scan_ident(l@, i as int);
        }
        j += 1;
    }
    proof {
        if j < scan_ident(l@, i as int) {
            assert(spec_java_identifier_part(l@[j as int]));
        }
    }
    j
}

/// A method name in the proguard grammar: a non-empty identifier run, or one
/// of the synthetic names `<init>` and `<clinit>`.  Yields the position after
/// the name, or `i` itself when no name starts there.
pub open spec fn spec_jname_end(l: Seq<char>, i: int) -> int {
    if scan_ident(l, i) > i {
        scan_ident(l, i)
    } else if spec_lit_at(l, i, "<init>"@) {
        i + 6
    } else if spec_lit_at(l, i, "<clinit>"@) {
        i + 8
    } else {
        i
    }
}

pub fn jname_end(l: &Vec<char>, i: usize) -> (r: usize)
    requires
        i <= l@.len(),
    ensures
        r == spec_jname_end(l@, i as int),
        i <= r <= l@.len(),
{
    proof {
        reveal_strlit("<init>");
        reveal_strlit("<clinit>");
    }
    let n = l.len();
    let j = scan_ident_end(l, i);
    if j > i {
        j
    } else if has_lit_at(l, i, "<init>") {
        proof {
            assert("<init>"@.len() == 6);
        }
        i + 6
    } else if has_lit_at(l, i, "<clinit>") {
        proof {
            assert("<clinit>"@.len() == 8);
        }
        i + 8
    } else {
        i
    }
}

/// The position of the first `sep` at or after `i`, or the end of the
/// sequence (`i` itself when `i` is already out of range).
pub open spec fn first_sep_from(s: Seq<char>, i: int, sep: char) -> int
    decreases s.len() - i,
{
    if !(0 <= i < s.len()) {
        i
    } else if s[i] == sep {
        i
    } else {
        first_sep_from(s, i + 1, sep)
    }
}

pub proof fn lemma_first_sep_from(s: Seq<char>, i: int, sep: char)
    requires
        0 <= i <= s.len(),
    ensures
        i <= first_sep_from(s, i, sep) <= s.len(),
        forall|k: int| i <= k < first_sep_from(s, i, sep) ==> s[k] != sep,
        first_sep_from(s, i, sep) < s.len() ==> s[first_sep_from(s, i, sep)] == sep,
    decreases s.len() - i,
{
    if i < s.len() && s[i] != sep {
        lemma_first_sep_from(s, i + 1, sep);
    }
}

/// The fields of `s` from `pos` on, split at `sep`: an empty text has one
/// empty field, and a trailing separator yields a trailing empty field.
pub open spec fn spec_fields_from(s: Seq<char>, pos: int, sep: char) -> Seq<Seq<char>>
    decreases s.len() - pos,
    when 0 <= pos
    via spec_fields_from_decreases
{
    let i = first_sep_from(s, pos, sep);
    if i >= s.len() {
        seq![s.subrange(pos, s.len() as int)]
    } else {
        seq![s.subrange(pos, i)] + spec_fields_from(s, i + 1, sep)
    }
}

#[via_fn]
proof fn spec_fields_from_decreases(s: Seq<char>, pos: int, sep: char) {
    if 0 <= pos <= s.len() {
        lemma_first_sep_from(s, pos, sep);
    } else if pos > s.len() {
        assert(first_sep_from(s, pos, sep) == pos);
    }
}

pub open spec fn spec_split_fields(s: Seq<char>, sep: char) -> Seq<Seq<char>> {
    spec_fields_from(s, 0, sep)
}

pub open spec fn fields_model(fs: Seq<Vec<char>>) -> Seq<Seq<char>> {
    fs.map_values(|f: Vec<char>| f@)
}

proof fn lemma_first_sep_eq(s: Seq<char>, pos: int, j: int, sep: char)
    requires
        0 <= pos <= j <= s.len(),
        forall|k: int| pos <= k < j ==> s[k] != sep,
        j < s.len() ==> s[j] == sep,
    ensures
        first_sep_from(s, pos, sep) == j,
    decreases j - pos,
{
    if pos < j {
        lemma_first_sep_eq(s, pos + 1, j, sep);
    }
}

/// Split a text into its fields at a separator.
pub fn split_fields(s: &Vec<char>, sep: char) -> (r: Vec<Vec<char>>)
    ensures
        fields_model(r@) == spec_split_fields(s@, sep),
        r@.len() >= 1,
{
    let mut out: Vec<Vec<char>> = Vec::new();
    let mut pos: usize = 0;
    let mut done = false;
    proof {
        assert(fields_model(out@) + spec_fields_from(s@, 0, sep) =~= spec_split_fields(s@, sep));
    }
    while !done
        invariant
            pos <= s@.len(),
            !done ==> fields_model(out@) + spec_fields_from(s@, pos as int, sep)
                == spec_split_fields(s@, sep),
            done ==> fields_model(out@) == spec_split_fields(s@, sep) && out@.len() >= 1,
        decreases s@.len() - pos + (if done {
            0int
        } else {
            1int
        }),
    {
        let mut j: usize = pos;
        while j < s.len() && s[j] != sep
            invariant
                pos <= j <= s@.len(),
                forall|k: int| pos <= k < j ==> s@[k] != sep,
            decreases s@.len() - j,
        {
            j += 1;
        }
        proof {
            lemma_first_sep_eq(s@, pos as int, j as int, sep);
        }
        let ghost prev = out@;
        let field = copy_range(s, pos, j);
        out.push(field);
        proof {
            assert(fields_model(out@) =~= fields_model(prev) + seq![
                s@.subrange(pos as int, j as int),
            ]);
        }
        if j < s.len() {
            proof {
                assert(fields_model(out@) + spec_fields_from(s@, j + 1, sep)
                    =~= fields_model(prev) + spec_fields_from(s@, pos as int, sep));
            }
            pos = j + 1;
        } else {
            proof {
                assert(spec_fields_from(s@, pos as int, sep) =~= seq![
                    s@.subrange(pos as int, s@.len() as int),
                ]);
                assert(fields_model(out@) =~= spec_split_fields(s@, sep));
            }
            done = true;
        }
    }
    out
}

/// The text with every `/` turned into `.`, as the wire formats' internal
/// names are normalized.
pub open spec fn dots_of(s: Seq<char>) -> Seq<char> {
    s.map_values(|c: char| if c == '/' { '.' } else { c })
}

pub fn to_dots(v: &Vec<char>) -> (r: Vec<char>)
    ensures
        r@ == dots_of(v@),
{
    let mut out: Vec<char> = Vec::new();
    let mut i: usize = 0;
    while i < v.len()
        invariant
            i <= v@.len(),
            out@.len() == i,
            forall|k: int| 0 <= k < i ==> out@[k] == (if v@[k] == '/' { '.' } else { v@[k] }),
        decreases v@.len() - i,
    {
        if v[i] == '/' {
            out.push('.');
        } else {
            out.push(v[i]);
        }
        i += 1;
    }
    proof {
        assert(out@ =~= dots_of(v@));
    }
    out
}

/// A diagnostic payload with a single recorded error carrying this span and
/// message.
pub fn single_parse_error(source: &str, start: usize, end: usize, message: &str) -> (r:
    ParseErrors)
    ensures
        r.errors@.len() == 1,
        r.errors@[0].start == start,
        r.errors@[0].end == end,
        r.errors@[0].message@ == message@,
        r.source@ == source@,
{
    let mut errors: Vec<ParseError> = Vec::new();
    errors.push(ParseError { start, end, message: message.to_owned() });
    ParseErrors { source: source.to_owned(), errors }
}

/// Append the characters of `s` to `out`.
pub fn push_str_chars(s: &str, out: &mut Vec<char>)
    ensures
        final(out)@ == old(out)@ + s@,
{
    let mut cs = chars_of(s);
    out.append(&mut cs);
}

pub proof fn lemma_scan_jtype_eq(l: Seq<char>, i: int, j: int)
    requires
        0 <= i <= j <= l.len(),
        forall|k: int| i <= k < j ==> spec_jtype_char(l[k]),
        j < l.len() ==> !spec_jtype_char(l[j]),
    ensures
        scan_jtype(l, i) == j,
    decreases j - i,
{
    if i < j {
        lemma_scan_jtype_eq(l, i + 1, j);
    }
}

pub proof fn lemma_scan_digits_eq(l: Seq<char>, i: int, j: int)
    requires
        0 <= i <= j <= l.len(),
        forall|k: int| i <= k < j ==> spec_java_digit(l[k]),
        j < l.len() ==> !spec_java_digit(l[j]),
    ensures
        scan_digits(l, i) == j,
    decreases j - i,
{
    if i < j {
        lemma_scan_digits_eq(l, i + 1, j);
    }
}

pub proof fn lemma_scan_inline_ws_eq(l: Seq<char>, i: int, j: int)
    requires
        0 <= i <= j <= l.len(),
        forall|k: int| i <= k < j ==> spec_inline_ws(l[k]),
        j < l.len() ==> !spec_inline_ws(l[j]),
    ensures
        scan_inline_ws(l, i) == j,
    decreases j - i,
{
    if i < j {
        lemma_scan_inline_ws_eq(l, i + 1, j);
    }
}

pub proof fn lemma_find_last_eq(s: Seq<char>, c: char, at: int)
    requires
        0 <= at < s.len(),
        s[at] == c,
        forall|k: int| at < k < s.len() ==> s[k] != c,
    ensures
        find_last(s, c) == at,
{
    lemma_find_last_skip(s, c, at + 1);
    let t = s.subrange(0, at + 1);
    assert(t[t.len() - 1] == s[at]);
}

pub proof fn lemma_find_last_none(s: Seq<char>, c: char)
    requires
        forall|k: int| 0 <= k < s.len() ==> s[k] != c,
    ensures
        find_last(s, c) == -1,
{
    lemma_find_last_skip(s, c, 0);
    assert(s.subrange(0, 0) =~= Seq::<char>::empty());
}

/// Every character of a decimal rendering is a digit.
pub proof fn lemma_dec_str_digits(n: nat)
    ensures
        dec_str(n).len() >= 1,
        forall|k: int| 0 <= k < dec_str(n).len() ==> spec_java_digit(#[trigger] dec_str(n)[k]),
    decreases n,
{
    if n >= 10 {
        lemma_dec_str_digits(n / 10);
        assert forall|k: int| 0 <= k < dec_str(n).len() implies spec_java_digit(
            #[trigger] dec_str(n)[k],
        ) by {
            if k < dec_str(n / 10).len() {
                assert(dec_str(n)[k] == dec_str(n / 10)[k]);
            }
        }
    }
}

proof fn lemma_digit_char_val(d: nat)
    requires
        d < 10,
    ensures
        digit_char(d) as int == ('0' as int) + d,
{
    assert(('0' as u8) + (d as u8) < 128);
}

/// Reading a decimal rendering back yields the value.
pub proof fn lemma_dec_val_of_dec_str(n: nat)
    ensures
        dec_val(dec_str(n)) == n,
    decreases n,
{
    if n < 10 {
        lemma_digit_char_val(n);
        assert(dec_val(Seq::<char>::empty()) == 0);
        assert(dec_str(n).drop_last() =~= Seq::<char>::empty());
        assert(dec_str(n)[dec_str(n).len() - 1] == digit_char(n));
    } else {
        lemma_dec_val_of_dec_str(n / 10);
        lemma_digit_char_val(n % 10);
        assert(dec_str(n).drop_last() =~= dec_str(n / 10));
        assert(dec_str(n)[dec_str(n).len() - 1] == digit_char(n % 10));
        assert(dec_val(dec_str(n)) == dec_val(dec_str(n / 10)) * 10 + (digit_char(n % 10) as int
            - ('0' as int)));
        assert(n == (n / 10) * 10 + (n % 10)) by (nonlinear_arith);
    }
}

/// Record one error with this span and message.
pub fn push_line_error(errs: &mut Vec<ParseError>, start: usize, end: usize, message: &str)
    ensures
        final(errs)@.len() == old(errs)@.len() + 1,
        forall|k: int| 0 <= k < old(errs)@.len() ==> final(errs)@[k] == old(errs)@[k],
        final(errs)@[old(errs)@.len() as int].start == start,
        final(errs)@[old(errs)@.len() as int].end == end,
        final(errs)@[old(errs)@.len() as int].message@ == message@,
{
    errs.push(ParseError { start, end, message: message.to_owned() });
}

proof fn lemma_first_nl_shift(p: Seq<char>, r: Seq<char>, d: int)
    requires
        0 <= d,
    ensures
        first_nl_from(p + r, p.len() + d) == p.len() + first_nl_from(r, d),
    decreases r.len() - d,
{
    if d < r.len() {
        assert((p + r)[p.len() + d] == r[d]);
        if r[d] != '\n' {
            lemma_first_nl_shift(p, r, d + 1);
        }
    }
}

/// Lines are read the same way wherever the text stands: splitting from an
/// offset past a prefix reads exactly the suffix's lines.
pub proof fn lemma_lines_from_shift(p: Seq<char>, r: Seq<char>, d: int)
    requires
        0 <= d,
    ensures
        spec_lines_from(p + r, p.len() + d) == spec_lines_from(r, d),
    decreases r.len() - d,
{
    lemma_first_nl_shift(p, r, d);
    if d >= r.len() {
    } else {
        lemma_first_nl_from(r, d);
        let i = first_nl_from(r, d);
        if i >= r.len() {
            assert((p + r).subrange(p.len() + d, (p + r).len() as int) =~= r.subrange(
                d,
                r.len() as int,
            ));
        } else {
            assert((p + r).subrange(p.len() + d, p.len() + i) =~= r.subrange(d, i));
            lemma_lines_from_shift(p, r, i + 1);
        }
    }
}

/// Splitting text that starts with one newline-terminated line without a
/// stray carriage return yields that line and then the rest's lines.
pub proof fn lemma_split_lines_cons(a: Seq<char>, rest: Seq<char>)
    requires
        forall|k: int| 0 <= k < a.len() ==> a[k] != '\n',
        a.len() > 0 ==> a[a.len() - 1] != '\r',
    ensures
        spec_split_lines(a + seq!['\n'] + rest) == seq![(a, true)] + spec_split_lines(rest),
{
    let s = a + seq!['\n'] + rest;
    let p = a + seq!['\n'];
    assert(s =~= p + rest);
    assert(forall|k: int| 0 <= k < a.len() ==> s[k] == a[k]);
    assert(s[a.len() as int] == '\n');
    lemma_first_nl_eq(s, 0, a.len() as int);
    assert(s.subrange(0, a.len() as int) =~= a);
    assert(strip_cr(a) == a);
    lemma_lines_from_shift(p, rest, 0);
    assert(spec_lines_from(s, p.len() as int) == spec_lines_from(rest, 0));
    assert(spec_split_lines(s) =~= seq![(a, true)] + spec_split_lines(rest));
}
} // verus!
