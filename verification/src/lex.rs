use vstd::prelude::*;
use vstd::std_specs::iter::IteratorSpec;
use vstd::string::*;
use vstd::utf8::*;
use crate::ast::utf8len;
use crate::text::{
    byte_len, lemma_byte_len_step, lemma_encode_concat, lemma_encoding_is_injective,
    lemma_prefix_ends_at_boundary, split_chars,
};
use crate::token::{Token, TokenKind, TokenV};

verus! {

/// Whether `c` has the Unicode property `White_Space`, as `char::is_whitespace` tells.
pub uninterp spec fn is_whitespace(c: char) -> bool;

/// Whether `c` has the Unicode property `Alphabetic`, as `char::is_alphabetic` tells.
pub uninterp spec fn is_alphabetic(c: char) -> bool;

/// Whether `c` is in one of the Unicode categories of numbers, as `char::is_numeric`
/// tells.
pub uninterp spec fn is_numeric(c: char) -> bool;

/// `char::is_whitespace` of std. Nothing is claimed of the result but that it depends on
/// `c` alone: it is the value that `is_whitespace` names.
#[verifier::external_body]
fn char_is_whitespace(c: char) -> (b: bool)
    ensures
        b == is_whitespace(c),
{
    c.is_whitespace()
}

/// `char::is_alphabetic` of std. Nothing is claimed of the result but that it depends on
/// `c` alone: it is the value that `is_alphabetic` names.
#[verifier::external_body]
fn char_is_alphabetic(c: char) -> (b: bool)
    ensures
        b == is_alphabetic(c),
{
    c.is_alphabetic()
}

/// `char::is_numeric` of std. Nothing is claimed of the result but that it depends on
/// `c` alone: it is the value that `is_numeric` names.
#[verifier::external_body]
fn char_is_numeric(c: char) -> (b: bool)
    ensures
        b == is_numeric(c),
{
    c.is_numeric()
}

/// The width of a character in UTF-8.
pub open spec fn width(c: char) -> nat {
    encode_scalar(c as u32).len()
}

/// The runs of characters that are told apart by looking at one character and at the
/// byte it begins at.
#[derive(Clone, Copy, Debug, PartialEq, Eq, Structural)]
pub enum Range {
    Whitespace,
    Natural,
    RelUri,
    HttpUri,
    Sha256,
    Ident,
}

/// Whether a run of the given sort goes on with `c`, which begins at byte `i` of the run.
pub open spec fn in_range(range: Range, i: nat, c: char) -> bool {
    match range {
        Range::Whitespace => is_whitespace(c),
        Range::Natural => '0' as u32 <= c as u32 <= '9' as u32,
        Range::RelUri => {
            ||| i == 0 && c == '.'
            ||| i == 1 && (c == '.' || c == '/')
            ||| i >= 2 && !is_whitespace(c) && c != ')' && c != ','
        },
        Range::HttpUri => {
            ||| i == 0 && c == 'h'
            ||| i == 1 && c == 't'
            ||| i == 2 && c == 't'
            ||| i == 3 && c == 'p'
            ||| i == 4 && (c == ':' || c == 's')
            ||| i == 5 && (c == '/' || c == ':')
            ||| i == 6 && c == '/'
            ||| i >= 7 && !is_whitespace(c) && c != ')'
        },
        Range::Sha256 => {
            ||| i == 0 && c == 's'
            ||| i == 1 && c == 'h'
            ||| i == 2 && c == 'a'
            ||| i == 3 && c == '2'
            ||| i == 4 && c == '5'
            ||| i == 5 && c == '6'
            ||| i == 6 && c == ':'
            ||| 7 <= i < 7 + 64
        },
        Range::Ident => {
            ||| i == 0 && (is_alphabetic(c) || c == '_')
            ||| i >= 1 && (is_alphabetic(c) || is_numeric(c) || c == '_' || c == '-' || c == '/')
        },
    }
}

/// The number of characters at the front of `s` that go on a run which has `offset`
/// bytes already.
pub open spec fn range_count(range: Range, s: Seq<char>, offset: nat) -> nat
    decreases s.len(),
{
    if s.len() > 0 && in_range(range, offset, s[0]) {
        1 + range_count(range, s.drop_first(), offset + width(s[0]))
    } else {
        0
    }
}

/// The length in characters of the run of the given sort that `s` begins with.
pub open spec fn range_len(range: Range, s: Seq<char>) -> nat {
    range_count(range, s, 0)
}

proof fn lemma_range_count(range: Range, s: Seq<char>, j: int)
    requires
        0 <= j <= s.len(),
    ensures
        ({
            let n = range_count(range, s.skip(j), byte_len(s.take(j)));
            &&& j + n <= s.len()
            &&& forall|k: int| j <= k < j + n ==> in_range(range, byte_len(s.take(k)), #[trigger] s[k])
            &&& j + n < s.len() ==> !in_range(range, byte_len(s.take(j + n)), s[j + n])
        }),
    decreases s.len() - j,
{
    let off = byte_len(s.take(j));
    if j < s.len() {
        assert(s.skip(j)[0] == s[j]);
        if in_range(range, off, s[j]) {
            assert(s.skip(j).drop_first() =~= s.skip(j + 1));
            lemma_byte_len_step(s, j);
            lemma_range_count(range, s, j + 1);
        }
    }
}

/// A run is as long as it can be: each of its characters goes on the run, and the
/// character after it, if there is one, does not.
pub proof fn lemma_range_len_is_longest(range: Range, s: Seq<char>)
    ensures
        range_len(range, s) <= s.len(),
        forall|k: int|
            0 <= k < range_len(range, s) ==> in_range(range, byte_len(s.take(k)), #[trigger] s[k]),
        range_len(range, s) < s.len() ==> !in_range(
            range,
            byte_len(s.take(range_len(range, s) as int)),
            s[range_len(range, s) as int],
        ),
{
    assert(s.skip(0) =~= s);
    assert(s.take(0) =~= Seq::<char>::empty());
    lemma_range_count(range, s, 0);
}

/// The token that a run of the given sort at the front of `s` makes.
pub open spec fn ranged(kind: TokenKind, range: Range, s: Seq<char>) -> Option<TokenV> {
    let n = range_len(range, s);
    if n == 0 {
        None
    } else {
        Some(TokenV { kind, text: s.take(n as int) })
    }
}

/// A token, unless its text has less than `n` bytes.
pub open spec fn at_least(t: Option<TokenV>, n: nat) -> Option<TokenV> {
    match t {
        Some(t) => if byte_len(t.text) < n {
            None
        } else {
            Some(t)
        },
        None => None,
    }
}

/// The mathematical value of a token that may be missing.
pub open spec fn token_view(t: Option<Token>) -> Option<TokenV> {
    match t {
        Some(t) => Some(t@),
        None => None,
    }
}

/// Whether a run of the given sort goes on with `c`, which begins at byte `i` of the run.
pub fn range_accepts(range: Range, i: usize, c: char) -> (b: bool)
    ensures
        b == in_range(range, i as nat, c),
{
    match range {
        Range::Whitespace => char_is_whitespace(c),
        Range::Natural => '0' as u32 <= c as u32 && c as u32 <= '9' as u32,
        Range::RelUri => {
            (i == 0 && c == '.') || (i == 1 && (c == '.' || c == '/')) || (i >= 2
                && !char_is_whitespace(c) && c != ')' && c != ',')
        },
        Range::HttpUri => {
            (i == 0 && c == 'h') || (i == 1 && c == 't') || (i == 2 && c == 't') || (i == 3 && c
                == 'p') || (i == 4 && (c == ':' || c == 's')) || (i == 5 && (c == '/' || c == ':'))
                || (i == 6 && c == '/') || (i >= 7 && !char_is_whitespace(c) && c != ')')
        },
        Range::Sha256 => {
            (i == 0 && c == 's') || (i == 1 && c == 'h') || (i == 2 && c == 'a') || (i == 3 && c
                == '2') || (i == 4 && c == '5') || (i == 5 && c == '6') || (i == 6 && c == ':')
                || (7 <= i && i < 7 + 64)
        },
        Range::Ident => {
            (i == 0 && (char_is_alphabetic(c) || c == '_')) || (i >= 1 && (char_is_alphabetic(c)
                || char_is_numeric(c) || c == '_' || c == '-' || c == '/'))
        },
    }
}

/// The token of the given kind that the run at the front of `inp` makes, if there is a
/// run.
pub fn range_parse<'s>(inp: &'s str, kind: TokenKind, range: Range) -> (r: Option<Token<'s>>)
    ensures
        token_view(r) == ranged(kind, range, inp@),
{
    let total = inp.as_bytes().len();
    let mut off: usize = 0;
    let mut k: usize = 0;
    let mut it = inp.chars();
    proof {
        assert(inp@.take(0) =~= Seq::<char>::empty());
        assert(inp@.skip(0) =~= inp@);
    }
    loop
        invariant_except_break
            it.obeys_prophetic_iter_laws(),
            it.remaining() == inp@.skip(k as int),
            off == byte_len(inp@.take(k as int)),
            k + range_count(range, inp@.skip(k as int), off as nat) == range_len(range, inp@),
        invariant
            k <= inp@.len(),
            k <= off <= total,
            total == byte_len(inp@),
        ensures
            k <= inp@.len(),
            k == range_len(range, inp@),
        decreases inp@.len() - k,
    {
        broadcast use next_postcondition;

        match it.next() {
            Some(c) => {
                proof {
                    assert(inp@.skip(k as int)[0] == inp@[k as int]);
                    assert(inp@.skip(k as int).drop_first() =~= inp@.skip(k + 1));
                    lemma_byte_len_step(inp@, k as int);
                }
                if !range_accepts(range, off, c) {
                    break ;
                }
                off = off + utf8len(c);
                k = k + 1;
            },
            None => {
                break ;
            },
        }
    }
    if k == 0 {
        None
    } else {
        let (text, _) = split_chars(inp, k);
        Some(Token::of(kind, text))
    }
}

/// The token, unless its text has less than `n` bytes.
pub fn longer_than<'s>(t: Option<Token<'s>>, n: usize) -> (r: Option<Token<'s>>)
    ensures
        token_view(r) == at_least(token_view(t), n as nat),
{
    match t {
        Some(t) => if t.as_str().as_bytes().len() < n {
            None
        } else {
            Some(t)
        },
        None => None,
    }
}

/// The white space at the front of `inp`.
pub fn parse_whitespace(inp: &str) -> (r: Option<Token<'_>>)
    ensures
        token_view(r) == ranged(TokenKind::Whitespace, Range::Whitespace, inp@),
{
    range_parse(inp, TokenKind::Whitespace, Range::Whitespace)
}

/// The digits at the front of `inp`.
pub fn parse_natural(inp: &str) -> (r: Option<Token<'_>>)
    ensures
        token_view(r) == ranged(TokenKind::Natural, Range::Natural, inp@),
{
    range_parse(inp, TokenKind::Natural, Range::Natural)
}

/// The path at the front of `inp` that begins with `./` or `../`.
pub fn parse_rel_uri(inp: &str) -> (r: Option<Token<'_>>)
    ensures
        token_view(r) == at_least(ranged(TokenKind::RelUri, Range::RelUri, inp@), 2),
{
    longer_than(range_parse(inp, TokenKind::RelUri, Range::RelUri), 2)
}

/// The address at the front of `inp` that begins with `http://` or `https://`.
pub fn parse_http_uri(inp: &str) -> (r: Option<Token<'_>>)
    ensures
        token_view(r) == at_least(ranged(TokenKind::HttpUri, Range::HttpUri, inp@), 7),
{
    longer_than(range_parse(inp, TokenKind::HttpUri, Range::HttpUri), 7)
}

/// The hash at the front of `inp`: `sha256:` and what follows it up to byte 71.
pub fn parse_sha256(inp: &str) -> (r: Option<Token<'_>>)
    ensures
        token_view(r) == at_least(ranged(TokenKind::Sha256, Range::Sha256, inp@), 7 + 63),
{
    longer_than(range_parse(inp, TokenKind::Sha256, Range::Sha256), 7 + 63)
}

/// The stretches of text that are told apart by a small machine that reads them
/// character by character.
#[derive(Clone, Copy, Debug, PartialEq, Eq, Structural)]
pub enum Scan {
    /// An identifier between backticks.
    Quoted,
    /// A comment from `--` to the end of the line.
    LineComment1,
    /// A comment from `#!` to the end of the line.
    LineComment2,
    /// A comment from `{-` to `-}`.
    BlockComment,
    /// The text of a `"` string up to the closing quote or the next interpolation.
    DQuoteText,
    /// The text of a `''` string up to the closing quotes or the next interpolation.
    DDQuoteText,
}

/// What such a machine remembers: how far it has come, the last three characters, and
/// whether it has begun and ended.
#[derive(Clone, Copy, Debug, PartialEq, Eq, Structural)]
pub struct ScanState {
    pub phase: u8,
    pub p: char,
    pub q: char,
    pub r: char,
    pub booted: bool,
    pub done: bool,
}

/// The state in which every machine begins.
pub open spec fn scan_start() -> ScanState {
    ScanState { phase: 0, p: '_', q: '_', r: '_', booted: false, done: false }
}

/// The step of a line comment that opens with `first` and `second`.
pub open spec fn line_comment_step(first: char, second: char, st: ScanState, c: char) -> Option<
    (ScanState, int),
> {
    if st.phase == 0 && c == first {
        Some((ScanState { phase: 1, ..st }, 1))
    } else if st.phase == 1 && c == second {
        Some((ScanState { phase: 2, ..st }, 1))
    } else if st.phase == 2 && c == '\n' {
        Some((ScanState { phase: 3, ..st }, 1))
    } else if st.phase == 2 {
        Some((st, 1))
    } else {
        None
    }
}

/// What a machine does with the character `c`: it stops, or it goes on in a new state
/// and says by how much the stretch grows or shrinks.
pub open spec fn scan_step(scan: Scan, st: ScanState, c: char) -> Option<(ScanState, int)> {
    match scan {
        Scan::Quoted => if st.phase == 0 && c == '`' {
            Some((ScanState { phase: 1, ..st }, 1))
        } else if st.phase == 1 && c == '`' {
            Some((ScanState { phase: 2, ..st }, 1))
        } else if st.phase == 2 {
            None
        } else {
            Some((st, 1))
        },
        Scan::LineComment1 => line_comment_step('-', '-', st, c),
        Scan::LineComment2 => line_comment_step('#', '!', st, c),
        Scan::BlockComment => if st.done {
            None
        } else if !st.booted && c == '{' {
            Some((ScanState { p: c, ..st }, 1))
        } else if !st.booted && st.p == '{' && c == '-' {
            Some((ScanState { p: c, booted: true, ..st }, 1))
        } else if st.booted && st.p == '-' && c == '}' {
            Some((ScanState { p: c, done: true, ..st }, 1))
        } else if st.booted {
            Some((ScanState { p: c, ..st }, 1))
        } else {
            Some((ScanState { p: c, done: true, ..st }, 0))
        },
        Scan::DQuoteText => if st.done {
            None
        } else if (st.q == '\\' && st.p == '$' && c == '{') || st.p == '\\' {
            Some((ScanState { q: st.p, p: c, ..st }, 1))
        } else if c == '"' {
            Some((ScanState { q: st.p, p: c, done: true, ..st }, 0))
        } else if st.p == '$' && c == '{' {
            Some((ScanState { q: st.p, p: c, done: true, ..st }, -1))
        } else {
            Some((ScanState { q: st.p, p: c, ..st }, 1))
        },
        Scan::DDQuoteText => if st.done {
            None
        } else if st.r == '\'' && st.q == '\'' && st.p == '$' && c == '{' {
            Some((ScanState { r: st.q, q: st.p, p: c, ..st }, 1))
        } else if st.r == '\'' && st.q == '\'' {
            Some((ScanState { r: st.q, q: st.p, p: c, done: true, ..st }, -3))
        } else if st.p == '$' && c == '{' {
            Some((ScanState { r: st.q, q: st.p, p: c, done: true, ..st }, -1))
        } else {
            Some((ScanState { r: st.q, q: st.p, p: c, ..st }, 1))
        },
    }
}

/// The sum of what the machine says of the characters of `s`, up to where it stops.
pub open spec fn scan_sum(scan: Scan, st: ScanState, s: Seq<char>) -> int
    decreases s.len(),
{
    if s.len() == 0 {
        0
    } else {
        match scan_step(scan, st, s[0]) {
            None => 0,
            Some((next, delta)) => delta + scan_sum(scan, next, s.drop_first()),
        }
    }
}

/// The stretch at the front of `s` that the machine marks off: as many characters as
/// the sum says, and all of `s` where the sum is below zero.
pub open spec fn scan_text(scan: Scan, s: Seq<char>) -> Seq<char> {
    let total = scan_sum(scan, scan_start(), s);
    if total < 0 {
        s
    } else {
        s.take(total)
    }
}

/// The token whose text is the stretch that the machine marks off.
pub open spec fn scanned(kind: TokenKind, scan: Scan, s: Seq<char>) -> Option<TokenV> {
    Some(TokenV { kind, text: scan_text(scan, s) })
}

/// A stretch is never longer than the text that it is marked off from.
pub proof fn lemma_scan_sum_bound(scan: Scan, st: ScanState, s: Seq<char>)
    ensures
        -3 * s.len() <= scan_sum(scan, st, s) <= s.len(),
    decreases s.len(),
{
    if s.len() > 0 {
        match scan_step(scan, st, s[0]) {
            None => {},
            Some((next, delta)) => {
                lemma_scan_sum_bound(scan, next, s.drop_first());
            },
        }
    }
}

fn line_comment_next(first: char, second: char, st: ScanState, c: char) -> (r: Option<
    (ScanState, i8),
>)
    ensures
        match r {
            Some((next, delta)) => line_comment_step(first, second, st, c) == Some(
                (next, delta as int),
            ),
            None => line_comment_step(first, second, st, c) is None,
        },
{
    if st.phase == 0 && c == first {
        Some((ScanState { phase: 1, ..st }, 1))
    } else if st.phase == 1 && c == second {
        Some((ScanState { phase: 2, ..st }, 1))
    } else if st.phase == 2 && c == '\n' {
        Some((ScanState { phase: 3, ..st }, 1))
    } else if st.phase == 2 {
        Some((st, 1))
    } else {
        None
    }
}

/// One step of a machine.
pub fn scan_next(scan: Scan, st: ScanState, c: char) -> (r: Option<(ScanState, i8)>)
    ensures
        match r {
            Some((next, delta)) => scan_step(scan, st, c) == Some((next, delta as int)) && -3
                <= delta <= 1,
            None => scan_step(scan, st, c) is None,
        },
{
    match scan {
        Scan::Quoted => if st.phase == 0 && c == '`' {
            Some((ScanState { phase: 1, ..st }, 1))
        } else if st.phase == 1 && c == '`' {
            Some((ScanState { phase: 2, ..st }, 1))
        } else if st.phase == 2 {
            None
        } else {
            Some((st, 1))
        },
        Scan::LineComment1 => line_comment_next('-', '-', st, c),
        Scan::LineComment2 => line_comment_next('#', '!', st, c),
        Scan::BlockComment => if st.done {
            None
        } else if !st.booted && c == '{' {
            Some((ScanState { p: c, ..st }, 1))
        } else if !st.booted && st.p == '{' && c == '-' {
            Some((ScanState { p: c, booted: true, ..st }, 1))
        } else if st.booted && st.p == '-' && c == '}' {
            Some((ScanState { p: c, done: true, ..st }, 1))
        } else if st.booted {
            Some((ScanState { p: c, ..st }, 1))
        } else {
            Some((ScanState { p: c, done: true, ..st }, 0))
        },
        Scan::DQuoteText => if st.done {
            None
        } else if (st.q == '\\' && st.p == '$' && c == '{') || st.p == '\\' {
            Some((ScanState { q: st.p, p: c, ..st }, 1))
        } else if c == '"' {
            Some((ScanState { q: st.p, p: c, done: true, ..st }, 0))
        } else if st.p == '$' && c == '{' {
            Some((ScanState { q: st.p, p: c, done: true, ..st }, -1))
        } else {
            Some((ScanState { q: st.p, p: c, ..st }, 1))
        },
        Scan::DDQuoteText => if st.done {
            None
        } else if st.r == '\'' && st.q == '\'' && st.p == '$' && c == '{' {
            Some((ScanState { r: st.q, q: st.p, p: c, ..st }, 1))
        } else if st.r == '\'' && st.q == '\'' {
            Some((ScanState { r: st.q, q: st.p, p: c, done: true, ..st }, -3))
        } else if st.p == '$' && c == '{' {
            Some((ScanState { r: st.q, q: st.p, p: c, done: true, ..st }, -1))
        } else {
            Some((ScanState { r: st.q, q: st.p, p: c, ..st }, 1))
        },
    }
}

/// The token of the given kind whose text is the stretch that the machine marks off at
/// the front of `inp`.
pub fn scan_parse<'s>(inp: &'s str, kind: TokenKind, scan: Scan) -> (r: Option<Token<'s>>)
    ensures
        token_view(r) == scanned(kind, scan, inp@),
{
    let total_bytes = inp.as_bytes().len();
    let mut st = ScanState { phase: 0, p: '_', q: '_', r: '_', booted: false, done: false };
    let mut sum: i128 = 0;
    let mut k: usize = 0;
    let mut off: usize = 0;
    let mut it = inp.chars();
    let ghost total = scan_sum(scan, scan_start(), inp@);
    proof {
        assert(inp@.take(0) =~= Seq::<char>::empty());
        assert(inp@.skip(0) =~= inp@);
    }
    loop
        invariant_except_break
            it.obeys_prophetic_iter_laws(),
            it.remaining() == inp@.skip(k as int),
            off == byte_len(inp@.take(k as int)),
            sum + scan_sum(scan, st, inp@.skip(k as int)) == total,
        invariant
            k <= inp@.len(),
            k <= off <= total_bytes,
            total_bytes == byte_len(inp@),
            total == scan_sum(scan, scan_start(), inp@),
            -3 * k <= sum <= k,
        ensures
            sum == total,
        decreases inp@.len() - k,
    {
        broadcast use next_postcondition;

        match it.next() {
            Some(c) => {
                proof {
                    assert(inp@.skip(k as int)[0] == inp@[k as int]);
                    assert(inp@.skip(k as int).drop_first() =~= inp@.skip(k + 1));
                    lemma_byte_len_step(inp@, k as int);
                }
                match scan_next(scan, st, c) {
                    Some((next, delta)) => {
                        st = next;
                        sum = sum + delta as i128;
                        off = off + utf8len(c);
                        k = k + 1;
                    },
                    None => {
                        break ;
                    },
                }
            },
            None => {
                break ;
            },
        }
    }
    if sum < 0 {
        Some(Token::of(kind, inp))
    } else {
        let (text, _) = split_chars(inp, sum as usize);
        Some(Token::of(kind, text))
    }
}

/// The comment at the front of `inp` that begins with `--`.
pub fn parse_line_comment1(inp: &str) -> (r: Option<Token<'_>>)
    ensures
        token_view(r) == at_least(scanned(TokenKind::Comment, Scan::LineComment1, inp@), 2),
{
    longer_than(scan_parse(inp, TokenKind::Comment, Scan::LineComment1), 2)
}

/// The comment at the front of `inp` that begins with `#!`.
pub fn parse_line_comment2(inp: &str) -> (r: Option<Token<'_>>)
    ensures
        token_view(r) == at_least(scanned(TokenKind::Comment, Scan::LineComment2, inp@), 2),
{
    longer_than(scan_parse(inp, TokenKind::Comment, Scan::LineComment2), 2)
}

/// The comment at the front of `inp` that begins with `{-`.
pub fn parse_block_comment(inp: &str) -> (r: Option<Token<'_>>)
    ensures
        token_view(r) == at_least(scanned(TokenKind::Comment, Scan::BlockComment, inp@), 4),
{
    longer_than(scan_parse(inp, TokenKind::Comment, Scan::BlockComment), 4)
}

/// The text of a `"` string from the front of `inp` up to the closing quote or the next
/// interpolation.
pub fn parse_dquot_raw_seg(inp: &str) -> (r: Option<Token<'_>>)
    ensures
        token_view(r) == scanned(TokenKind::RawText, Scan::DQuoteText, inp@),
{
    scan_parse(inp, TokenKind::RawText, Scan::DQuoteText)
}

/// The text of a `''` string from the front of `inp` up to the closing quotes or the
/// next interpolation.
pub fn parse_ddquote_raw_seg(inp: &str) -> (r: Option<Token<'_>>)
    ensures
        token_view(r) == scanned(TokenKind::RawText, Scan::DDQuoteText, inp@),
{
    scan_parse(inp, TokenKind::RawText, Scan::DDQuoteText)
}

/// The kind of the keyword that `text` spells, if it spells one.
pub open spec fn keyword(text: Seq<char>) -> Option<TokenKind> {
    if text == "let"@ {
        Some(TokenKind::Let)
    } else if text == "in"@ {
        Some(TokenKind::In)
    } else if text == "with"@ {
        Some(TokenKind::With)
    } else if text == "if"@ {
        Some(TokenKind::If)
    } else if text == "then"@ {
        Some(TokenKind::Then)
    } else if text == "else"@ {
        Some(TokenKind::Else)
    } else {
        None
    }
}

/// An identifier that spells a keyword is that keyword.
pub open spec fn as_keyword(t: Option<TokenV>) -> Option<TokenV> {
    match t {
        Some(t) => if t.kind == TokenKind::Ident && keyword(t.text) is Some {
            Some(TokenV { kind: keyword(t.text)->0, text: t.text })
        } else {
            Some(t)
        },
        None => None,
    }
}

/// The identifier or keyword at the front of `s`: a run of the characters of names, or
/// else a stretch between backticks.
pub open spec fn ident_or_keyword(s: Seq<char>) -> Option<TokenV> {
    as_keyword(
        match ranged(TokenKind::Ident, Range::Ident, s) {
            Some(t) => Some(t),
            None => at_least(scanned(TokenKind::Ident, Scan::Quoted, s), 2),
        },
    )
}

fn keyword_of<'s>(t: Token<'s>) -> (r: Token<'s>)
    ensures
        Some(r@) == as_keyword(Some(t@)),
{
    if t.is_ident("let") {
        Token::of(TokenKind::Let, "let")
    } else if t.is_ident("in") {
        Token::of(TokenKind::In, "in")
    } else if t.is_ident("with") {
        Token::of(TokenKind::With, "with")
    } else if t.is_ident("if") {
        Token::of(TokenKind::If, "if")
    } else if t.is_ident("then") {
        Token::of(TokenKind::Then, "then")
    } else if t.is_ident("else") {
        Token::of(TokenKind::Else, "else")
    } else {
        t
    }
}

/// The identifier or keyword at the front of `inp`.
pub fn parse_ident_or_keyword(inp: &str) -> (r: Option<Token<'_>>)
    ensures
        token_view(r) == ident_or_keyword(inp@),
{
    let found = match range_parse(inp, TokenKind::Ident, Range::Ident) {
        Some(t) => Some(t),
        None => longer_than(scan_parse(inp, TokenKind::Ident, Scan::Quoted), 2),
    };
    match found {
        Some(t) => Some(keyword_of(t)),
        None => None,
    }
}

/// Whether `s` begins with `prefix`.
pub open spec fn begins_with(s: Seq<char>, prefix: Seq<char>) -> bool {
    prefix.len() <= s.len() && s.take(prefix.len() as int) == prefix
}

/// Whether `inp` begins with `prefix`.
pub fn starts_with(inp: &str, prefix: &str) -> (b: bool)
    ensures
        b == begins_with(inp@, prefix@),
{
    let mut a = prefix.chars();
    let mut b = inp.chars();
    let ghost mut k: int = 0;
    proof {
        assert(prefix@.skip(0) =~= prefix@);
        assert(inp@.skip(0) =~= inp@);
    }
    loop
        invariant
            0 <= k <= prefix@.len(),
            k <= inp@.len(),
            a.obeys_prophetic_iter_laws(),
            b.obeys_prophetic_iter_laws(),
            a.remaining() == prefix@.skip(k),
            b.remaining() == inp@.skip(k),
            forall|j: int| 0 <= j < k ==> prefix@[j] == inp@[j],
        decreases prefix@.len() - k,
    {
        broadcast use next_postcondition;

        match a.next() {
            None => {
                assert(inp@.take(prefix@.len() as int) =~= prefix@);
                return true;
            },
            Some(x) => {
                proof {
                    assert(prefix@.skip(k)[0] == prefix@[k]);
                    assert(prefix@.skip(k).drop_first() =~= prefix@.skip(k + 1));
                }
                match b.next() {
                    None => {
                        return false;
                    },
                    Some(y) => {
                        proof {
                            assert(inp@.skip(k)[0] == inp@[k]);
                            assert(inp@.skip(k).drop_first() =~= inp@.skip(k + 1));
                        }
                        if x != y {
                            proof {
                                if prefix@.len() <= inp@.len() {
                                    assert(inp@.take(prefix@.len() as int)[k] == inp@[k]);
                                }
                            }
                            return false;
                        }
                        proof {
                            k = k + 1;
                        }
                    },
                }
            },
        }
    }
}

/// The token that `s` begins with if it begins with `first` or, failing that, with a
/// `second` that is not empty.
pub open spec fn verbatim(kind: TokenKind, first: Seq<char>, second: Seq<char>, s: Seq<char>) -> Option<
    TokenV,
> {
    if begins_with(s, first) {
        Some(TokenV { kind, text: first })
    } else if second.len() > 0 && begins_with(s, second) {
        Some(TokenV { kind, text: second })
    } else {
        None
    }
}

/// The token of the given kind that `inp` begins with if it begins with `opt1` or,
/// failing that, with an `opt2` that is not empty.
pub fn parse_verbatim<'i>(inp: &'i str, opt1: &str, opt2: &str, kind: TokenKind) -> (r: Option<
    Token<'i>,
>)
    ensures
        token_view(r) == verbatim(kind, opt1@, opt2@, inp@),
{
    if starts_with(inp, opt1) {
        Some(Token::of(kind, split_front(inp, opt1).0))
    } else if opt2.unicode_len() > 0 && starts_with(inp, opt2) {
        Some(Token::of(kind, split_front(inp, opt2).0))
    } else {
        None
    }
}

/// The marks of punctuation in the order in which they are tried: two spellings, of
/// which the second may be missing, and the kind of the token.
pub open spec fn punctuation() -> Seq<(Seq<char>, Seq<char>, TokenKind)> {
    seq![
        ("⩓"@, "//\\\\"@, TokenKind::Conj1),
        ("∧"@, "/\\"@, TokenKind::Conj2),
        ("⫽"@, "//"@, TokenKind::Alt),
        ("→"@, "->"@, TokenKind::Arrow),
        ("λ"@, "\\"@, TokenKind::Lambda),
        ("∀"@, ""@, TokenKind::Forall),
        ("''"@, ""@, TokenKind::DDQuote),
        ("\""@, ""@, TokenKind::DQuote),
        ("++"@, ""@, TokenKind::TextConcat),
        ("${"@, ""@, TokenKind::TextImbue),
        ("::"@, ""@, TokenKind::DColon),
        ("''"@, ""@, TokenKind::DDQuote),
        ("="@, ""@, TokenKind::Equals),
        ("("@, ""@, TokenKind::LPar),
        (")"@, ""@, TokenKind::RPar),
        (":"@, ""@, TokenKind::Colon),
        ("#"@, ""@, TokenKind::ListConcat),
        ("+"@, ""@, TokenKind::Plus),
        ("/"@, ""@, TokenKind::Div),
        ("*"@, ""@, TokenKind::Star),
        ("-"@, ""@, TokenKind::Minus),
        ("{"@, ""@, TokenKind::LBrace),
        ("}"@, ""@, TokenKind::RBrace),
        ("["@, ""@, TokenKind::LBracket),
        ("]"@, ""@, TokenKind::RBracket),
        ("<"@, ""@, TokenKind::LAngle),
        (">"@, ""@, TokenKind::RAngle),
        (","@, ""@, TokenKind::Comma),
        ("."@, ""@, TokenKind::Dot),
        ("|"@, ""@, TokenKind::Pipe),
        ("'"@, ""@, TokenKind::SQuote),
        ("?"@, ""@, TokenKind::Questionmark),
    ]
}

/// The token of the first of `marks` that `s` begins with.
pub open spec fn first_verbatim(marks: Seq<(Seq<char>, Seq<char>, TokenKind)>, s: Seq<char>) -> Option<
    TokenV,
>
    decreases marks.len(),
{
    if marks.len() == 0 {
        None
    } else {
        match verbatim(marks[0].2, marks[0].0, marks[0].1, s) {
            Some(t) => Some(t),
            None => first_verbatim(marks.drop_first(), s),
        }
    }
}

/// The texts of a table of marks.
pub open spec fn marks_view(marks: Seq<(&str, &str, TokenKind)>) -> Seq<
    (Seq<char>, Seq<char>, TokenKind),
> {
    Seq::new(marks.len(), |i: int| (marks[i].0@, marks[i].1@, marks[i].2))
}

/// The mark of punctuation that `inp` begins with.
pub fn parse_punctuation(inp: &str) -> (r: Option<Token<'_>>)
    ensures
        token_view(r) == first_verbatim(punctuation(), inp@),
{
    let marks: [(&str, &str, TokenKind); 32] = [
        ("⩓", "//\\\\", TokenKind::Conj1),
        ("∧", "/\\", TokenKind::Conj2),
        ("⫽", "//", TokenKind::Alt),
        ("→", "->", TokenKind::Arrow),
        ("λ", "\\", TokenKind::Lambda),
        ("∀", "", TokenKind::Forall),
        ("''", "", TokenKind::DDQuote),
        ("\"", "", TokenKind::DQuote),
        ("++", "", TokenKind::TextConcat),
        ("${", "", TokenKind::TextImbue),
        ("::", "", TokenKind::DColon),
        ("''", "", TokenKind::DDQuote),
        ("=", "", TokenKind::Equals),
        ("(", "", TokenKind::LPar),
        (")", "", TokenKind::RPar),
        (":", "", TokenKind::Colon),
        ("#", "", TokenKind::ListConcat),
        ("+", "", TokenKind::Plus),
        ("/", "", TokenKind::Div),
        ("*", "", TokenKind::Star),
        ("-", "", TokenKind::Minus),
        ("{", "", TokenKind::LBrace),
        ("}", "", TokenKind::RBrace),
        ("[", "", TokenKind::LBracket),
        ("]", "", TokenKind::RBracket),
        ("<", "", TokenKind::LAngle),
        (">", "", TokenKind::RAngle),
        (",", "", TokenKind::Comma),
        (".", "", TokenKind::Dot),
        ("|", "", TokenKind::Pipe),
        ("'", "", TokenKind::SQuote),
        ("?", "", TokenKind::Questionmark),
    ];
    let ghost all = marks_view(marks@);
    assert(all =~= punctuation());
    let mut i: usize = 0;
    assert(all.skip(0) =~= all);
    while i < 32
        invariant
            i <= 32,
            all == marks_view(marks@),
            all == punctuation(),
            all.len() == 32,
            first_verbatim(all.skip(i as int), inp@) == first_verbatim(all, inp@),
        decreases 32 - i,
    {
        assert(all.skip(i as int)[0] == all[i as int]);
        assert(all.skip(i as int).drop_first() =~= all.skip(i + 1));
        let (first, second, kind) = marks[i];
        match parse_verbatim(inp, first, second, kind) {
            Some(t) => {
                return Some(t);
            },
            None => {},
        }
        i = i + 1;
    }
    None
}

/// The first token if there is one, and else the second.
pub open spec fn or_else(a: Option<TokenV>, b: Option<TokenV>) -> Option<TokenV> {
    match a {
        Some(_) => a,
        None => b,
    }
}

/// The token that `s` begins with where an expression is read: the first that one of the
/// lexers finds, tried in a fixed order.
pub open spec fn lex_expr(s: Seq<char>) -> Option<TokenV> {
    or_else(
        ranged(TokenKind::Whitespace, Range::Whitespace, s),
        or_else(
            at_least(scanned(TokenKind::Comment, Scan::BlockComment, s), 4),
            or_else(
                at_least(scanned(TokenKind::Comment, Scan::LineComment1, s), 2),
                or_else(
                    at_least(scanned(TokenKind::Comment, Scan::LineComment2, s), 2),
                    or_else(
                        at_least(ranged(TokenKind::RelUri, Range::RelUri, s), 2),
                        or_else(
                            at_least(ranged(TokenKind::HttpUri, Range::HttpUri, s), 7),
                            or_else(
                                at_least(ranged(TokenKind::Sha256, Range::Sha256, s), 70),
                                or_else(
                                    first_verbatim(punctuation(), s),
                                    or_else(
                                        ranged(TokenKind::Natural, Range::Natural, s),
                                        ident_or_keyword(s),
                                    ),
                                ),
                            ),
                        ),
                    ),
                ),
            ),
        ),
    )
}

/// What lies between two places.
pub type Span<N, T> = (N, T, N);

/// A token with the bytes of the source at which it begins and ends.
pub type Item<'s> = Span<usize, Token<'s>>;

/// Where a lexer stands: the text that is left, the bytes that were read, the mode, and
/// the modes to go back to when an interpolation ends.
pub struct LexV {
    pub rest: Seq<char>,
    pub pos: nat,
    pub mode: u16,
    pub stack: Seq<u16>,
}

/// The text that is left after `text` was read from its front.
pub open spec fn advance(st: LexV, text: Seq<char>) -> LexV {
    LexV { rest: st.rest.skip(text.len() as int), pos: st.pos + byte_len(text), ..st }
}

/// The mode and the stack after a step to the mode `mode`, if that is a mode that can be
/// held.
pub open spec fn moved(st: LexV, t: Option<TokenV>, mode: int, stack: Seq<u16>) -> (Option<
    TokenV,
>, LexV) {
    if 0 <= mode <= u16::MAX {
        (t, LexV { mode: mode as u16, stack, ..st })
    } else {
        (None, st)
    }
}

/// One token read in the mode that the lexer is in, and the mode after it. The modes
/// that leave a remainder of 0 on division by 3 read an expression; those that leave 1
/// read the text of a string, and those that leave 2 read what follows such a text: the
/// end of the string, or an interpolation.
pub open spec fn moody(st: LexV) -> (Option<TokenV>, LexV) {
    let m = st.mode % 6;
    if st.mode % 3 == 0 {
        let t = lex_expr(st.rest);
        match t {
            Some(tok) => if tok.kind == TokenKind::DQuote {
                moved(st, t, st.mode + 1, st.stack)
            } else if tok.kind == TokenKind::DDQuote {
                moved(st, t, st.mode + 4, st.stack)
            } else if tok.kind == TokenKind::RBrace && st.mode > 0 && st.stack.len() > 0 {
                moved(st, t, st.mode - (st.stack.last() + 1), st.stack.drop_last())
            } else {
                (t, st)
            },
            None => (t, st),
        }
    } else if st.mode % 3 == 1 {
        let t = if m == 1 {
            scanned(TokenKind::RawText, Scan::DQuoteText, st.rest)
        } else {
            scanned(TokenKind::RawText, Scan::DDQuoteText, st.rest)
        };
        moved(st, t, st.mode + 1, st.stack)
    } else {
        let t = lex_expr(st.rest);
        match t {
            Some(tok) => if tok.kind == TokenKind::DQuote || tok.kind == TokenKind::DDQuote {
                moved(st, t, st.mode - m, st.stack)
            } else if tok.kind == TokenKind::TextImbue {
                moved(st, t, st.mode + (6 - m), st.stack.push((6 - m) as u16))
            } else {
                (t, st)
            },
            None => (t, st),
        }
    }
}

/// Whether a token is passed over between the tokens of an expression.
pub open spec fn skipped(t: TokenV) -> bool {
    (t.kind == TokenKind::Whitespace || t.kind == TokenKind::Comment) && 0 < t.text.len()
}

/// The next token that is not passed over, with the bytes at which it begins and ends,
/// and where the lexer stands after it.
pub open spec fn next_visible(st: LexV) -> (Option<(nat, TokenV, nat)>, LexV)
    decreases st.rest.len(),
{
    let (t, after) = moody(st);
    match t {
        None => (None, after),
        Some(tok) => {
            let next = advance(after, tok.text);
            if skipped(tok) && tok.text.len() <= st.rest.len() {
                next_visible(next)
            } else {
                (Some((st.pos, tok, next.pos)), next)
            }
        },
    }
}

/// A token that a lexer finds is the front of the text that it was found in.
pub proof fn lemma_token_is_front(st: LexV)
    ensures
        moody(st).0 matches Some(t) ==> begins_with(st.rest, t.text),
{
    let s = st.rest;
    lemma_scan_sum_bound(Scan::BlockComment, scan_start(), s);
    lemma_scan_sum_bound(Scan::LineComment1, scan_start(), s);
    lemma_scan_sum_bound(Scan::LineComment2, scan_start(), s);
    lemma_scan_sum_bound(Scan::Quoted, scan_start(), s);
    lemma_scan_sum_bound(Scan::DQuoteText, scan_start(), s);
    lemma_scan_sum_bound(Scan::DDQuoteText, scan_start(), s);
    lemma_range_len_is_longest(Range::Whitespace, s);
    lemma_range_len_is_longest(Range::RelUri, s);
    lemma_range_len_is_longest(Range::HttpUri, s);
    lemma_range_len_is_longest(Range::Sha256, s);
    lemma_range_len_is_longest(Range::Natural, s);
    lemma_range_len_is_longest(Range::Ident, s);
    lemma_first_verbatim_is_front(punctuation(), s);
    assert(s.take(s.len() as int) =~= s);
    assert forall|n: int| 0 <= n <= s.len() implies #[trigger] s.take(n).len() == n && s.take(
        s.take(n).len() as int,
    ) == s.take(n) by {}
}

proof fn lemma_first_verbatim_is_front(marks: Seq<(Seq<char>, Seq<char>, TokenKind)>, s: Seq<char>)
    ensures
        first_verbatim(marks, s) matches Some(t) ==> begins_with(s, t.text),
    decreases marks.len(),
{
    if marks.len() > 0 {
        lemma_first_verbatim_is_front(marks.drop_first(), s);
    }
}

/// A lexer over a source text.
pub struct Lex<'s> {
    source: &'s str,
    rest: &'s str,
    last_span: Item<'s>,
    mode: u16,
    strstack: Vec<u16>,
}

impl<'s> View for Lex<'s> {
    type V = LexV;

    closed spec fn view(&self) -> LexV {
        LexV {
            rest: self.rest@,
            pos: self.last_span.2 as nat,
            mode: self.mode,
            stack: self.strstack@,
        }
    }
}

/// Whether the modes on the stack and the mode fit together, so that every step back
/// leads to a mode.
pub open spec fn modes_fit(mode: u16, stack: Seq<u16>) -> bool {
    &&& 6 * stack.len() <= mode
    &&& forall|i: int| 0 <= i < stack.len() ==> #[trigger] stack[i] <= 4
}

impl<'s> Lex<'s> {
    /// The whole text that the lexer reads.
    pub closed spec fn source(&self) -> Seq<char> {
        self.source@
    }

    /// The text that was read lies before the text that is left, and the bytes were
    /// counted.
    pub closed spec fn wf(&self) -> bool {
        &&& self.rest@.len() <= self.source@.len()
        &&& self.source@.skip(self.source@.len() - self.rest@.len()) == self.rest@
        &&& self.last_span.2 == byte_len(self.source@.take(self.source@.len() - self.rest@.len()))
        &&& modes_fit(self.mode, self.strstack@)
    }

    /// A lexer at the beginning of `source`, reading an expression.
    pub fn new(source: &'s str) -> (lex: Self)
        ensures
            lex.wf(),
            lex.source() == source@,
            lex@ == (LexV { rest: source@, pos: 0, mode: 0, stack: Seq::empty() }),
    {
        let lex = Lex {
            source,
            rest: source,
            last_span: (0, Token::Empty(""), 0),
            mode: 0,
            strstack: Vec::new(),
        };
        proof {
            assert(source@.skip(0) =~= source@);
            assert(source@.take(0) =~= Seq::<char>::empty());
            assert(lex.strstack@ =~= Seq::<u16>::empty());
        }
        lex
    }

    /// The text that is left to read.
    pub fn src(&self) -> (rest: &'s str)
        ensures
            rest@ == self@.rest,
    {
        self.rest
    }

    /// The number of bytes of the source that were read.
    pub fn position(&self) -> (pos: usize)
        ensures
            pos == self@.pos,
    {
        self.last_span.2
    }

    /// The token that the text that is left begins with, read as a part of an expression.
    pub fn next_expr(&mut self) -> (r: Option<Token<'s>>)
        ensures
            *final(self) == *old(self),
            token_view(r) == lex_expr(old(self)@.rest),
    {
        let inp = self.src();
        let mut r = parse_whitespace(inp);
        if r.is_none() {
            r = parse_block_comment(inp);
        }
        if r.is_none() {
            r = parse_line_comment1(inp);
        }
        if r.is_none() {
            r = parse_line_comment2(inp);
        }
        if r.is_none() {
            r = parse_rel_uri(inp);
        }
        if r.is_none() {
            r = parse_http_uri(inp);
        }
        if r.is_none() {
            r = parse_sha256(inp);
        }
        if r.is_none() {
            r = parse_punctuation(inp);
        }
        if r.is_none() {
            r = parse_natural(inp);
        }
        if r.is_none() {
            r = parse_ident_or_keyword(inp);
        }
        r
    }

    /// The token that the text that is left begins with, read in the mode that the lexer
    /// is in. The mode changes; the text that is left does not.
    pub fn next_moody(&mut self) -> (r: Option<Token<'s>>)
        requires
            old(self).wf(),
        ensures
            final(self).wf(),
            final(self).source() == old(self).source(),
            (token_view(r), final(self)@) == moody(old(self)@),
    {
        let n = self.mode;
        let m = n % 6;
        let ghost before = self@;
        if n % 3 == 0 {
            let tkn = self.next_expr();
            match &tkn {
                Some(t) => {
                    let kind = t.kind();
                    if kind == TokenKind::DQuote {
                        if n > u16::MAX - 1 {
                            return None;
                        }
                        self.mode = n + 1;
                    } else if kind == TokenKind::DDQuote {
                        if n > u16::MAX - 4 {
                            return None;
                        }
                        self.mode = n + 4;
                    } else if kind == TokenKind::RBrace && n > 0 {
                        match self.strstack.pop() {
                            Some(x) => {
                                assert(x == before.stack.last());
                                assert(self.strstack@ =~= before.stack.drop_last());
                                self.mode = n - (x + 1);
                            },
                            None => {
                                assert(self.strstack@ =~= before.stack);
                            },
                        }
                    }
                },
                None => {},
            }
            tkn
        } else if n % 3 == 1 {
            if n > u16::MAX - 1 {
                return None;
            }
            self.mode = n + 1;
            if m == 1 {
                parse_dquot_raw_seg(self.src())
            } else {
                parse_ddquote_raw_seg(self.src())
            }
        } else {
            let tkn = self.next_expr();
            match &tkn {
                Some(t) => {
                    let kind = t.kind();
                    if kind == TokenKind::DQuote || kind == TokenKind::DDQuote {
                        self.mode = n - m;
                    } else if kind == TokenKind::TextImbue {
                        let s = 6 - m;
                        if n > u16::MAX - s {
                            return None;
                        }
                        self.strstack.push(s);
                        self.mode = n + s;
                        assert(self.strstack@ =~= before.stack.push(s));
                    }
                },
                None => {},
            }
            tkn
        }
    }

    /// The next token that is not white space or a comment, with the bytes of the source
    /// at which it begins and ends.
    pub fn next_token(&mut self) -> (r: Option<Item<'s>>)
        requires
            old(self).wf(),
        ensures
            final(self).wf(),
            final(self).source() == old(self).source(),
            (span_view(r), final(self)@) == next_visible(old(self)@),
    {
        let total = self.source.as_bytes().len();
        loop
            invariant
                self.wf(),
                self.source() == old(self).source(),
                total == byte_len(self.source()),
                next_visible(self@) == next_visible(old(self)@),
            decreases self@.rest.len(),
        {
            let ghost st = self@;
            let tkn = self.next_moody();
            let t = match tkn {
                Some(t) => t,
                None => {
                    return None;
                },
            };
            let text = t.as_str();
            proof {
                lemma_token_is_front(st);
            }
            let (_, tail) = split_front(self.rest, text);
            let len = text.as_bytes().len();
            let start = self.last_span.2;
            proof {
                let src = self.source@;
                let read = src.len() - st.rest.len();
                let n = text@.len();
                assert(src.take(read + n) =~= src.take(read) + text@);
                lemma_encode_concat(src.take(read), text@);
                assert(src =~= src.take(read + n) + src.skip(read + n));
                lemma_encode_concat(src.take(read + n), src.skip(read + n));
                assert(src.skip(read + n) =~= st.rest.skip(n as int));
            }
            let span = (start, t, start + len);
            self.last_span = span;
            self.rest = tail;
            let kind = t.kind();
            if !((kind == TokenKind::Whitespace || kind == TokenKind::Comment) && len > 0) {
                return Some(span);
            }
            proof {
                lemma_byte_len_zero(text@);
            }
        }
    }
}

/// The mathematical value of a token with its span, if there is one.
pub open spec fn span_view(r: Option<Item>) -> Option<(nat, TokenV, nat)> {
    match r {
        Some((start, t, end)) => Some((start as nat, t@, end as nat)),
        None => None,
    }
}

/// Only the empty text takes no bytes.
pub proof fn lemma_byte_len_zero(s: Seq<char>)
    ensures
        byte_len(s) == 0 <==> s.len() == 0,
{
    if s.len() > 0 {
        char_is_scalar(s[0]);
    }
}

/// The front of `inp` that spells `prefix`, and what follows it.
pub fn split_front<'i>(inp: &'i str, prefix: &str) -> (r: (&'i str, &'i str))
    requires
        begins_with(inp@, prefix@),
    ensures
        r.0@ == prefix@,
        r.1@ == inp@.skip(prefix@.len() as int),
{
    let n = prefix.as_bytes().len();
    proof {
        let rest = inp@.skip(prefix@.len() as int);
        assert(inp@ =~= prefix@ + rest);
        lemma_prefix_ends_at_boundary(prefix@, rest);
        lemma_encode_concat(prefix@, rest);
    }
    let (text, tail) = inp.split_at(n);
    proof {
        let rest = inp@.skip(prefix@.len() as int);
        assert(encode_utf8(text@) =~= encode_utf8(prefix@));
        assert(encode_utf8(tail@) =~= encode_utf8(rest));
        lemma_encoding_is_injective(text@, prefix@);
        lemma_encoding_is_injective(tail@, rest);
    }
    (text, tail)
}

/// Moves a span by the end of the span before it.
pub fn span_shift<'s>(base: &Item<'s>, span: &mut Item<'s>)
    requires
        old(span).2 + base.2 <= usize::MAX,
        old(span).0 <= old(span).2,
    ensures
        final(span).0 == old(span).0 + base.2,
        final(span).1 == old(span).1,
        final(span).2 == old(span).2 + base.2,
{
    span.0 = span.0 + base.2;
    span.2 = span.2 + base.2;
}

} // verus!
