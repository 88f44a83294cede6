//! Lexer for the `.arn` textual format.
//!
//! The format is line-oriented and explicit; the lexer produces a flat
//! token stream (markers, handles, identifiers, numbers, strings and a few
//! punctuation characters). Newlines are not tokens, but every token
//! records its line for diagnostics.

use vstd::prelude::*;
use vstd::string::StringSliceAdditionalSpecFns;
use vstd::utf8::{decode_utf8, encode_utf8, valid_utf8};

use crate::error::ParseError;
use crate::textbuf::{all_ascii, cat3, concat_bytes, concat_strs, into_string, is_ascii_byte, lemma_ascii_utf8, string_from_utf8};

verus! {

/// The kind of a token.
#[derive(Debug, Clone, PartialEq, Eq)]
pub enum TokenKind {
    /// `::ASTRONOMY::NAME`; the name is stored without the prefix.
    Marker(String),
    /// `%name` or `%123`.
    ValueRef(String),
    /// `@name`.
    FuncRef(String),
    /// A bare identifier (`i64`, `entry`, `linkage`, `c0`, ...).
    Ident(String),
    /// An integer literal that fits in `i128`.
    Int(i128),
    /// An integer literal above `i128::MAX` (up to `u128::MAX`).
    UInt(u128),
    /// A float literal, kept as raw text for exact `f32`/`f64` parsing.
    FloatText(String),
    /// A string literal (decoded bytes).
    Str(Vec<u8>),
    /// One of `( ) < > , =`.
    Punct(char),
    /// `->`
    Arrow,
    /// `...`
    Ellipsis,
}

/// A token with the line it starts on.
#[derive(Debug, Clone, PartialEq, Eq)]
pub struct Token {
    /// What the token is.
    pub kind: TokenKind,
    /// One-based line number.
    pub line: u32,
}

/// `[A-Za-z_]`.
pub open spec fn is_ident_start(b: u8) -> bool {
    (65 <= b <= 90) || (97 <= b <= 122) || b == 95
}

/// `[A-Za-z0-9_]`.
pub open spec fn is_ident_char(b: u8) -> bool {
    is_ident_start(b) || (48 <= b <= 57)
}

/// `[0-9]`.
pub open spec fn is_digit_byte(b: u8) -> bool {
    48 <= b <= 57
}

/// `[0-9A-Fa-f]`.
pub open spec fn is_hex_byte(b: u8) -> bool {
    (48 <= b <= 57) || (65 <= b <= 70) || (97 <= b <= 102)
}

/// Value of a hexadecimal digit.
pub open spec fn hex_value(b: u8) -> int {
    if 48 <= b <= 57 {
        b - 48
    } else if 65 <= b <= 70 {
        b - 55
    } else {
        b - 87
    }
}

fn ident_start(b: u8) -> (r: bool)
    ensures
        r == is_ident_start(b),
{
    (65 <= b && b <= 90) || (97 <= b && b <= 122) || b == 95
}

fn ident_char(b: u8) -> (r: bool)
    ensures
        r == is_ident_char(b),
{
    ident_start(b) || (48 <= b && b <= 57)
}

fn digit(b: u8) -> (r: bool)
    ensures
        r == is_digit_byte(b),
{
    48 <= b && b <= 57
}

fn hex_digit(b: u8) -> (r: bool)
    ensures
        r == is_hex_byte(b),
{
    (48 <= b && b <= 57) || (65 <= b && b <= 70) || (97 <= b && b <= 102)
}

fn hex_val(b: u8) -> (r: u32)
    requires
        is_hex_byte(b),
    ensures
        r == hex_value(b),
        r < 16,
{
    if 48 <= b && b <= 57 {
        (b - 48) as u32
    } else if 65 <= b && b <= 70 {
        (b - 55) as u32
    } else {
        (b - 87) as u32
    }
}

/// Copies the ASCII bytes `bytes[start..end]` into a `String`.
fn ascii_text(bytes: &[u8], start: usize, end: usize) -> (r: String)
    requires
        start <= end <= bytes@.len(),
        forall|k: int| start <= k < end ==> #[trigger] is_ascii_byte(bytes@[k]),
    ensures
        vstd::utf8::encode_utf8(r@) == bytes@.subrange(start as int, end as int),
{
    let mut out: Vec<u8> = Vec::new();
    let mut k = start;
    while k < end
        invariant
            start <= k <= end <= bytes@.len(),
            out@ == bytes@.subrange(start as int, k as int),
        decreases end - k,
    {
        out.push(bytes[k]);
        k = k + 1;
        proof {
            assert(out@ =~= bytes@.subrange(start as int, k as int));
        }
    }
    proof {
        assert(all_ascii(out@)) by {
            assert forall|i: int| 0 <= i < out@.len() implies #[trigger] is_ascii_byte(out@[i]) by {
                assert(out@[i] == bytes@[start + i]);
            }
        }
        lemma_ascii_utf8(out@);
    }
    into_string(out)
}

/// How many bytes a UTF-8 sequence with lead byte `b` takes.
pub open spec fn utf8_width(b: u8) -> int {
    if b < 0x80 {
        1
    } else if b >= 0xF0 {
        4
    } else if b >= 0xE0 {
        3
    } else {
        2
    }
}

/// The characters of `chunk`, or `?` when it is not valid UTF-8.
pub open spec fn chars_or_mark(chunk: Seq<u8>) -> Seq<char> {
    if valid_utf8(chunk) {
        decode_utf8(chunk)
    } else {
        "?"@
    }
}

/// The text of the character starting at byte `i`, or `?` when the bytes
/// there do not form one.
fn char_text(bytes: &[u8], i: usize) -> (r: String)
    requires
        i < bytes@.len(),
    ensures
        r@ == chars_or_mark(
            bytes@.subrange(
                i as int,
                if i + utf8_width(bytes@[i as int]) <= bytes@.len() {
                    i + utf8_width(bytes@[i as int])
                } else {
                    bytes@.len() as int
                },
            ),
        ),
{
    let b = bytes[i];
    let n: usize = if b < 0x80 {
        1
    } else if b >= 0xF0 {
        4
    } else if b >= 0xE0 {
        3
    } else {
        2
    };
    let mut v: Vec<u8> = Vec::new();
    let mut k: usize = 0;
    while k < n && k < bytes.len() - i
        invariant
            k <= n,
            n == utf8_width(bytes@[i as int]),
            i < bytes@.len(),
            i + k <= bytes@.len(),
            v@ == bytes@.subrange(i as int, i + k),
        decreases n - k,
    {
        v.push(bytes[i + k]);
        proof {
            assert(v@ =~= bytes@.subrange(i as int, i + k + 1));
        }
        k = k + 1;
    }
    match string_from_utf8(v) {
        Some(s) => s,
        None => "?".to_owned(),
    }
}

fn unexpected(line: u32, found: String) -> (r: ParseError)
    ensures
        r matches ParseError::UnexpectedToken { line: l, expected, found: f } && l == line && f == found && expected@
            == "a valid ARN token"@,
{
    ParseError::UnexpectedToken { line, expected: "a valid ARN token".to_owned(), found }
}

/// Only literals above `i128::MAX` are `UInt` tokens.
pub open spec fn big_uints(toks: Seq<Token>) -> bool {
    forall|i: int| 0 <= i < toks.len() ==> ((#[trigger] toks[i]).kind matches TokenKind::UInt(v) ==> v > i128::MAX)
}

/// Tokens start on lines from 1 up, in order.
pub open spec fn lines_ordered(toks: Seq<Token>) -> bool {
    &&& forall|i: int| 0 <= i < toks.len() ==> (#[trigger] toks[i]).line >= 1
    &&& forall|i: int, j: int| 0 <= i < j < toks.len() ==> toks[i].line <= toks[j].line
}

/// What a token stands for, with its text as the bytes it was written
/// with.
pub enum Lexeme {
    Marker(Seq<u8>),
    ValueRef(Seq<u8>),
    FuncRef(Seq<u8>),
    Ident(Seq<u8>),
    Int(int),
    FloatText(Seq<u8>),
    Str(Seq<u8>),
    Punct(char),
    Arrow,
    Ellipsis,
}

/// The lexeme a token kind carries.
pub open spec fn lexeme_of(k: TokenKind) -> Lexeme {
    match k {
        TokenKind::Marker(t) => Lexeme::Marker(encode_utf8(t@)),
        TokenKind::ValueRef(t) => Lexeme::ValueRef(encode_utf8(t@)),
        TokenKind::FuncRef(t) => Lexeme::FuncRef(encode_utf8(t@)),
        TokenKind::Ident(t) => Lexeme::Ident(encode_utf8(t@)),
        TokenKind::Int(v) => Lexeme::Int(v as int),
        TokenKind::UInt(v) => Lexeme::Int(v as int),
        TokenKind::FloatText(t) => Lexeme::FloatText(encode_utf8(t@)),
        TokenKind::Str(d) => Lexeme::Str(d@),
        TokenKind::Punct(c) => Lexeme::Punct(c),
        TokenKind::Arrow => Lexeme::Arrow,
        TokenKind::Ellipsis => Lexeme::Ellipsis,
    }
}

/// The lexemes of a token sequence, each with its line.
pub open spec fn lexemes(toks: Seq<Token>) -> Seq<(Lexeme, u32)> {
    toks.map_values(|t: Token| (lexeme_of(t.kind), t.line))
}

/// The first index from `k` on that is not an identifier character.
pub open spec fn ident_end(s: Seq<u8>, k: int) -> int
    decreases s.len() - k,
{
    if k < 0 || k >= s.len() || !is_ident_char(s[k]) {
        k
    } else {
        ident_end(s, k + 1)
    }
}

/// The first index from `k` on that is not a decimal digit.
pub open spec fn digit_end(s: Seq<u8>, k: int) -> int
    decreases s.len() - k,
{
    if k < 0 || k >= s.len() || !is_digit_byte(s[k]) {
        k
    } else {
        digit_end(s, k + 1)
    }
}

/// The first index from `k` on that holds a newline (or the end of `s`).
pub open spec fn line_end(s: Seq<u8>, k: int) -> int
    decreases s.len() - k,
{
    if k < 0 || k >= s.len() || s[k] == 10 {
        k
    } else {
        line_end(s, k + 1)
    }
}

/// The end of a handle name starting at `k`: a run of digits, or else an
/// identifier.
pub open spec fn handle_end(s: Seq<u8>, k: int) -> int {
    if 0 <= k < s.len() && is_digit_byte(s[k]) {
        digit_end(s, k)
    } else if 0 <= k < s.len() && is_ident_start(s[k]) {
        ident_end(s, k)
    } else {
        k
    }
}

/// The value of a run of decimal digits.
pub open spec fn digits_nat(d: Seq<u8>) -> nat
    decreases d.len(),
{
    if d.len() == 0 {
        0
    } else {
        digits_nat(d.drop_last()) * 10 + (d.last() - 48) as nat
    }
}

/// The integer a run of decimal digits denotes, negated when `negative`.
pub open spec fn signed_value(d: Seq<u8>, negative: bool) -> int {
    if negative {
        -digits_nat(d)
    } else {
        digits_nat(d) as int
    }
}

/// The value of a prefix of a digit run is at most that of the run.
pub(crate) proof fn lemma_digits_nat_prefix(d: Seq<u8>, m: int)
    requires
        0 <= m <= d.len(),
    ensures
        digits_nat(d.subrange(0, m)) <= digits_nat(d),
    decreases d.len(),
{
    if m < d.len() {
        lemma_digits_nat_prefix(d.drop_last(), m);
        assert(d.drop_last().subrange(0, m) =~= d.subrange(0, m));
    } else {
        assert(d.subrange(0, m) =~= d);
    }
}

/// Whether `s[k..k + 9]` spells `ASTRONOMY`.
pub open spec fn astronomy_at_spec(s: Seq<u8>, k: int) -> bool {
    &&& 0 <= k
    &&& k + 9 <= s.len()
    &&& s[k] == 65 && s[k + 1] == 83 && s[k + 2] == 84 && s[k + 3] == 82 && s[k + 4] == 79
    &&& s[k + 5] == 78 && s[k + 6] == 79 && s[k + 7] == 77 && s[k + 8] == 89
}

/// The end of the digits, fraction and exponent of a number whose digits
/// start at `ds`, and whether a fraction or exponent made it a float.
/// Why the number starting at `start` is refused: a letter, digit or
/// underscore right after it, or an integer out of range.
pub open spec fn number_error_reason(s: Seq<u8>, start: int) -> Seq<u8> {
    let ds = if s[start] == 45 { start + 1 } else { start };
    let end = number_extent(s, ds).0;
    if end < s.len() && is_ident_char(s[end]) {
        "unexpected character `".spec_bytes() + s.subrange(end, end + 1) + "` in number".spec_bytes()
    } else {
        "integer literal out of range".spec_bytes()
    }
}

pub open spec fn number_extent(s: Seq<u8>, ds: int) -> (int, bool) {
    let de = digit_end(s, ds);
    let (i, frac) = if s.len() - de > 1 && s[de] == 46 && is_digit_byte(s[de + 1]) {
        (digit_end(s, de + 1), true)
    } else {
        (de, false)
    };
    if i < s.len() && (s[i] == 101 || s[i] == 69) {
        let j = if i + 1 < s.len() && (s[i + 1] == 43 || s[i + 1] == 45) { i + 2 } else { i + 1 };
        if j < s.len() && is_digit_byte(s[j]) {
            (digit_end(s, j), true)
        } else {
            (i, frac)
        }
    } else {
        (i, frac)
    }
}

/// The number starting at `start` (a digit, or `-` then a digit): its
/// lexeme and the index after it, or `None` when it is malformed or out
/// of range.
pub open spec fn spec_number(s: Seq<u8>, start: int) -> Option<(Lexeme, int)> {
    let negative = s[start] == 45;
    let ds = if negative { start + 1 } else { start };
    let (end, is_float) = number_extent(s, ds);
    if end < s.len() && is_ident_char(s[end]) {
        None
    } else if is_float {
        Some((Lexeme::FloatText(s.subrange(start, end)), end))
    } else {
        let v = signed_value(s.subrange(ds, digit_end(s, ds)), negative);
        if i128::MIN <= v <= u128::MAX {
            Some((Lexeme::Int(v), end))
        } else {
            None
        }
    }
}

/// One step of the lexer at `i` (below the end): what it emits (nothing
/// for whitespace and comments), where it continues and the line there;
/// `None` when the input is malformed at `i`.
pub open spec fn lex_step(s: Seq<u8>, i: int, line: u32) -> Option<(Option<Lexeme>, int, u32)> {
    let b = s[i];
    let len = s.len();
    if b == 32 || b == 9 || b == 13 {
        Some((None, i + 1, line))
    } else if b == 10 {
        Some((None, i + 1, if line < u32::MAX { (line + 1) as u32 } else { line }))
    } else if b == 35 {
        Some((None, line_end(s, i + 1), line))
    } else if b == 58 {
        if len - i > 1 && s[i + 1] == 58 && astronomy_at_spec(s, i + 2) && len - (i + 11) > 1
            && s[i + 11] == 58 && s[i + 12] == 58 && ident_end(s, i + 13) > i + 13 {
            Some((Some(Lexeme::Marker(s.subrange(i + 13, ident_end(s, i + 13)))), ident_end(s, i + 13), line))
        } else {
            None
        }
    } else if b == 37 || b == 64 {
        let end = handle_end(s, i + 1);
        if end == i + 1 {
            None
        } else if b == 37 {
            Some((Some(Lexeme::ValueRef(s.subrange(i + 1, end))), end, line))
        } else {
            Some((Some(Lexeme::FuncRef(s.subrange(i + 1, end))), end, line))
        }
    } else if b == 34 {
        match spec_lex_string(s, i + 1) {
            Ok((data, e)) => if e >= len {
                None
            } else {
                Some((Some(Lexeme::Str(data)), e + 1, line))
            },
            Err(_) => None,
        }
    } else if b == 45 {
        if len - i > 1 && s[i + 1] == 62 {
            Some((Some(Lexeme::Arrow), i + 2, line))
        } else if len - i > 1 && is_digit_byte(s[i + 1]) {
            match spec_number(s, i) {
                Some((l, e)) => Some((Some(l), e, line)),
                None => None,
            }
        } else if len - i >= 4 && s[i + 1] == 105 && s[i + 2] == 110 && s[i + 3] == 102 {
            Some((Some(Lexeme::FloatText(seq![45u8, 105u8, 110u8, 102u8])), i + 4, line))
        } else {
            None
        }
    } else if b == 46 {
        if len - i > 2 && s[i + 1] == 46 && s[i + 2] == 46 {
            Some((Some(Lexeme::Ellipsis), i + 3, line))
        } else {
            None
        }
    } else if is_digit_byte(b) {
        match spec_number(s, i) {
            Some((l, e)) => Some((Some(l), e, line)),
            None => None,
        }
    } else if b == 40 || b == 41 || b == 60 || b == 62 || b == 44 || b == 61 {
        Some((Some(Lexeme::Punct(b as char)), i + 1, line))
    } else if is_ident_start(b) {
        Some((Some(Lexeme::Ident(s.subrange(i, ident_end(s, i)))), ident_end(s, i), line))
    } else {
        None
    }
}

/// The lexemes of `s` from index `i` on, the first on line `line`; `Err`
/// when the input is malformed.
pub open spec fn spec_lex_from(s: Seq<u8>, i: int, line: u32) -> Result<Seq<(Lexeme, u32)>, ()>
    decreases s.len() - i,
{
    if i < 0 || i >= s.len() {
        Ok(Seq::empty())
    } else {
        match lex_step(s, i, line) {
            None => Err(()),
            Some((emitted, next, nl)) => if next <= i || next > s.len() {
                Err(())
            } else {
                match spec_lex_from(s, next, nl) {
                    Ok(rest) => match emitted {
                        Some(l) => Ok(seq![(l, line)] + rest),
                        None => Ok(rest),
                    },
                    Err(_) => Err(()),
                }
            },
        }
    }
}

/// Where lexing from `i` (on `line`) fails: the position of the step that
/// cannot be taken and its line; `None` when it succeeds.
pub open spec fn lex_failure(s: Seq<u8>, i: int, line: u32) -> Option<(int, u32)>
    decreases s.len() - i,
{
    if i < 0 || i >= s.len() {
        None
    } else {
        match lex_step(s, i, line) {
            None => Some((i, line)),
            Some((_, next, nl)) => if next <= i || next > s.len() {
                Some((i, line))
            } else {
                lex_failure(s, next, nl)
            },
        }
    }
}

/// The error the lexer gives for text `s`: at the line of the failing
/// step, `InvalidString` for a string literal, `InvalidNumber` for a
/// number, `UnexpectedToken` for anything else.
pub open spec fn lex_error_fits(s: Seq<u8>, e: ParseError) -> bool {
    match lex_failure(s, 0, 1) {
        Some((p, l)) => if s[p] == 34 {
            e matches ParseError::InvalidString { line, reason } && line == l && reason@ == string_error_reason(s, p)
        } else if is_digit_byte(s[p]) || (s[p] == 45 && p + 1 < s.len() && is_digit_byte(s[p + 1])) {
            e matches ParseError::InvalidNumber { line, reason } && line == l && encode_utf8(reason@) == number_error_reason(s, p)
        } else {
            e matches ParseError::UnexpectedToken { line, .. } && line == l
        },
        None => false,
    }
}

/// The lexemes of a whole source text.
pub open spec fn spec_lex(s: Seq<u8>) -> Result<Seq<(Lexeme, u32)>, ()> {
    spec_lex_from(s, 0, 1)
}

/// The lexemes from `i` on, after those already produced.
pub open spec fn lex_from_after(s: Seq<u8>, done: Seq<(Lexeme, u32)>, i: int, line: u32) -> Result<Seq<(Lexeme, u32)>, ()> {
    match spec_lex_from(s, i, line) {
        Ok(rest) => Ok(done + rest),
        Err(_) => Err(()),
    }
}

/// A step that skips input leaves what is produced unchanged.
proof fn lemma_lex_skip(s: Seq<u8>, done: Seq<(Lexeme, u32)>, i: int, line: u32, next: int, nl: u32)
    requires
        0 <= i < s.len(),
        lex_step(s, i, line) == Some((None::<Lexeme>, next, nl)),
        i < next <= s.len(),
    ensures
        lex_from_after(s, done, i, line) == lex_from_after(s, done, next, nl),
        lex_failure(s, i, line) == lex_failure(s, next, nl),
{
}

/// A step that emits a lexeme appends it.
proof fn lemma_lex_emit(s: Seq<u8>, done: Seq<(Lexeme, u32)>, i: int, line: u32, l: Lexeme, next: int, nl: u32)
    requires
        0 <= i < s.len(),
        lex_step(s, i, line) == Some((Some(l), next, nl)),
        i < next <= s.len(),
    ensures
        lex_from_after(s, done, i, line) == lex_from_after(s, done.push((l, line)), next, nl),
        lex_failure(s, i, line) == lex_failure(s, next, nl),
{
    match spec_lex_from(s, next, nl) {
        Ok(rest) => {
            assert(done + (seq![(l, line)] + rest) =~= done.push((l, line)) + rest);
        },
        Err(_) => {},
    }
}

/// The text `-inf`.
fn neg_inf_text() -> (r: String)
    ensures
        encode_utf8(r@) == seq![45u8, 105u8, 110u8, 102u8],
{
    let mut v: Vec<u8> = Vec::new();
    v.push(45);
    v.push(105);
    v.push(110);
    v.push(102);
    proof {
        assert(v@ =~= seq![45u8, 105u8, 110u8, 102u8]);
        assert(all_ascii(v@));
        lemma_ascii_utf8(v@);
    }
    into_string(v)
}

/// Appending a token appends its lexeme.
proof fn lemma_lexemes_push(toks: Seq<Token>, t: Token)
    ensures
        lexemes(toks.push(t)) == lexemes(toks).push((lexeme_of(t.kind), t.line)),
{
    assert(lexemes(toks.push(t)) =~= lexemes(toks).push((lexeme_of(t.kind), t.line)));
}

/// Splits `src` into tokens. Whitespace and `#` comments separate tokens.
#[verifier::rlimit(60)]
#[verifier::spinoff_prover]
pub fn lex(src: &str) -> (r: Result<Vec<Token>, ParseError>)
    ensures
        r is Err <==> spec_lex(src.spec_bytes()) is Err,
        r matches Ok(toks) ==> spec_lex(src.spec_bytes()) == Ok::<Seq<(Lexeme, u32)>, ()>(lexemes(toks@)),
        r matches Ok(toks) ==> lines_ordered(toks@),
        r matches Ok(toks) ==> big_uints(toks@),
        r matches Err(e) ==> lex_error_fits(src.spec_bytes(), e),
{
    let bytes = src.as_bytes();
    let ghost s = bytes@;
    let len = bytes.len();
    let mut i: usize = 0;
    let mut line: u32 = 1;
    let mut out: Vec<Token> = Vec::new();
    proof {
        match spec_lex_from(s, 0, 1) {
            Ok(rest) => {
                assert(lexemes(out@) + rest =~= rest);
            },
            Err(_) => {},
        }
    }
    while i < len
        invariant
            len == bytes@.len(),
            bytes@ == src.spec_bytes(),
            s == bytes@,
            i <= len,
            line >= 1,
            lines_ordered(out@),
            forall|j: int| 0 <= j < out@.len() ==> (#[trigger] out@[j]).line <= line,
            spec_lex(s) == lex_from_after(s, lexemes(out@), i as int, line),
            big_uints(out@),
            lex_failure(s, 0, 1) == lex_failure(s, i as int, line),
        decreases len - i,
    {
        let ghost i0 = i as int;
        let ghost line0 = line;
        let ghost done = lexemes(out@);
        let b = bytes[i];
        if b == 32 || b == 9 || b == 13 {
            i = i + 1;
            proof {
                lemma_lex_skip(s, done, i0, line0, i as int, line);
            }
        } else if b == 10 {
            if line < u32::MAX {
                line = line + 1;
            }
            i = i + 1;
            proof {
                lemma_lex_skip(s, done, i0, line0, i as int, line);
            }
        } else if b == 35 {
            i = i + 1;
            let ghost c0 = i as int;
            while i < len && bytes[i] != 10
                invariant
                    c0 <= i <= len,
                    len == bytes@.len(),
                    s == bytes@,
                    line_end(s, i as int) == line_end(s, c0),
                decreases len - i,
            {
                i = i + 1;
            }
            proof {
                lemma_lex_skip(s, done, i0, line0, i as int, line);
            }
        } else if b == 58 {
            if len - i > 1 && bytes[i + 1] == 58 {
                i = i + 2;
                if !(len - i >= 9 && astronomy_at(bytes, i)) {
                    return Err(ParseError::UnexpectedToken {
                        line,
                        expected: concat_strs(&["`::ASTRONOMY::`"]),
                        found: concat_strs(&["another `::` sequence"]),
                    });
                }
                i = i + 9;
                if !(len - i > 1 && bytes[i] == 58 && bytes[i + 1] == 58) {
                    return Err(ParseError::UnexpectedToken {
                        line,
                        expected: concat_strs(&["`::` after `::ASTRONOMY`"]),
                        found: concat_strs(&["end of marker"]),
                    });
                }
                i = i + 2;
                let start = i;
                i = skip_ident_chars(bytes, i);
                if start == i {
                    return Err(ParseError::UnexpectedToken {
                        line,
                        expected: concat_strs(&["a directive name after `::ASTRONOMY::`"]),
                        found: concat_strs(&["end of line"]),
                    });
                }
                let t = Token { kind: TokenKind::Marker(ascii_text(bytes, start, i)), line };
                proof {
                    lemma_lex_emit(s, done, i0, line0, lexeme_of(t.kind), i as int, line);
                    lemma_lexemes_push(out@, t);
                }
                out.push(t);
            } else {
                return Err(unexpected(line, concat_strs(&["`:`"])));
            }
        } else if b == 37 || b == 64 {
            i = i + 1;
            let start = i;
            i = skip_ident_or_digits(bytes, i);
            if start == i {
                if b == 37 {
                    return Err(ParseError::UnexpectedToken {
                        line,
                        expected: concat_strs(&["a value handle after `%`"]),
                        found: concat_strs(&["nothing"]),
                    });
                } else {
                    return Err(ParseError::UnexpectedToken {
                        line,
                        expected: concat_strs(&["a function name after `@`"]),
                        found: concat_strs(&["nothing"]),
                    });
                }
            }
            let name = ascii_text(bytes, start, i);
            let t = if b == 37 {
                Token { kind: TokenKind::ValueRef(name), line }
            } else {
                Token { kind: TokenKind::FuncRef(name), line }
            };
            proof {
                lemma_lex_emit(s, done, i0, line0, lexeme_of(t.kind), i as int, line);
                lemma_lexemes_push(out@, t);
            }
            out.push(t);
        } else if b == 34 {
            i = i + 1;
            let (data, ni) = match lex_string(bytes, i, line) {
                Ok(pair) => pair,
                Err(e) => {
                    return Err(e);
                },
            };
            i = ni;
            if i >= len || bytes[i] != 34 {
                proof {
                    lemma_string_ok_no_failure(s, i0 + 1);
                }
                return Err(ParseError::InvalidString { line, reason: "unterminated string literal".to_owned() });
            }
            i = i + 1;
            let t = Token { kind: TokenKind::Str(data), line };
            proof {
                lemma_lex_emit(s, done, i0, line0, lexeme_of(t.kind), i as int, line);
                lemma_lexemes_push(out@, t);
            }
            out.push(t);
        } else if b == 45 {
            if len - i > 1 && bytes[i + 1] == 62 {
                i = i + 2;
                let t = Token { kind: TokenKind::Arrow, line };
                proof {
                    lemma_lex_emit(s, done, i0, line0, lexeme_of(t.kind), i as int, line);
                    lemma_lexemes_push(out@, t);
                }
                out.push(t);
            } else if len - i > 1 && digit(bytes[i + 1]) {
                let (tok, ni) = match lex_number(bytes, i, line) {
                    Ok(pair) => pair,
                    Err(e) => {
                        return Err(e);
                    },
                };
                i = ni;
                proof {
                    lemma_lex_emit(s, done, i0, line0, lexeme_of(tok.kind), i as int, line);
                    lemma_lexemes_push(out@, tok);
                }
                out.push(tok);
            } else if len - i >= 4 && bytes[i + 1] == 105 && bytes[i + 2] == 110 && bytes[i + 3] == 102 {
                i = i + 4;
                let t = Token { kind: TokenKind::FloatText(neg_inf_text()), line };
                proof {
                    lemma_lex_emit(s, done, i0, line0, lexeme_of(t.kind), i as int, line);
                    lemma_lexemes_push(out@, t);
                }
                out.push(t);
            } else {
                return Err(unexpected(line, concat_strs(&["`-`"])));
            }
        } else if b == 46 {
            if len - i > 2 && bytes[i + 1] == 46 && bytes[i + 2] == 46 {
                i = i + 3;
                let t = Token { kind: TokenKind::Ellipsis, line };
                proof {
                    lemma_lex_emit(s, done, i0, line0, lexeme_of(t.kind), i as int, line);
                    lemma_lexemes_push(out@, t);
                }
                out.push(t);
            } else {
                return Err(unexpected(line, concat_strs(&["`.`"])));
            }
        } else if digit(b) {
            let (tok, ni) = match lex_number(bytes, i, line) {
                Ok(pair) => pair,
                Err(e) => {
                    return Err(e);
                },
            };
            i = ni;
            proof {
                lemma_lex_emit(s, done, i0, line0, lexeme_of(tok.kind), i as int, line);
                lemma_lexemes_push(out@, tok);
            }
            out.push(tok);
        } else if b == 40 || b == 41 || b == 60 || b == 62 || b == 44 || b == 61 {
            i = i + 1;
            let c: char = if b == 40 {
                '('
            } else if b == 41 {
                ')'
            } else if b == 60 {
                '<'
            } else if b == 62 {
                '>'
            } else if b == 44 {
                ','
            } else {
                '='
            };
            let t = Token { kind: TokenKind::Punct(c), line };
            proof {
                assert(c == b as char);
                lemma_lex_emit(s, done, i0, line0, lexeme_of(t.kind), i as int, line);
                lemma_lexemes_push(out@, t);
            }
            out.push(t);
        } else if ident_start(b) {
            let start = i;
            i = skip_ident_chars(bytes, i);
            let t = Token { kind: TokenKind::Ident(ascii_text(bytes, start, i)), line };
            proof {
                lemma_lex_emit(s, done, i0, line0, lexeme_of(t.kind), i as int, line);
                lemma_lexemes_push(out@, t);
            }
            out.push(t);
        } else {
            let ch = char_text(bytes, i);
            return Err(unexpected(line, concat_strs(&["`", ch.as_str(), "`"])));
        }
    }
    proof {
        assert(lexemes(out@) + Seq::<(Lexeme, u32)>::empty() =~= lexemes(out@));
    }
    Ok(out)
}

/// Whether `bytes[i..i + 9]` spells `ASTRONOMY`.
fn astronomy_at(bytes: &[u8], i: usize) -> (r: bool)
    requires
        i + 9 <= bytes@.len(),
    ensures
        r == astronomy_at_spec(bytes@, i as int),
{
    bytes[i] == 65 && bytes[i + 1] == 83 && bytes[i + 2] == 84 && bytes[i + 3] == 82 && bytes[i + 4] == 79
        && bytes[i + 5] == 78 && bytes[i + 6] == 79 && bytes[i + 7] == 77 && bytes[i + 8] == 89
}

/// Skips identifier characters from `i`.
fn skip_ident_chars(bytes: &[u8], i: usize) -> (r: usize)
    requires
        i <= bytes@.len(),
    ensures
        i <= r <= bytes@.len(),
        r == ident_end(bytes@, i as int),
        forall|k: int| i <= k < r ==> #[trigger] is_ident_char(bytes@[k]),
        forall|k: int| i <= k < r ==> #[trigger] is_ascii_byte(bytes@[k]),
        r < bytes@.len() ==> !is_ident_char(bytes@[r as int]),
{
    let mut j = i;
    while j < bytes.len() && ident_char(bytes[j])
        invariant
            i <= j <= bytes@.len(),
            ident_end(bytes@, j as int) == ident_end(bytes@, i as int),
            forall|k: int| i <= k < j ==> #[trigger] is_ident_char(bytes@[k]),
        decreases bytes@.len() - j,
    {
        j = j + 1;
    }
    proof {
        assert forall|k: int| i <= k < j implies #[trigger] is_ascii_byte(bytes@[k]) by {
            assert(is_ident_char(bytes@[k]));
        }
    }
    j
}

/// Skips a run of digits, or else a run of identifier characters.
fn skip_ident_or_digits(bytes: &[u8], i: usize) -> (r: usize)
    requires
        i <= bytes@.len(),
    ensures
        i <= r <= bytes@.len(),
        r == handle_end(bytes@, i as int),
        forall|k: int| i <= k < r ==> #[trigger] is_ascii_byte(bytes@[k]),
{
    if i < bytes.len() && digit(bytes[i]) {
        let mut j = i;
        while j < bytes.len() && digit(bytes[j])
            invariant
                i <= j <= bytes@.len(),
                digit_end(bytes@, j as int) == digit_end(bytes@, i as int),
                forall|k: int| i <= k < j ==> #[trigger] is_digit_byte(bytes@[k]),
            decreases bytes@.len() - j,
        {
            j = j + 1;
        }
        proof {
            assert forall|k: int| i <= k < j implies #[trigger] is_ascii_byte(bytes@[k]) by {
                assert(is_digit_byte(bytes@[k]));
            }
        }
        j
    } else if i < bytes.len() && ident_start(bytes[i]) {
        skip_ident_chars(bytes, i)
    } else {
        i
    }
}

/// The integer token of the decimal digits `bytes[start..end]`, negated
/// when `negative`: `Int` when the value fits in `i128`, `UInt` above
/// that; `None` below `i128::MIN` or above `u128::MAX`.
fn digits_value(bytes: &[u8], start: usize, end: usize, negative: bool) -> (r: Option<TokenKind>)
    requires
        start <= end <= bytes@.len(),
        forall|k: int| start <= k < end ==> #[trigger] is_digit_byte(bytes@[k]),
    ensures
        r is Some <==> i128::MIN <= signed_value(bytes@.subrange(start as int, end as int), negative) <= u128::MAX,
        r matches Some(k) ==> lexeme_of(k) == Lexeme::Int(signed_value(bytes@.subrange(start as int, end as int), negative)),
        r matches Some(k) ==> (k is Int || k is UInt),
        r matches Some(k) ==> (k matches TokenKind::UInt(v) ==> v > i128::MAX),
{
    let ghost digits = bytes@.subrange(start as int, end as int);
    let limit: u128 = if negative { 0x8000_0000_0000_0000_0000_0000_0000_0000u128 } else { 0xFFFF_FFFF_FFFF_FFFF_FFFF_FFFF_FFFF_FFFFu128 };
    let mut mag: u128 = 0;
    let mut k = start;
    while k < end
        invariant
            start <= k <= end <= bytes@.len(),
            mag <= limit,
            forall|j: int| start <= j < end ==> #[trigger] is_digit_byte(bytes@[j]),
            digits == bytes@.subrange(start as int, end as int),
            mag == digits_nat(bytes@.subrange(start as int, k as int)),
            limit == (if negative { 0x8000_0000_0000_0000_0000_0000_0000_0000u128 } else { 0xFFFF_FFFF_FFFF_FFFF_FFFF_FFFF_FFFF_FFFFu128 }),
        decreases end - k,
    {
        assert(is_digit_byte(bytes@[k as int]));
        let d = (bytes[k] - 48) as u128;
        proof {
            let p = bytes@.subrange(start as int, k + 1);
            assert(p.drop_last() =~= bytes@.subrange(start as int, k as int));
            assert(digits_nat(p) == mag * 10 + d);
        }
        if mag > (limit - d) / 10 {
            proof {
                let p = bytes@.subrange(start as int, k + 1);
                assert(mag * 10 + d > limit) by (nonlinear_arith)
                    requires
                        mag > (limit - d) / 10,
                        d <= 9,
                        d <= limit,
                ;
                assert(p =~= bytes@.subrange(start as int, end as int).subrange(0, k + 1 - start));
                lemma_digits_nat_prefix(bytes@.subrange(start as int, end as int), k + 1 - start);
            }
            return None;
        }
        assert(mag * 10 + d <= limit) by (nonlinear_arith)
            requires
                mag <= (limit - d) / 10,
                d <= 9,
                d <= limit,
        ;
        mag = mag * 10 + d;
        k = k + 1;
    }
    proof {
        assert(bytes@.subrange(start as int, k as int) =~= digits);
    }
    if negative {
        if mag == 0x8000_0000_0000_0000_0000_0000_0000_0000u128 {
            Some(TokenKind::Int(i128::MIN))
        } else {
            Some(TokenKind::Int(-(mag as i128)))
        }
    } else if mag <= 0x7FFF_FFFF_FFFF_FFFF_FFFF_FFFF_FFFF_FFFFu128 {
        Some(TokenKind::Int(mag as i128))
    } else {
        Some(TokenKind::UInt(mag))
    }
}

/// Lexes a number starting at `start` (a digit, or `-` and a digit).
fn lex_number(bytes: &[u8], start: usize, line: u32) -> (r: Result<(Token, usize), ParseError>)
    requires
        start < bytes@.len(),
        is_digit_byte(bytes@[start as int]) || (bytes@[start as int] == 45u8 && start + 1 < bytes@.len() && is_digit_byte(
            bytes@[start + 1],
        )),
    ensures
        r is Err <==> spec_number(bytes@, start as int) is None,
        r matches Ok((tok, ni)) ==> spec_number(bytes@, start as int) == Some((lexeme_of(tok.kind), ni as int)),
        r matches Ok((tok, ni)) ==> start < ni <= bytes@.len() && tok.line == line,
        r matches Ok((tok, _)) ==> (tok.kind matches TokenKind::UInt(v) ==> v > i128::MAX),
        r matches Err(e) ==> (e matches ParseError::InvalidNumber { line: l, reason } && l == line && encode_utf8(reason@)
            == number_error_reason(bytes@, start as int)),
{
    let ghost s = bytes@;
    let len = bytes.len();
    let mut i = start;
    let negative = bytes[i] == 45;
    if negative {
        i = i + 1;
    }
    let digits_start = i;
    while i < len && digit(bytes[i])
        invariant
            start <= digits_start <= i <= len,
            len == bytes@.len(),
            s == bytes@,
            digit_end(s, i as int) == digit_end(s, digits_start as int),
            forall|k: int| digits_start <= k < i ==> #[trigger] is_digit_byte(bytes@[k]),
            forall|k: int| start <= k < i ==> #[trigger] is_ascii_byte(bytes@[k]),
        decreases len - i,
    {
        i = i + 1;
    }
    let digits_end = i;
    let mut is_float = false;
    if len - i > 1 && bytes[i] == 46 && digit(bytes[i + 1]) {
        is_float = true;
        i = i + 1;
        let ghost f0 = i;
        while i < len && digit(bytes[i])
            invariant
                digits_end < f0 <= i <= len,
                len == bytes@.len(),
                s == bytes@,
                digit_end(s, i as int) == digit_end(s, f0 as int),
                forall|k: int| start <= k < i ==> #[trigger] is_ascii_byte(bytes@[k]),
            decreases len - i,
        {
            i = i + 1;
        }
    }
    let ghost after_frac = i;
    if i < len && (bytes[i] == 101 || bytes[i] == 69) {
        let mut j = i + 1;
        if j < len && (bytes[j] == 43 || bytes[j] == 45) {
            j = j + 1;
        }
        if j < len && digit(bytes[j]) {
            is_float = true;
            proof {
                assert forall|k: int| start <= k < j implies #[trigger] is_ascii_byte(bytes@[k]) by {
                    if k >= i {
                        assert(bytes@[k] == 101u8 || bytes@[k] == 69u8 || bytes@[k] == 43u8 || bytes@[k] == 45u8);
                    }
                }
            }
            i = j;
            let ghost e0 = j;
            while i < len && digit(bytes[i])
                invariant
                    start < j <= i <= len,
                    e0 == j,
                    len == bytes@.len(),
                    s == bytes@,
                    digit_end(s, i as int) == digit_end(s, e0 as int),
                    forall|k: int| start <= k < i ==> #[trigger] is_ascii_byte(bytes@[k]),
                decreases len - i,
            {
                i = i + 1;
            }
        }
    }
    proof {
        let ds = if s[start as int] == 45 { start + 1 } else { start as int };
        assert(ds == digits_start);
        assert(number_extent(s, ds) == (i as int, is_float));
    }
    if i < len && ident_char(bytes[i]) {
        let ch = ascii_text(bytes, i, i + 1);
        let parts = ["unexpected character `", ch.as_str(), "` in number"];
        let reason = concat_strs(&parts);
        proof {
            reveal_with_fuel(concat_bytes, 4);
            assert(parts@.drop_last().drop_last().drop_last() =~= Seq::<&str>::empty());
        }
        return Err(ParseError::InvalidNumber { line, reason });
    }
    if is_float {
        Ok((Token { kind: TokenKind::FloatText(ascii_text(bytes, start, i)), line }, i))
    } else {
        proof {
            assert forall|k: int| digits_start <= k < digits_end implies #[trigger] is_digit_byte(bytes@[k]) by {}
        }
        match digits_value(bytes, digits_start, digits_end, negative) {
            Some(kind) => Ok((Token { kind, line }, i)),
            None => {
                let parts = ["integer literal out of range"];
                let reason = concat_strs(&parts);
                proof {
                    reveal_with_fuel(concat_bytes, 2);
                    assert(parts@.drop_last() =~= Seq::<&str>::empty());
                }
                Err(ParseError::InvalidNumber { line, reason })
            },
        }
    }
}

/// The text of byte `b` read as the character with that code point.
fn byte_char_text(b: u8) -> (r: String)
    ensures
        r@ == chars_or_mark(utf8_of(b as u32)),
{
    let mut v: Vec<u8> = Vec::new();
    push_utf8(&mut v, b as u32);
    proof {
        assert(v@ =~= utf8_of(b as u32));
    }
    match string_from_utf8(v) {
        Some(s) => s,
        None => "?".to_owned(),
    }
}

/// The UTF-8 encoding the lexer writes for the scalar value `cp`.
pub open spec fn utf8_of(cp: u32) -> Seq<u8> {
    if cp < 0x80 {
        seq![cp as u8]
    } else if cp < 0x800 {
        seq![(0xC0 | (cp >> 6)) as u8, (0x80 | (cp & 0x3F)) as u8]
    } else if cp < 0x10000 {
        seq![(0xE0 | (cp >> 12)) as u8, (0x80 | ((cp >> 6) & 0x3F)) as u8, (0x80 | (cp & 0x3F)) as u8]
    } else {
        seq![
            (0xF0 | (cp >> 18)) as u8,
            (0x80 | ((cp >> 12) & 0x3F)) as u8,
            (0x80 | ((cp >> 6) & 0x3F)) as u8,
            (0x80 | (cp & 0x3F)) as u8,
        ]
    }
}

/// The bytes written for a `\u{..}` escape are the standard UTF-8
/// encoding of its scalar value: they decode to exactly that character,
/// and they are what encoding the one-character string gives.
pub proof fn lemma_utf8_of_is_standard(cp: u32)
    requires
        vstd::utf8::is_scalar(cp),
    ensures
        utf8_of(cp) == vstd::utf8::encode_utf8(seq![cp as char]),
        vstd::utf8::decode_utf8(utf8_of(cp)) == seq![cp as char],
{
    let c = cp as char;
    assert(c as u32 == cp);
    assert(seq![c].drop_first() =~= Seq::<char>::empty());
    assert(seq![c][0] == c);
    assert(vstd::utf8::encode_utf8(Seq::<char>::empty()) == Seq::<u8>::empty());
    assert(vstd::utf8::encode_utf8(seq![c]) == vstd::utf8::encode_scalar(cp) + vstd::utf8::encode_utf8(Seq::<char>::empty()));
    assert(vstd::utf8::encode_utf8(seq![c]) =~= vstd::utf8::encode_scalar(cp));
    if cp < 0x80 {
        assert((cp as u8) == ((cp & 0x7F) as u8)) by (bit_vector)
            requires
                cp < 0x80,
        ;
    } else if cp < 0x800 {
        assert((0xC0 | (cp >> 6)) as u8 == 0xC0 | ((cp >> 6) & 0x1F) as u8 && (0x80 | (cp & 0x3F)) as u8 == 0x80 | (cp
            & 0x3F) as u8) by (bit_vector)
            requires
                cp < 0x800,
        ;
    } else if cp < 0x10000 {
        assert((0xE0 | (cp >> 12)) as u8 == 0xE0 | ((cp >> 12) & 0x0F) as u8 && (0x80 | ((cp >> 6) & 0x3F)) as u8 == 0x80
            | ((cp >> 6) & 0x3F) as u8 && (0x80 | (cp & 0x3F)) as u8 == 0x80 | (cp & 0x3F) as u8) by (bit_vector)
            requires
                cp < 0x10000,
        ;
    } else {
        assert((0xF0 | (cp >> 18)) as u8 == 0xF0 | ((cp >> 18) & 0x7) as u8 && (0x80 | ((cp >> 12) & 0x3F)) as u8 == 0x80
            | ((cp >> 12) & 0x3F) as u8 && (0x80 | ((cp >> 6) & 0x3F)) as u8 == 0x80 | ((cp >> 6) & 0x3F) as u8 && (0x80 | (cp
            & 0x3F)) as u8 == 0x80 | (cp & 0x3F) as u8) by (bit_vector)
            requires
                cp <= 0x10FFFF,
        ;
    }
    assert(utf8_of(cp) =~= vstd::utf8::encode_scalar(cp));
    vstd::utf8::encode_utf8_decode_utf8(seq![c]);
}

/// The first index from `k` on that holds `}` (or the end of `s`).
pub open spec fn brace_end(s: Seq<u8>, k: int) -> int
    decreases s.len() - k,
{
    if k >= s.len() || s[k] == 125 {
        k
    } else {
        brace_end(s, k + 1)
    }
}

/// Reads the hex digits of `s[k..close]` into `value`: `all_hex` turns
/// false at a non-digit, `overflow` true once the value no longer fits.
pub open spec fn hex_scan(s: Seq<u8>, k: int, close: int, value: u32, all_hex: bool, overflow: bool) -> (u32, bool, bool)
    decreases close - k,
{
    if k >= close {
        (value, all_hex, overflow)
    } else if is_hex_byte(s[k]) {
        if value > 0x0FFF_FFFF {
            hex_scan(s, k + 1, close, value, all_hex, true)
        } else {
            hex_scan(s, k + 1, close, (value * 16 + hex_value(s[k])) as u32, all_hex, overflow)
        }
    } else {
        hex_scan(s, k + 1, close, value, false, overflow)
    }
}

/// The escape sequence whose backslash is at `i`: the bytes it stands for
/// and the index just after it; `None` when it is malformed.
pub open spec fn escape_step(s: Seq<u8>, i: int) -> Option<(Seq<u8>, int)> {
    if i + 1 >= s.len() {
        None
    } else {
        let e = s[i + 1];
        if e == 110 {
            Some((seq![10u8], i + 2))
        } else if e == 116 {
            Some((seq![9u8], i + 2))
        } else if e == 114 {
            Some((seq![13u8], i + 2))
        } else if e == 48 {
            Some((seq![0u8], i + 2))
        } else if e == 92 {
            Some((seq![92u8], i + 2))
        } else if e == 34 {
            Some((seq![34u8], i + 2))
        } else if e == 39 {
            Some((seq![39u8], i + 2))
        } else if e == 120 {
            if s.len() - (i + 1) <= 2 || !is_hex_byte(s[i + 2]) || !is_hex_byte(s[i + 3]) {
                None
            } else {
                Some((seq![(hex_value(s[i + 2]) * 16 + hex_value(s[i + 3])) as u8], i + 4))
            }
        } else if e == 117 {
            if s.len() - (i + 1) <= 1 || s[i + 2] != 123 {
                None
            } else {
                let close = brace_end(s, i + 3);
                if close >= s.len() || close == i + 3 {
                    None
                } else {
                    let (value, all_hex, overflow) = hex_scan(s, i + 3, close, 0, true, false);
                    if !all_hex || overflow || value > 0x10FFFF || (0xD800 <= value && value <= 0xDFFF) {
                        None
                    } else {
                        Some((utf8_of(value), close + 1))
                    }
                }
            }
        } else {
            None
        }
    }
}

/// Why the escape whose backslash is at `i` is malformed.
pub open spec fn escape_error(s: Seq<u8>, i: int) -> Seq<char> {
    if i + 1 >= s.len() {
        "unterminated escape"@
    } else {
        let e = s[i + 1];
        if e == 120 {
            "`\\x` requires two hex digits"@
        } else if e == 117 {
            if s.len() - (i + 1) <= 1 || s[i + 2] != 123 {
                "`\\u` requires `{...}`"@
            } else {
                let close = brace_end(s, i + 3);
                if close >= s.len() || close == i + 3 {
                    "`\\u{...}` requires at least one hex digit"@
                } else if !hex_scan(s, i + 3, close, 0, true, false).1 {
                    "`\\u{...}` requires hex digits only"@
                } else {
                    "invalid unicode scalar value"@
                }
            }
        } else {
            "unknown escape `\\"@ + chars_or_mark(utf8_of(e as u32)) + "`"@
        }
    }
}

/// Where decoding a string literal body from `i` meets a malformed
/// escape, if it does.
pub open spec fn string_failure(s: Seq<u8>, i: int) -> Option<int>
    decreases s.len() - i,
{
    if i < 0 || i >= s.len() || s[i] == 34 {
        None
    } else if s[i] == 92 {
        match escape_step(s, i) {
            Some((_, next)) => if next <= i || next > s.len() {
                Some(i)
            } else {
                string_failure(s, next)
            },
            None => Some(i),
        }
    } else {
        string_failure(s, i + 1)
    }
}

/// A body that decodes has no malformed escape.
proof fn lemma_string_ok_no_failure(s: Seq<u8>, i: int)
    requires
        spec_lex_string(s, i) is Ok,
    ensures
        string_failure(s, i) is None,
    decreases s.len() - i,
{
    if 0 <= i < s.len() && s[i] != 34 {
        if s[i] == 92 {
            if let Some((_, next)) = escape_step(s, i) {
                if i < next <= s.len() {
                    lemma_string_ok_no_failure(s, next);
                }
            }
        } else {
            lemma_string_ok_no_failure(s, i + 1);
        }
    }
}

/// Why the string literal whose quote is at `p` is refused: its first
/// malformed escape, or a missing closing quote.
pub open spec fn string_error_reason(s: Seq<u8>, p: int) -> Seq<char> {
    match string_failure(s, p + 1) {
        Some(q) => escape_error(s, q),
        None => "unterminated string literal"@,
    }
}

/// Decodes the body of a string literal from index `i` up to the closing
/// quote (or the end of `s`): the decoded bytes and the index where it
/// stopped, or an error at a malformed escape.
pub open spec fn spec_lex_string(s: Seq<u8>, i: int) -> Result<(Seq<u8>, int), ()>
    decreases s.len() - i,
{
    if i < 0 || i >= s.len() || s[i] == 34 {
        Ok((Seq::empty(), i))
    } else if s[i] == 92 {
        match escape_step(s, i) {
            Some((piece, next)) => if next <= i || next > s.len() {
                Err(())
            } else {
                match spec_lex_string(s, next) {
                    Ok((rest, end)) => Ok((piece + rest, end)),
                    Err(()) => Err(()),
                }
            },
            None => Err(()),
        }
    } else {
        match spec_lex_string(s, i + 1) {
            Ok((rest, end)) => Ok((seq![s[i]] + rest, end)),
            Err(()) => Err(()),
        }
    }
}

/// The result of decoding from an earlier index: what was decoded so far
/// followed by the result from `i`.
pub open spec fn lex_string_from(s: Seq<u8>, done: Seq<u8>, i: int) -> Result<(Seq<u8>, int), ()> {
    match spec_lex_string(s, i) {
        Ok((rest, end)) => Ok((done + rest, end)),
        Err(()) => Err(()),
    }
}

/// The UTF-8 encoding of the scalar value `cp`.
fn push_utf8(data: &mut Vec<u8>, cp: u32)
    requires
        cp <= 0x10FFFF,
    ensures
        final(data)@ == old(data)@ + utf8_of(cp),
{
    let ghost start = data@;
    if cp < 0x80 {
        data.push(cp as u8);
    } else if cp < 0x800 {
        data.push((0xC0 | (cp >> 6)) as u8);
        data.push((0x80 | (cp & 0x3F)) as u8);
    } else if cp < 0x10000 {
        data.push((0xE0 | (cp >> 12)) as u8);
        data.push((0x80 | ((cp >> 6) & 0x3F)) as u8);
        data.push((0x80 | (cp & 0x3F)) as u8);
    } else {
        data.push((0xF0 | (cp >> 18)) as u8);
        data.push((0x80 | ((cp >> 12) & 0x3F)) as u8);
        data.push((0x80 | ((cp >> 6) & 0x3F)) as u8);
        data.push((0x80 | (cp & 0x3F)) as u8);
    }
    proof {
        assert(data@ =~= start + utf8_of(cp));
    }
}

/// Decoding an escape whose backslash is at `i` continues after it with
/// the bytes it stands for appended.
proof fn lemma_lex_escape_step(s: Seq<u8>, done: Seq<u8>, i: int, piece: Seq<u8>, next: int)
    requires
        0 <= i < s.len(),
        s[i] == 92,
        escape_step(s, i) == Some((piece, next)),
        i < next <= s.len(),
    ensures
        lex_string_from(s, done, i) == lex_string_from(s, done + piece, next),
{
    match spec_lex_string(s, next) {
        Ok((rest, end)) => {
            assert(done + (piece + rest) =~= (done + piece) + rest);
        },
        Err(_) => {},
    }
}

/// Decoding a plain byte at `i` appends it and continues at `i + 1`.
proof fn lemma_lex_plain_step(s: Seq<u8>, done: Seq<u8>, i: int)
    requires
        0 <= i < s.len(),
        s[i] != 34,
        s[i] != 92,
    ensures
        lex_string_from(s, done, i) == lex_string_from(s, done.push(s[i]), i + 1),
{
    match spec_lex_string(s, i + 1) {
        Ok((rest, end)) => {
            assert(done + (seq![s[i]] + rest) =~= done.push(s[i]) + rest);
        },
        Err(_) => {},
    }
}

fn invalid_string(line: u32, reason: &str) -> (r: ParseError)
    ensures
        r matches ParseError::InvalidString { line: l, reason: x } && l == line && x@ == reason@,
{
    ParseError::InvalidString { line, reason: reason.to_owned() }
}

/// Decodes string literal escapes starting after the opening quote.
/// Returns the decoded bytes and the index of the closing quote (or the
/// end of input).
pub fn lex_string(bytes: &[u8], start: usize, line: u32) -> (r: Result<(Vec<u8>, usize), ParseError>)
    requires
        start <= bytes@.len(),
    ensures
        r is Err <==> spec_lex_string(bytes@, start as int) is Err,
        r matches Ok((data, ni)) ==> spec_lex_string(bytes@, start as int) == Ok::<(Seq<u8>, int), ()>((data@, ni as int)),
        r matches Ok((data, ni)) ==> start <= ni <= bytes@.len() && (ni < bytes@.len() ==> bytes@[ni as int] == 34u8),
        r matches Err(e) ==> (e matches ParseError::InvalidString { line: l, reason } && l == line && (string_failure(
            bytes@,
            start as int,
        ) matches Some(q) && reason@ == escape_error(bytes@, q))),
{
    let ghost s = bytes@;
    let len = bytes.len();
    let mut i = start;
    let mut data: Vec<u8> = Vec::new();
    proof {
        match spec_lex_string(s, start as int) {
            Ok((rest, end)) => {
                assert(Seq::<u8>::empty() + rest =~= rest);
            },
            Err(_) => {},
        }
    }
    while i < len && bytes[i] != 34
        invariant
            start <= i <= len,
            len == bytes@.len(),
            s == bytes@,
            spec_lex_string(s, start as int) == lex_string_from(s, data@, i as int),
            string_failure(s, start as int) == string_failure(s, i as int),
        decreases len - i,
    {
        if bytes[i] == 92 {
            let ghost bs = i as int;
            let ghost before = data@;
            i = i + 1;
            if i >= len {
                return Err(invalid_string(line, "unterminated escape"));
            }
            let e = bytes[i];
            if e == 110 {
                data.push(10);
                i = i + 1;
            } else if e == 116 {
                data.push(9);
                i = i + 1;
            } else if e == 114 {
                data.push(13);
                i = i + 1;
            } else if e == 48 {
                data.push(0);
                i = i + 1;
            } else if e == 92 {
                data.push(92);
                i = i + 1;
            } else if e == 34 {
                data.push(34);
                i = i + 1;
            } else if e == 39 {
                data.push(39);
                i = i + 1;
            } else if e == 120 {
                if len - i <= 2 || !hex_digit(bytes[i + 1]) || !hex_digit(bytes[i + 2]) {
                    return Err(invalid_string(line, "`\\x` requires two hex digits"));
                }
                let v = hex_val(bytes[i + 1]) * 16 + hex_val(bytes[i + 2]);
                data.push(v as u8);
                i = i + 3;
            } else if e == 117 {
                if len - i <= 1 || bytes[i + 1] != 123 {
                    return Err(invalid_string(line, "`\\u` requires `{...}`"));
                }
                let mut close = i + 2;
                while close < len && bytes[close] != 125
                    invariant
                        i + 2 <= close <= len,
                        len == bytes@.len(),
                        s == bytes@,
                        brace_end(s, close as int) == brace_end(s, i + 2),
                    decreases len - close,
                {
                    close = close + 1;
                }
                if close >= len || close == i + 2 {
                    return Err(invalid_string(line, "`\\u{...}` requires at least one hex digit"));
                }
                let mut k = i + 2;
                let mut all_hex = true;
                let mut value: u32 = 0;
                let mut overflow = false;
                while k < close
                    invariant
                        i + 2 <= k <= close < len,
                        len == bytes@.len(),
                        s == bytes@,
                        hex_scan(s, i + 2, close as int, 0, true, false)
                            == hex_scan(s, k as int, close as int, value, all_hex, overflow),
                    decreases close - k,
                {
                    let h = bytes[k];
                    if hex_digit(h) {
                        let d = hex_val(h);
                        if value > 0x0FFF_FFFF {
                            overflow = true;
                        } else {
                            value = value * 16 + d;
                        }
                    } else {
                        all_hex = false;
                    }
                    k = k + 1;
                }
                if !all_hex {
                    return Err(invalid_string(line, "`\\u{...}` requires hex digits only"));
                }
                if overflow || value > 0x10FFFF || (0xD800 <= value && value <= 0xDFFF) {
                    return Err(invalid_string(line, "invalid unicode scalar value"));
                }
                push_utf8(&mut data, value);
                i = close + 1;
            } else {
                let ch = byte_char_text(e);
                return Err(ParseError::InvalidString { line, reason: cat3("unknown escape `\\", ch.as_str(), "`") });
            }
            proof {
                let piece = data@.subrange(before.len() as int, data@.len() as int);
                assert(data@ =~= before + piece);
                assert(escape_step(s, bs) == Some((piece, i as int)));
                lemma_lex_escape_step(s, before, bs, piece, i as int);
            }
        } else {
            proof {
                lemma_lex_plain_step(s, data@, i as int);
            }
            data.push(bytes[i]);
            i = i + 1;
        }
    }
    proof {
        assert(data@ + Seq::<u8>::empty() =~= data@);
    }
    Ok((data, i))
}

} // verus!
