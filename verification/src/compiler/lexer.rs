//! The lexer: a cursor over a source buffer producing tokens lazily, with
//! one-token lookahead.
//!
//! The mathematical model is the total scan function [`lex`]: from a byte
//! sequence and a cursor it yields end-of-input, one token together with
//! the cursor past it, or a lexical error. Every executable scanning
//! routine is proved to return exactly what the model says.

use vstd::prelude::*;

use super::error::Error;
use super::source::{Location, Source, Token, TokenKind};

verus! {

/// A lexical error, anchored at the offending character or run.
#[derive(Debug)]
pub struct LexerError {
    pub source: Source,
    pub location: Location,
    pub kind: LexerErrorKind,
}

#[derive(Debug, PartialEq, Eq, Structural, Clone, Copy)]
pub enum LexerErrorKind {
    InvalidCharacter,
    InvalidEof,
    InvalidEscapeSequence,
}

/// A scan position: a byte offset plus the line and column it falls on.
/// Lines and columns are 1-based; a column counts one per character, that
/// is per byte that is not a UTF-8 continuation byte.
pub struct Cursor {
    pub pos: int,
    pub line: int,
    pub col: int,
}

/// What one scan from a cursor yields: end of input, a token, or a
/// lexical error. Each carries the cursor to continue from.
pub enum LexStep {
    End { cur: Cursor },
    Tok { token: Token, cur: Cursor },
    Fail { kind: LexerErrorKind, location: Location, cur: Cursor },
}

/// ASCII whitespace: space, tab, line feed, form feed, carriage return.
pub open spec fn is_ws(b: u8) -> bool {
    b == 0x20 || b == 0x09 || b == 0x0a || b == 0x0c || b == 0x0d
}

pub open spec fn is_digit_byte(b: u8) -> bool {
    0x30 <= b && b <= 0x39
}

pub open spec fn is_alpha_byte(b: u8) -> bool {
    (0x41 <= b && b <= 0x5a) || (0x61 <= b && b <= 0x7a)
}

/// The fixed identifier symbol set `+-*/%=<>&|^_:?#@~`.
pub open spec fn is_symbol_byte(b: u8) -> bool {
    b == 0x2b || b == 0x2d || b == 0x2a || b == 0x2f || b == 0x25 || b == 0x3d || b == 0x3c
        || b == 0x3e || b == 0x26 || b == 0x7c || b == 0x5e || b == 0x5f || b == 0x3a || b == 0x3f
        || b == 0x23 || b == 0x40 || b == 0x7e
}

/// A byte that continues a UTF-8 encoded character rather than starting one.
pub open spec fn is_continuation_byte(b: u8) -> bool {
    0x80 <= b && b < 0xc0
}

/// Whether the character with code point `cp` is Unicode-alphabetic:
/// the name for what `char::is_alphabetic` returns. The Unicode table is
/// not written out; the trusted wrapper below ties the name to std.
pub uninterp spec fn alphabetic_code(cp: u32) -> bool;

/// Relies on char::is_alphabetic: whether the character is Unicode-
/// alphabetic. The result depends on the character (its code point) alone.
#[verifier::external_body]
fn char_is_alphabetic(c: char) -> (r: bool)
    ensures
        r == alphabetic_code(c as u32),
{
    c.is_alphabetic()
}

/// A Unicode scalar value: not a surrogate, below 0x110000.
pub open spec fn is_scalar_value(v: u32) -> bool {
    v < 0xd800 || (0xe000 <= v && v < 0x110000)
}

/// Relies on char::from_u32: `Some` exactly for Unicode scalar values,
/// and the returned character has the given code point.
#[verifier::external_body]
fn char_from_u32(v: u32) -> (r: Option<char>)
    ensures
        (r is Some) == is_scalar_value(v),
        r matches Some(c) ==> c as u32 == v,
{
    char::from_u32(v)
}

/// The code point of the UTF-8 sequence beginning at `i`, or nothing
/// when the bytes at `i` do not form one.
pub open spec fn utf8_code_at(content: Seq<u8>, i: int) -> Option<u32> {
    let b0 = content[i];
    if b0 < 0x80 {
        Some(b0 as u32)
    } else if b0 < 0xc0 {
        None
    } else if b0 < 0xe0 {
        if i + 2 <= content.len() && is_continuation_byte(content[i + 1]) {
            Some((((b0 & 0x1f) as u32) << 6) | ((content[i + 1] & 0x3f) as u32))
        } else {
            None
        }
    } else if b0 < 0xf0 {
        if i + 3 <= content.len() && is_continuation_byte(content[i + 1])
            && is_continuation_byte(content[i + 2]) {
            Some(
                ((((b0 & 0x0f) as u32) << 12) | (((content[i + 1] & 0x3f) as u32) << 6)) | ((
                content[i + 2] & 0x3f) as u32),
            )
        } else {
            None
        }
    } else if b0 < 0xf8 {
        if i + 4 <= content.len() && is_continuation_byte(content[i + 1])
            && is_continuation_byte(content[i + 2]) && is_continuation_byte(content[i + 3]) {
            Some(
                (((((b0 & 0x07) as u32) << 18) | (((content[i + 1] & 0x3f) as u32) << 12)) | (((
                content[i + 2] & 0x3f) as u32) << 6)) | ((content[i + 3] & 0x3f) as u32),
            )
        } else {
            None
        }
    } else {
        None
    }
}

/// The byte at `i` begins a well-formed UTF-8 sequence encoding an
/// alphabetic character.
pub open spec fn alphabetic_at(content: Seq<u8>, i: int) -> bool {
    match utf8_code_at(content, i) {
        Some(cp) => is_scalar_value(cp) && alphabetic_code(cp),
        None => false,
    }
}

/// The ASCII identifier characters: alphabetic, a digit when not first,
/// or one of the fixed symbol set.
pub open spec fn is_ascii_ident_byte(b: u8, first: bool) -> bool {
    is_alpha_byte(b) || (!first && is_digit_byte(b)) || is_symbol_byte(b)
}

/// The identifier-character predicate, over the byte at `i`: an ASCII
/// identifier byte; a continuation byte of the character already being
/// scanned (never first); or the lead byte of an alphabetic character.
/// On well-formed UTF-8 this scans per byte exactly the characters that
/// are Unicode-alphabetic, ASCII digits when not first, or symbols.
pub open spec fn ident_byte_at(content: Seq<u8>, i: int, first: bool) -> bool {
    let b = content[i];
    if b < 0x80 {
        is_ascii_ident_byte(b, first)
    } else if is_continuation_byte(b) {
        !first
    } else {
        alphabetic_at(content, i)
    }
}

/// The identifier-character predicate of one decoded character: Unicode
/// alphabetic, an ASCII digit when not first, or one of the fixed symbol
/// set `+-*/%=<>&|^_:?#@~`.
pub open spec fn spec_is_identifier(c: char, first: bool) -> bool {
    alphabetic_code(c as u32) || (!first && 0x30 <= (c as u32) && (c as u32) <= 0x39) || ((
    c as u32) < 0x80 && is_symbol_byte((c as u32) as u8))
}

pub fn is_identifier(c: char, first: bool) -> (r: bool)
    ensures
        r == spec_is_identifier(c, first),
{
    if char_is_alphabetic(c) {
        return true;
    }
    let v = c as u32;
    if !first && 0x30 <= v && v <= 0x39 {
        return true;
    }
    v < 0x80 && is_identifier_symbol(v as u8)
}

fn is_identifier_symbol(b: u8) -> (r: bool)
    ensures
        r == is_symbol_byte(b),
{
    b == 0x2b || b == 0x2d || b == 0x2a || b == 0x2f || b == 0x25 || b == 0x3d || b == 0x3c
        || b == 0x3e || b == 0x26 || b == 0x7c || b == 0x5e || b == 0x5f || b == 0x3a || b == 0x3f
        || b == 0x23 || b == 0x40 || b == 0x7e
}

/// Decodes the UTF-8 sequence at `i`, exactly as the model reads it.
fn decode_code_point(content: &Vec<u8>, i: usize) -> (r: Option<u32>)
    requires
        i < content@.len(),
    ensures
        r == utf8_code_at(content@, i as int),
{
    let b0 = content[i];
    if b0 < 0x80 {
        Some(b0 as u32)
    } else if b0 < 0xc0 {
        None
    } else if b0 < 0xe0 {
        if content.len() - i >= 2 && 0x80 <= content[i + 1] && content[i + 1] < 0xc0 {
            Some((((b0 & 0x1f) as u32) << 6) | ((content[i + 1] & 0x3f) as u32))
        } else {
            None
        }
    } else if b0 < 0xf0 {
        if content.len() - i >= 3 && 0x80 <= content[i + 1] && content[i + 1] < 0xc0 && 0x80
            <= content[i + 2] && content[i + 2] < 0xc0 {
            Some(
                ((((b0 & 0x0f) as u32) << 12) | (((content[i + 1] & 0x3f) as u32) << 6)) | ((
                content[i + 2] & 0x3f) as u32),
            )
        } else {
            None
        }
    } else if b0 < 0xf8 {
        if content.len() - i >= 4 && 0x80 <= content[i + 1] && content[i + 1] < 0xc0 && 0x80
            <= content[i + 2] && content[i + 2] < 0xc0 && 0x80 <= content[i + 3] && content[i + 3]
            < 0xc0 {
            Some(
                (((((b0 & 0x07) as u32) << 18) | (((content[i + 1] & 0x3f) as u32) << 12)) | (((
                content[i + 2] & 0x3f) as u32) << 6)) | ((content[i + 3] & 0x3f) as u32),
            )
        } else {
            None
        }
    } else {
        None
    }
}

/// Whether the byte at `i` begins or continues an identifier, per
/// `ident_byte_at`.
fn is_identifier_byte_at(content: &Vec<u8>, i: usize, first: bool) -> (r: bool)
    requires
        i < content@.len(),
    ensures
        r == ident_byte_at(content@, i as int, first),
{
    let b = content[i];
    if b < 0x80 {
        if 0x41 <= b && b <= 0x5a {
            return true;
        }
        if 0x61 <= b && b <= 0x7a {
            return true;
        }
        if !first && 0x30 <= b && b <= 0x39 {
            return true;
        }
        is_identifier_symbol(b)
    } else if b < 0xc0 {
        !first
    } else {
        match decode_code_point(content, i) {
            None => false,
            Some(cp) => match char_from_u32(cp) {
                None => false,
                Some(c) => char_is_alphabetic(c),
            },
        }
    }
}

/// A well-formed cursor: within bounds, with line and column counters that
/// can never have outrun the offset.
pub open spec fn cursor_wf(content: Seq<u8>, cur: Cursor) -> bool {
    &&& 0 <= cur.pos <= content.len()
    &&& 1 <= cur.line <= cur.pos + 1
    &&& 1 <= cur.col <= cur.pos + 1
}

/// The cursor one byte further: a line feed starts a new line, a
/// continuation byte stays within the current column.
pub open spec fn advanced(content: Seq<u8>, cur: Cursor) -> Cursor {
    let b = content[cur.pos];
    if b == 0x0a {
        Cursor { pos: cur.pos + 1, line: cur.line + 1, col: 1 }
    } else if is_continuation_byte(b) {
        Cursor { pos: cur.pos + 1, line: cur.line, col: cur.col }
    } else {
        Cursor { pos: cur.pos + 1, line: cur.line, col: cur.col + 1 }
    }
}

/// The cursor `n` bytes further.
pub open spec fn advanced_n(content: Seq<u8>, cur: Cursor, n: int) -> Cursor
    decreases n,
{
    if n <= 0 {
        cur
    } else {
        advanced_n(content, advanced(content, cur), n - 1)
    }
}

/// How many bytes the scan consumes for an invalid character at `i`: the
/// full UTF-8 sequence where a well-formed one stands, one byte otherwise.
pub open spec fn invalid_char_len(content: Seq<u8>, i: int) -> int {
    if utf8_code_at(content, i) is Some {
        let b = content[i];
        if b < 0x80 {
            1
        } else if b < 0xe0 {
            2
        } else if b < 0xf0 {
            3
        } else {
            4
        }
    } else {
        1
    }
}

/// The location of the run from `start` to `end`, carrying the line and
/// column of `start`.
pub open spec fn loc(start: Cursor, end: Cursor) -> Location {
    Location {
        start: start.pos as u32,
        end: end.pos as u32,
        line: start.line as u32,
        column: start.col as u32,
    }
}

/// The token an identifier run `[start, cur)` produces: a dot-identifier,
/// a bang-identifier, or a plain identifier reclassified through the
/// keyword table, which maps exactly the text `->` to an arrow token.
pub open spec fn ident_token(content: Seq<u8>, start: Cursor, cur: Cursor, dot: bool, bang: bool) -> LexStep {
    let kind = if dot {
        TokenKind::DotIdentifier
    } else if bang {
        TokenKind::BangIdentifier
    } else if content.subrange(start.pos, cur.pos) == seq![0x2du8, 0x3eu8] {
        TokenKind::RightArrow
    } else {
        TokenKind::Identifier
    };
    LexStep::Tok { token: Token { location: loc(start, cur), kind }, cur }
}

/// Scanning an identifier whose bytes before `cur` were already accepted.
/// `first` says whether the next byte would be the identifier's first
/// character, `dot` whether this is a dot-identifier, `bang` whether a
/// trailing `!` was already taken.
pub open spec fn scan_ident(
    content: Seq<u8>,
    start: Cursor,
    cur: Cursor,
    first: bool,
    dot: bool,
    bang: bool,
) -> LexStep
    decreases content.len() - cur.pos,
{
    if cur.pos < 0 || cur.pos >= content.len() {
        ident_token(content, start, cur, dot, bang)
    } else {
        let b = content[cur.pos];
        let next = advanced(content, cur);
        if b == 0x2e {
            LexStep::Fail { kind: LexerErrorKind::InvalidCharacter, location: loc(start, next), cur: next }
        } else if bang {
            if b == 0x21 || ident_byte_at(content, cur.pos, false) {
                LexStep::Fail { kind: LexerErrorKind::InvalidCharacter, location: loc(start, next), cur: next }
            } else {
                ident_token(content, start, cur, dot, bang)
            }
        } else if ident_byte_at(content, cur.pos, first) {
            scan_ident(content, start, next, false, dot, bang)
        } else if b == 0x21 {
            if dot {
                LexStep::Fail { kind: LexerErrorKind::InvalidCharacter, location: loc(start, next), cur: next }
            } else {
                scan_ident(content, start, next, first, dot, true)
            }
        } else {
            ident_token(content, start, cur, dot, bang)
        }
    }
}

/// Scanning a numeric literal whose bytes before `cur` were accepted;
/// `dot` says whether a decimal point was already taken.
pub open spec fn scan_number(content: Seq<u8>, start: Cursor, cur: Cursor, dot: bool) -> LexStep
    decreases content.len() - cur.pos,
{
    if cur.pos < 0 || cur.pos >= content.len() {
        number_token(start, cur, dot)
    } else {
        let b = content[cur.pos];
        let next = advanced(content, cur);
        if is_digit_byte(b) {
            scan_number(content, start, next, dot)
        } else if b == 0x2e {
            if dot {
                LexStep::Fail { kind: LexerErrorKind::InvalidCharacter, location: loc(start, next), cur: next }
            } else {
                scan_number(content, start, next, true)
            }
        } else {
            number_token(start, cur, dot)
        }
    }
}

pub open spec fn number_token(start: Cursor, cur: Cursor, dot: bool) -> LexStep {
    let kind = if dot {
        TokenKind::Float
    } else {
        TokenKind::Integer
    };
    LexStep::Tok { token: Token { location: loc(start, cur), kind }, cur }
}

/// Is `b` one of the recognized escapes `"`, `\`, `n`, `r`, `t`?
pub open spec fn is_escape_byte(b: u8) -> bool {
    b == 0x22 || b == 0x5c || b == 0x6e || b == 0x72 || b == 0x74
}

/// Scanning a string literal whose opening quote stands at `start`;
/// everything before `cur` was accepted.
pub open spec fn scan_string(content: Seq<u8>, start: Cursor, cur: Cursor) -> LexStep
    decreases content.len() - cur.pos,
{
    if cur.pos < 0 || cur.pos >= content.len() {
        LexStep::Fail { kind: LexerErrorKind::InvalidEof, location: loc(start, cur), cur }
    } else {
        let b = content[cur.pos];
        let next = advanced(content, cur);
        if b == 0x22 {
            LexStep::Tok { token: Token { location: loc(start, next), kind: TokenKind::String }, cur: next }
        } else if b == 0x5c {
            if next.pos >= content.len() {
                LexStep::Fail { kind: LexerErrorKind::InvalidEof, location: loc(start, next), cur: next }
            } else {
                let e = content[next.pos];
                let next2 = advanced(content, next);
                if is_escape_byte(e) {
                    scan_string(content, start, next2)
                } else {
                    LexStep::Fail {
                        kind: LexerErrorKind::InvalidEscapeSequence,
                        location: loc(next, next2),
                        cur: next2,
                    }
                }
            }
        } else {
            scan_string(content, start, next)
        }
    }
}

/// What a minus prefix continues as: a numeric literal when a digit
/// follows, an identifier otherwise.
pub open spec fn minus_step(content: Seq<u8>, start: Cursor, cur: Cursor) -> LexStep {
    if cur.pos < content.len() && is_digit_byte(content[cur.pos]) {
        scan_number(content, start, cur, false)
    } else {
        scan_ident(content, start, cur, false, false, false)
    }
}

/// The scan function: from `cur`, skip whitespace and comments, then
/// produce the next token, a lexical error, or end of input.
pub open spec fn lex(content: Seq<u8>, cur: Cursor) -> LexStep
    decreases content.len() - cur.pos,
{
    if cur.pos < 0 || cur.pos >= content.len() {
        LexStep::End { cur }
    } else {
        let b = content[cur.pos];
        let next = advanced(content, cur);
        if is_ws(b) {
            lex(content, next)
        } else if b == 0x3b {
            lex_comment(content, next)
        } else if b == 0x28 {
            LexStep::Tok { token: Token { location: loc(cur, next), kind: TokenKind::LeftParen }, cur: next }
        } else if b == 0x29 {
            LexStep::Tok { token: Token { location: loc(cur, next), kind: TokenKind::RightParen }, cur: next }
        } else if b == 0x5b {
            LexStep::Tok { token: Token { location: loc(cur, next), kind: TokenKind::LeftSquare }, cur: next }
        } else if b == 0x5d {
            LexStep::Tok { token: Token { location: loc(cur, next), kind: TokenKind::RightSquare }, cur: next }
        } else if b == 0x7b {
            LexStep::Tok { token: Token { location: loc(cur, next), kind: TokenKind::LeftCurly }, cur: next }
        } else if b == 0x7d {
            LexStep::Tok { token: Token { location: loc(cur, next), kind: TokenKind::RightCurly }, cur: next }
        } else if b == 0x2d {
            minus_step(content, cur, next)
        } else if b == 0x2e {
            scan_ident(content, cur, next, true, true, false)
        } else if b == 0x22 {
            scan_string(content, cur, next)
        } else if is_digit_byte(b) {
            scan_number(content, cur, next, false)
        } else if ident_byte_at(content, cur.pos, true) {
            scan_ident(content, cur, next, false, false, false)
        } else {
            let after = advanced_n(content, cur, invalid_char_len(content, cur.pos));
            LexStep::Fail { kind: LexerErrorKind::InvalidCharacter, location: loc(cur, after), cur: after }
        }
    }
}

/// Inside a line comment: everything through the next line feed (or the
/// end of input) is skipped, then scanning resumes.
pub open spec fn lex_comment(content: Seq<u8>, cur: Cursor) -> LexStep
    decreases content.len() - cur.pos,
{
    if cur.pos < 0 || cur.pos >= content.len() {
        LexStep::End { cur }
    } else {
        let b = content[cur.pos];
        let next = advanced(content, cur);
        if b == 0x0a {
            lex(content, next)
        } else {
            lex_comment(content, next)
        }
    }
}

/// Bounds respected by every scan that starts at or after offset `min`:
/// cursors stay well formed, tokens cover a non-empty range ending at the
/// continuation cursor, and end of input is only reported at the end.
pub open spec fn step_wf(content: Seq<u8>, min: int, step: LexStep) -> bool {
    match step {
        LexStep::End { cur } => cursor_wf(content, cur) && cur.pos == content.len() && min <= cur.pos,
        LexStep::Tok { token, cur } => {
            &&& cursor_wf(content, cur)
            &&& min <= token.location.start
            &&& token.location.start < token.location.end
            &&& token.location.end == cur.pos
            &&& token.location.wf_in(content)
        },
        LexStep::Fail { kind, location, cur } => {
            &&& cursor_wf(content, cur)
            &&& min <= cur.pos
            &&& location.wf_in(content)
        },
    }
}

pub proof fn lemma_advanced_wf(content: Seq<u8>, cur: Cursor)
    requires
        cursor_wf(content, cur),
        cur.pos < content.len(),
    ensures
        cursor_wf(content, advanced(content, cur)),
        advanced(content, cur).pos == cur.pos + 1,
        advanced(content, cur).line >= cur.line,
{
}

pub proof fn lemma_advanced_n_wf(content: Seq<u8>, cur: Cursor, n: int)
    requires
        cursor_wf(content, cur),
        0 <= n,
        cur.pos + n <= content.len(),
    ensures
        cursor_wf(content, advanced_n(content, cur, n)),
        advanced_n(content, cur, n).pos == cur.pos + n,
    decreases n,
{
    if n > 0 {
        lemma_advanced_wf(content, cur);
        lemma_advanced_n_wf(content, advanced(content, cur), n - 1);
    }
}

pub proof fn lemma_advanced_n_step(content: Seq<u8>, cur: Cursor, n: int)
    requires
        1 <= n,
    ensures
        advanced_n(content, cur, n) == advanced_n(content, advanced(content, cur), n - 1),
{
}

pub proof fn lemma_scan_ident_wf(
    content: Seq<u8>,
    start: Cursor,
    cur: Cursor,
    first: bool,
    dot: bool,
    bang: bool,
)
    requires
        content.len() < u32::MAX as nat,
        cursor_wf(content, start),
        cursor_wf(content, cur),
        start.pos < cur.pos,
    ensures
        step_wf(content, start.pos, scan_ident(content, start, cur, first, dot, bang)),
        !(scan_ident(content, start, cur, first, dot, bang) is End),
        scan_ident(content, start, cur, first, dot, bang) matches LexStep::Tok { token, .. }
            ==> token.location.start == start.pos,
    decreases content.len() - cur.pos,
{
    if cur.pos < content.len() {
        lemma_advanced_wf(content, cur);
        let next = advanced(content, cur);
        let b = content[cur.pos];
        if b == 0x2e {
        } else if bang {
        } else if ident_byte_at(content, cur.pos, first) {
            lemma_scan_ident_wf(content, start, next, false, dot, bang);
        } else if b == 0x21 && !dot {
            lemma_scan_ident_wf(content, start, next, first, dot, true);
        }
    }
}

pub proof fn lemma_scan_number_wf(content: Seq<u8>, start: Cursor, cur: Cursor, dot: bool)
    requires
        content.len() < u32::MAX as nat,
        cursor_wf(content, start),
        cursor_wf(content, cur),
        start.pos < cur.pos,
    ensures
        step_wf(content, start.pos, scan_number(content, start, cur, dot)),
        !(scan_number(content, start, cur, dot) is End),
        scan_number(content, start, cur, dot) matches LexStep::Tok { token, .. }
            ==> token.location.start == start.pos,
    decreases content.len() - cur.pos,
{
    if cur.pos < content.len() {
        lemma_advanced_wf(content, cur);
        let next = advanced(content, cur);
        let b = content[cur.pos];
        if is_digit_byte(b) {
            lemma_scan_number_wf(content, start, next, dot);
        } else if b == 0x2e && !dot {
            lemma_scan_number_wf(content, start, next, true);
        }
    }
}

pub proof fn lemma_scan_string_wf(content: Seq<u8>, start: Cursor, cur: Cursor)
    requires
        content.len() < u32::MAX as nat,
        cursor_wf(content, start),
        cursor_wf(content, cur),
        start.pos < cur.pos,
    ensures
        step_wf(content, start.pos, scan_string(content, start, cur)),
        !(scan_string(content, start, cur) is End),
        scan_string(content, start, cur) matches LexStep::Tok { token, .. }
            ==> token.location.start == start.pos,
    decreases content.len() - cur.pos,
{
    if cur.pos < content.len() {
        lemma_advanced_wf(content, cur);
        let next = advanced(content, cur);
        let b = content[cur.pos];
        if b == 0x22 {
        } else if b == 0x5c {
            if next.pos < content.len() {
                lemma_advanced_wf(content, next);
                let next2 = advanced(content, next);
                if is_escape_byte(content[next.pos]) {
                    lemma_scan_string_wf(content, start, next2);
                }
            }
        } else {
            lemma_scan_string_wf(content, start, next);
        }
    }
}

pub proof fn lemma_lex_wf(content: Seq<u8>, cur: Cursor)
    requires
        content.len() < u32::MAX as nat,
        cursor_wf(content, cur),
    ensures
        step_wf(content, cur.pos, lex(content, cur)),
    decreases content.len() - cur.pos, 1int,
{
    if cur.pos < content.len() {
        lemma_advanced_wf(content, cur);
        let next = advanced(content, cur);
        let b = content[cur.pos];
        if is_ws(b) {
            lemma_lex_wf(content, next);
        } else if b == 0x3b {
            lemma_lex_comment_wf(content, next);
        } else if b == 0x28 || b == 0x29 || b == 0x5b || b == 0x5d || b == 0x7b || b == 0x7d {
        } else if b == 0x2d {
            if next.pos < content.len() && is_digit_byte(content[next.pos]) {
                lemma_scan_number_wf(content, cur, next, false);
            } else {
                lemma_scan_ident_wf(content, cur, next, false, false, false);
            }
        } else if b == 0x2e {
            lemma_scan_ident_wf(content, cur, next, true, true, false);
        } else if b == 0x22 {
            lemma_scan_string_wf(content, cur, next);
        } else if is_digit_byte(b) {
            lemma_scan_number_wf(content, cur, next, false);
        } else if ident_byte_at(content, cur.pos, true) {
            lemma_scan_ident_wf(content, cur, next, false, false, false);
        } else {
            lemma_advanced_n_wf(content, cur, invalid_char_len(content, cur.pos));
        }
    }
}

pub proof fn lemma_lex_comment_wf(content: Seq<u8>, cur: Cursor)
    requires
        content.len() < u32::MAX as nat,
        cursor_wf(content, cur),
    ensures
        step_wf(content, cur.pos, lex_comment(content, cur)),
    decreases content.len() - cur.pos, 0int,
{
    if cur.pos < content.len() {
        lemma_advanced_wf(content, cur);
        let next = advanced(content, cur);
        if content[cur.pos] == 0x0a {
            lemma_lex_wf(content, next);
        } else {
            lemma_lex_comment_wf(content, next);
        }
    }
}

/// The bytes of `content` from `i` up to `j` are exactly what scanning
/// skips between two tokens: ASCII whitespace and line comments.
pub open spec fn skippable(content: Seq<u8>, i: int, j: int) -> bool
    decreases j - i,
{
    i >= j || (0 <= i && i < content.len() && ((is_ws(content[i]) && skippable(content, i + 1, j))
        || (content[i] == 0x3b && skippable_comment(content, i + 1, j))))
}

/// The tail of a line comment: everything through the next line feed (or
/// the end of the region), followed by more skippable bytes.
pub open spec fn skippable_comment(content: Seq<u8>, i: int, j: int) -> bool
    decreases j - i,
{
    i >= j || (0 <= i && i < content.len() && (if content[i] == 0x0a {
        skippable(content, i + 1, j)
    } else {
        skippable_comment(content, i + 1, j)
    }))
}

/// Token coverage is total. A scan that yields a token skipped only
/// whitespace and comments before it, and the token's location ends
/// exactly where the next scan resumes; a scan that yields end of input
/// skipped only whitespace and comments through the end. So concatenating
/// the substrings covered by consecutive tokens' locations, skipping the
/// whitespace/comment gaps, reconstructs exactly the non-whitespace,
/// non-comment source text.
pub proof fn lemma_token_coverage(content: Seq<u8>, cur: Cursor)
    requires
        content.len() < u32::MAX as nat,
        cursor_wf(content, cur),
    ensures
        match lex(content, cur) {
            LexStep::Tok { token, cur: next } => skippable(
                content,
                cur.pos,
                token.location.start as int,
            ) && cur.pos <= token.location.start && token.location.end == next.pos,
            LexStep::End { cur: next } => skippable(content, cur.pos, next.pos) && next.pos
                == content.len(),
            LexStep::Fail { .. } => true,
        },
    decreases content.len() - cur.pos, 1int,
{
    lemma_lex_wf(content, cur);
    if cur.pos < content.len() {
        lemma_advanced_wf(content, cur);
        let next = advanced(content, cur);
        let b = content[cur.pos];
        if is_ws(b) {
            lemma_token_coverage(content, next);
        } else if b == 0x3b {
            lemma_token_coverage_comment(content, next);
        } else if b == 0x2d {
            if next.pos < content.len() && is_digit_byte(content[next.pos]) {
                lemma_scan_number_wf(content, cur, next, false);
            } else {
                lemma_scan_ident_wf(content, cur, next, false, false, false);
            }
        } else if b == 0x2e {
            lemma_scan_ident_wf(content, cur, next, true, true, false);
        } else if b == 0x22 {
            lemma_scan_string_wf(content, cur, next);
        } else if is_digit_byte(b) {
            lemma_scan_number_wf(content, cur, next, false);
        } else if ident_byte_at(content, cur.pos, true) {
            lemma_scan_ident_wf(content, cur, next, false, false, false);
        }
    }
}

pub proof fn lemma_token_coverage_comment(content: Seq<u8>, cur: Cursor)
    requires
        content.len() < u32::MAX as nat,
        cursor_wf(content, cur),
    ensures
        match lex_comment(content, cur) {
            LexStep::Tok { token, cur: next } => skippable_comment(
                content,
                cur.pos,
                token.location.start as int,
            ) && cur.pos <= token.location.start && token.location.end == next.pos,
            LexStep::End { cur: next } => skippable_comment(content, cur.pos, next.pos) && next.pos
                == content.len(),
            LexStep::Fail { .. } => true,
        },
    decreases content.len() - cur.pos, 0int,
{
    lemma_lex_comment_wf(content, cur);
    if cur.pos < content.len() {
        lemma_advanced_wf(content, cur);
        let next = advanced(content, cur);
        if content[cur.pos] == 0x0a {
            lemma_token_coverage(content, next);
        } else {
            lemma_token_coverage_comment(content, next);
        }
    }
}

/// `r` is the lexical error `kind` at `location`, citing `source`.
pub open spec fn lex_failure<T>(
    r: Result<T, Error>,
    source: Source,
    kind: LexerErrorKind,
    location: Location,
) -> bool {
    r matches Err(Error::Lexer(e)) && e.kind == kind && e.location == location
        && e.source.path@ == source.path@ && e.source.content@ == source.content@
}

/// The stateful scanner: a cursor over a source, a marker for the start
/// of the token being scanned, and a one-token lookahead buffer.
pub struct Lexer {
    pub source: Source,
    pub start: u32,
    pub start_line: u32,
    pub start_column: u32,
    pub current: u32,
    pub current_line: u32,
    pub current_column: u32,
    pub peek_buf: Option<Token>,
}

impl Lexer {
    pub open spec fn content(&self) -> Seq<u8> {
        self.source.content@
    }

    pub open spec fn cursor(&self) -> Cursor {
        Cursor { pos: self.current as int, line: self.current_line as int, col: self.current_column as int }
    }

    pub open spec fn marker(&self) -> Cursor {
        Cursor { pos: self.start as int, line: self.start_line as int, col: self.start_column as int }
    }

    /// Well-formed between public operations: the marker has caught up
    /// with the cursor, and a buffered token ends exactly at the cursor.
    pub open spec fn wf(&self) -> bool {
        &&& self.source.wf()
        &&& cursor_wf(self.content(), self.cursor())
        &&& self.marker() == self.cursor()
        &&& match self.peek_buf {
            None => true,
            Some(t) => t.location.end == self.current && t.location.start < t.location.end
                && t.location.wf_in(self.content()),
        }
    }

    /// The position of the next unconsumed piece of input: the start of
    /// the buffered token if there is one, else the cursor's offset. It
    /// never moves backwards, and consuming a token moves it forwards.
    pub open spec fn stream_pos(&self) -> int {
        match self.peek_buf {
            Some(t) => t.location.start as int,
            None => self.cursor().pos,
        }
    }

    /// The pending step that `peek_token` reports and `consume_token`
    /// commits: the buffered token if there is one, else the scan from
    /// the cursor.
    pub open spec fn pending(&self) -> LexStep {
        match self.peek_buf {
            Some(t) => LexStep::Tok { token: t, cur: self.cursor() },
            None => lex(self.content(), self.cursor()),
        }
    }

    pub fn new(source: Source) -> (r: Self)
        requires
            source.wf(),
        ensures
            r.wf(),
            r.source == source,
            r.peek_buf is None,
            r.cursor() == (Cursor { pos: 0int, line: 1int, col: 1int }),
    {
        Self {
            source,
            start: 0,
            start_line: 1,
            start_column: 1,
            current: 0,
            current_line: 1,
            current_column: 1,
            peek_buf: None,
        }
    }

    /// A copy of the shared source, for errors and diagnostics.
    pub fn source(&self) -> (r: Source)
        ensures
            r.path@ == self.source.path@,
            r.content@ == self.source.content@,
    {
        self.source.clone()
    }

    fn peek(&self) -> (r: Option<u8>)
        requires
            self.current as int <= self.content().len(),
        ensures
            r == (if self.cursor().pos < self.content().len() {
                Some(self.content()[self.cursor().pos])
            } else {
                None::<u8>
            }),
    {
        if self.current as usize >= self.source.content.len() {
            return None;
        }
        Some(self.source.content[self.current as usize])
    }

    fn next(&mut self)
        requires
            old(self).source.wf(),
            cursor_wf(old(self).content(), old(self).cursor()),
        ensures
            final(self).source == old(self).source,
            final(self).start == old(self).start,
            final(self).start_line == old(self).start_line,
            final(self).start_column == old(self).start_column,
            final(self).peek_buf == old(self).peek_buf,
            cursor_wf(final(self).content(), final(self).cursor()),
            old(self).cursor().pos < final(self).content().len() ==> final(self).cursor() == advanced(
                final(self).content(),
                old(self).cursor(),
            ),
            old(self).cursor().pos >= final(self).content().len() ==> *final(self) == *old(self),
    {
        match self.peek() {
            None => {},
            Some(b) => {
                self.current = self.current + 1;
                if b == 0x0a {
                    self.current_line = self.current_line + 1;
                    self.current_column = 1;
                } else if !(0x80 <= b && b < 0xc0) {
                    self.current_column = self.current_column + 1;
                }
            },
        }
    }

    fn clear_location(&mut self)
        ensures
            final(self).source == old(self).source,
            final(self).peek_buf == old(self).peek_buf,
            final(self).cursor() == old(self).cursor(),
            final(self).marker() == old(self).cursor(),
    {
        self.start = self.current;
        self.start_line = self.current_line;
        self.start_column = self.current_column;
    }

    fn make_location(&mut self) -> (r: Location)
        ensures
            final(self).source == old(self).source,
            final(self).peek_buf == old(self).peek_buf,
            final(self).cursor() == old(self).cursor(),
            final(self).marker() == old(self).cursor(),
            r == loc(old(self).marker(), old(self).cursor()),
    {
        let location = Location {
            start: self.start,
            end: self.current,
            line: self.start_line,
            column: self.start_column,
        };
        self.clear_location();
        location
    }

    fn make_token(&mut self, kind: TokenKind) -> (r: Token)
        ensures
            final(self).source == old(self).source,
            final(self).peek_buf == old(self).peek_buf,
            final(self).cursor() == old(self).cursor(),
            final(self).marker() == old(self).cursor(),
            r == (Token { location: loc(old(self).marker(), old(self).cursor()), kind }),
    {
        Token { location: self.make_location(), kind }
    }

    fn make_error(&mut self, kind: LexerErrorKind) -> (r: Error)
        ensures
            final(self).source == old(self).source,
            final(self).peek_buf == old(self).peek_buf,
            final(self).cursor() == old(self).cursor(),
            final(self).marker() == old(self).cursor(),
            r matches Error::Lexer(e) && e.kind == kind && e.location == loc(
                old(self).marker(),
                old(self).cursor(),
            ) && e.source.path@ == final(self).source.path@ && e.source.content@ == final(self).source.content@,
    {
        let source = self.source.clone();
        Error::Lexer(Box::new(LexerError { source, location: self.make_location(), kind }))
    }

    fn skip_comment(&mut self)
        requires
            old(self).source.wf(),
            cursor_wf(old(self).content(), old(self).cursor()),
        ensures
            final(self).source == old(self).source,
            final(self).start == old(self).start,
            final(self).start_line == old(self).start_line,
            final(self).start_column == old(self).start_column,
            final(self).peek_buf == old(self).peek_buf,
            cursor_wf(final(self).content(), final(self).cursor()),
            final(self).cursor().pos >= old(self).cursor().pos,
            lex_comment(final(self).content(), old(self).cursor()) == lex(final(self).content(), final(self).cursor()),
    {
        loop
            invariant
                self.source.wf(),
                self.source == old(self).source,
                self.cursor().pos >= old(self).cursor().pos,
                self.start == old(self).start,
                self.start_line == old(self).start_line,
                self.start_column == old(self).start_column,
                self.peek_buf == old(self).peek_buf,
                cursor_wf(self.content(), self.cursor()),
                lex_comment(self.content(), old(self).cursor()) == lex_comment(
                    self.content(),
                    self.cursor(),
                ),
            decreases self.content().len() - self.cursor().pos,
        {
            match self.peek() {
                None => {
                    return ;
                },
                Some(b) => {
                    proof {
                        lemma_advanced_wf(self.content(), self.cursor());
                    }
                    self.next();
                    if b == 0x0a {
                        return ;
                    }
                },
            }
        }
    }

    fn parse_minus_prefix(&mut self) -> (r: Result<Token, Error>)
        requires
            old(self).source.wf(),
            cursor_wf(old(self).content(), old(self).marker()),
            cursor_wf(old(self).content(), old(self).cursor()),
            old(self).marker().pos < old(self).cursor().pos,
            old(self).peek_buf is None,
        ensures
            final(self).source == old(self).source,
            final(self).peek_buf is None,
            final(self).marker() == final(self).cursor(),
            cursor_wf(final(self).content(), final(self).cursor()),
            match minus_step(old(self).content(), old(self).marker(), old(self).cursor()) {
                LexStep::Tok { token, cur } => r == Ok::<Token, Error>(token) && final(self).cursor() == cur,
                LexStep::Fail { kind, location, cur } => lex_failure(r, final(self).source, kind, location)
                    && final(self).cursor() == cur,
                LexStep::End { cur } => false,
            },
    {
        proof {
            lemma_scan_number_wf(self.content(), self.marker(), self.cursor(), false);
            lemma_scan_ident_wf(self.content(), self.marker(), self.cursor(), false, false, false);
        }
        match self.peek() {
            None => self.parse_identifier(false),
            Some(c) => {
                if 0x30 <= c && c <= 0x39 {
                    self.parse_number()
                } else {
                    self.parse_identifier(false)
                }
            },
        }
    }

    fn parse_identifier(&mut self, dot: bool) -> (r: Result<Token, Error>)
        requires
            old(self).source.wf(),
            cursor_wf(old(self).content(), old(self).marker()),
            cursor_wf(old(self).content(), old(self).cursor()),
            old(self).marker().pos < old(self).cursor().pos,
            old(self).peek_buf is None,
        ensures
            final(self).source == old(self).source,
            final(self).peek_buf is None,
            final(self).marker() == final(self).cursor(),
            cursor_wf(final(self).content(), final(self).cursor()),
            match scan_ident(
                old(self).content(),
                old(self).marker(),
                old(self).cursor(),
                dot,
                dot,
                false,
            ) {
                LexStep::Tok { token, cur } => r == Ok::<Token, Error>(token) && final(self).cursor() == cur,
                LexStep::Fail { kind, location, cur } => lex_failure(r, final(self).source, kind, location)
                    && final(self).cursor() == cur,
                LexStep::End { cur } => false,
            },
    {
        proof {
            lemma_scan_ident_wf(self.content(), self.marker(), self.cursor(), dot, dot, false);
        }
        let ghost start0 = self.marker();
        let ghost cur0 = self.cursor();
        let mut first = dot;
        let mut bang = false;
        loop
            invariant
                self.source.wf(),
                self.source == old(self).source,
                self.peek_buf is None,
                old(self).marker() == start0,
                old(self).cursor() == cur0,
                cursor_wf(self.content(), cur0),
                self.marker() == start0,
                cursor_wf(self.content(), start0),
                cursor_wf(self.content(), self.cursor()),
                start0.pos < self.cursor().pos,
                scan_ident(self.content(), start0, cur0, dot, dot, false) == scan_ident(
                    self.content(),
                    start0,
                    self.cursor(),
                    first,
                    dot,
                    bang,
                ),
            ensures
                self.source.wf(),
                self.source == old(self).source,
                self.peek_buf is None,
                self.marker() == start0,
                cursor_wf(self.content(), self.cursor()),
                start0.pos < self.cursor().pos,
                scan_ident(self.content(), start0, cur0, dot, dot, false) == ident_token(
                    self.content(),
                    start0,
                    self.cursor(),
                    dot,
                    bang,
                ),
            decreases self.content().len() - self.cursor().pos,
        {
            let ghost cur_i = self.cursor();
            match self.peek() {
                None => {
                    break ;
                },
                Some(c) => {
                    proof {
                        lemma_advanced_wf(self.content(), self.cursor());
                    }
                    if c == 0x2e {
                        self.next();
                        return Err(self.make_error(LexerErrorKind::InvalidCharacter));
                    }
                    if bang {
                        if c == 0x21 || is_identifier_byte_at(
                            &self.source.content,
                            self.current as usize,
                            false,
                        ) {
                            self.next();
                            return Err(self.make_error(LexerErrorKind::InvalidCharacter));
                        }
                        break ;
                    }
                    if is_identifier_byte_at(&self.source.content, self.current as usize, first) {
                        self.next();
                        first = false;
                        continue ;
                    }
                    if c == 0x21 {
                        self.next();
                        if dot {
                            return Err(self.make_error(LexerErrorKind::InvalidCharacter));
                        }
                        bang = true;
                        continue ;
                    }
                    break ;
                },
            }
        }
        if dot {
            return Ok(self.make_token(TokenKind::DotIdentifier));
        }
        if bang {
            return Ok(self.make_token(TokenKind::BangIdentifier));
        }
        let is_arrow = self.current - self.start == 2 && self.source.content[self.start as usize]
            == 0x2d && self.source.content[self.start as usize + 1] == 0x3e;
        proof {
            if is_arrow {
                assert(self.content().subrange(self.marker().pos, self.cursor().pos) =~= seq![
                    0x2du8,
                    0x3eu8,
                ]);
            } else {
                assert(self.content().subrange(self.marker().pos, self.cursor().pos) != seq![
                    0x2du8,
                    0x3eu8,
                ]) by {
                    if self.content().subrange(self.marker().pos, self.cursor().pos) == seq![
                        0x2du8,
                        0x3eu8,
                    ] {
                        assert(self.content().subrange(self.marker().pos, self.cursor().pos).len()
                            == 2);
                        assert(self.content()[self.marker().pos] == 0x2du8);
                        assert(self.content()[self.marker().pos + 1] == 0x3eu8);
                    }
                }
            }
        }
        if is_arrow {
            Ok(self.make_token(TokenKind::RightArrow))
        } else {
            Ok(self.make_token(TokenKind::Identifier))
        }
    }

    fn parse_number(&mut self) -> (r: Result<Token, Error>)
        requires
            old(self).source.wf(),
            cursor_wf(old(self).content(), old(self).marker()),
            cursor_wf(old(self).content(), old(self).cursor()),
            old(self).marker().pos < old(self).cursor().pos,
            old(self).peek_buf is None,
        ensures
            final(self).source == old(self).source,
            final(self).peek_buf is None,
            final(self).marker() == final(self).cursor(),
            cursor_wf(final(self).content(), final(self).cursor()),
            match scan_number(old(self).content(), old(self).marker(), old(self).cursor(), false) {
                LexStep::Tok { token, cur } => r == Ok::<Token, Error>(token) && final(self).cursor() == cur,
                LexStep::Fail { kind, location, cur } => lex_failure(r, final(self).source, kind, location)
                    && final(self).cursor() == cur,
                LexStep::End { cur } => false,
            },
    {
        proof {
            lemma_scan_number_wf(self.content(), self.marker(), self.cursor(), false);
        }
        let ghost start0 = self.marker();
        let ghost cur0 = self.cursor();
        let mut dot = false;
        loop
            invariant
                self.source.wf(),
                self.source == old(self).source,
                self.peek_buf is None,
                old(self).marker() == start0,
                old(self).cursor() == cur0,
                cursor_wf(self.content(), cur0),
                self.marker() == start0,
                cursor_wf(self.content(), start0),
                cursor_wf(self.content(), self.cursor()),
                start0.pos < self.cursor().pos,
                scan_number(self.content(), start0, cur0, false) == scan_number(
                    self.content(),
                    start0,
                    self.cursor(),
                    dot,
                ),
            ensures
                self.source.wf(),
                self.source == old(self).source,
                self.peek_buf is None,
                self.marker() == start0,
                cursor_wf(self.content(), self.cursor()),
                start0.pos < self.cursor().pos,
                scan_number(self.content(), start0, cur0, false) == number_token(
                    start0,
                    self.cursor(),
                    dot,
                ),
            decreases self.content().len() - self.cursor().pos,
        {
            match self.peek() {
                None => {
                    break ;
                },
                Some(c) => {
                    proof {
                        lemma_advanced_wf(self.content(), self.cursor());
                    }
                    if 0x30 <= c && c <= 0x39 {
                        self.next();
                        continue ;
                    }
                    if c == 0x2e {
                        self.next();
                        if dot {
                            return Err(self.make_error(LexerErrorKind::InvalidCharacter));
                        }
                        dot = true;
                        continue ;
                    }
                    break ;
                },
            }
        }
        if dot {
            Ok(self.make_token(TokenKind::Float))
        } else {
            Ok(self.make_token(TokenKind::Integer))
        }
    }

    fn parse_string(&mut self) -> (r: Result<Token, Error>)
        requires
            old(self).source.wf(),
            cursor_wf(old(self).content(), old(self).marker()),
            cursor_wf(old(self).content(), old(self).cursor()),
            old(self).marker().pos < old(self).cursor().pos,
            old(self).peek_buf is None,
        ensures
            final(self).source == old(self).source,
            final(self).peek_buf is None,
            final(self).marker() == final(self).cursor(),
            cursor_wf(final(self).content(), final(self).cursor()),
            match scan_string(old(self).content(), old(self).marker(), old(self).cursor()) {
                LexStep::Tok { token, cur } => r == Ok::<Token, Error>(token) && final(self).cursor() == cur,
                LexStep::Fail { kind, location, cur } => lex_failure(r, final(self).source, kind, location)
                    && final(self).cursor() == cur,
                LexStep::End { cur } => false,
            },
    {
        proof {
            lemma_scan_string_wf(self.content(), self.marker(), self.cursor());
        }
        let ghost start0 = self.marker();
        let ghost cur0 = self.cursor();
        loop
            invariant_except_break
                scan_string(self.content(), start0, cur0) == scan_string(
                    self.content(),
                    start0,
                    self.cursor(),
                ),
            invariant
                self.source.wf(),
                self.source == old(self).source,
                self.peek_buf is None,
                old(self).marker() == start0,
                old(self).cursor() == cur0,
                cursor_wf(self.content(), cur0),
                self.marker() == start0,
                cursor_wf(self.content(), start0),
                cursor_wf(self.content(), self.cursor()),
                start0.pos < self.cursor().pos,
            ensures
                self.source.wf(),
                self.source == old(self).source,
                self.peek_buf is None,
                self.marker() == start0,
                cursor_wf(self.content(), self.cursor()),
                start0.pos < self.cursor().pos,
                scan_string(self.content(), start0, cur0) == (LexStep::Tok {
                    token: Token { location: loc(start0, self.cursor()), kind: TokenKind::String },
                    cur: self.cursor(),
                }),
            decreases self.content().len() - self.cursor().pos,
        {
            let c = match self.peek() {
                None => {
                    return Err(self.make_error(LexerErrorKind::InvalidEof));
                },
                Some(c) => c,
            };
            proof {
                lemma_advanced_wf(self.content(), self.cursor());
            }
            self.next();
            if c == 0x22 {
                break ;
            }
            if c != 0x5c {
                continue ;
            }
            let escape = match self.peek() {
                None => {
                    return Err(self.make_error(LexerErrorKind::InvalidEof));
                },
                Some(e) => e,
            };
            proof {
                lemma_advanced_wf(self.content(), self.cursor());
            }
            match escape {
                0x22 | 0x5c | 0x6e | 0x72 | 0x74 => {
                    self.next();
                },
                _ => {
                    // the error points at the offending character alone
                    self.clear_location();
                    self.next();
                    return Err(self.make_error(LexerErrorKind::InvalidEscapeSequence));
                },
            }
        }
        Ok(self.make_token(TokenKind::String))
    }

    fn parse_token(&mut self) -> (r: Result<Option<Token>, Error>)
        requires
            old(self).wf(),
            old(self).peek_buf is None,
        ensures
            final(self).source == old(self).source,
            final(self).peek_buf is None,
            final(self).marker() == final(self).cursor(),
            cursor_wf(final(self).content(), final(self).cursor()),
            match lex(old(self).content(), old(self).cursor()) {
                LexStep::End { cur } => r == Ok::<Option<Token>, Error>(None) && final(self).cursor() == cur,
                LexStep::Tok { token, cur } => r == Ok::<Option<Token>, Error>(Some(token))
                    && final(self).cursor() == cur,
                LexStep::Fail { kind, location, cur } => lex_failure(r, final(self).source, kind, location)
                    && final(self).cursor() == cur,
            },
    {
        let ghost cur0 = self.cursor();
        loop
            invariant
                self.source.wf(),
                self.source == old(self).source,
                self.peek_buf is None,
                old(self).cursor() == cur0,
                self.marker() == self.cursor(),
                cursor_wf(self.content(), self.cursor()),
                lex(self.content(), cur0) == lex(self.content(), self.cursor()),
            decreases self.content().len() - self.cursor().pos,
        {
            let ghost cur_i = self.cursor();
            let c = match self.peek() {
                None => {
                    return Ok(None);
                },
                Some(c) => c,
            };
            proof {
                lemma_advanced_wf(self.content(), self.cursor());
            }
            self.next();
            if c == 0x20 || c == 0x09 || c == 0x0a || c == 0x0c || c == 0x0d {
                self.clear_location();
                continue ;
            }
            match c {
                0x3b => {
                    self.skip_comment();
                    self.clear_location();
                },
                0x28 => {
                    return Ok(Some(self.make_token(TokenKind::LeftParen)));
                },
                0x29 => {
                    return Ok(Some(self.make_token(TokenKind::RightParen)));
                },
                0x5b => {
                    return Ok(Some(self.make_token(TokenKind::LeftSquare)));
                },
                0x5d => {
                    return Ok(Some(self.make_token(TokenKind::RightSquare)));
                },
                0x7b => {
                    return Ok(Some(self.make_token(TokenKind::LeftCurly)));
                },
                0x7d => {
                    return Ok(Some(self.make_token(TokenKind::RightCurly)));
                },
                0x2d => {
                    return match self.parse_minus_prefix() {
                        Ok(t) => Ok(Some(t)),
                        Err(e) => Err(e),
                    };
                },
                0x2e => {
                    return match self.parse_identifier(true) {
                        Ok(t) => Ok(Some(t)),
                        Err(e) => Err(e),
                    };
                },
                0x22 => {
                    return match self.parse_string() {
                        Ok(t) => Ok(Some(t)),
                        Err(e) => Err(e),
                    };
                },
                _ => {
                    if 0x30 <= c && c <= 0x39 {
                        return match self.parse_number() {
                        Ok(t) => Ok(Some(t)),
                        Err(e) => Err(e),
                    };
                    }
                    if is_identifier_byte_at(
                        &self.source.content,
                        (self.current - 1) as usize,
                        true,
                    ) {
                        return match self.parse_identifier(false) {
                        Ok(t) => Ok(Some(t)),
                        Err(e) => Err(e),
                    };
                    }
                    // consume the rest of the invalid character's bytes,
                    // so the error spans the whole character
                    let at = (self.current - 1) as usize;
                    let more: usize = match decode_code_point(&self.source.content, at) {
                        None => 0,
                        Some(_) => {
                            let b0 = self.source.content[at];
                            if b0 < 0x80 {
                                0
                            } else if b0 < 0xe0 {
                                1
                            } else if b0 < 0xf0 {
                                2
                            } else {
                                3
                            }
                        },
                    };
                    proof {
                        let content = self.content();
                        let k = invalid_char_len(content, cur_i.pos);
                        assert(k == 1 + more);
                        lemma_advanced_n_step(content, cur_i, k);
                        if more >= 1 {
                            lemma_advanced_wf(content, advanced(content, cur_i));
                            lemma_advanced_n_step(content, advanced(content, cur_i), more as int);
                        }
                        if more >= 2 {
                            lemma_advanced_wf(
                                content,
                                advanced(content, advanced(content, cur_i)),
                            );
                            lemma_advanced_n_step(
                                content,
                                advanced(content, advanced(content, cur_i)),
                                more as int - 1,
                            );
                        }
                        if more >= 3 {
                            lemma_advanced_wf(
                                content,
                                advanced(content, advanced(content, advanced(content, cur_i))),
                            );
                            lemma_advanced_n_step(
                                content,
                                advanced(content, advanced(content, advanced(content, cur_i))),
                                more as int - 2,
                            );
                        }
                    }
                    if more >= 1 {
                        self.next();
                    }
                    if more >= 2 {
                        self.next();
                    }
                    if more >= 3 {
                        self.next();
                    }
                    return Err(self.make_error(LexerErrorKind::InvalidCharacter));
                },
            }
        }
    }

    /// Looks at the next token without committing to it: idempotent until
    /// the token is consumed.
    pub fn peek_token(&mut self) -> (r: Result<Option<Token>, Error>)
        requires
            old(self).wf(),
        ensures
            final(self).wf(),
            final(self).source == old(self).source,
            match old(self).pending() {
                LexStep::End { cur } => r == Ok::<Option<Token>, Error>(None) && final(self).peek_buf is None
                    && final(self).cursor() == cur && final(self).cursor().pos == final(self).content().len() && final(self).cursor().pos >= old(self).cursor().pos,
                LexStep::Tok { token, cur } => r == Ok::<Option<Token>, Error>(Some(token))
                    && final(self).peek_buf == Some(token) && final(self).cursor() == cur && cur.pos
                    == token.location.end && (old(self).peek_buf is None
                    ==> old(self).cursor().pos <= token.location.start),
                LexStep::Fail { kind, location, cur } => lex_failure(r, final(self).source, kind, location)
                    && final(self).peek_buf is None && final(self).cursor().pos >= old(
                    self,
                ).cursor().pos,
            },
    {
        if self.peek_buf.is_some() {
            return Ok(self.peek_buf);
        }
        proof {
            lemma_lex_wf(self.content(), self.cursor());
        }
        let t = self.parse_token()?;
        self.peek_buf = t;
        Ok(self.peek_buf)
    }

    /// Commits the pending token: clears the lookahead buffer, or scans
    /// and discards the next token when the buffer is empty.
    pub fn consume_token(&mut self) -> (r: Result<(), Error>)
        requires
            old(self).wf(),
        ensures
            final(self).wf(),
            final(self).source == old(self).source,
            final(self).peek_buf is None,
            match old(self).pending() {
                LexStep::End { cur } => r == Ok::<(), Error>(()) && final(self).cursor() == cur
                    && final(self).cursor().pos == final(self).content().len(),
                LexStep::Tok { token, cur } => r == Ok::<(), Error>(()) && final(self).cursor() == cur,
                LexStep::Fail { kind, location, cur } => lex_failure(r, final(self).source, kind, location)
                    && final(self).cursor().pos >= old(self).cursor().pos,
            },
    {
        let buffered = self.peek_buf.take();
        if buffered.is_none() {
            proof {
                lemma_lex_wf(self.content(), self.cursor());
            }
            let _ = self.parse_token()?;
        }
        Ok(())
    }
}

} // verus!
