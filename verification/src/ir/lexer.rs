//! Tokenizer for Lightdown IR text.
//!
//! The model of the tokenizer is a set of spec functions over the characters
//! of the input (`Seq<char>`) and a character index into them; the executable
//! lexer is proved to follow it exactly, spans included.
use vstd::prelude::*;

use crate::text::{
    char_from_u32, char_hex_value, char_is_alnum, char_is_alpha, char_is_control,
    char_is_whitespace, char_utf8_len, fits, hex_value, is_alnum, is_alpha, is_ctrl, is_ws,
    lemma_utf8_size_prefix, push_char, string_of, utf8_len, utf8_size,
};

verus! {

/// A concrete position in the input text.
///
/// Offsets are zero-based byte indices, while line and column numbers are
/// one-based for human-facing diagnostics.
#[derive(Clone, Copy, Debug, Default, PartialEq, Eq)]
pub struct Position {
    /// The zero-based byte offset from the beginning of the input.
    pub offset: usize,
    /// The one-based line number in the input text.
    pub line: usize,
    /// The one-based column number in the input text.
    pub column: usize,
}

/// A half-open source range within the input text.
#[derive(Clone, Copy, Debug, PartialEq, Eq)]
pub struct Span {
    /// The inclusive start position of the range.
    pub start: Position,
    /// The exclusive end position of the range.
    pub end: Position,
}

pub open spec fn start_position() -> Position {
    Position { offset: 0, line: 1, column: 1 }
}

/// The position just after `c`, when `c` starts at `p`.
pub open spec fn advance(p: Position, c: char) -> Position {
    if c == '\n' {
        Position { offset: (p.offset + utf8_len(c)) as usize, line: (p.line + 1) as usize, column: 1 }
    } else {
        Position {
            offset: (p.offset + utf8_len(c)) as usize,
            line: p.line,
            column: (p.column + 1) as usize,
        }
    }
}

/// The position reached from `p` after the characters `seg`.
pub open spec fn advance_over(p: Position, seg: Seq<char>) -> Position
    decreases seg.len(),
{
    if seg.len() == 0 {
        p
    } else {
        advance(advance_over(p, seg.drop_last()), seg.last())
    }
}

/// The position of the character at index `i` of `s`.
pub open spec fn position_at(s: Seq<char>, i: int) -> Position {
    advance_over(start_position(), s.take(i))
}

pub open spec fn span_of(s: Seq<char>, a: int, b: int) -> Span {
    Span { start: position_at(s, a), end: position_at(s, b) }
}

pub open spec fn count_newlines(s: Seq<char>) -> nat
    decreases s.len(),
{
    if s.len() == 0 {
        0
    } else {
        count_newlines(s.drop_last()) + if s.last() == '\n' {
            1nat
        } else {
            0nat
        }
    }
}

/// Without overflow, `advance_over` adds the UTF-8 size of the segment to
/// the offset and at most its length to the line and the column.
pub proof fn lemma_advance_over_bounds(p: Position, seg: Seq<char>)
    requires
        p.offset + utf8_size(seg) + seg.len() + 2 <= usize::MAX,
        p.line + seg.len() + 2 <= usize::MAX,
        p.column + seg.len() + 2 <= usize::MAX,
        p.line >= 1,
        p.column >= 1,
    ensures
        advance_over(p, seg).offset == p.offset + utf8_size(seg),
        advance_over(p, seg).line == p.line + count_newlines(seg),
        1 <= advance_over(p, seg).column <= p.column + seg.len(),
        count_newlines(seg) <= seg.len(),
    decreases seg.len(),
{
    if seg.len() > 0 {
        lemma_advance_over_bounds(p, seg.drop_last());
    }
}

pub proof fn lemma_advance_over_append(p: Position, a: Seq<char>, b: Seq<char>)
    ensures
        advance_over(p, a + b) == advance_over(advance_over(p, a), b),
    decreases b.len(),
{
    if b.len() == 0 {
        assert(a + b =~= a);
    } else {
        lemma_advance_over_append(p, a, b.drop_last());
        assert((a + b).drop_last() =~= a + b.drop_last());
    }
}

/// In a text that fits in memory every position is exact: its offset is the
/// UTF-8 size of the text before it.
pub proof fn lemma_position_at(s: Seq<char>, i: int)
    requires
        fits(s),
        0 <= i <= s.len(),
    ensures
        position_at(s, i).offset == utf8_size(s.take(i)),
        position_at(s, i).line <= i + 1,
        position_at(s, i).line >= 1,
        1 <= position_at(s, i).column <= i + 1,
        i < s.len() ==> position_at(s, i + 1) == advance(position_at(s, i), s[i]),
        i < s.len() ==> position_at(s, i).offset + utf8_len(s[i]) <= usize::MAX,
        i < s.len() ==> position_at(s, i).line + 1 <= usize::MAX,
        i < s.len() ==> position_at(s, i).column + 1 <= usize::MAX,
{
    lemma_utf8_size_prefix(s, i);
    lemma_advance_over_bounds(start_position(), s.take(i));
    if i < s.len() {
        assert(s.take(i + 1).drop_last() =~= s.take(i));
        lemma_utf8_size_prefix(s, i + 1);
        assert(utf8_size(s.take(i + 1)) == utf8_size(s.take(i)) + utf8_len(s[i]));
    }
}

pub fn position_start() -> (r: Position)
    ensures
        r == start_position(),
{
    Position { offset: 0, line: 1, column: 1 }
}

pub fn span_new(start: Position, end: Position) -> (r: Span)
    ensures
        r == (Span { start, end }),
{
    Span { start, end }
}

pub fn advance_position(p: Position, c: char) -> (r: Position)
    requires
        p.offset + utf8_len(c) <= usize::MAX,
        p.line + 1 <= usize::MAX,
        p.column + 1 <= usize::MAX,
    ensures
        r == advance(p, c),
{
    let n = char_utf8_len(c);
    if c == '\n' {
        Position { offset: p.offset + n, line: p.line + 1, column: 1 }
    } else {
        Position { offset: p.offset + n, line: p.line, column: p.column + 1 }
    }
}

#[derive(Clone, Debug, PartialEq, Eq)]
pub enum TokenKind {
    LParen,
    RParen,
    LBrace,
    RBrace,
    String(String),
    Symbol(String),
    Keyword(String),
}

pub enum SpecTokenKind {
    LParen,
    RParen,
    LBrace,
    RBrace,
    String(Seq<char>),
    Symbol(Seq<char>),
    Keyword(Seq<char>),
}

impl View for TokenKind {
    type V = SpecTokenKind;

    open spec fn view(&self) -> SpecTokenKind {
        match self {
            TokenKind::LParen => SpecTokenKind::LParen,
            TokenKind::RParen => SpecTokenKind::RParen,
            TokenKind::LBrace => SpecTokenKind::LBrace,
            TokenKind::RBrace => SpecTokenKind::RBrace,
            TokenKind::String(s) => SpecTokenKind::String(s@),
            TokenKind::Symbol(s) => SpecTokenKind::Symbol(s@),
            TokenKind::Keyword(s) => SpecTokenKind::Keyword(s@),
        }
    }
}

impl TokenKind {
    pub fn l_paren() -> (r: Self)
        ensures
            r@ == SpecTokenKind::LParen,
    {
        TokenKind::LParen
    }

    pub fn r_paren() -> (r: Self)
        ensures
            r@ == SpecTokenKind::RParen,
    {
        TokenKind::RParen
    }

    pub fn l_brace() -> (r: Self)
        ensures
            r@ == SpecTokenKind::LBrace,
    {
        TokenKind::LBrace
    }

    pub fn r_brace() -> (r: Self)
        ensures
            r@ == SpecTokenKind::RBrace,
    {
        TokenKind::RBrace
    }

    pub fn string(s: &str) -> (r: Self)
        ensures
            r@ == SpecTokenKind::String(s@),
    {
        TokenKind::String(s.to_owned())
    }

    pub fn symbol(s: &str) -> (r: Self)
        ensures
            r@ == SpecTokenKind::Symbol(s@),
    {
        TokenKind::Symbol(s.to_owned())
    }

    pub fn keyword(s: &str) -> (r: Self)
        ensures
            r@ == SpecTokenKind::Keyword(s@),
    {
        TokenKind::Keyword(s.to_owned())
    }

    /// A copy of this token kind.
    pub fn duplicate(&self) -> (r: Self)
        ensures
            r@ == self@,
    {
        match self {
            TokenKind::LParen => TokenKind::LParen,
            TokenKind::RParen => TokenKind::RParen,
            TokenKind::LBrace => TokenKind::LBrace,
            TokenKind::RBrace => TokenKind::RBrace,
            TokenKind::String(s) => TokenKind::String(s.clone()),
            TokenKind::Symbol(s) => TokenKind::Symbol(s.clone()),
            TokenKind::Keyword(s) => TokenKind::Keyword(s.clone()),
        }
    }
}

/// A single lexical token produced from Lightdown IR input.
#[derive(Clone, Debug, PartialEq, Eq)]
pub struct Token {
    /// The classified token payload.
    pub kind: TokenKind,
    /// The source range covered by this token.
    pub span: Span,
}

pub struct SpecToken {
    pub kind: SpecTokenKind,
    pub span: Span,
}

impl View for Token {
    type V = SpecToken;

    open spec fn view(&self) -> SpecToken {
        SpecToken { kind: self.kind@, span: self.span }
    }
}

#[derive(Clone, Debug, PartialEq, Eq)]
pub enum LexErrorKind {
    UnexpectedCharacter(char),
    UnexpectedColon,
    InvalidIdentifier(String),
    UnterminatedString,
    UnterminatedMultilineString,
    InvalidEscapeSequence(String),
}

pub enum SpecLexErrorKind {
    UnexpectedCharacter(char),
    UnexpectedColon,
    InvalidIdentifier(Seq<char>),
    UnterminatedString,
    UnterminatedMultilineString,
    InvalidEscapeSequence(Seq<char>),
}

impl View for LexErrorKind {
    type V = SpecLexErrorKind;

    open spec fn view(&self) -> SpecLexErrorKind {
        match self {
            LexErrorKind::UnexpectedCharacter(c) => SpecLexErrorKind::UnexpectedCharacter(*c),
            LexErrorKind::UnexpectedColon => SpecLexErrorKind::UnexpectedColon,
            LexErrorKind::InvalidIdentifier(s) => SpecLexErrorKind::InvalidIdentifier(s@),
            LexErrorKind::UnterminatedString => SpecLexErrorKind::UnterminatedString,
            LexErrorKind::UnterminatedMultilineString => SpecLexErrorKind::UnterminatedMultilineString,
            LexErrorKind::InvalidEscapeSequence(s) => SpecLexErrorKind::InvalidEscapeSequence(s@),
        }
    }
}

impl LexErrorKind {
    /// A copy of this error kind.
    pub fn duplicate(&self) -> (r: Self)
        ensures
            r@ == self@,
    {
        match self {
            LexErrorKind::UnexpectedCharacter(c) => LexErrorKind::UnexpectedCharacter(*c),
            LexErrorKind::UnexpectedColon => LexErrorKind::UnexpectedColon,
            LexErrorKind::InvalidIdentifier(s) => LexErrorKind::InvalidIdentifier(s.clone()),
            LexErrorKind::UnterminatedString => LexErrorKind::UnterminatedString,
            LexErrorKind::UnterminatedMultilineString => LexErrorKind::UnterminatedMultilineString,
            LexErrorKind::InvalidEscapeSequence(s) => LexErrorKind::InvalidEscapeSequence(
                s.clone(),
            ),
        }
    }
}

/// A lexical error together with the source range where it occurred.
#[derive(Clone, Debug, PartialEq, Eq)]
pub struct LexError {
    /// The concrete failure kind.
    pub kind: LexErrorKind,
    /// The source range associated with the failure.
    pub span: Span,
}

pub struct SpecLexError {
    pub kind: SpecLexErrorKind,
    pub span: Span,
}

impl View for LexError {
    type V = SpecLexError;

    open spec fn view(&self) -> SpecLexError {
        SpecLexError { kind: self.kind@, span: self.span }
    }
}

// ---------------------------------------------------------------------------
// The model of the tokenizer.
// ---------------------------------------------------------------------------

pub open spec fn is_ident_start(c: char) -> bool {
    is_alpha(c)
}

pub open spec fn is_ident_continue(c: char) -> bool {
    is_alnum(c) || c == '-' || c == ':'
}

pub open spec fn is_high_surrogate(v: u32) -> bool {
    0xD800 <= v <= 0xDBFF
}

pub open spec fn is_low_surrogate(v: u32) -> bool {
    0xDC00 <= v <= 0xDFFF
}

/// The index of the first character at or after `i` that is not whitespace.
pub open spec fn skip_ws(s: Seq<char>, i: int) -> int
    decreases s.len() - i,
{
    if 0 <= i < s.len() && is_ws(s[i]) {
        skip_ws(s, i + 1)
    } else {
        i
    }
}

/// The end of the run of identifier characters that starts at `i`.
pub open spec fn ident_end(s: Seq<char>, i: int) -> int
    decreases s.len() - i,
{
    if 0 <= i < s.len() && is_ident_continue(s[i]) {
        ident_end(s, i + 1)
    } else {
        i
    }
}

pub open spec fn at_triple_quote(s: Seq<char>, i: int) -> bool {
    0 <= i && i + 3 <= s.len() && s[i] == '"' && s[i + 1] == '"' && s[i + 2] == '"'
}

pub open spec fn lex_error(kind: SpecLexErrorKind, s: Seq<char>, a: int, b: int) -> SpecLexError {
    SpecLexError { kind, span: span_of(s, a, b) }
}

/// The character that a one-letter JSON escape stands for.
pub open spec fn escaped_char(c: char) -> Option<char> {
    if c == '"' {
        Some('"')
    } else if c == '\\' {
        Some('\\')
    } else if c == '/' {
        Some('/')
    } else if c == 'b' {
        Some('\u{8}')
    } else if c == 'f' {
        Some('\u{c}')
    } else if c == 'n' {
        Some('\n')
    } else if c == 'r' {
        Some('\r')
    } else if c == 't' {
        Some('\t')
    } else {
        None
    }
}

/// The uppercase hexadecimal digit of `d` (`d < 16`).
pub open spec fn hex_digit_char(d: u32) -> char {
    if d < 10 {
        ((d + '0' as u32) as u32) as char
    } else {
        ((d - 10 + 'A' as u32) as u32) as char
    }
}

/// `\u` followed by the four uppercase hexadecimal digits of `v`.
pub open spec fn u_escape_text(v: u32) -> Seq<char> {
    seq![
        '\\',
        'u',
        hex_digit_char(v / 4096 % 16),
        hex_digit_char(v / 256 % 16),
        hex_digit_char(v / 16 % 16),
        hex_digit_char(v % 16),
    ]
}

pub open spec fn surrogate_pair(high: u32, low: u32) -> u32 {
    (0x10000 + (high - 0xD800) * 1024 + (low - 0xDC00)) as u32
}

/// Four hexadecimal digits starting at `start` (the `j` first already read,
/// with value `acc`), for the escape that starts at `e`.
pub open spec fn spec_hex_digits(s: Seq<char>, start: int, e: int, j: int, acc: u32) -> Result<
    (u32, int),
    SpecLexError,
>
    decreases 4 - j,
{
    if j >= 4 {
        Ok((acc, start + 4))
    } else if start + j >= s.len() {
        Err(
            lex_error(
                SpecLexErrorKind::InvalidEscapeSequence(
                    seq!['\\', 'u'] + s.subrange(start, start + j),
                ),
                s,
                e,
                start + j,
            ),
        )
    } else {
        match hex_value(s[start + j]) {
            None => Err(
                lex_error(
                    SpecLexErrorKind::InvalidEscapeSequence(
                        seq!['\\', 'u'] + s.subrange(start, start + j + 1),
                    ),
                    s,
                    e,
                    start + j,
                ),
            ),
            Some(d) => spec_hex_digits(s, start, e, j + 1, (acc * 16 + d) as u32),
        }
    }
}

/// A `\u` escape whose digits start at `i`; the escape starts at `e`.
pub open spec fn spec_unicode_escape(s: Seq<char>, i: int, e: int) -> Result<
    (char, int),
    SpecLexError,
> {
    match spec_hex_digits(s, i, e, 0, 0) {
        Err(err) => Err(err),
        Ok((first, j)) => if is_high_surrogate(first) {
            if j >= s.len() || s[j] != '\\' {
                Err(
                    lex_error(
                        SpecLexErrorKind::InvalidEscapeSequence(u_escape_text(first)),
                        s,
                        e,
                        j,
                    ),
                )
            } else if j + 1 >= s.len() || s[j + 1] != 'u' {
                Err(
                    lex_error(
                        SpecLexErrorKind::InvalidEscapeSequence(u_escape_text(first)),
                        s,
                        e,
                        j + 1,
                    ),
                )
            } else {
                match spec_hex_digits(s, j + 2, e, 0, 0) {
                    Err(err) => Err(err),
                    Ok((second, k)) => if !is_low_surrogate(second) {
                        Err(
                            lex_error(
                                SpecLexErrorKind::InvalidEscapeSequence(
                                    u_escape_text(first) + u_escape_text(second),
                                ),
                                s,
                                e,
                                k,
                            ),
                        )
                    } else {
                        Ok((surrogate_pair(first, second) as char, k))
                    },
                }
            }
        } else if is_low_surrogate(first) {
            Err(lex_error(SpecLexErrorKind::InvalidEscapeSequence(u_escape_text(first)), s, e, j))
        } else {
            Ok((first as char, j))
        },
    }
}

/// The escape sequence whose backslash is at `e`: the character it stands
/// for and the index after it.
pub open spec fn spec_escape(s: Seq<char>, e: int) -> Result<(char, int), SpecLexError> {
    let i = e + 1;
    if i >= s.len() {
        Err(lex_error(SpecLexErrorKind::InvalidEscapeSequence(seq!['\\']), s, e, i))
    } else if s[i] == 'u' {
        spec_unicode_escape(s, i + 1, e)
    } else {
        match escaped_char(s[i]) {
            Some(c) => Ok((c, i + 1)),
            None => Err(
                lex_error(SpecLexErrorKind::InvalidEscapeSequence(seq!['\\', s[i]]), s, e, i),
            ),
        }
    }
}

pub proof fn lemma_hex_digits(s: Seq<char>, start: int, e: int, j: int, acc: u32)
    requires
        0 <= j <= 4,
        acc < pow16(j),
    ensures
        spec_hex_digits(s, start, e, j, acc) matches Ok((v, k)) ==> k == start + 4 && v < 65536,
    decreases 4 - j,
{
    if j < 4 && start + j < s.len() {
        if let Some(d) = hex_value(s[start + j]) {
            assert(acc * 16 + d < pow16(j + 1)) by (nonlinear_arith)
                requires
                    acc < pow16(j),
                    d < 16,
                    pow16(j + 1) == pow16(j) * 16,
            ;
            lemma_hex_digits(s, start, e, j + 1, (acc * 16 + d) as u32);
        }
    }
}

pub open spec fn pow16(j: int) -> int {
    if j <= 0 {
        1
    } else if j == 1 {
        16
    } else if j == 2 {
        256
    } else if j == 3 {
        4096
    } else {
        65536
    }
}

pub proof fn lemma_hex_digits_in_range(s: Seq<char>, start: int, e: int)
    requires
        0 <= start,
    ensures
        spec_hex_digits(s, start, e, 0, 0) matches Ok((v, k)) ==> k == start + 4 && k <= s.len()
            && v < 65536,
{
    lemma_hex_digits(s, start, e, 0, 0);
    lemma_hex_digits_bound(s, start, e, 0, 0);
}

pub proof fn lemma_hex_digits_bound(s: Seq<char>, start: int, e: int, j: int, acc: u32)
    requires
        0 <= j <= 4,
        0 <= start,
        j > 0 ==> start + j <= s.len(),
    ensures
        spec_hex_digits(s, start, e, j, acc) is Ok ==> start + 4 <= s.len(),
    decreases 4 - j,
{
    if j < 4 && start + j < s.len() {
        if let Some(d) = hex_value(s[start + j]) {
            lemma_hex_digits_bound(s, start, e, j + 1, (acc * 16 + d) as u32);
        }
    }
}

/// An escape sequence that succeeds moves past the backslash and at least one
/// more character, and stays within the text.
pub proof fn lemma_escape_progress(s: Seq<char>, e: int)
    requires
        0 <= e < s.len(),
    ensures
        spec_escape(s, e) matches Ok((c, j)) ==> e + 2 <= j <= s.len(),
{
    let i = e + 1;
    if i < s.len() && s[i] == 'u' {
        lemma_hex_digits_in_range(s, i + 1, e);
        if let Ok((first, j)) = spec_hex_digits(s, i + 1, e, 0, 0) {
            if is_high_surrogate(first) && j + 1 < s.len() && s[j] == '\\' && s[j + 1] == 'u' {
                lemma_hex_digits_in_range(s, j + 2, e);
            }
        }
    }
}

/// The rest of a one-line string that starts at `start`, from index `i`,
/// with the characters `acc` read so far.
pub open spec fn spec_string_body(s: Seq<char>, start: int, i: int, acc: Seq<char>) -> Result<
    (SpecToken, int),
    SpecLexError,
>
    decreases s.len() - i,
    via spec_string_body_decreases
{
    if i < 0 || i >= s.len() {
        Err(lex_error(SpecLexErrorKind::UnterminatedString, s, start, i))
    } else {
        let c = s[i];
        if c == '"' {
            Ok(
                (
                    SpecToken {
                        kind: SpecTokenKind::String(acc),
                        span: span_of(s, start, i + 1),
                    },
                    i + 1,
                ),
            )
        } else if c == '\\' {
            match spec_escape(s, i) {
                Err(err) => Err(err),
                Ok((ch, j)) => spec_string_body(s, start, j, acc.push(ch)),
            }
        } else if c == '\n' || c == '\r' {
            Err(lex_error(SpecLexErrorKind::UnterminatedString, s, start, i))
        } else if is_ctrl(c) {
            Err(lex_error(SpecLexErrorKind::UnexpectedCharacter(c), s, i, i + 1))
        } else {
            spec_string_body(s, start, i + 1, acc.push(c))
        }
    }
}

#[via_fn]
proof fn spec_string_body_decreases(s: Seq<char>, start: int, i: int, acc: Seq<char>) {
    if 0 <= i < s.len() {
        lemma_escape_progress(s, i);
    }
}

/// The rest of a multi-line string that starts at `start`, from index `i`,
/// with the raw characters `raw` read so far.
pub open spec fn spec_multiline_body(s: Seq<char>, start: int, i: int, raw: Seq<char>) -> Result<
    (SpecToken, int),
    SpecLexError,
>
    decreases s.len() - i,
    via spec_multiline_body_decreases
{
    if at_triple_quote(s, i) {
        Ok(
            (
                SpecToken {
                    kind: SpecTokenKind::String(normalize_multiline(raw)),
                    span: span_of(s, start, i + 3),
                },
                i + 3,
            ),
        )
    } else if i < 0 || i >= s.len() {
        Err(lex_error(SpecLexErrorKind::UnterminatedMultilineString, s, start, i))
    } else if s[i] == '\\' {
        match spec_escape(s, i) {
            Err(err) => Err(err),
            Ok((ch, j)) => spec_multiline_body(s, start, j, raw.push(ch)),
        }
    } else {
        spec_multiline_body(s, start, i + 1, raw.push(s[i]))
    }
}

#[via_fn]
proof fn spec_multiline_body_decreases(s: Seq<char>, start: int, i: int, raw: Seq<char>) {
    if 0 <= i < s.len() {
        lemma_escape_progress(s, i);
    }
}

/// The token that starts at `k`, a non-whitespace character: the token and
/// the index after it.
pub open spec fn spec_token_at(s: Seq<char>, k: int) -> Result<(SpecToken, int), SpecLexError> {
    let c = s[k];
    if c == '(' {
        Ok((SpecToken { kind: SpecTokenKind::LParen, span: span_of(s, k, k + 1) }, k + 1))
    } else if c == ')' {
        Ok((SpecToken { kind: SpecTokenKind::RParen, span: span_of(s, k, k + 1) }, k + 1))
    } else if c == '{' {
        Ok((SpecToken { kind: SpecTokenKind::LBrace, span: span_of(s, k, k + 1) }, k + 1))
    } else if c == '}' {
        Ok((SpecToken { kind: SpecTokenKind::RBrace, span: span_of(s, k, k + 1) }, k + 1))
    } else if c == ':' {
        if k + 1 >= s.len() || !is_ident_start(s[k + 1]) {
            Err(lex_error(SpecLexErrorKind::UnexpectedColon, s, k, k + 1))
        } else {
            let j = ident_end(s, k + 2);
            Ok(
                (
                    SpecToken {
                        kind: SpecTokenKind::Keyword(s.subrange(k + 1, j)),
                        span: span_of(s, k, j),
                    },
                    j,
                ),
            )
        }
    } else if c == '"' && at_triple_quote(s, k) {
        spec_multiline_body(s, k, k + 3, Seq::empty())
    } else if c == '"' {
        spec_string_body(s, k, k + 1, Seq::empty())
    } else if is_ident_start(c) {
        let j = ident_end(s, k + 1);
        Ok((SpecToken { kind: SpecTokenKind::Symbol(s.subrange(k, j)), span: span_of(s, k, j) }, j))
    } else {
        Err(lex_error(SpecLexErrorKind::UnexpectedCharacter(c), s, k, k + 1))
    }
}

/// The next token at or after index `i`: `None` at the end of the input.
pub open spec fn spec_next_token(s: Seq<char>, i: int) -> Result<
    Option<(SpecToken, int)>,
    SpecLexError,
> {
    let k = skip_ws(s, i);
    if k < 0 || k >= s.len() {
        Ok(None)
    } else {
        match spec_token_at(s, k) {
            Ok((t, j)) => Ok(Some((t, j))),
            Err(e) => Err(e),
        }
    }
}

/// All tokens from index `i` on, or the first lexical error.
pub open spec fn spec_tokenize(s: Seq<char>, i: int) -> Result<Seq<SpecToken>, SpecLexError>
    decreases s.len() - i,
    via spec_tokenize_decreases
{
    match spec_next_token(s, i) {
        Err(e) => Err(e),
        Ok(None) => Ok(Seq::empty()),
        Ok(Some((t, j))) => match spec_tokenize(s, j) {
            Err(e) => Err(e),
            Ok(ts) => Ok(seq![t] + ts),
        },
    }
}

#[via_fn]
proof fn spec_tokenize_decreases(s: Seq<char>, i: int) {
    lemma_next_token_progress(s, i);
}

/// Tokens of a whole text.
pub open spec fn tokenize_text(s: Seq<char>) -> Result<Seq<SpecToken>, SpecLexError> {
    spec_tokenize(s, 0)
}

pub proof fn lemma_skip_ws(s: Seq<char>, i: int)
    requires
        0 <= i <= s.len(),
    ensures
        i <= skip_ws(s, i) <= s.len(),
        forall|j: int| i <= j < skip_ws(s, i) ==> is_ws(#[trigger] s[j]),
        skip_ws(s, i) < s.len() ==> !is_ws(s[skip_ws(s, i)]),
    decreases s.len() - i,
{
    if i < s.len() && is_ws(s[i]) {
        lemma_skip_ws(s, i + 1);
    }
}

pub proof fn lemma_ident_end(s: Seq<char>, i: int)
    requires
        0 <= i <= s.len(),
    ensures
        i <= ident_end(s, i) <= s.len(),
        forall|j: int| i <= j < ident_end(s, i) ==> is_ident_continue(#[trigger] s[j]),
        ident_end(s, i) < s.len() ==> !is_ident_continue(s[ident_end(s, i)]),
    decreases s.len() - i,
{
    if i < s.len() && is_ident_continue(s[i]) {
        lemma_ident_end(s, i + 1);
    }
}

pub proof fn lemma_string_body_progress(s: Seq<char>, start: int, i: int, acc: Seq<char>)
    requires
        0 <= i,
    ensures
        spec_string_body(s, start, i, acc) matches Ok((t, j)) ==> i < j <= s.len(),
    decreases s.len() - i,
{
    if 0 <= i < s.len() {
        if s[i] == '\\' {
            lemma_escape_progress(s, i);
            if let Ok((ch, j)) = spec_escape(s, i) {
                lemma_string_body_progress(s, start, j, acc.push(ch));
            }
        } else if s[i] != '"' && s[i] != '\n' && s[i] != '\r' && !is_ctrl(s[i]) {
            lemma_string_body_progress(s, start, i + 1, acc.push(s[i]));
        }
    }
}

pub proof fn lemma_multiline_body_progress(s: Seq<char>, start: int, i: int, raw: Seq<char>)
    requires
        0 <= i,
    ensures
        spec_multiline_body(s, start, i, raw) matches Ok((t, j)) ==> i < j <= s.len(),
    decreases s.len() - i,
{
    if !at_triple_quote(s, i) && 0 <= i < s.len() {
        if s[i] == '\\' {
            lemma_escape_progress(s, i);
            if let Ok((ch, j)) = spec_escape(s, i) {
                lemma_multiline_body_progress(s, start, j, raw.push(ch));
            }
        } else {
            lemma_multiline_body_progress(s, start, i + 1, raw.push(s[i]));
        }
    }
}

pub proof fn lemma_token_at_progress(s: Seq<char>, k: int)
    requires
        0 <= k < s.len(),
    ensures
        spec_token_at(s, k) matches Ok((t, j)) ==> k < j <= s.len(),
{
    if k + 2 <= s.len() {
        lemma_ident_end(s, k + 2);
    }
    lemma_ident_end(s, k + 1);
    lemma_string_body_progress(s, k, k + 1, Seq::empty());
    lemma_multiline_body_progress(s, k, k + 3, Seq::empty());
}

/// Each token consumes at least one character.
pub proof fn lemma_next_token_progress(s: Seq<char>, i: int)
    ensures
        spec_next_token(s, i) matches Ok(Some((t, j))) ==> i < j <= s.len(),
{
    if 0 <= i <= s.len() {
        lemma_skip_ws(s, i);
        let k = skip_ws(s, i);
        if k < s.len() {
            lemma_token_at_progress(s, k);
        }
    } else if i > s.len() {
    } else {
        assert(skip_ws(s, i) == i);
    }
}

// ---------------------------------------------------------------------------
// Multi-line strings.
//
// The raw text is split into lines (`str::lines`), lines made only of
// whitespace are dropped, a leading margin `|` (with the whitespace before it
// and one space after it) is removed from the others, and the result is
// joined with `\n`.
// ---------------------------------------------------------------------------

/// The index of the first `\n` at or after `i`, or the length of `s`.
pub open spec fn newline_from(s: Seq<char>, i: int) -> int
    decreases s.len() - i,
{
    if i < 0 || i >= s.len() {
        s.len() as int
    } else if s[i] == '\n' {
        i
    } else {
        newline_from(s, i + 1)
    }
}

pub open spec fn strip_cr(line: Seq<char>) -> Seq<char> {
    if line.len() > 0 && line.last() == '\r' {
        line.drop_last()
    } else {
        line
    }
}

/// The lines of `s[i..]`, as `str::lines` splits them.
pub open spec fn lines_from(s: Seq<char>, i: int) -> Seq<Seq<char>>
    decreases s.len() - i,
    via lines_from_decreases
{
    if i < 0 || i >= s.len() {
        Seq::empty()
    } else {
        let k = newline_from(s, i);
        if k >= s.len() {
            seq![s.subrange(i, s.len() as int)]
        } else {
            seq![strip_cr(s.subrange(i, k))] + lines_from(s, k + 1)
        }
    }
}

#[via_fn]
proof fn lines_from_decreases(s: Seq<char>, i: int) {
    if 0 <= i < s.len() {
        lemma_newline_from(s, i);
    }
}

pub proof fn lemma_newline_from(s: Seq<char>, i: int)
    requires
        0 <= i <= s.len(),
    ensures
        i <= newline_from(s, i) <= s.len(),
        forall|j: int| i <= j < newline_from(s, i) ==> #[trigger] s[j] != '\n',
        newline_from(s, i) < s.len() ==> s[newline_from(s, i)] == '\n',
    decreases s.len() - i,
{
    if i < s.len() && s[i] != '\n' {
        lemma_newline_from(s, i + 1);
    }
}

pub open spec fn is_blank(line: Seq<char>) -> bool {
    forall|j: int| 0 <= j < line.len() ==> is_ws(#[trigger] line[j])
}

/// A line without its margin: whitespace, then `|`, then one optional space.
pub open spec fn strip_margin(line: Seq<char>) -> Seq<char> {
    let k = skip_ws(line, 0);
    if k >= line.len() || line[k] != '|' {
        line
    } else {
        let rest = line.skip(k + 1);
        if rest.len() > 0 && rest[0] == ' ' {
            rest.skip(1)
        } else {
            rest
        }
    }
}

/// The non-blank lines, without their margins.
pub open spec fn kept_lines(ls: Seq<Seq<char>>) -> Seq<Seq<char>>
    decreases ls.len(),
{
    if ls.len() == 0 {
        Seq::empty()
    } else if is_blank(ls.last()) {
        kept_lines(ls.drop_last())
    } else {
        kept_lines(ls.drop_last()).push(strip_margin(ls.last()))
    }
}

/// Lines joined with `\n`.
pub open spec fn join_lines(ls: Seq<Seq<char>>) -> Seq<char>
    decreases ls.len(),
{
    if ls.len() == 0 {
        Seq::empty()
    } else if ls.len() == 1 {
        ls[0]
    } else {
        join_lines(ls.drop_last()) + seq!['\n'] + ls.last()
    }
}

pub open spec fn normalize_multiline(raw: Seq<char>) -> Seq<char> {
    join_lines(kept_lines(lines_from(raw, 0)))
}

// ---------------------------------------------------------------------------
// The executable lexer.
// ---------------------------------------------------------------------------

/// Position bookkeeping for the step from index `i` to `i + 1`.
proof fn lemma_step(s: Seq<char>, i: int)
    requires
        fits(s),
        0 <= i < s.len(),
    ensures
        position_at(s, i + 1) == advance(position_at(s, i), s[i]),
        position_at(s, i).offset + utf8_len(s[i]) <= usize::MAX,
        position_at(s, i).line + 1 <= usize::MAX,
        position_at(s, i).column + 1 <= usize::MAX,
{
    lemma_position_at(s, i);
}

pub proof fn lemma_char_eq(a: char, b: char)
    requires
        a as u32 == b as u32,
    ensures
        a == b,
{
}

/// Moves one character forward.
fn step(s: &Vec<char>, i: usize, p: Position) -> (r: (usize, Position))
    requires
        fits(s@),
        i < s@.len(),
        p == position_at(s@, i as int),
    ensures
        r.0 == i + 1,
        r.1 == position_at(s@, i + 1),
{
    proof {
        lemma_step(s@, i as int);
    }
    (i + 1, advance_position(p, s[i]))
}

fn exec_skip_ws(s: &Vec<char>, i: usize, p: Position) -> (r: (usize, Position))
    requires
        fits(s@),
        i <= s@.len(),
        p == position_at(s@, i as int),
    ensures
        r.0 == skip_ws(s@, i as int),
        r.1 == position_at(s@, r.0 as int),
{
    let mut k = i;
    let mut q = p;
    while k < s.len() && char_is_whitespace(s[k])
        invariant
            i <= k <= s@.len(),
            fits(s@),
            q == position_at(s@, k as int),
            skip_ws(s@, i as int) == skip_ws(s@, k as int),
        decreases s@.len() - k,
    {
        let (k2, q2) = step(s, k, q);
        k = k2;
        q = q2;
    }
    (k, q)
}

fn exec_ident_end(s: &Vec<char>, i: usize, p: Position) -> (r: (usize, Position))
    requires
        fits(s@),
        i <= s@.len(),
        p == position_at(s@, i as int),
    ensures
        r.0 == ident_end(s@, i as int),
        r.1 == position_at(s@, r.0 as int),
{
    let mut k = i;
    let mut q = p;
    while k < s.len() && (char_is_alnum(s[k]) || s[k] == '-' || s[k] == ':')
        invariant
            i <= k <= s@.len(),
            fits(s@),
            q == position_at(s@, k as int),
            ident_end(s@, i as int) == ident_end(s@, k as int),
        decreases s@.len() - k,
    {
        let (k2, q2) = step(s, k, q);
        k = k2;
        q = q2;
    }
    (k, q)
}

fn mk_error(kind: LexErrorKind, start: Position, end: Position) -> (r: LexError)
    ensures
        r@ == (SpecLexError { kind: kind@, span: Span { start, end } }),
{
    LexError { kind, span: Span { start, end } }
}

fn hex_digit(d: u32) -> (r: char)
    requires
        d < 16,
    ensures
        r == hex_digit_char(d),
{
    let v = if d < 10 {
        d + '0' as u32
    } else {
        d - 10 + 'A' as u32
    };
    let c = char_from_u32(v).unwrap();
    proof {
        assert((v as char) as u32 == v);
        lemma_char_eq(c, v as char);
    }
    c
}

fn push_u_escape(out: &mut String, v: u32)
    requires
        v < 65536,
    ensures
        final(out)@ == old(out)@ + u_escape_text(v),
{
    push_char(out, '\\');
    push_char(out, 'u');
    push_char(out, hex_digit(v / 4096 % 16));
    push_char(out, hex_digit(v / 256 % 16));
    push_char(out, hex_digit(v / 16 % 16));
    push_char(out, hex_digit(v % 16));
    assert(out@ =~= old(out)@ + u_escape_text(v));
}

/// Four hexadecimal digits starting at `start`, for the escape at `e`.
fn lex_hex_digits(s: &Vec<char>, start: usize, ps: Position, e: usize, pe: Position) -> (r: Result<
    (u32, usize, Position),
    LexError,
>)
    requires
        fits(s@),
        start <= s@.len(),
        ps == position_at(s@, start as int),
        pe == position_at(s@, e as int),
    ensures
        match spec_hex_digits(s@, start as int, e as int, 0, 0) {
            Ok((v, k)) => r matches Ok((v2, k2, p2)) && v2 == v && k2 == k && p2 == position_at(
                s@,
                k,
            ),
            Err(err) => r matches Err(x) && x@ == err,
        },
{
    let mut value: u32 = 0;
    let mut j: usize = 0;
    let mut p = ps;
    let mut text = String::new();
    push_char(&mut text, '\\');
    push_char(&mut text, 'u');
    while j < 4
        invariant
            0 <= j <= 4,
            fits(s@),
            start + j <= s@.len(),
            p == position_at(s@, start + j),
            pe == position_at(s@, e as int),
            value < pow16(j as int),
            spec_hex_digits(s@, start as int, e as int, 0, 0) == spec_hex_digits(
                s@,
                start as int,
                e as int,
                j as int,
                value,
            ),
            text@ == seq!['\\', 'u'] + s@.subrange(start as int, start + j),
        decreases 4 - j,
    {
        if start + j >= s.len() {
            return Err(mk_error(LexErrorKind::InvalidEscapeSequence(text), pe, p));
        }
        let ch = s[start + j];
        match char_hex_value(ch) {
            None => {
                push_char(&mut text, ch);
                assert(text@ =~= seq!['\\', 'u'] + s@.subrange(start as int, start + j + 1));
                return Err(mk_error(LexErrorKind::InvalidEscapeSequence(text), pe, p));
            },
            Some(d) => {
                proof {
                    assert(value * 16 + d < pow16(j + 1)) by (nonlinear_arith)
                        requires
                            value < pow16(j as int),
                            d < 16,
                            pow16(j + 1) == pow16(j as int) * 16,
                    ;
                }
                let (_, p2) = step(s, start + j, p);
                p = p2;
                push_char(&mut text, ch);
                value = value * 16 + d;
                j += 1;
                assert(text@ =~= seq!['\\', 'u'] + s@.subrange(start as int, start + j));
            },
        }
    }
    Ok((value, start + 4, p))
}

/// The escape sequence whose backslash is at `e`.
fn lex_escape(s: &Vec<char>, e: usize, pe: Position) -> (r: Result<(char, usize, Position), LexError>)
    requires
        fits(s@),
        e < s@.len(),
        pe == position_at(s@, e as int),
    ensures
        match spec_escape(s@, e as int) {
            Ok((c, k)) => r matches Ok((c2, k2, p2)) && c2 == c && k2 == k && p2 == position_at(
                s@,
                k,
            ),
            Err(err) => r matches Err(x) && x@ == err,
        },
{
    let (i, pi) = step(s, e, pe);
    if i >= s.len() {
        let mut text = String::new();
        push_char(&mut text, '\\');
        assert(text@ =~= seq!['\\']);
        return Err(mk_error(LexErrorKind::InvalidEscapeSequence(text), pe, pi));
    }
    let c = s[i];
    if c == 'u' {
        let (i2, p2) = step(s, i, pi);
        return lex_unicode_escape(s, i2, p2, e, pe);
    }
    let mapped = if c == '"' {
        Some('"')
    } else if c == '\\' {
        Some('\\')
    } else if c == '/' {
        Some('/')
    } else if c == 'b' {
        Some('\u{8}')
    } else if c == 'f' {
        Some('\u{c}')
    } else if c == 'n' {
        Some('\n')
    } else if c == 'r' {
        Some('\r')
    } else if c == 't' {
        Some('\t')
    } else {
        None
    };
    match mapped {
        Some(m) => {
            let (i2, p2) = step(s, i, pi);
            Ok((m, i2, p2))
        },
        None => {
            let mut text = String::new();
            push_char(&mut text, '\\');
            push_char(&mut text, c);
            assert(text@ =~= seq!['\\', c]);
            Err(mk_error(LexErrorKind::InvalidEscapeSequence(text), pe, pi))
        },
    }
}

fn lex_unicode_escape(s: &Vec<char>, i: usize, pi: Position, e: usize, pe: Position) -> (r: Result<
    (char, usize, Position),
    LexError,
>)
    requires
        fits(s@),
        i <= s@.len(),
        pi == position_at(s@, i as int),
        pe == position_at(s@, e as int),
    ensures
        match spec_unicode_escape(s@, i as int, e as int) {
            Ok((c, k)) => r matches Ok((c2, k2, p2)) && c2 == c && k2 == k && p2 == position_at(
                s@,
                k,
            ),
            Err(err) => r matches Err(x) && x@ == err,
        },
{
    proof {
        lemma_hex_digits_in_range(s@, i as int, e as int);
    }
    let (first, j, pj) = match lex_hex_digits(s, i, pi, e, pe) {
        Ok(t) => t,
        Err(err) => return Err(err),
    };
    if 0xD800 <= first && first <= 0xDBFF {
        if j >= s.len() || s[j] != '\\' {
            let mut text = String::new();
            push_u_escape(&mut text, first);
            assert(text@ =~= u_escape_text(first));
            return Err(mk_error(LexErrorKind::InvalidEscapeSequence(text), pe, pj));
        }
        let (j1, pj1) = step(s, j, pj);
        if j1 >= s.len() || s[j1] != 'u' {
            let mut text = String::new();
            push_u_escape(&mut text, first);
            assert(text@ =~= u_escape_text(first));
            return Err(mk_error(LexErrorKind::InvalidEscapeSequence(text), pe, pj1));
        }
        let (j2, pj2) = step(s, j1, pj1);
        proof {
            lemma_hex_digits_in_range(s@, j2 as int, e as int);
        }
        let (second, k, pk) = match lex_hex_digits(s, j2, pj2, e, pe) {
            Ok(t) => t,
            Err(err) => return Err(err),
        };
        if !(0xDC00 <= second && second <= 0xDFFF) {
            let mut text = String::new();
            push_u_escape(&mut text, first);
            push_u_escape(&mut text, second);
            assert(text@ =~= u_escape_text(first) + u_escape_text(second));
            return Err(mk_error(LexErrorKind::InvalidEscapeSequence(text), pe, pk));
        }
        let code = 0x10000 + (first - 0xD800) * 1024 + (second - 0xDC00);
        let c = char_from_u32(code).unwrap();
        proof {
            assert(code == surrogate_pair(first, second));
            assert((code as char) as u32 == code);
            assert(c as u32 == code);
            lemma_char_eq(c, code as char);
            assert(spec_unicode_escape(s@, i as int, e as int) == Ok::<(char, int), SpecLexError>((c, k as int)));
        }
        return Ok((c, k, pk));
    }
    if 0xDC00 <= first && first <= 0xDFFF {
        let mut text = String::new();
        push_u_escape(&mut text, first);
        assert(text@ =~= u_escape_text(first));
        return Err(mk_error(LexErrorKind::InvalidEscapeSequence(text), pe, pj));
    }
    let c = char_from_u32(first).unwrap();
    proof {
        assert((first as char) as u32 == first);
        assert(c as u32 == first);
        lemma_char_eq(c, first as char);
        assert(spec_unicode_escape(s@, i as int, e as int) == Ok::<(char, int), SpecLexError>((c, j as int)));
    }
    Ok((c, j, pj))
}

/// Appends `chars[a..b]` to `out`.
fn push_range(out: &mut String, chars: &Vec<char>, a: usize, b: usize)
    requires
        a <= b <= chars@.len(),
    ensures
        final(out)@ == old(out)@ + chars@.subrange(a as int, b as int),
{
    let mut i = a;
    while i < b
        invariant
            a <= i <= b <= chars@.len(),
            out@ == old(out)@ + chars@.subrange(a as int, i as int),
        decreases b - i,
    {
        push_char(out, chars[i]);
        i += 1;
        assert(out@ =~= old(out)@ + chars@.subrange(a as int, i as int));
    }
}

fn is_blank_range(chars: &Vec<char>, a: usize, b: usize) -> (r: bool)
    requires
        a <= b <= chars@.len(),
    ensures
        r == is_blank(chars@.subrange(a as int, b as int)),
{
    let ghost line = chars@.subrange(a as int, b as int);
    let mut i = a;
    while i < b
        invariant
            a <= i <= b <= chars@.len(),
            line == chars@.subrange(a as int, b as int),
            forall|j: int| 0 <= j < i - a ==> is_ws(#[trigger] line[j]),
        decreases b - i,
    {
        if !char_is_whitespace(chars[i]) {
            assert(line[i - a] == chars@[i as int]);
            return false;
        }
        i += 1;
    }
    true
}

/// Appends `strip_margin(chars[a..b])` to `out`.
fn push_stripped(out: &mut String, chars: &Vec<char>, a: usize, b: usize)
    requires
        a <= b <= chars@.len(),
    ensures
        final(out)@ == old(out)@ + strip_margin(chars@.subrange(a as int, b as int)),
{
    let ghost line = chars@.subrange(a as int, b as int);
    let mut k = a;
    while k < b && char_is_whitespace(chars[k])
        invariant
            a <= k <= b <= chars@.len(),
            line == chars@.subrange(a as int, b as int),
            skip_ws(line, 0) == skip_ws(line, k - a),
        decreases b - k,
    {
        assert(line[k - a] == chars@[k as int]);
        k += 1;
    }
    proof {
        if k < b {
            assert(line[k - a] == chars@[k as int]);
        }
    }
    if k >= b || chars[k] != '|' {
        push_range(out, chars, a, b);
    } else if k + 1 < b && chars[k + 1] == ' ' {
        assert(line.skip(k - a + 1).skip(1) =~= chars@.subrange(k + 2, b as int));
        push_range(out, chars, k + 2, b);
    } else {
        assert(line.skip(k - a + 1) =~= chars@.subrange(k + 1, b as int));
        push_range(out, chars, k + 1, b);
    }
}

fn exec_newline_from(chars: &Vec<char>, i: usize) -> (r: usize)
    requires
        i <= chars@.len(),
    ensures
        r == newline_from(chars@, i as int),
{
    let mut k = i;
    while k < chars.len() && chars[k] != '\n'
        invariant
            i <= k <= chars@.len(),
            newline_from(chars@, i as int) == newline_from(chars@, k as int),
        decreases chars@.len() - k,
    {
        k += 1;
    }
    k
}

/// The text of a multi-line string from its raw characters.
pub fn normalize_multiline_string(raw: &Vec<char>) -> (r: String)
    ensures
        r@ == normalize_multiline(raw@),
{
    let mut out = String::new();
    let mut kept: usize = 0;
    let mut pos: usize = 0;
    let ghost mut done: Seq<Seq<char>> = Seq::empty();
    assert(done + lines_from(raw@, 0) =~= lines_from(raw@, 0));
    while pos < raw.len()
        invariant
            pos <= raw@.len(),
            done + lines_from(raw@, pos as int) == lines_from(raw@, 0),
            out@ == join_lines(kept_lines(done)),
            kept == kept_lines(done).len(),
            kept <= done.len(),
            done.len() <= pos,
        decreases raw@.len() - pos,
    {
        proof {
            lemma_newline_from(raw@, pos as int);
        }
        let k = exec_newline_from(raw, pos);
        let end = if k < raw.len() && k > pos && raw[k - 1] == '\r' {
            k - 1
        } else {
            k
        };
        let ghost line = raw@.subrange(pos as int, end as int);
        proof {
            if k < raw@.len() {
                assert(line == strip_cr(raw@.subrange(pos as int, k as int)));
            } else {
                assert(line == raw@.subrange(pos as int, raw@.len() as int));
            }
            assert(done.push(line).drop_last() =~= done);
        }
        if !is_blank_range(raw, pos, end) {
            let ghost ks = kept_lines(done);
            if kept > 0 {
                push_char(&mut out, '\n');
            }
            push_stripped(&mut out, raw, pos, end);
            proof {
                assert(ks.push(strip_margin(line)).drop_last() =~= ks);
                if ks.len() == 0 {
                    assert(out@ =~= join_lines(ks.push(strip_margin(line))));
                }
            }
            kept += 1;
        }
        proof {
            if k >= raw@.len() {
                assert(lines_from(raw@, pos as int) =~= seq![line]);
                assert(lines_from(raw@, raw@.len() as int) =~= Seq::<Seq<char>>::empty());
            } else {
                assert(lines_from(raw@, pos as int) == seq![line] + lines_from(raw@, k + 1));
            }
            assert(done.push(line) + lines_from(raw@, if k >= raw@.len() {
                raw@.len() as int
            } else {
                k + 1
            }) =~= done + lines_from(raw@, pos as int));
            done = done.push(line);
        }
        pos = if k >= raw.len() {
            raw.len()
        } else {
            k + 1
        };
    }
    proof {
        assert(lines_from(raw@, pos as int) =~= Seq::<Seq<char>>::empty());
        assert(done =~= lines_from(raw@, 0));
    }
    out
}

fn token(kind: TokenKind, start: Position, end: Position) -> (r: Token)
    ensures
        r@ == (SpecToken { kind: kind@, span: Span { start, end } }),
{
    Token { kind, span: Span { start, end } }
}

/// A one-line string whose opening quote is at `start`.
fn lex_string(s: &Vec<char>, start: usize, ps: Position) -> (r: Result<(Token, usize, Position), LexError>)
    requires
        fits(s@),
        start < s@.len(),
        ps == position_at(s@, start as int),
    ensures
        match spec_string_body(s@, start as int, start + 1, Seq::empty()) {
            Ok((t, k)) => r matches Ok((t2, k2, p2)) && t2@ == t && k2 == k && p2 == position_at(
                s@,
                k,
            ),
            Err(err) => r matches Err(x) && x@ == err,
        },
{
    let (mut i, mut p) = step(s, start, ps);
    let mut value = String::new();
    loop
        invariant
            fits(s@),
            start < i <= s@.len(),
            p == position_at(s@, i as int),
            ps == position_at(s@, start as int),
            spec_string_body(s@, start as int, start + 1, Seq::empty()) == spec_string_body(
                s@,
                start as int,
                i as int,
                value@,
            ),
        decreases s@.len() - i,
    {
        if i >= s.len() {
            return Err(mk_error(LexErrorKind::UnterminatedString, ps, p));
        }
        let c = s[i];
        if c == '"' {
            let (i2, p2) = step(s, i, p);
            return Ok((token(TokenKind::String(value), ps, p2), i2, p2));
        } else if c == '\\' {
            proof {
                lemma_escape_progress(s@, i as int);
            }
            match lex_escape(s, i, p) {
                Err(err) => return Err(err),
                Ok((ch, j, pj)) => {
                    push_char(&mut value, ch);
                    i = j;
                    p = pj;
                },
            }
        } else if c == '\n' || c == '\r' {
            return Err(mk_error(LexErrorKind::UnterminatedString, ps, p));
        } else if char_is_control(c) {
            let (_, p2) = step(s, i, p);
            return Err(mk_error(LexErrorKind::UnexpectedCharacter(c), p, p2));
        } else {
            push_char(&mut value, c);
            let (i2, p2) = step(s, i, p);
            i = i2;
            p = p2;
        }
    }
}

/// A multi-line string whose opening triple quote is at `start`.
fn lex_multiline_string(s: &Vec<char>, start: usize, ps: Position) -> (r: Result<
    (Token, usize, Position),
    LexError,
>)
    requires
        fits(s@),
        at_triple_quote(s@, start as int),
        ps == position_at(s@, start as int),
    ensures
        match spec_multiline_body(s@, start as int, start + 3, Seq::empty()) {
            Ok((t, k)) => r matches Ok((t2, k2, p2)) && t2@ == t && k2 == k && p2 == position_at(
                s@,
                k,
            ),
            Err(err) => r matches Err(x) && x@ == err,
        },
{
    let (i1, p1) = step(s, start, ps);
    let (i2, p2) = step(s, i1, p1);
    let (mut i, mut p) = step(s, i2, p2);
    let mut raw: Vec<char> = Vec::new();
    loop
        invariant
            fits(s@),
            start + 3 <= i <= s@.len(),
            p == position_at(s@, i as int),
            ps == position_at(s@, start as int),
            spec_multiline_body(s@, start as int, start + 3, Seq::empty()) == spec_multiline_body(
                s@,
                start as int,
                i as int,
                raw@,
            ),
        decreases s@.len() - i,
    {
        if i + 3 <= s.len() && s[i] == '"' && s[i + 1] == '"' && s[i + 2] == '"' {
            let (j1, q1) = step(s, i, p);
            let (j2, q2) = step(s, j1, q1);
            let (j3, q3) = step(s, j2, q2);
            let text = normalize_multiline_string(&raw);
            return Ok((token(TokenKind::String(text), ps, q3), j3, q3));
        }
        if i >= s.len() {
            return Err(mk_error(LexErrorKind::UnterminatedMultilineString, ps, p));
        }
        let c = s[i];
        if c == '\\' {
            proof {
                lemma_escape_progress(s@, i as int);
            }
            match lex_escape(s, i, p) {
                Err(err) => return Err(err),
                Ok((ch, j, pj)) => {
                    raw.push(ch);
                    i = j;
                    p = pj;
                },
            }
        } else {
            raw.push(c);
            let (j, q) = step(s, i, p);
            i = j;
            p = q;
        }
    }
}

/// The token that starts at `k`.
fn lex_token_at(s: &Vec<char>, k: usize, pk: Position) -> (r: Result<(Token, usize, Position), LexError>)
    requires
        fits(s@),
        k < s@.len(),
        pk == position_at(s@, k as int),
    ensures
        match spec_token_at(s@, k as int) {
            Ok((t, j)) => r matches Ok((t2, j2, p2)) && t2@ == t && j2 == j && p2 == position_at(
                s@,
                j,
            ),
            Err(err) => r matches Err(x) && x@ == err,
        },
{
    let c = s[k];
    let (k1, p1) = step(s, k, pk);
    if c == '(' {
        Ok((token(TokenKind::LParen, pk, p1), k1, p1))
    } else if c == ')' {
        Ok((token(TokenKind::RParen, pk, p1), k1, p1))
    } else if c == '{' {
        Ok((token(TokenKind::LBrace, pk, p1), k1, p1))
    } else if c == '}' {
        Ok((token(TokenKind::RBrace, pk, p1), k1, p1))
    } else if c == ':' {
        if k1 >= s.len() || !char_is_alpha(s[k1]) {
            return Err(mk_error(LexErrorKind::UnexpectedColon, pk, p1));
        }
        let (k2, p2) = step(s, k1, p1);
        let (j, pj) = exec_ident_end(s, k2, p2);
        proof {
            lemma_ident_end(s@, k2 as int);
        }
        let text = string_of(s, k1, j);
        Ok((token(TokenKind::Keyword(text), pk, pj), j, pj))
    } else if c == '"' && k + 3 <= s.len() && s[k + 1] == '"' && s[k + 2] == '"' {
        lex_multiline_string(s, k, pk)
    } else if c == '"' {
        lex_string(s, k, pk)
    } else if char_is_alpha(c) {
        let (j, pj) = exec_ident_end(s, k1, p1);
        proof {
            lemma_ident_end(s@, k1 as int);
        }
        let text = string_of(s, k, j);
        Ok((token(TokenKind::Symbol(text), pk, pj), j, pj))
    } else {
        Err(mk_error(LexErrorKind::UnexpectedCharacter(c), pk, p1))
    }
}

/// An iterator-like tokenizer over Lightdown IR source text.
///
/// The lexer skips insignificant whitespace, yields one token at a time, and
/// stops permanently after the first lexical error.
pub struct Lexer {
    chars: Vec<char>,
    index: usize,
    position: Position,
    finished: bool,
}

impl Lexer {
    /// The characters being tokenized.
    pub closed spec fn text(&self) -> Seq<char> {
        self.chars@
    }

    /// The index of the next character to read.
    pub closed spec fn cursor(&self) -> int {
        self.index as int
    }

    /// Whether the lexer has stopped, at the end of the input or after an
    /// error.
    pub closed spec fn is_finished(&self) -> bool {
        self.finished
    }

    pub closed spec fn wf(&self) -> bool {
        &&& fits(self.chars@)
        &&& self.index <= self.chars@.len()
        &&& self.position == position_at(self.chars@, self.index as int)
    }

    /// What the lexer still yields: its tokens up to the end, or the first
    /// error.
    pub open spec fn remaining(&self) -> Result<Seq<SpecToken>, SpecLexError> {
        if self.is_finished() {
            Ok(Seq::empty())
        } else {
            spec_tokenize(self.text(), self.cursor())
        }
    }

    pub fn new(input: &str) -> (r: Lexer)
        requires
            fits(input@),
        ensures
            r.wf(),
            r.text() == input@,
            r.cursor() == 0,
            !r.is_finished(),
    {
        let chars = crate::text::chars_of(input);
        proof {
            assert(chars@.take(0) =~= Seq::<char>::empty());
        }
        Lexer { chars, index: 0, position: position_start(), finished: false }
    }

    /// The next token, the first error, or `None` once the input is over;
    /// after an error the lexer yields nothing more.
    pub fn next(&mut self) -> (r: Option<Result<Token, LexError>>)
        requires
            old(self).wf(),
        ensures
            final(self).wf(),
            final(self).text() == old(self).text(),
            old(self).is_finished() ==> r is None && final(self).is_finished(),
            !old(self).is_finished() ==> match spec_next_token(
                old(self).text(),
                old(self).cursor(),
            ) {
                Ok(None) => r is None && final(self).is_finished(),
                Ok(Some((t, j))) => r matches Some(Ok(tok)) && tok@ == t && final(self).cursor()
                    == j && !final(self).is_finished(),
                Err(e) => r matches Some(Err(err)) && err@ == e && final(self).is_finished(),
            },
    {
        if self.finished {
            return None;
        }
        proof {
            lemma_skip_ws(self.chars@, self.index as int);
        }
        let (k, pk) = exec_skip_ws(&self.chars, self.index, self.position);
        if k >= self.chars.len() {
            self.finished = true;
            return None;
        }
        proof {
            lemma_token_at_progress(self.chars@, k as int);
        }
        match lex_token_at(&self.chars, k, pk) {
            Ok((t, j, pj)) => {
                self.index = j;
                self.position = pj;
                Some(Ok(t))
            },
            Err(e) => {
                self.finished = true;
                Some(Err(e))
            },
        }
    }

    /// All remaining tokens, or the first error.
    pub fn collect_tokens(&mut self) -> (r: Result<Vec<Token>, LexError>)
        requires
            old(self).wf(),
        ensures
            final(self).wf(),
            final(self).is_finished(),
            match old(self).remaining() {
                Ok(ts) => r matches Ok(v) && v@.map_values(|t: Token| t@) == ts,
                Err(e) => r matches Err(err) && err@ == e,
            },
    {
        let mut out: Vec<Token> = Vec::new();
        loop
            invariant
                self.wf(),
                self.text() == old(self).text(),
                match old(self).remaining() {
                    Ok(ts) => match self.remaining() {
                        Ok(rest) => out@.map_values(|t: Token| t@) + rest == ts,
                        Err(_) => false,
                    },
                    Err(e) => self.remaining() == Err::<Seq<SpecToken>, SpecLexError>(e),
                },
            decreases self.text().len() - self.cursor(), if self.is_finished() { 0int } else { 1int },
        {
            let ghost before = self.remaining();
            let ghost was_finished = self.is_finished();
            let ghost at = self.cursor();
            proof {
                lemma_next_token_progress(self.text(), self.cursor());
            }
            match self.next() {
                None => {
                    proof {
                        if !was_finished {
                            assert(before == Ok::<Seq<SpecToken>, SpecLexError>(Seq::empty()));
                        }
                    }
                    return Ok(out);
                },
                Some(Err(e)) => {
                    return Err(e);
                },
                Some(Ok(t)) => {
                    let ghost prev = out@;
                    out.push(t);
                    proof {
                        assert(out@.map_values(|t: Token| t@) =~= prev.map_values(|t: Token| t@).push(t@));
                        match before {
                            Ok(b) => {
                                assert(self.remaining() matches Ok(rest) && b == seq![t@] + rest);
                            },
                            Err(_) => {},
                        }
                    }
                },
            }
        }
    }
}


/// Whether `kind` is the token that the characters `s[k..j]` spell.
pub open spec fn spells(s: Seq<char>, k: int, j: int, kind: SpecTokenKind) -> bool {
    match kind {
        SpecTokenKind::LParen => j == k + 1 && s[k] == '(',
        SpecTokenKind::RParen => j == k + 1 && s[k] == ')',
        SpecTokenKind::LBrace => j == k + 1 && s[k] == '{',
        SpecTokenKind::RBrace => j == k + 1 && s[k] == '}',
        SpecTokenKind::Symbol(x) => x == s.subrange(k, j),
        SpecTokenKind::Keyword(x) => s[k] == ':' && x == s.subrange(k + 1, j),
        SpecTokenKind::String(_) => k + 2 <= j && s[k] == '"' && s[j - 1] == '"',
    }
}

/// Whether the tokens `ts` tile `s` from `i` on: each token spans the
/// characters that spell it, in order, with only whitespace before each
/// token and after the last.
pub open spec fn tokens_tile(s: Seq<char>, i: int, ts: Seq<SpecToken>) -> bool
    decreases ts.len(),
{
    let k = skip_ws(s, i);
    if ts.len() == 0 {
        k >= s.len()
    } else {
        exists|j: int|
            k < j <= s.len() && #[trigger] span_of(s, k, j) == ts[0].span && spells(s, k, j, ts[0].kind)
                && tokens_tile(s, j, ts.drop_first())
    }
}

proof fn lemma_string_body_ends(s: Seq<char>, start: int, i: int, acc: Seq<char>)
    requires
        0 <= i,
    ensures
        spec_string_body(s, start, i, acc) matches Ok((t, j)) ==> t.span == span_of(s, start, j)
            && t.kind is String && i < j && s[j - 1] == '"',
    decreases s.len() - i,
{
    if 0 <= i < s.len() {
        if s[i] == '\\' {
            lemma_escape_progress(s, i);
            if let Ok((ch, j)) = spec_escape(s, i) {
                lemma_string_body_ends(s, start, j, acc.push(ch));
            }
        } else if s[i] != '"' && s[i] != '\n' && s[i] != '\r' && !is_ctrl(s[i]) {
            lemma_string_body_ends(s, start, i + 1, acc.push(s[i]));
        }
    }
}

proof fn lemma_multiline_body_ends(s: Seq<char>, start: int, i: int, raw: Seq<char>)
    requires
        0 <= i,
    ensures
        spec_multiline_body(s, start, i, raw) matches Ok((t, j)) ==> t.span == span_of(s, start, j)
            && t.kind is String && i < j && s[j - 1] == '"',
    decreases s.len() - i,
{
    if !at_triple_quote(s, i) && 0 <= i < s.len() {
        if s[i] == '\\' {
            lemma_escape_progress(s, i);
            if let Ok((ch, j)) = spec_escape(s, i) {
                lemma_multiline_body_ends(s, start, j, raw.push(ch));
            }
        } else {
            lemma_multiline_body_ends(s, start, i + 1, raw.push(s[i]));
        }
    }
}

proof fn lemma_token_at_spells(s: Seq<char>, k: int)
    requires
        0 <= k < s.len(),
    ensures
        spec_token_at(s, k) matches Ok((t, j)) ==> k < j <= s.len() && t.span == span_of(s, k, j)
            && spells(s, k, j, t.kind),
{
    lemma_token_at_progress(s, k);
    lemma_string_body_ends(s, k, k + 1, Seq::empty());
    lemma_multiline_body_ends(s, k, k + 3, Seq::empty());
}

proof fn lemma_tokenize_tiles(s: Seq<char>, i: int)
    requires
        0 <= i <= s.len(),
    ensures
        spec_tokenize(s, i) matches Ok(ts) ==> tokens_tile(s, i, ts),
    decreases s.len() - i,
{
    lemma_skip_ws(s, i);
    let k = skip_ws(s, i);
    if k < s.len() {
        lemma_token_at_spells(s, k);
        if let Ok((t, j)) = spec_token_at(s, k) {
            lemma_tokenize_tiles(s, j);
            if let Ok(rest) = spec_tokenize(s, j) {
                let ts = seq![t] + rest;
                assert(ts[0] == t);
                assert(ts.drop_first() =~= rest);
                assert(span_of(s, k, j) == ts[0].span);
            }
        }
    }
}

/// The tokens of a text tile it: each token's span runs over exactly the
/// characters that spell it, tokens come in order without overlapping, and
/// only whitespace lies before, between and after them.
pub proof fn law_tokens_tile_the_text(s: Seq<char>)
    ensures
        tokenize_text(s) matches Ok(ts) ==> tokens_tile(s, 0, ts),
{
    lemma_tokenize_tiles(s, 0);
}

/// String escapes follow JSON: after a backslash, `"`, `\`, `/`, `b`, `f`,
/// `n`, `r` and `t` stand for a quote, a backslash, a slash, a backspace, a
/// form feed, a newline, a carriage return and a tab, and the escape
/// covers those two characters; any other character but `u` makes the
/// escape invalid.
pub proof fn law_string_escapes(s: Seq<char>, e: int)
    requires
        0 <= e,
        e + 1 < s.len(),
        s[e + 1] != 'u',
    ensures
        ({
            let x = s[e + 1];
            let meant = if x == '"' {
                Some('"')
            } else if x == '\\' {
                Some('\\')
            } else if x == '/' {
                Some('/')
            } else if x == 'b' {
                Some('\u{8}')
            } else if x == 'f' {
                Some('\u{c}')
            } else if x == 'n' {
                Some('\n')
            } else if x == 'r' {
                Some('\r')
            } else if x == 't' {
                Some('\t')
            } else {
                None::<char>
            };
            match meant {
                Some(c) => spec_escape(s, e) == Ok::<(char, int), SpecLexError>((c, e + 2)),
                None => spec_escape(s, e) is Err,
            }
        }),
{
}

/// The index at which the line holding index `i` of `s` starts.
pub open spec fn line_start(s: Seq<char>, i: int) -> int
    decreases i,
{
    if i <= 0 {
        0
    } else if s[i - 1] == '\n' {
        i
    } else {
        line_start(s, i - 1)
    }
}

/// Positions count from the start of the text: the offset is the UTF-8 size
/// of what comes before, the line is one more than the newlines before it,
/// and the column is one more than the characters since the last newline.
pub proof fn law_positions_count_lines_and_columns(s: Seq<char>, i: int)
    requires
        fits(s),
        0 <= i <= s.len(),
    ensures
        position_at(s, i).offset == utf8_size(s.take(i)),
        position_at(s, i).line == 1 + count_newlines(s.take(i)),
        position_at(s, i).column == 1 + i - line_start(s, i),
        0 <= line_start(s, i) <= i,
    decreases i,
{
    lemma_position_at(s, i);
    if i > 0 {
        law_positions_count_lines_and_columns(s, i - 1);
        lemma_position_at(s, i - 1);
        assert(s.take(i).drop_last() =~= s.take(i - 1));
        assert(s.take(i).last() == s[i - 1]);
    } else {
        assert(s.take(0) =~= Seq::<char>::empty());
    }
}
} // verus!
