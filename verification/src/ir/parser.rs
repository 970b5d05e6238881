//! Recursive-descent parser from tokens to the IR syntax tree.
//!
//! The grammar is given by spec functions over the token models and a cursor
//! (an index into the tokens); each returns the parsed value and the cursor
//! after it, or the first error.  The executable parser follows them.
use vstd::prelude::*;

use crate::ir::ast::{
    Expr, ExprKind, Module, ModuleMetadata, Node, SpecExpr, SpecExprKind, SpecModule, expr_view,
    exprs_view, lemma_exprs_view, lemma_exprs_view_push, lemma_strings_view_push, strings_view,
};
use crate::ir::lexer::{
    LexError, LexErrorKind, Lexer, Position, Span, SpecLexError, SpecLexErrorKind, SpecToken,
    SpecTokenKind, Token, TokenKind, tokenize_text,
};
use crate::text::{fits, is_text, str_eq};

verus! {

#[derive(Clone, Debug, PartialEq, Eq)]
pub enum ParseErrorKind {
    Lex(LexErrorKind),
    UnexpectedEof { expected: &'static str },
    UnexpectedToken { expected: &'static str, found: &'static str },
    ExtraInput,
    UnknownNode { node: String },
    InvalidChild { parent: String, child: String },
    MissingChild { parent: String, expected: &'static str },
    DuplicateAttribute { attribute: String },
    UnknownAttribute { node: String, attribute: String },
    MissingAttribute { node: String, attribute: String },
    InvalidAttributeType { node: String, attribute: String, expected: &'static str },
}

pub enum SpecParseErrorKind {
    Lex(SpecLexErrorKind),
    UnexpectedEof { expected: &'static str },
    UnexpectedToken { expected: &'static str, found: &'static str },
    ExtraInput,
    UnknownNode { node: Seq<char> },
    InvalidChild { parent: Seq<char>, child: Seq<char> },
    MissingChild { parent: Seq<char>, expected: &'static str },
    DuplicateAttribute { attribute: Seq<char> },
    UnknownAttribute { node: Seq<char>, attribute: Seq<char> },
    MissingAttribute { node: Seq<char>, attribute: Seq<char> },
    InvalidAttributeType { node: Seq<char>, attribute: Seq<char>, expected: &'static str },
}

impl View for ParseErrorKind {
    type V = SpecParseErrorKind;

    open spec fn view(&self) -> SpecParseErrorKind {
        match self {
            ParseErrorKind::Lex(k) => SpecParseErrorKind::Lex(k@),
            ParseErrorKind::UnexpectedEof { expected } => SpecParseErrorKind::UnexpectedEof {
                expected: *expected,
            },
            ParseErrorKind::UnexpectedToken { expected, found } =>
                SpecParseErrorKind::UnexpectedToken { expected: *expected, found: *found },
            ParseErrorKind::ExtraInput => SpecParseErrorKind::ExtraInput,
            ParseErrorKind::UnknownNode { node } => SpecParseErrorKind::UnknownNode {
                node: node@,
            },
            ParseErrorKind::InvalidChild { parent, child } => SpecParseErrorKind::InvalidChild {
                parent: parent@,
                child: child@,
            },
            ParseErrorKind::MissingChild { parent, expected } => SpecParseErrorKind::MissingChild {
                parent: parent@,
                expected: *expected,
            },
            ParseErrorKind::DuplicateAttribute { attribute } =>
                SpecParseErrorKind::DuplicateAttribute { attribute: attribute@ },
            ParseErrorKind::UnknownAttribute { node, attribute } =>
                SpecParseErrorKind::UnknownAttribute { node: node@, attribute: attribute@ },
            ParseErrorKind::MissingAttribute { node, attribute } =>
                SpecParseErrorKind::MissingAttribute { node: node@, attribute: attribute@ },
            ParseErrorKind::InvalidAttributeType { node, attribute, expected } =>
                SpecParseErrorKind::InvalidAttributeType {
                node: node@,
                attribute: attribute@,
                expected: *expected,
            },
        }
    }
}

impl ParseErrorKind {
    /// A copy of this error kind.
    pub fn duplicate(&self) -> (r: Self)
        ensures
            r@ == self@,
    {
        match self {
            ParseErrorKind::Lex(k) => ParseErrorKind::Lex(k.duplicate()),
            ParseErrorKind::UnexpectedEof { expected } => ParseErrorKind::UnexpectedEof {
                expected: *expected,
            },
            ParseErrorKind::UnexpectedToken { expected, found } =>
                ParseErrorKind::UnexpectedToken { expected: *expected, found: *found },
            ParseErrorKind::ExtraInput => ParseErrorKind::ExtraInput,
            ParseErrorKind::UnknownNode { node } => ParseErrorKind::UnknownNode {
                node: node.clone(),
            },
            ParseErrorKind::InvalidChild { parent, child } => ParseErrorKind::InvalidChild {
                parent: parent.clone(),
                child: child.clone(),
            },
            ParseErrorKind::MissingChild { parent, expected } => ParseErrorKind::MissingChild {
                parent: parent.clone(),
                expected: *expected,
            },
            ParseErrorKind::DuplicateAttribute { attribute } =>
                ParseErrorKind::DuplicateAttribute { attribute: attribute.clone() },
            ParseErrorKind::UnknownAttribute { node, attribute } =>
                ParseErrorKind::UnknownAttribute { node: node.clone(), attribute: attribute.clone() },
            ParseErrorKind::MissingAttribute { node, attribute } =>
                ParseErrorKind::MissingAttribute { node: node.clone(), attribute: attribute.clone() },
            ParseErrorKind::InvalidAttributeType { node, attribute, expected } =>
                ParseErrorKind::InvalidAttributeType {
                node: node.clone(),
                attribute: attribute.clone(),
                expected: *expected,
            },
        }
    }
}

#[derive(Clone, Debug, PartialEq, Eq)]
pub struct ParseError {
    pub kind: ParseErrorKind,
    pub span: Option<Span>,
}

pub struct SpecParseError {
    pub kind: SpecParseErrorKind,
    pub span: Option<Span>,
}

impl View for ParseError {
    type V = SpecParseError;

    open spec fn view(&self) -> SpecParseError {
        SpecParseError { kind: self.kind@, span: self.span }
    }
}

impl ParseError {
    fn new(kind: ParseErrorKind, span: Option<Span>) -> (r: Self)
        ensures
            r@ == (SpecParseError { kind: kind@, span }),
    {
        ParseError { kind, span }
    }

    /// The parse error that reports a lexical error.
    pub fn from_lex(error: LexError) -> (r: Self)
        ensures
            r@ == from_lex_error(error@),
    {
        ParseError { kind: ParseErrorKind::Lex(error.kind), span: Some(error.span) }
    }

    /// A copy of this error.
    pub fn duplicate(&self) -> (r: Self)
        ensures
            r@ == self@,
    {
        ParseError { kind: self.kind.duplicate(), span: self.span }
    }
}

pub open spec fn from_lex_error(e: SpecLexError) -> SpecParseError {
    SpecParseError { kind: SpecParseErrorKind::Lex(e.kind), span: Some(e.span) }
}

pub open spec fn perr(kind: SpecParseErrorKind, span: Option<Span>) -> SpecParseError {
    SpecParseError { kind, span }
}

// ---------------------------------------------------------------------------
// Attribute maps.
// ---------------------------------------------------------------------------

struct MapEntry {
    value: MapValue,
    span: Span,
}

enum MapValue {
    String(String),
    Nested(Vec<(String, MapEntry)>),
}

pub struct SpecMapEntry {
    pub value: SpecMapValue,
    pub span: Span,
}

pub enum SpecMapValue {
    String(Seq<char>),
    Nested(Seq<(Seq<char>, SpecMapEntry)>),
}

pub type SpecAttributeMap = Seq<(Seq<char>, SpecMapEntry)>;

spec fn entry_view(e: MapEntry) -> SpecMapEntry
    decreases e,
{
    SpecMapEntry {
        value: match e.value {
            MapValue::String(s) => SpecMapValue::String(s@),
            MapValue::Nested(m) => SpecMapValue::Nested(map_view(m@)),
        },
        span: e.span,
    }
}

spec fn map_view(m: Seq<(String, MapEntry)>) -> SpecAttributeMap
    decreases m,
{
    if m.len() == 0 {
        Seq::empty()
    } else {
        map_view(m.drop_last()).push((m.last().0@, entry_view(m.last().1)))
    }
}

proof fn lemma_map_view(m: Seq<(String, MapEntry)>)
    ensures
        map_view(m).len() == m.len(),
        forall|i: int|
            0 <= i < m.len() ==> #[trigger] map_view(m)[i] == (m[i].0@, entry_view(m[i].1)),
    decreases m.len(),
{
    if m.len() > 0 {
        lemma_map_view(m.drop_last());
    }
}

/// The index of `key` in the map, or the map's length.
pub open spec fn map_index(m: SpecAttributeMap, key: Seq<char>) -> int
    decreases m.len(),
{
    if m.len() == 0 {
        0
    } else if map_index(m.drop_last(), key) < m.len() - 1 {
        map_index(m.drop_last(), key)
    } else if m.last().0 == key {
        m.len() - 1
    } else {
        m.len() as int
    }
}

pub open spec fn map_has(m: SpecAttributeMap, key: Seq<char>) -> bool {
    map_index(m, key) < m.len()
}

pub proof fn lemma_map_index(m: SpecAttributeMap, key: Seq<char>)
    ensures
        0 <= map_index(m, key) <= m.len(),
        map_index(m, key) < m.len() ==> m[map_index(m, key)].0 == key,
        forall|i: int| 0 <= i < map_index(m, key) ==> #[trigger] m[i].0 != key,
    decreases m.len(),
{
    if m.len() > 0 {
        lemma_map_index(m.drop_last(), key);
        assert forall|i: int| 0 <= i < map_index(m, key) implies #[trigger] m[i].0 != key by {
            if i < m.len() - 1 {
                assert(m.drop_last()[i] == m[i]);
            }
        }
    }
}

pub open spec fn allowed_has(allowed: Seq<&'static str>, key: Seq<char>) -> bool {
    exists|i: int| 0 <= i < allowed.len() && (#[trigger] allowed[i])@ == key
}

/// Removes the entry `key` and returns its text, as a string attribute.
pub open spec fn take_string(m: SpecAttributeMap, node: Seq<char>, attribute: Seq<char>) -> Result<
    (Seq<char>, Span, SpecAttributeMap),
    SpecParseError,
> {
    let i = map_index(m, attribute);
    if i >= m.len() {
        Err(perr(SpecParseErrorKind::MissingAttribute { node, attribute }, None))
    } else {
        match m[i].1.value {
            SpecMapValue::String(v) => Ok((v, m[i].1.span, m.remove(i))),
            SpecMapValue::Nested(_) => Err(
                perr(
                    SpecParseErrorKind::InvalidAttributeType { node, attribute, expected: "string" },
                    Some(m[i].1.span),
                ),
            ),
        }
    }
}

pub open spec fn take_optional_string(
    m: SpecAttributeMap,
    node: Seq<char>,
    attribute: Seq<char>,
) -> Result<(Option<Seq<char>>, SpecAttributeMap), SpecParseError> {
    if map_has(m, attribute) {
        match take_string(m, node, attribute) {
            Ok((v, _, rest)) => Ok((Some(v), rest)),
            Err(e) => Err(e),
        }
    } else {
        Ok((None, m))
    }
}

/// Any entry left over is an unknown attribute.
pub open spec fn reject_remaining(node: Seq<char>, m: SpecAttributeMap) -> Result<
    (),
    SpecParseError,
> {
    if m.len() > 0 {
        Err(
            perr(
                SpecParseErrorKind::UnknownAttribute { node, attribute: m[0].0 },
                Some(m[0].1.span),
            ),
        )
    } else {
        Ok(())
    }
}

// ---------------------------------------------------------------------------
// Token helpers.
// ---------------------------------------------------------------------------

#[derive(Clone, Copy)]
pub enum TokenShape {
    LParen,
    RParen,
    LBrace,
    RBrace,
}

pub open spec fn shape_matches(shape: TokenShape, kind: SpecTokenKind) -> bool {
    match (shape, kind) {
        (TokenShape::LParen, SpecTokenKind::LParen) => true,
        (TokenShape::RParen, SpecTokenKind::RParen) => true,
        (TokenShape::LBrace, SpecTokenKind::LBrace) => true,
        (TokenShape::RBrace, SpecTokenKind::RBrace) => true,
        _ => false,
    }
}

pub open spec fn shape_description(shape: TokenShape) -> &'static str {
    match shape {
        TokenShape::LParen => "(",
        TokenShape::RParen => ")",
        TokenShape::LBrace => "{",
        TokenShape::RBrace => "}",
    }
}

pub open spec fn token_description(kind: SpecTokenKind) -> &'static str {
    match kind {
        SpecTokenKind::LParen => "(",
        SpecTokenKind::RParen => ")",
        SpecTokenKind::LBrace => "{",
        SpecTokenKind::RBrace => "}",
        SpecTokenKind::String(_) => "string",
        SpecTokenKind::Symbol(_) => "symbol",
        SpecTokenKind::Keyword(_) => "keyword",
    }
}

pub open spec fn tokens_view(ts: Seq<Token>) -> Seq<SpecToken> {
    ts.map_values(|t: Token| t@)
}

pub proof fn lemma_tokens_view(ts: Seq<Token>)
    ensures
        tokens_view(ts).len() == ts.len(),
        forall|i: int| 0 <= i < ts.len() ==> #[trigger] tokens_view(ts)[i] == ts[i]@,
{
}

pub open spec fn at_shape(ts: Seq<SpecToken>, c: int, shape: TokenShape) -> bool {
    0 <= c < ts.len() && shape_matches(shape, ts[c].kind)
}

pub open spec fn peek_span(ts: Seq<SpecToken>, c: int) -> Option<Span> {
    if 0 <= c < ts.len() {
        Some(ts[c].span)
    } else {
        None
    }
}

/// The token at `c`, which must have the given shape.
pub open spec fn p_expect(ts: Seq<SpecToken>, c: int, shape: TokenShape) -> Result<
    Span,
    SpecParseError,
> {
    if c < 0 || c >= ts.len() {
        Err(perr(SpecParseErrorKind::UnexpectedEof { expected: shape_description(shape) }, None))
    } else if shape_matches(shape, ts[c].kind) {
        Ok(ts[c].span)
    } else {
        Err(
            perr(
                SpecParseErrorKind::UnexpectedToken {
                    expected: shape_description(shape),
                    found: token_description(ts[c].kind),
                },
                Some(ts[c].span),
            ),
        )
    }
}

/// The symbol at `c`.
pub open spec fn p_symbol(ts: Seq<SpecToken>, c: int) -> Result<(Seq<char>, Span), SpecParseError> {
    if c < 0 || c >= ts.len() {
        Err(perr(SpecParseErrorKind::UnexpectedEof { expected: "symbol" }, None))
    } else {
        match ts[c].kind {
            SpecTokenKind::Symbol(v) => Ok((v, ts[c].span)),
            k => Err(
                perr(
                    SpecParseErrorKind::UnexpectedToken {
                        expected: "symbol",
                        found: token_description(k),
                    },
                    Some(ts[c].span),
                ),
            ),
        }
    }
}

/// The keyword at `c`.
pub open spec fn p_keyword(ts: Seq<SpecToken>, c: int) -> Result<(Seq<char>, Span), SpecParseError> {
    if c < 0 || c >= ts.len() {
        Err(perr(SpecParseErrorKind::UnexpectedEof { expected: "keyword" }, None))
    } else {
        match ts[c].kind {
            SpecTokenKind::Keyword(v) => Ok((v, ts[c].span)),
            k => Err(
                perr(
                    SpecParseErrorKind::UnexpectedToken {
                        expected: "keyword",
                        found: token_description(k),
                    },
                    Some(ts[c].span),
                ),
            ),
        }
    }
}

/// The error of a guard that the progress lemmas show is never taken.
pub open spec fn no_progress() -> SpecParseError {
    perr(SpecParseErrorKind::ExtraInput, None)
}

// ---------------------------------------------------------------------------
// Attribute map grammar.
// ---------------------------------------------------------------------------

/// Entries of an attribute map from `c` up to and including its `}`.
pub open spec fn p_entries(
    ts: Seq<SpecToken>,
    c: int,
    node: Seq<char>,
    allowed: Seq<&'static str>,
    acc: SpecAttributeMap,
) -> Result<(SpecAttributeMap, int), SpecParseError>
    decreases ts.len() - c, 1int,
{
    if at_shape(ts, c, TokenShape::RBrace) {
        Ok((acc, c + 1))
    } else {
        match p_keyword(ts, c) {
            Err(e) => Err(e),
            Ok((key, kspan)) => if !allowed_has(allowed, key) {
                Err(
                    perr(
                        SpecParseErrorKind::UnknownAttribute { node, attribute: key },
                        Some(kspan),
                    ),
                )
            } else if map_has(acc, key) {
                Err(perr(SpecParseErrorKind::DuplicateAttribute { attribute: key }, Some(kspan)))
            } else {
                match p_map_value(ts, c + 1, node, key) {
                    Err(e) => Err(e),
                    Ok((entry, c2)) => if c < c2 <= ts.len() {
                        p_entries(ts, c2, node, allowed, acc.push((key, entry)))
                    } else {
                        Err(no_progress())
                    },
                }
            },
        }
    }
}

/// The value of attribute `attribute` of `node`, at `c`.
pub open spec fn p_map_value(ts: Seq<SpecToken>, c: int, node: Seq<char>, attribute: Seq<char>) -> Result<
    (SpecMapEntry, int),
    SpecParseError,
>
    decreases ts.len() - c, 0int,
{
    if c < 0 || c >= ts.len() {
        Err(perr(SpecParseErrorKind::UnexpectedEof { expected: "attribute value" }, None))
    } else {
        match ts[c].kind {
            SpecTokenKind::String(v) => Ok(
                (SpecMapEntry { value: SpecMapValue::String(v), span: ts[c].span }, c + 1),
            ),
            SpecTokenKind::LBrace => {
                let start = ts[c].span.start;
                if !(node == "doc"@ && attribute == "meta"@) {
                    Err(
                        perr(
                            SpecParseErrorKind::InvalidAttributeType {
                                node,
                                attribute,
                                expected: "string",
                            },
                            Some(
                                Span {
                                    start,
                                    end: if c + 1 < ts.len() {
                                        ts[c + 1].span.start
                                    } else {
                                        start
                                    },
                                },
                            ),
                        ),
                    )
                } else {
                    match p_entries(ts, c + 1, attribute, seq!["version"], Seq::empty()) {
                        Err(e) => Err(e),
                        Ok((m, c2)) => if c < c2 <= ts.len() {
                            Ok(
                                (
                                    SpecMapEntry {
                                        value: SpecMapValue::Nested(m),
                                        span: Span { start, end: ts[c2 - 1].span.end },
                                    },
                                    c2,
                                ),
                            )
                        } else {
                            Err(no_progress())
                        },
                    }
                }
            },
            k => Err(
                perr(
                    SpecParseErrorKind::InvalidAttributeType { node, attribute, expected: "string" },
                    Some(ts[c].span),
                ),
            ),
        }
    }
}

/// An attribute map that starts with its `{` at `c`.
pub open spec fn p_attribute_map(
    ts: Seq<SpecToken>,
    c: int,
    node: Seq<char>,
    allowed: Seq<&'static str>,
) -> Result<(SpecAttributeMap, int), SpecParseError> {
    match p_expect(ts, c, TokenShape::LBrace) {
        Err(e) => Err(e),
        Ok(_) => p_entries(ts, c + 1, node, allowed, Seq::empty()),
    }
}

/// The positional arguments that the attribute map after a node name stands
/// for.
pub open spec fn p_prefixed_args(ts: Seq<SpecToken>, c: int, node: Seq<char>) -> Result<
    (Seq<SpecExpr>, int),
    SpecParseError,
> {
    if !at_shape(ts, c, TokenShape::LBrace) {
        Ok((Seq::empty(), c))
    } else if node == "a"@ {
        match p_attribute_map(ts, c, "a"@, seq!["href"]) {
            Err(e) => Err(e),
            Ok((m, c2)) => match take_string(m, "a"@, "href"@) {
                Err(e) => Err(e),
                Ok((href, hspan, rest)) => match reject_remaining("a"@, rest) {
                    Err(e) => Err(e),
                    Ok(_) => Ok((seq![Node { kind: SpecExprKind::String(href), span: hspan }], c2)),
                },
            },
        }
    } else if node == "img"@ {
        match p_attribute_map(ts, c, "img"@, seq!["src", "alt"]) {
            Err(e) => Err(e),
            Ok((m, c2)) => match take_string(m, "img"@, "src"@) {
                Err(e) => Err(e),
                Ok((src, sspan, rest)) => match take_optional_string(rest, "img"@, "alt"@) {
                    Err(e) => Err(e),
                    Ok((alt, rest2)) => match reject_remaining("img"@, rest2) {
                        Err(e) => Err(e),
                        Ok(_) => {
                            let first = seq![Node { kind: SpecExprKind::String(src), span: sspan }];
                            match alt {
                                Some(a) => Ok(
                                    (
                                        first.push(
                                            Node { kind: SpecExprKind::String(a), span: sspan },
                                        ),
                                        c2,
                                    ),
                                ),
                                None => Ok((first, c2)),
                            }
                        },
                    },
                },
            },
        }
    } else if node == "codeblock"@ {
        match p_attribute_map(ts, c, "codeblock"@, seq!["lang"]) {
            Err(e) => Err(e),
            Ok((m, c2)) => match take_optional_string(m, "codeblock"@, "lang"@) {
                Err(e) => Err(e),
                Ok((lang, rest)) => match reject_remaining("codeblock"@, rest) {
                    Err(e) => Err(e),
                    Ok(_) => match lang {
                        Some(l) => Ok(
                            (seq![Node { kind: SpecExprKind::String(l), span: ts[c2 - 1].span }], c2),
                        ),
                        None => Ok((Seq::empty(), c2)),
                    },
                },
            },
        }
    } else {
        Err(
            perr(
                SpecParseErrorKind::UnknownAttribute { node, attribute: "*"@ },
                Some(ts[c].span),
            ),
        )
    }
}

/// Names of a parameter list from `c` up to and including its `)`.
pub open spec fn p_params(ts: Seq<SpecToken>, c: int, acc: Seq<Seq<char>>) -> Result<
    (Seq<Seq<char>>, int),
    SpecParseError,
>
    decreases ts.len() - c,
{
    if at_shape(ts, c, TokenShape::RParen) {
        Ok((acc, c + 1))
    } else {
        match p_symbol(ts, c) {
            Err(e) => Err(e),
            Ok((name, _)) => p_params(ts, c + 1, acc.push(name)),
        }
    }
}

// ---------------------------------------------------------------------------
// Expression grammar.
// ---------------------------------------------------------------------------

/// Whether a call of `a` occurs in the expression.
pub open spec fn contains_link(e: SpecExpr) -> bool
    decreases e,
{
    match e.kind {
        SpecExprKind::Call { callee, args } => is_link_symbol(*callee) || contains_link(*callee)
            || any_contains_link(args),
        SpecExprKind::Lambda { params, body } => any_contains_link(body),
        _ => false,
    }
}

pub open spec fn is_link_symbol(e: SpecExpr) -> bool {
    e.kind matches SpecExprKind::Symbol(name) && name == "a"@
}

pub open spec fn any_contains_link(es: Seq<SpecExpr>) -> bool
    decreases es,
{
    if es.len() == 0 {
        false
    } else {
        any_contains_link(es.drop_last()) || contains_link(es.last())
    }
}

/// One expression at `c`.
pub open spec fn p_expr(ts: Seq<SpecToken>, c: int) -> Result<(SpecExpr, int), SpecParseError>
    decreases ts.len() - c, 2int,
{
    if c < 0 || c >= ts.len() {
        Err(perr(SpecParseErrorKind::UnexpectedEof { expected: "expression" }, None))
    } else {
        match ts[c].kind {
            SpecTokenKind::String(v) => Ok(
                (Node { kind: SpecExprKind::String(v), span: ts[c].span }, c + 1),
            ),
            SpecTokenKind::Symbol(v) => {
                let kind = if v == "true"@ {
                    SpecExprKind::Bool(true)
                } else if v == "false"@ {
                    SpecExprKind::Bool(false)
                } else {
                    SpecExprKind::Symbol(v)
                };
                Ok((Node { kind, span: ts[c].span }, c + 1))
            },
            SpecTokenKind::LParen => p_call(ts, c),
            k => Err(
                perr(
                    SpecParseErrorKind::UnexpectedToken {
                        expected: "expression",
                        found: token_description(k),
                    },
                    Some(ts[c].span),
                ),
            ),
        }
    }
}

/// Expressions from `c` up to (not including) a `)`, after those in `acc`.
pub open spec fn p_args(ts: Seq<SpecToken>, c: int, acc: Seq<SpecExpr>) -> Result<
    (Seq<SpecExpr>, int),
    SpecParseError,
>
    decreases ts.len() - c, 3int,
{
    if at_shape(ts, c, TokenShape::RParen) {
        Ok((acc, c))
    } else {
        match p_expr(ts, c) {
            Err(e) => Err(e),
            Ok((e, c2)) => if c < c2 <= ts.len() {
                p_args(ts, c2, acc.push(e))
            } else {
                Err(no_progress())
            },
        }
    }
}

/// `let` bindings from `c` up to and including their closing `)`.
pub open spec fn p_bindings(
    ts: Seq<SpecToken>,
    c: int,
    names: Seq<Seq<char>>,
    values: Seq<SpecExpr>,
) -> Result<(Seq<Seq<char>>, Seq<SpecExpr>, int), SpecParseError>
    decreases ts.len() - c, 3int,
{
    if at_shape(ts, c, TokenShape::RParen) {
        Ok((names, values, c + 1))
    } else {
        match p_expect(ts, c, TokenShape::LParen) {
            Err(e) => Err(e),
            Ok(_) => match p_symbol(ts, c + 1) {
                Err(e) => Err(e),
                Ok((name, _)) => match p_expr(ts, c + 2) {
                    Err(e) => Err(e),
                    Ok((value, c2)) => if c + 2 < c2 <= ts.len() {
                        match p_expect(ts, c2, TokenShape::RParen) {
                            Err(e) => Err(e),
                            Ok(_) => p_bindings(ts, c2 + 1, names.push(name), values.push(value)),
                        }
                    } else {
                        Err(no_progress())
                    },
                },
            },
        }
    }
}

/// The body of a `lambda` or `let`, which holds at least one expression,
/// and the `)` that closes the form: the body and the index after it.
pub open spec fn p_body(ts: Seq<SpecToken>, c: int, form: Seq<char>) -> Result<
    (Seq<SpecExpr>, Span, int),
    SpecParseError,
>
    decreases ts.len() - c, 4int,
{
    match p_args(ts, c, Seq::empty()) {
        Err(e) => Err(e),
        Ok((body, c2)) => if body.len() == 0 {
            Err(
                perr(
                    SpecParseErrorKind::MissingChild { parent: form, expected: "expression" },
                    peek_span(ts, c2),
                ),
            )
        } else {
            match p_expect(ts, c2, TokenShape::RParen) {
                Err(e) => Err(e),
                Ok(rp) => Ok((body, rp, c2 + 1)),
            }
        },
    }
}

/// `(lambda (params...) body...)`, whose `(` is at `c` and starts at `start`.
pub open spec fn p_lambda_form(ts: Seq<SpecToken>, c: int, start: Position) -> Result<
    (SpecExpr, int),
    SpecParseError,
>
    decreases ts.len() - c, 0int,
{
    match p_expect(ts, c + 2, TokenShape::LParen) {
        Err(e) => Err(e),
        Ok(_) => match p_params(ts, c + 3, Seq::empty()) {
            Err(e) => Err(e),
            Ok((params, c3)) => if c < c3 <= ts.len() {
                match p_body(ts, c3, "lambda"@) {
                    Err(e) => Err(e),
                    Ok((body, rspan, c4)) => Ok(
                        (
                            Node {
                                kind: SpecExprKind::Lambda { params, body },
                                span: Span { start, end: rspan.end },
                            },
                            c4,
                        ),
                    ),
                }
            } else {
                Err(no_progress())
            },
        },
    }
}

/// `(let ((name value)...) body...)`, whose `(` is at `c` and starts at
/// `start`: the call of a `lambda` of the names with the values.
pub open spec fn p_let_form(ts: Seq<SpecToken>, c: int, start: Position) -> Result<
    (SpecExpr, int),
    SpecParseError,
>
    decreases ts.len() - c, 0int,
{
    match p_expect(ts, c + 2, TokenShape::LParen) {
        Err(e) => Err(e),
        Ok(_) => match p_bindings(ts, c + 3, Seq::empty(), Seq::empty()) {
            Err(e) => Err(e),
            Ok((names, values, c3)) => if c < c3 <= ts.len() {
                match p_body(ts, c3, "let"@) {
                    Err(e) => Err(e),
                    Ok((body, rspan, c4)) => {
                        let span = Span { start, end: rspan.end };
                        let lambda = Node {
                            kind: SpecExprKind::Lambda { params: names, body },
                            span,
                        };
                        Ok(
                            (
                                Node {
                                    kind: SpecExprKind::Call { callee: Box::new(lambda), args: values },
                                    span,
                                },
                                c4,
                            ),
                        )
                    },
                }
            } else {
                Err(no_progress())
            },
        },
    }
}

/// `(name {attributes} args...)`, whose `(` is at `c` and starts at `start`.
pub open spec fn p_named_call(ts: Seq<SpecToken>, c: int, start: Position, name: Seq<char>) -> Result<
    (SpecExpr, int),
    SpecParseError,
>
    decreases ts.len() - c, 0int,
{
    let nspan = ts[c + 1].span;
    match p_prefixed_args(ts, c + 2, name) {
        Err(e) => Err(e),
        Ok((prefixed, c3)) => if c < c3 <= ts.len() {
            match p_args(ts, c3, prefixed) {
                Err(e) => Err(e),
                Ok((args, c4)) => match p_expect(ts, c4, TokenShape::RParen) {
                    Err(e) => Err(e),
                    Ok(rp) => {
                        let span = Span { start, end: rp.end };
                        if name == "codeblock"@ && args.len() <= prefixed.len() {
                            Err(
                                perr(
                                    SpecParseErrorKind::MissingChild {
                                        parent: "codeblock"@,
                                        expected: "text",
                                    },
                                    Some(span),
                                ),
                            )
                        } else if name == "codeblock"@ && args.len() - prefixed.len() != 1 {
                            Err(
                                perr(
                                    SpecParseErrorKind::InvalidChild {
                                        parent: "codeblock"@,
                                        child: "text"@,
                                    },
                                    Some(span),
                                ),
                            )
                        } else if name == "a"@ && any_contains_link(args) {
                            Err(
                                perr(
                                    SpecParseErrorKind::InvalidChild { parent: "a"@, child: "a"@ },
                                    Some(span),
                                ),
                            )
                        } else {
                            Ok(
                                (
                                    Node {
                                        kind: SpecExprKind::Call {
                                            callee: Box::new(
                                                Node { kind: SpecExprKind::Symbol(name), span: nspan },
                                            ),
                                            args,
                                        },
                                        span,
                                    },
                                    c4 + 1,
                                ),
                            )
                        }
                    },
                },
            }
        } else {
            Err(no_progress())
        },
    }
}

/// `((callee...) args...)`, whose `(` is at `c` and starts at `start`.
pub open spec fn p_expr_callee_call(ts: Seq<SpecToken>, c: int, start: Position) -> Result<
    (SpecExpr, int),
    SpecParseError,
>
    decreases ts.len() - c, 0int,
{
    if c < 0 || c + 1 >= ts.len() {
        Err(no_progress())
    } else {
    match p_expr(ts, c + 1) {
        Err(e) => Err(e),
        Ok((callee, c2)) => if c + 1 < c2 <= ts.len() {
            match p_args(ts, c2, Seq::empty()) {
                Err(e) => Err(e),
                Ok((args, c3)) => match p_expect(ts, c3, TokenShape::RParen) {
                    Err(e) => Err(e),
                    Ok(rp) => Ok(
                        (
                            Node {
                                kind: SpecExprKind::Call { callee: Box::new(callee), args },
                                span: Span { start, end: rp.end },
                            },
                            c3 + 1,
                        ),
                    ),
                },
            }
        } else {
            Err(no_progress())
        },
    }
    }
}

/// A form that starts with `(` at `c`: a call, a `lambda` or a `let`.
pub open spec fn p_call(ts: Seq<SpecToken>, c: int) -> Result<(SpecExpr, int), SpecParseError>
    decreases ts.len() - c, 1int,
{
    match p_expect(ts, c, TokenShape::LParen) {
        Err(e) => Err(e),
        Ok(lp) => {
            let start = lp.start;
            if c + 1 < ts.len() && ts[c + 1].kind is Symbol {
                let name = ts[c + 1].kind->Symbol_0;
                if name == "lambda"@ {
                    p_lambda_form(ts, c, start)
                } else if name == "let"@ {
                    p_let_form(ts, c, start)
                } else {
                    p_named_call(ts, c, start, name)
                }
            } else if at_shape(ts, c + 1, TokenShape::LParen) {
                p_expr_callee_call(ts, c, start)
            } else {
                match p_symbol(ts, c + 1) {
                    Err(e) => Err(e),
                    Ok(_) => Err(no_progress()),
                }
            }
        },
    }
}

// ---------------------------------------------------------------------------
// Documents.
// ---------------------------------------------------------------------------

/// The version and span of the metadata in the attribute map of `doc`.
pub open spec fn p_document_metadata(m: SpecAttributeMap) -> Result<(Seq<char>, Span), SpecParseError> {
    let i = map_index(m, "meta"@);
    if i >= m.len() {
        Err(
            perr(
                SpecParseErrorKind::MissingAttribute { node: "doc"@, attribute: "meta"@ },
                None,
            ),
        )
    } else {
        let entry = m[i].1;
        match entry.value {
            SpecMapValue::Nested(meta) => match take_string(meta, "meta"@, "version"@) {
                Err(e) => Err(e),
                Ok((version, _, rest)) => match reject_remaining("meta"@, rest) {
                    Err(e) => Err(e),
                    Ok(_) => Ok((version, entry.span)),
                },
            },
            SpecMapValue::String(_) => Err(
                perr(
                    SpecParseErrorKind::InvalidAttributeType {
                        node: "doc"@,
                        attribute: "meta"@,
                        expected: "map",
                    },
                    Some(entry.span),
                ),
            ),
        }
    }
}

/// A `doc` module at the start of the tokens, and the index after it.
pub open spec fn p_doc_module(ts: Seq<SpecToken>) -> Result<(SpecModule, int), SpecParseError> {
    match p_expect(ts, 0, TokenShape::LParen) {
        Err(e) => Err(e),
        Ok(lp) => match p_symbol(ts, 1) {
            Err(e) => Err(e),
            Ok((name, nspan)) => if name != "doc"@ {
                Err(perr(SpecParseErrorKind::UnknownNode { node: name }, Some(nspan)))
            } else if !at_shape(ts, 2, TokenShape::LBrace) {
                Err(
                    perr(
                        SpecParseErrorKind::MissingAttribute { node: "doc"@, attribute: "meta"@ },
                        peek_span(ts, 2),
                    ),
                )
            } else {
                match p_attribute_map(ts, 2, "doc"@, seq!["meta"]) {
                    Err(e) => Err(e),
                    Ok((m, c3)) => match p_document_metadata(m) {
                        Err(e) => Err(e),
                        Ok((version, mspan)) => match p_args(ts, c3, Seq::empty()) {
                            Err(e) => Err(e),
                            Ok((args, c4)) => match p_expect(ts, c4, TokenShape::RParen) {
                                Err(e) => Err(e),
                                Ok(rp) => {
                                    let span = Span { start: lp.start, end: rp.end };
                                    Ok(
                                        (
                                            SpecModule {
                                                version,
                                                metadata_span: mspan,
                                                body: Node {
                                                    kind: SpecExprKind::Call {
                                                        callee: Box::new(
                                                            Node {
                                                                kind: SpecExprKind::Symbol(name),
                                                                span: nspan,
                                                            },
                                                        ),
                                                        args,
                                                    },
                                                    span,
                                                },
                                                span,
                                            },
                                            c4 + 1,
                                        ),
                                    )
                                },
                            },
                        },
                    },
                }
            },
        },
    }
}

/// A whole module: a `doc` form and nothing after it.
pub open spec fn parse_module_tokens(ts: Seq<SpecToken>) -> Result<SpecModule, SpecParseError> {
    match p_doc_module(ts) {
        Err(e) => Err(e),
        Ok((m, c)) => if 0 <= c < ts.len() {
            Err(perr(SpecParseErrorKind::ExtraInput, Some(ts[c].span)))
        } else {
            Ok(m)
        },
    }
}

/// A whole expression fragment: one expression and nothing after it.
pub open spec fn parse_fragment_tokens(ts: Seq<SpecToken>) -> Result<SpecExpr, SpecParseError> {
    match p_expr(ts, 0) {
        Err(e) => Err(e),
        Ok((e, c)) => if 0 <= c < ts.len() {
            Err(perr(SpecParseErrorKind::ExtraInput, Some(ts[c].span)))
        } else {
            Ok(e)
        },
    }
}

/// The module that an IR text stands for.
#[verifier::opaque]
pub open spec fn parse_text(s: Seq<char>) -> Result<SpecModule, SpecParseError> {
    match tokenize_text(s) {
        Err(e) => Err(from_lex_error(e)),
        Ok(ts) => parse_module_tokens(ts),
    }
}

/// The expression that an IR fragment text stands for.
#[verifier::opaque]
pub open spec fn parse_fragment_text(s: Seq<char>) -> Result<SpecExpr, SpecParseError> {
    match tokenize_text(s) {
        Err(e) => Err(from_lex_error(e)),
        Ok(ts) => parse_fragment_tokens(ts),
    }
}

// ---------------------------------------------------------------------------
// Progress: every successful parse consumes tokens, so the guards above are
// never taken.
// ---------------------------------------------------------------------------

pub proof fn lemma_entries_progress(
    ts: Seq<SpecToken>,
    c: int,
    node: Seq<char>,
    allowed: Seq<&'static str>,
    acc: SpecAttributeMap,
)
    ensures
        p_entries(ts, c, node, allowed, acc) matches Ok((m, c2)) ==> c < c2 <= ts.len() && 0
            <= c,
    decreases ts.len() - c,
{
    if !at_shape(ts, c, TokenShape::RBrace) {
        if let Ok((key, kspan)) = p_keyword(ts, c) {
            if allowed_has(allowed, key) && !map_has(acc, key) {
                if let Ok((entry, c2)) = p_map_value(ts, c + 1, node, key) {
                    if c < c2 <= ts.len() {
                        lemma_entries_progress(ts, c2, node, allowed, acc.push((key, entry)));
                    }
                }
            }
        }
    }
}

pub proof fn lemma_prefixed_progress(ts: Seq<SpecToken>, c: int, node: Seq<char>)
    requires
        0 <= c <= ts.len(),
    ensures
        p_prefixed_args(ts, c, node) matches Ok((pre, c2)) ==> c <= c2 <= ts.len(),
{
    lemma_entries_progress(ts, c + 1, "a"@, seq!["href"], Seq::empty());
    lemma_entries_progress(ts, c + 1, "img"@, seq!["src", "alt"], Seq::empty());
    lemma_entries_progress(ts, c + 1, "codeblock"@, seq!["lang"], Seq::empty());
}

pub proof fn lemma_params_progress(ts: Seq<SpecToken>, c: int, acc: Seq<Seq<char>>)
    ensures
        p_params(ts, c, acc) matches Ok((ps, c2)) ==> 0 <= c < c2 <= ts.len(),
    decreases ts.len() - c,
{
    if !at_shape(ts, c, TokenShape::RParen) {
        if let Ok((name, _)) = p_symbol(ts, c) {
            lemma_params_progress(ts, c + 1, acc.push(name));
        }
    }
}

pub proof fn lemma_args_progress(ts: Seq<SpecToken>, c: int, acc: Seq<SpecExpr>)
    ensures
        p_args(ts, c, acc) matches Ok((es, c2)) ==> 0 <= c <= c2 < ts.len() && at_shape(
            ts,
            c2,
            TokenShape::RParen,
        ),
    decreases ts.len() - c,
{
    if !at_shape(ts, c, TokenShape::RParen) {
        if let Ok((e, c2)) = p_expr(ts, c) {
            if c < c2 <= ts.len() {
                lemma_args_progress(ts, c2, acc.push(e));
            }
        }
    }
}

pub proof fn lemma_bindings_progress(
    ts: Seq<SpecToken>,
    c: int,
    names: Seq<Seq<char>>,
    values: Seq<SpecExpr>,
)
    ensures
        p_bindings(ts, c, names, values) matches Ok((ns, vs, c2)) ==> 0 <= c < c2 <= ts.len(),
    decreases ts.len() - c,
{
    if !at_shape(ts, c, TokenShape::RParen) {
        if let Ok(_) = p_expect(ts, c, TokenShape::LParen) {
            if let Ok((name, _)) = p_symbol(ts, c + 1) {
                if let Ok((value, c2)) = p_expr(ts, c + 2) {
                    if c + 2 < c2 <= ts.len() {
                        if let Ok(_) = p_expect(ts, c2, TokenShape::RParen) {
                            lemma_bindings_progress(
                                ts,
                                c2 + 1,
                                names.push(name),
                                values.push(value),
                            );
                        }
                    }
                }
            }
        }
    }
}

pub proof fn lemma_body_progress(ts: Seq<SpecToken>, c: int, form: Seq<char>)
    ensures
        p_body(ts, c, form) matches Ok((b, sp, c2)) ==> 0 <= c < c2 <= ts.len(),
{
    lemma_args_progress(ts, c, Seq::empty());
}

pub proof fn lemma_expr_progress(ts: Seq<SpecToken>, c: int)
    ensures
        p_expr(ts, c) matches Ok((e, c2)) ==> 0 <= c < c2 <= ts.len(),
        p_call(ts, c) matches Ok((e, c2)) ==> 0 <= c < c2 <= ts.len(),
{
    if 0 <= c < ts.len() {
        if c + 1 < ts.len() && ts[c + 1].kind is Symbol {
            let name = ts[c + 1].kind->Symbol_0;
            lemma_body_progress(ts, c + 3, name);
            if let Ok((params, c3)) = p_params(ts, c + 3, Seq::empty()) {
                lemma_body_progress(ts, c3, "lambda"@);
            }
            if let Ok((names, values, c3)) = p_bindings(ts, c + 3, Seq::empty(), Seq::empty()) {
                lemma_body_progress(ts, c3, "let"@);
            }
            if c + 2 <= ts.len() {
                lemma_prefixed_progress(ts, c + 2, name);
            }
            if let Ok((prefixed, c3)) = p_prefixed_args(ts, c + 2, name) {
                lemma_args_progress(ts, c3, prefixed);
            }
        } else if at_shape(ts, c + 1, TokenShape::LParen) {
            if let Ok((callee, c2)) = p_expr(ts, c + 1) {
                lemma_args_progress(ts, c2, Seq::empty());
            }
        }
    }
}

// ---------------------------------------------------------------------------
// The executable parser.
// ---------------------------------------------------------------------------

pub open spec fn rv_span(r: Result<Span, ParseError>) -> Result<Span, SpecParseError> {
    match r {
        Ok(s) => Ok(s),
        Err(e) => Err(e@),
    }
}

pub open spec fn rv_name(r: Result<(String, Span), ParseError>) -> Result<
    (Seq<char>, Span),
    SpecParseError,
> {
    match r {
        Ok((x, s)) => Ok((x@, s)),
        Err(e) => Err(e@),
    }
}

spec fn rv_entries(r: Result<(Vec<(String, MapEntry)>, usize), ParseError>) -> Result<
    (SpecAttributeMap, int),
    SpecParseError,
> {
    match r {
        Ok((x, k)) => Ok((map_view(x@), k as int)),
        Err(e) => Err(e@),
    }
}

spec fn rv_entry(r: Result<(MapEntry, usize), ParseError>) -> Result<
    (SpecMapEntry, int),
    SpecParseError,
> {
    match r {
        Ok((x, k)) => Ok((entry_view(x), k as int)),
        Err(e) => Err(e@),
    }
}

pub open spec fn rv_expr(r: Result<(Expr, usize), ParseError>) -> Result<
    (SpecExpr, int),
    SpecParseError,
> {
    match r {
        Ok((x, k)) => Ok((expr_view(x), k as int)),
        Err(e) => Err(e@),
    }
}

pub open spec fn rv_params(r: Result<(Vec<String>, usize), ParseError>) -> Result<
    (Seq<Seq<char>>, int),
    SpecParseError,
> {
    match r {
        Ok((x, k)) => Ok((strings_view(x@), k as int)),
        Err(e) => Err(e@),
    }
}

pub open spec fn rv_bindings(r: Result<(Vec<String>, Vec<Expr>, usize), ParseError>) -> Result<
    (Seq<Seq<char>>, Seq<SpecExpr>, int),
    SpecParseError,
> {
    match r {
        Ok((x, y, k)) => Ok((strings_view(x@), exprs_view(y@), k as int)),
        Err(e) => Err(e@),
    }
}

pub open spec fn rv_body(r: Result<(Vec<Expr>, Span, usize), ParseError>) -> Result<
    (Seq<SpecExpr>, Span, int),
    SpecParseError,
> {
    match r {
        Ok((x, sp, k)) => Ok((exprs_view(x@), sp, k as int)),
        Err(e) => Err(e@),
    }
}

pub open spec fn rv_exprs(r: Result<(Vec<Expr>, usize), ParseError>) -> Result<
    (Seq<SpecExpr>, int),
    SpecParseError,
> {
    match r {
        Ok((x, k)) => Ok((exprs_view(x@), k as int)),
        Err(e) => Err(e@),
    }
}

fn description_of_shape(shape: TokenShape) -> (r: &'static str)
    ensures
        r == shape_description(shape),
{
    match shape {
        TokenShape::LParen => "(",
        TokenShape::RParen => ")",
        TokenShape::LBrace => "{",
        TokenShape::RBrace => "}",
    }
}

fn description_of_token(kind: &TokenKind) -> (r: &'static str)
    ensures
        r == token_description(kind@),
{
    match kind {
        TokenKind::LParen => "(",
        TokenKind::RParen => ")",
        TokenKind::LBrace => "{",
        TokenKind::RBrace => "}",
        TokenKind::String(_) => "string",
        TokenKind::Symbol(_) => "symbol",
        TokenKind::Keyword(_) => "keyword",
    }
}

fn shape_is(shape: TokenShape, kind: &TokenKind) -> (r: bool)
    ensures
        r == shape_matches(shape, kind@),
{
    match (shape, kind) {
        (TokenShape::LParen, TokenKind::LParen) => true,
        (TokenShape::RParen, TokenKind::RParen) => true,
        (TokenShape::LBrace, TokenKind::LBrace) => true,
        (TokenShape::RBrace, TokenKind::RBrace) => true,
        _ => false,
    }
}

fn next_is(ts: &Vec<Token>, c: usize, shape: TokenShape) -> (r: bool)
    ensures
        r == at_shape(tokens_view(ts@), c as int, shape),
{
    c < ts.len() && shape_is(shape, &ts[c].kind)
}

fn next_span(ts: &Vec<Token>, c: usize) -> (r: Option<Span>)
    ensures
        r == peek_span(tokens_view(ts@), c as int),
{
    if c < ts.len() {
        Some(ts[c].span)
    } else {
        None
    }
}

fn expect_kind(ts: &Vec<Token>, c: usize, shape: TokenShape) -> (r: Result<Span, ParseError>)
    ensures
        rv_span(r) == p_expect(tokens_view(ts@), c as int, shape),
{
    if c >= ts.len() {
        return Err(
            ParseError::new(
                ParseErrorKind::UnexpectedEof { expected: description_of_shape(shape) },
                None,
            ),
        );
    }
    if shape_is(shape, &ts[c].kind) {
        Ok(ts[c].span)
    } else {
        Err(
            ParseError::new(
                ParseErrorKind::UnexpectedToken {
                    expected: description_of_shape(shape),
                    found: description_of_token(&ts[c].kind),
                },
                Some(ts[c].span),
            ),
        )
    }
}

fn expect_symbol(ts: &Vec<Token>, c: usize) -> (r: Result<(String, Span), ParseError>)
    ensures
        rv_name(r) == p_symbol(tokens_view(ts@), c as int),
{
    if c >= ts.len() {
        return Err(ParseError::new(ParseErrorKind::UnexpectedEof { expected: "symbol" }, None));
    }
    match &ts[c].kind {
        TokenKind::Symbol(v) => Ok((v.clone(), ts[c].span)),
        k => Err(
            ParseError::new(
                ParseErrorKind::UnexpectedToken { expected: "symbol", found: description_of_token(k) },
                Some(ts[c].span),
            ),
        ),
    }
}

fn expect_keyword(ts: &Vec<Token>, c: usize) -> (r: Result<(String, Span), ParseError>)
    ensures
        rv_name(r) == p_keyword(tokens_view(ts@), c as int),
{
    if c >= ts.len() {
        return Err(ParseError::new(ParseErrorKind::UnexpectedEof { expected: "keyword" }, None));
    }
    match &ts[c].kind {
        TokenKind::Keyword(v) => Ok((v.clone(), ts[c].span)),
        k => Err(
            ParseError::new(
                ParseErrorKind::UnexpectedToken { expected: "keyword", found: description_of_token(k) },
                Some(ts[c].span),
            ),
        ),
    }
}

fn allowed_contains(allowed: &[&'static str], key: &String) -> (r: bool)
    ensures
        r == allowed_has(allowed@, key@),
{
    let mut i: usize = 0;
    while i < allowed.len()
        invariant
            0 <= i <= allowed@.len(),
            forall|j: int| 0 <= j < i ==> (#[trigger] allowed@[j])@ != key@,
        decreases allowed@.len() - i,
    {
        if str_eq(allowed[i], key.as_str()) {
            return true;
        }
        i += 1;
    }
    false
}

fn map_position(m: &Vec<(String, MapEntry)>, key: &str) -> (r: usize)
    ensures
        r == map_index(map_view(m@), key@),
{
    proof {
        lemma_map_view(m@);
        lemma_map_index(map_view(m@), key@);
    }
    let mut i: usize = 0;
    while i < m.len()
        invariant
            0 <= i <= m@.len(),
            map_view(m@).len() == m@.len(),
            forall|j: int|
                0 <= j < m@.len() ==> #[trigger] map_view(m@)[j] == (m@[j].0@, entry_view(m@[j].1)),
            0 <= map_index(map_view(m@), key@) <= map_view(m@).len(),
            map_index(map_view(m@), key@) < map_view(m@).len() ==> map_view(m@)[map_index(
                map_view(m@),
                key@,
            )].0 == key@,
            forall|j: int|
                0 <= j < map_index(map_view(m@), key@) ==> #[trigger] map_view(m@)[j].0 != key@,
            forall|j: int| 0 <= j < i ==> (#[trigger] map_view(m@)[j]).0 != key@,
            i <= map_index(map_view(m@), key@),
        decreases m@.len() - i,
    {
        assert(map_view(m@)[i as int].0 == m@[i as int].0@);
        if str_eq(m[i].0.as_str(), key) {
            return i;
        }
        i += 1;
    }
    i
}

proof fn lemma_map_view_remove(m: Seq<(String, MapEntry)>, i: int)
    requires
        0 <= i < m.len(),
    ensures
        map_view(m.remove(i)) == map_view(m).remove(i),
{
    lemma_map_view(m);
    lemma_map_view(m.remove(i));
    assert(map_view(m.remove(i)) =~= map_view(m).remove(i));
}

fn take_string_attribute(m: &mut Vec<(String, MapEntry)>, node: &str, attribute: &str) -> (r: Result<
    (String, Span),
    ParseError,
>)
    ensures
        match take_string(map_view(old(m)@), node@, attribute@) {
            Ok((v, sp, rest)) => r matches Ok((x, sp2)) && x@ == v && sp2 == sp && map_view(
                final(m)@,
            ) == rest,
            Err(e) => r matches Err(x) && x@ == e,
        },
{
    proof {
        lemma_map_view(m@);
    }
    let i = map_position(m, attribute);
    if i >= m.len() {
        return Err(
            ParseError::new(
                ParseErrorKind::MissingAttribute {
                    node: node.to_owned(),
                    attribute: attribute.to_owned(),
                },
                None,
            ),
        );
    }
    proof {
        lemma_map_view_remove(m@, i as int);
    }
    let (_, entry) = m.remove(i);
    match entry.value {
        MapValue::String(v) => Ok((v, entry.span)),
        MapValue::Nested(_) => Err(
            ParseError::new(
                ParseErrorKind::InvalidAttributeType {
                    node: node.to_owned(),
                    attribute: attribute.to_owned(),
                    expected: "string",
                },
                Some(entry.span),
            ),
        ),
    }
}

fn take_optional_string_attribute(m: &mut Vec<(String, MapEntry)>, node: &str, attribute: &str) -> (r:
    Result<Option<String>, ParseError>)
    ensures
        match take_optional_string(map_view(old(m)@), node@, attribute@) {
            Ok((v, rest)) => r matches Ok(x) && (match v {
                Some(t) => x matches Some(y) && y@ == t,
                None => x is None,
            }) && map_view(final(m)@) == rest,
            Err(e) => r matches Err(x) && x@ == e,
        },
{
    proof {
        lemma_map_view(m@);
    }
    let i = map_position(m, attribute);
    if i < m.len() {
        match take_string_attribute(m, node, attribute) {
            Ok((v, _)) => Ok(Some(v)),
            Err(e) => Err(e),
        }
    } else {
        Ok(None)
    }
}

fn reject_remaining_attributes(node: &str, m: &Vec<(String, MapEntry)>) -> (r: Result<(), ParseError>)
    ensures
        match reject_remaining(node@, map_view(m@)) {
            Ok(_) => r is Ok,
            Err(e) => r matches Err(x) && x@ == e,
        },
{
    proof {
        lemma_map_view(m@);
    }
    if m.len() > 0 {
        return Err(
            ParseError::new(
                ParseErrorKind::UnknownAttribute {
                    node: node.to_owned(),
                    attribute: m[0].0.clone(),
                },
                Some(m[0].1.span),
            ),
        );
    }
    Ok(())
}

fn parse_entries(
    ts: &Vec<Token>,
    c0: usize,
    node: &str,
    allowed: &[&'static str],
    acc0: Vec<(String, MapEntry)>,
) -> (r: Result<(Vec<(String, MapEntry)>, usize), ParseError>)
    ensures
        rv_entries(r) == p_entries(tokens_view(ts@), c0 as int, node@, allowed@, map_view(acc0@)),
    decreases ts@.len() - c0, 1int,
{
    let ghost tv = tokens_view(ts@);
    proof {
        lemma_tokens_view(ts@);
    }
    let ghost a0 = map_view(acc0@);
    let mut acc = acc0;
    let mut c = c0;
    let n = ts.len();
    loop
        invariant
            tv == tokens_view(ts@),
            tv.len() == ts@.len(),
            n == ts@.len(),
            a0 == map_view(acc0@),
            p_entries(tv, c0 as int, node@, allowed@, a0) == p_entries(
                tv,
                c as int,
                node@,
                allowed@,
                map_view(acc@),
            ),
            c0 <= c,
        decreases ts@.len() - c,
    {
        proof {
            reveal_with_fuel(p_entries, 2);
        }
        if next_is(ts, c, TokenShape::RBrace) {
            return Ok((acc, c + 1));
        }
        let (key, kspan) = match expect_keyword(ts, c) {
            Ok(t) => t,
            Err(e) => return Err(e),
        };
        if !allowed_contains(allowed, &key) {
            return Err(
                ParseError::new(
                    ParseErrorKind::UnknownAttribute { node: node.to_owned(), attribute: key },
                    Some(kspan),
                ),
            );
        }
        proof {
            lemma_map_view(acc@);
        }
        let i = map_position(&acc, key.as_str());
        if i < acc.len() {
            return Err(
                ParseError::new(ParseErrorKind::DuplicateAttribute { attribute: key }, Some(kspan)),
            );
        }
        proof {
            lemma_entries_progress(tv, c as int, node@, allowed@, map_view(acc@));
        }
        let (entry, c2) = match parse_map_value(ts, c + 1, node, key.as_str()) {
            Ok(t) => t,
            Err(e) => return Err(e),
        };
        let ghost old_acc = acc@;
        acc.push((key, entry));
        proof {
            assert(acc@.drop_last() =~= old_acc);
        }
        c = c2;
    }
}

fn parse_map_value(ts: &Vec<Token>, c: usize, node: &str, attribute: &str) -> (r: Result<
    (MapEntry, usize),
    ParseError,
>)
    ensures
        rv_entry(r) == p_map_value(tokens_view(ts@), c as int, node@, attribute@),
    decreases ts@.len() - c, 0int,
{
    if c >= ts.len() {
        return Err(
            ParseError::new(ParseErrorKind::UnexpectedEof { expected: "attribute value" }, None),
        );
    }
    match &ts[c].kind {
        TokenKind::String(v) => Ok((MapEntry { value: MapValue::String(v.clone()), span: ts[c].span }, c + 1)),
        TokenKind::LBrace => {
            let start = ts[c].span.start;
            if !(str_eq(node, "doc") && str_eq(attribute, "meta")) {
                let end = if c + 1 < ts.len() {
                    ts[c + 1].span.start
                } else {
                    start
                };
                return Err(
                    ParseError::new(
                        ParseErrorKind::InvalidAttributeType {
                            node: node.to_owned(),
                            attribute: attribute.to_owned(),
                            expected: "string",
                        },
                        Some(Span { start, end }),
                    ),
                );
            }
            let allowed: [&'static str; 1] = ["version"];
            proof {
                lemma_entries_progress(tokens_view(ts@), c + 1, attribute@, allowed@, Seq::empty());
                assert(allowed@ =~= seq!["version"]);
            }
            let empty: Vec<(String, MapEntry)> = Vec::new();
            assert(map_view(empty@) =~= Seq::empty());
            let (m, c2) = match parse_entries(ts, c + 1, attribute, &allowed, empty) {
                Ok(t) => t,
                Err(e) => return Err(e),
            };
            Ok((MapEntry { value: MapValue::Nested(m), span: Span { start, end: ts[c2 - 1].span.end } }, c2))
        },
        _ => Err(
            ParseError::new(
                ParseErrorKind::InvalidAttributeType {
                    node: node.to_owned(),
                    attribute: attribute.to_owned(),
                    expected: "string",
                },
                Some(ts[c].span),
            ),
        ),
    }
}

fn parse_attribute_map(ts: &Vec<Token>, c: usize, node: &str, allowed: &[&'static str]) -> (r: Result<
    (Vec<(String, MapEntry)>, usize),
    ParseError,
>)
    ensures
        rv_entries(r) == p_attribute_map(tokens_view(ts@), c as int, node@, allowed@),
{
    let n = ts.len();
    match expect_kind(ts, c, TokenShape::LBrace) {
        Err(e) => Err(e),
        Ok(_) => {
            let v: Vec<(String, MapEntry)> = Vec::new();
            assert(map_view(v@) =~= Seq::empty());
            parse_entries(ts, c + 1, node, allowed, v)
        },
    }
}

fn string_expr(text: String, span: Span) -> (r: Expr)
    ensures
        expr_view(r) == (Node { kind: SpecExprKind::String(text@), span }),
{
    Node { kind: ExprKind::String(text), span }
}

fn parse_prefixed_args(ts: &Vec<Token>, c: usize, node: &String) -> (r: Result<(Vec<Expr>, usize), ParseError>)
    ensures
        rv_exprs(r) == p_prefixed_args(tokens_view(ts@), c as int, node@),
{
    proof {
        lemma_tokens_view(ts@);
    }
    if !next_is(ts, c, TokenShape::LBrace) {
        let v: Vec<Expr> = Vec::new();
        assert(exprs_view(v@) =~= Seq::empty());
        return Ok((v, c));
    }
    if is_text(node, "a") {
        let allowed: [&'static str; 1] = ["href"];
        assert(allowed@ =~= seq!["href"]);
        let (mut m, c2) = match parse_attribute_map(ts, c, "a", &allowed) {
            Ok(t) => t,
            Err(e) => return Err(e),
        };
        let (href, hspan) = match take_string_attribute(&mut m, "a", "href") {
            Ok(t) => t,
            Err(e) => return Err(e),
        };
        match reject_remaining_attributes("a", &m) {
            Ok(_) => {},
            Err(e) => return Err(e),
        }
        let mut v: Vec<Expr> = Vec::new();
        let e = string_expr(href, hspan);
        proof {
            lemma_exprs_view_push(v@, e);
            assert(exprs_view(v@) =~= Seq::<SpecExpr>::empty());
        }
        v.push(e);
        return Ok((v, c2));
    }
    if is_text(node, "img") {
        let allowed: [&'static str; 2] = ["src", "alt"];
        assert(allowed@ =~= seq!["src", "alt"]);
        let (mut m, c2) = match parse_attribute_map(ts, c, "img", &allowed) {
            Ok(t) => t,
            Err(e) => return Err(e),
        };
        let (src, sspan) = match take_string_attribute(&mut m, "img", "src") {
            Ok(t) => t,
            Err(e) => return Err(e),
        };
        let alt = match take_optional_string_attribute(&mut m, "img", "alt") {
            Ok(t) => t,
            Err(e) => return Err(e),
        };
        match reject_remaining_attributes("img", &m) {
            Ok(_) => {},
            Err(e) => return Err(e),
        }
        let mut v: Vec<Expr> = Vec::new();
        let e0 = string_expr(src, sspan);
        proof {
            lemma_exprs_view_push(v@, e0);
            assert(exprs_view(v@) =~= Seq::<SpecExpr>::empty());
        }
        v.push(e0);
        match alt {
            Some(a) => {
                let e = string_expr(a, sspan);
                proof {
                    lemma_exprs_view_push(v@, e);
                }
                v.push(e);
            },
            None => {},
        }
        return Ok((v, c2));
    }
    if is_text(node, "codeblock") {
        let allowed: [&'static str; 1] = ["lang"];
        assert(allowed@ =~= seq!["lang"]);
        let (mut m, c2) = match parse_attribute_map(ts, c, "codeblock", &allowed) {
            Ok(t) => t,
            Err(e) => return Err(e),
        };
        let lang = match take_optional_string_attribute(&mut m, "codeblock", "lang") {
            Ok(t) => t,
            Err(e) => return Err(e),
        };
        match reject_remaining_attributes("codeblock", &m) {
            Ok(_) => {},
            Err(e) => return Err(e),
        }
        let mut v: Vec<Expr> = Vec::new();
        match lang {
            Some(l) => {
                proof {
                    lemma_entries_progress(tokens_view(ts@), c + 1, "codeblock"@, allowed@, Seq::empty());
                }
                let e = string_expr(l, ts[c2 - 1].span);
                proof {
                    lemma_exprs_view_push(v@, e);
                    assert(exprs_view(v@) =~= Seq::<SpecExpr>::empty());
                }
                v.push(e);
            },
            None => {
                assert(exprs_view(v@) =~= Seq::empty());
            },
        }
        return Ok((v, c2));
    }
    Err(
        ParseError::new(
            ParseErrorKind::UnknownAttribute { node: node.clone(), attribute: "*".to_owned() },
            Some(ts[c].span),
        ),
    )
}

fn parse_params(ts: &Vec<Token>, c0: usize) -> (r: Result<(Vec<String>, usize), ParseError>)
    ensures
        rv_params(r) == p_params(tokens_view(ts@), c0 as int, Seq::empty()),
{
    let ghost tv = tokens_view(ts@);
    proof {
        lemma_tokens_view(ts@);
    }
    let mut names: Vec<String> = Vec::new();
    let mut c = c0;
    let n = ts.len();
    assert(strings_view(names@) =~= Seq::<Seq<char>>::empty());
    loop
        invariant
            tv == tokens_view(ts@),
            tv.len() == ts@.len(),
            n == ts@.len(),
            c0 <= c,
            p_params(tv, c0 as int, Seq::empty()) == p_params(tv, c as int, strings_view(names@)),
        decreases ts@.len() - c,
    {
        if next_is(ts, c, TokenShape::RParen) {
            return Ok((names, c + 1));
        }
        let (name, _) = match expect_symbol(ts, c) {
            Ok(t) => t,
            Err(e) => return Err(e),
        };
        proof {
            lemma_strings_view_push(names@, name);
        }
        names.push(name);
        c = c + 1;
    }
}

fn names_link(e: &Expr) -> (r: bool)
    ensures
        r == is_link_symbol(expr_view(*e)),
{
    match &e.kind {
        ExprKind::Symbol(name) => is_text(name, "a"),
        _ => false,
    }
}

fn holds_link(e: &Expr) -> (r: bool)
    ensures
        r == contains_link(expr_view(*e)),
    decreases e,
{
    match &e.kind {
        ExprKind::Call { callee, args } => names_link(callee) || holds_link(callee)
            || any_holds_link(args),
        ExprKind::Lambda { params, body } => any_holds_link(body),
        _ => false,
    }
}

fn any_holds_link(es: &Vec<Expr>) -> (r: bool)
    ensures
        r == any_contains_link(exprs_view(es@)),
    decreases es,
{
    let mut i: usize = 0;
    let mut found = false;
    while i < es.len()
        invariant
            0 <= i <= es@.len(),
            found == any_contains_link(exprs_view(es@.take(i as int))),
        decreases es@.len() - i,
    {
        proof {
            assert(es@.take(i + 1) =~= es@.take(i as int).push(es@[i as int]));
            lemma_exprs_view_push(es@.take(i as int), es@[i as int]);
            assert(exprs_view(es@.take(i as int)).push(expr_view(es@[i as int])).drop_last()
                =~= exprs_view(es@.take(i as int)));
        }
        let here = holds_link(&es[i]);
        found = found || here;
        i += 1;
    }
    assert(es@.take(es@.len() as int) =~= es@);
    found
}

fn parse_expr(ts: &Vec<Token>, c: usize) -> (r: Result<(Expr, usize), ParseError>)
    ensures
        rv_expr(r) == p_expr(tokens_view(ts@), c as int),
    decreases ts@.len() - c, 2int,
{
    proof {
        lemma_tokens_view(ts@);
    }
    if c >= ts.len() {
        return Err(ParseError::new(ParseErrorKind::UnexpectedEof { expected: "expression" }, None));
    }
    match &ts[c].kind {
        TokenKind::String(v) => Ok((string_expr(v.clone(), ts[c].span), c + 1)),
        TokenKind::Symbol(v) => {
            let kind = if is_text(v, "true") {
                ExprKind::Bool(true)
            } else if is_text(v, "false") {
                ExprKind::Bool(false)
            } else {
                ExprKind::Symbol(v.clone())
            };
            Ok((Node { kind, span: ts[c].span }, c + 1))
        },
        TokenKind::LParen => parse_call(ts, c),
        k => Err(
            ParseError::new(
                ParseErrorKind::UnexpectedToken {
                    expected: "expression",
                    found: description_of_token(k),
                },
                Some(ts[c].span),
            ),
        ),
    }
}

fn parse_args(ts: &Vec<Token>, c0: usize, acc0: Vec<Expr>) -> (r: Result<(Vec<Expr>, usize), ParseError>)
    requires
        c0 <= ts@.len(),
    ensures
        rv_exprs(r) == p_args(tokens_view(ts@), c0 as int, exprs_view(acc0@)),
    decreases ts@.len() - c0, 3int,
{
    let ghost tv = tokens_view(ts@);
    let ghost a0 = exprs_view(acc0@);
    proof {
        lemma_tokens_view(ts@);
    }
    let mut acc = acc0;
    let mut c = c0;
    loop
        invariant
            tv == tokens_view(ts@),
            tv.len() == ts@.len(),
            a0 == exprs_view(acc0@),
            c0 <= c <= ts@.len(),
            p_args(tv, c0 as int, a0) == p_args(tv, c as int, exprs_view(acc@)),
        decreases ts@.len() - c,
    {
        if next_is(ts, c, TokenShape::RParen) {
            return Ok((acc, c));
        }
        proof {
            lemma_expr_progress(tv, c as int);
        }
        let (e, c2) = match parse_expr(ts, c) {
            Ok(t) => t,
            Err(err) => return Err(err),
        };
        proof {
            lemma_exprs_view_push(acc@, e);
        }
        acc.push(e);
        c = c2;
    }
}

fn parse_bindings(ts: &Vec<Token>, c0: usize) -> (r: Result<(Vec<String>, Vec<Expr>, usize), ParseError>)
    ensures
        rv_bindings(r) == p_bindings(tokens_view(ts@), c0 as int, Seq::empty(), Seq::empty()),
    decreases ts@.len() - c0, 3int,
{
    let ghost tv = tokens_view(ts@);
    proof {
        lemma_tokens_view(ts@);
    }
    let mut names: Vec<String> = Vec::new();
    let mut values: Vec<Expr> = Vec::new();
    let mut c = c0;
    let n = ts.len();
    assert(strings_view(names@) =~= Seq::<Seq<char>>::empty());
    assert(exprs_view(values@) =~= Seq::<SpecExpr>::empty());
    loop
        invariant
            tv == tokens_view(ts@),
            tv.len() == ts@.len(),
            n == ts@.len(),
            c0 <= c,
            p_bindings(tv, c0 as int, Seq::empty(), Seq::empty()) == p_bindings(
                tv,
                c as int,
                strings_view(names@),
                exprs_view(values@),
            ),
        decreases ts@.len() - c,
    {
        if next_is(ts, c, TokenShape::RParen) {
            return Ok((names, values, c + 1));
        }
        match expect_kind(ts, c, TokenShape::LParen) {
            Ok(_) => {},
            Err(e) => return Err(e),
        }
        let (name, _) = match expect_symbol(ts, c + 1) {
            Ok(t) => t,
            Err(e) => return Err(e),
        };
        proof {
            lemma_expr_progress(tv, c + 2);
        }
        let (value, c2) = match parse_expr(ts, c + 2) {
            Ok(t) => t,
            Err(e) => return Err(e),
        };
        match expect_kind(ts, c2, TokenShape::RParen) {
            Ok(_) => {},
            Err(e) => return Err(e),
        }
        proof {
            lemma_strings_view_push(names@, name);
            lemma_exprs_view_push(values@, value);
        }
        names.push(name);
        values.push(value);
        c = c2 + 1;
    }
}

fn parse_body(ts: &Vec<Token>, c: usize, form: &str) -> (r: Result<(Vec<Expr>, Span, usize), ParseError>)
    requires
        c <= ts@.len(),
    ensures
        rv_body(r) == p_body(tokens_view(ts@), c as int, form@),
    decreases ts@.len() - c, 4int,
{
    let v: Vec<Expr> = Vec::new();
    assert(exprs_view(v@) =~= Seq::<SpecExpr>::empty());
    let n = ts.len();
    let (body, c2) = match parse_args(ts, c, v) {
        Ok(t) => t,
        Err(e) => return Err(e),
    };
    proof {
        lemma_exprs_view(body@);
    }
    if body.len() == 0 {
        return Err(
            ParseError::new(
                ParseErrorKind::MissingChild { parent: form.to_owned(), expected: "expression" },
                next_span(ts, c2),
            ),
        );
    }
    match expect_kind(ts, c2, TokenShape::RParen) {
        Ok(rp) => Ok((body, rp, c2 + 1)),
        Err(e) => Err(e),
    }
}

fn parse_lambda_form(ts: &Vec<Token>, c: usize, start: Position) -> (r: Result<(Expr, usize), ParseError>)
    requires
        c + 1 < ts@.len(),
    ensures
        rv_expr(r) == p_lambda_form(tokens_view(ts@), c as int, start),
    decreases ts@.len() - c, 0int,
{
    let n = ts.len();
    let ghost tv = tokens_view(ts@);
    proof {
        lemma_tokens_view(ts@);
    }
    match expect_kind(ts, c + 2, TokenShape::LParen) {
        Ok(_) => {},
        Err(e) => return Err(e),
    }
    proof {
        lemma_params_progress(tv, c + 3, Seq::empty());
    }
    let (params, c3) = match parse_params(ts, c + 3) {
        Ok(t) => t,
        Err(e) => return Err(e),
    };
    let (body, rspan, c4) = match parse_body(ts, c3, "lambda") {
        Ok(t) => t,
        Err(e) => return Err(e),
    };
    Ok((Node { kind: ExprKind::Lambda { params, body }, span: Span { start, end: rspan.end } }, c4))
}

fn parse_let_form(ts: &Vec<Token>, c: usize, start: Position) -> (r: Result<(Expr, usize), ParseError>)
    requires
        c + 1 < ts@.len(),
    ensures
        rv_expr(r) == p_let_form(tokens_view(ts@), c as int, start),
    decreases ts@.len() - c, 0int,
{
    let n = ts.len();
    let ghost tv = tokens_view(ts@);
    proof {
        lemma_tokens_view(ts@);
    }
    match expect_kind(ts, c + 2, TokenShape::LParen) {
        Ok(_) => {},
        Err(e) => return Err(e),
    }
    proof {
        lemma_bindings_progress(tv, c + 3, Seq::empty(), Seq::empty());
    }
    let (names, values, c3) = match parse_bindings(ts, c + 3) {
        Ok(t) => t,
        Err(e) => return Err(e),
    };
    let (body, rspan, c4) = match parse_body(ts, c3, "let") {
        Ok(t) => t,
        Err(e) => return Err(e),
    };
    let span = Span { start, end: rspan.end };
    let lambda = Node { kind: ExprKind::Lambda { params: names, body }, span };
    let ghost lv = expr_view(lambda);
    assert(lv == Node { kind: SpecExprKind::Lambda { params: strings_view(names@), body: exprs_view(body@) }, span });
    let call = Node { kind: ExprKind::Call { callee: Box::new(lambda), args: values }, span };
    assert(expr_view(call) == Node { kind: SpecExprKind::Call { callee: Box::new(lv), args: exprs_view(values@) }, span });
    Ok((call, c4))
}

fn parse_named_call(ts: &Vec<Token>, c: usize, start: Position, name: String) -> (r: Result<(Expr, usize), ParseError>)
    requires
        c + 1 < ts@.len(),
    ensures
        rv_expr(r) == p_named_call(tokens_view(ts@), c as int, start, name@),
    decreases ts@.len() - c, 0int,
{
    let n = ts.len();
    let ghost tv = tokens_view(ts@);
    proof {
        lemma_tokens_view(ts@);
    }
    let nspan = ts[c + 1].span;
    proof {
        lemma_prefixed_progress(tv, c + 2, name@);
    }
    let (prefixed, c3) = match parse_prefixed_args(ts, c + 2, &name) {
        Ok(t) => t,
        Err(e) => return Err(e),
    };
    proof {
        lemma_args_progress(tv, c3 as int, exprs_view(prefixed@));
    }
    let pn = prefixed.len();
    proof {
        lemma_exprs_view(prefixed@);
    }
    let (args, c4) = match parse_args(ts, c3, prefixed) {
        Ok(t) => t,
        Err(e) => return Err(e),
    };
    let rp = match expect_kind(ts, c4, TokenShape::RParen) {
        Ok(sp) => sp,
        Err(e) => return Err(e),
    };
    let span = Span { start, end: rp.end };
    assert(p_expect(tv, c4 as int, TokenShape::RParen) == Ok::<Span, SpecParseError>(rp));
    proof {
        lemma_exprs_view(args@);
    }
    if is_text(&name, "codeblock") {
        if args.len() <= pn {
            return Err(
                ParseError::new(
                    ParseErrorKind::MissingChild { parent: "codeblock".to_owned(), expected: "text" },
                    Some(span),
                ),
            );
        } else if args.len() - pn != 1 {
            return Err(
                ParseError::new(
                    ParseErrorKind::InvalidChild {
                        parent: "codeblock".to_owned(),
                        child: "text".to_owned(),
                    },
                    Some(span),
                ),
            );
        }
    }
    if is_text(&name, "a") && any_holds_link(&args) {
        return Err(
            ParseError::new(
                ParseErrorKind::InvalidChild { parent: "a".to_owned(), child: "a".to_owned() },
                Some(span),
            ),
        );
    }
    let ghost nv = name@;
    let callee = Node { kind: ExprKind::Symbol(name), span: nspan };
    assert(nspan == tv[c + 1].span);
    assert(expr_view(callee) == Node { kind: SpecExprKind::Symbol(nv), span: nspan });
    let call = Node { kind: ExprKind::Call { callee: Box::new(callee), args }, span };
    assert(expr_view(call) == Node { kind: SpecExprKind::Call { callee: Box::new(Node { kind: SpecExprKind::Symbol(nv), span: nspan }), args: exprs_view(args@) }, span });
    Ok((call, c4 + 1))
}

fn parse_expr_callee_call(ts: &Vec<Token>, c: usize, start: Position) -> (r: Result<(Expr, usize), ParseError>)
    requires
        c + 1 < ts@.len(),
    ensures
        rv_expr(r) == p_expr_callee_call(tokens_view(ts@), c as int, start),
    decreases ts@.len() - c, 0int,
{
    let n = ts.len();
    let ghost tv = tokens_view(ts@);
    proof {
        lemma_tokens_view(ts@);
        lemma_expr_progress(tv, c + 1);
    }
    let (callee, c2) = match parse_expr(ts, c + 1) {
        Ok(t) => t,
        Err(e) => return Err(e),
    };
    let v: Vec<Expr> = Vec::new();
    assert(exprs_view(v@) =~= Seq::<SpecExpr>::empty());
    let (args, c3) = match parse_args(ts, c2, v) {
        Ok(t) => t,
        Err(e) => return Err(e),
    };
    let rp = match expect_kind(ts, c3, TokenShape::RParen) {
        Ok(sp) => sp,
        Err(e) => return Err(e),
    };
    Ok((Node { kind: ExprKind::Call { callee: Box::new(callee), args }, span: Span { start, end: rp.end } }, c3 + 1))
}

fn parse_call(ts: &Vec<Token>, c: usize) -> (r: Result<(Expr, usize), ParseError>)
    ensures
        rv_expr(r) == p_call(tokens_view(ts@), c as int),
    decreases ts@.len() - c, 1int,
{
    proof {
        lemma_tokens_view(ts@);
    }
    let n = ts.len();
    let lp = match expect_kind(ts, c, TokenShape::LParen) {
        Ok(sp) => sp,
        Err(e) => return Err(e),
    };
    let start = lp.start;
    let symbol: Option<String> = if c + 1 < n {
        match &ts[c + 1].kind {
            TokenKind::Symbol(name) => Some(name.clone()),
            _ => None,
        }
    } else {
        None
    };
    match symbol {
        Some(name) => {
            if is_text(&name, "lambda") {
                parse_lambda_form(ts, c, start)
            } else if is_text(&name, "let") {
                parse_let_form(ts, c, start)
            } else {
                parse_named_call(ts, c, start, name)
            }
        },
        None => {
            if next_is(ts, c + 1, TokenShape::LParen) {
                parse_expr_callee_call(ts, c, start)
            } else {
                match expect_symbol(ts, c + 1) {
                    Err(e) => Err(e),
                    Ok(_) => {
                        assert(false);
                        Err(ParseError::new(ParseErrorKind::ExtraInput, None))
                    },
                }
            }
        },
    }
}

fn parse_document_metadata(m: &Vec<(String, MapEntry)>) -> (r: Result<(String, Span), ParseError>)
    ensures
        rv_name(r) == p_document_metadata(map_view(m@)),
{
    proof {
        lemma_map_view(m@);
    }
    let i = map_position(m, "meta");
    if i >= m.len() {
        return Err(
            ParseError::new(
                ParseErrorKind::MissingAttribute { node: "doc".to_owned(), attribute: "meta".to_owned() },
                None,
            ),
        );
    }
    let entry = &m[i].1;
    match &entry.value {
        MapValue::Nested(meta) => {
            let mut meta = clone_map(meta);
            let (version, _) = match take_string_attribute(&mut meta, "meta", "version") {
                Ok(t) => t,
                Err(e) => return Err(e),
            };
            match reject_remaining_attributes("meta", &meta) {
                Ok(_) => {},
                Err(e) => return Err(e),
            }
            Ok((version, entry.span))
        },
        MapValue::String(_) => Err(
            ParseError::new(
                ParseErrorKind::InvalidAttributeType {
                    node: "doc".to_owned(),
                    attribute: "meta".to_owned(),
                    expected: "map",
                },
                Some(entry.span),
            ),
        ),
    }
}

fn clone_entry(e: &MapEntry) -> (r: MapEntry)
    ensures
        entry_view(r) == entry_view(*e),
    decreases e,
{
    let value = match &e.value {
        MapValue::String(s) => MapValue::String(s.clone()),
        MapValue::Nested(m) => MapValue::Nested(clone_map(m)),
    };
    MapEntry { value, span: e.span }
}

fn clone_map(m: &Vec<(String, MapEntry)>) -> (r: Vec<(String, MapEntry)>)
    ensures
        map_view(r@) == map_view(m@),
    decreases m,
{
    let mut out: Vec<(String, MapEntry)> = Vec::new();
    let mut i: usize = 0;
    while i < m.len()
        invariant
            0 <= i <= m@.len(),
            map_view(out@) == map_view(m@.take(i as int)),
        decreases m@.len() - i,
    {
        let e = clone_entry(&m[i].1);
        let k = m[i].0.clone();
        let ghost prev = out@;
        out.push((k, e));
        proof {
            assert(out@.drop_last() =~= prev);
            assert(m@.take(i + 1).drop_last() =~= m@.take(i as int));
        }
        i += 1;
    }
    assert(m@.take(m@.len() as int) =~= m@);
    out
}

pub open spec fn rv_module(r: Result<(Module, usize), ParseError>) -> Result<
    (SpecModule, int),
    SpecParseError,
> {
    match r {
        Ok((m, k)) => Ok((m@, k as int)),
        Err(e) => Err(e@),
    }
}

fn parse_doc_module(ts: &Vec<Token>) -> (r: Result<(Module, usize), ParseError>)
    ensures
        rv_module(r) == p_doc_module(tokens_view(ts@)),
{
    let ghost tv = tokens_view(ts@);
    proof {
        lemma_tokens_view(ts@);
    }
    let n = ts.len();
    let lp = match expect_kind(ts, 0, TokenShape::LParen) {
        Ok(sp) => sp,
        Err(e) => return Err(e),
    };
    let (name, nspan) = match expect_symbol(ts, 1) {
        Ok(t) => t,
        Err(e) => return Err(e),
    };
    if !is_text(&name, "doc") {
        return Err(ParseError::new(ParseErrorKind::UnknownNode { node: name }, Some(nspan)));
    }
    if !next_is(ts, 2, TokenShape::LBrace) {
        return Err(
            ParseError::new(
                ParseErrorKind::MissingAttribute { node: "doc".to_owned(), attribute: "meta".to_owned() },
                next_span(ts, 2),
            ),
        );
    }
    let allowed: [&'static str; 1] = ["meta"];
    assert(allowed@ =~= seq!["meta"]);
    proof {
        lemma_entries_progress(tv, 3, "doc"@, allowed@, Seq::empty());
    }
    let (m, c3) = match parse_attribute_map(ts, 2, "doc", &allowed) {
        Ok(t) => t,
        Err(e) => return Err(e),
    };
    let (version, mspan) = match parse_document_metadata(&m) {
        Ok(t) => t,
        Err(e) => return Err(e),
    };
    let v: Vec<Expr> = Vec::new();
    assert(exprs_view(v@) =~= Seq::<SpecExpr>::empty());
    let (args, c4) = match parse_args(ts, c3, v) {
        Ok(t) => t,
        Err(e) => return Err(e),
    };
    let rp = match expect_kind(ts, c4, TokenShape::RParen) {
        Ok(sp) => sp,
        Err(e) => return Err(e),
    };
    let span = Span { start: lp.start, end: rp.end };
    let ghost nv = name@;
    let callee = Node { kind: ExprKind::Symbol(name), span: nspan };
    assert(expr_view(callee) == Node { kind: SpecExprKind::Symbol(nv), span: nspan });
    let body = Node { kind: ExprKind::Call { callee: Box::new(callee), args }, span };
    assert(expr_view(body) == Node { kind: SpecExprKind::Call { callee: Box::new(Node { kind: SpecExprKind::Symbol(nv), span: nspan }), args: exprs_view(args@) }, span });
    Ok((Module { metadata: ModuleMetadata { version, span: mspan }, body, span }, c4 + 1))
}

/// A parser over the tokens of one Lightdown IR text.
pub struct Parser {
    tokens: Vec<Token>,
}

impl Parser {
    /// The models of the tokens.
    pub closed spec fn token_models(&self) -> Seq<SpecToken> {
        tokens_view(self.tokens@)
    }

    /// Collects the tokens that the lexer yields, or reports its first error.
    pub fn new(lexer: Lexer) -> (r: Result<Self, ParseError>)
        requires
            lexer.wf(),
        ensures
            match lexer.remaining() {
                Ok(ts) => r matches Ok(p) && p.token_models() == ts,
                Err(e) => r matches Err(x) && x@ == from_lex_error(e),
            },
    {
        let mut lexer = lexer;
        match lexer.collect_tokens() {
            Ok(tokens) => Ok(Parser { tokens }),
            Err(e) => Err(ParseError::from_lex(e)),
        }
    }

    /// A whole `doc` module.
    pub fn parse_module(self) -> (r: Result<Module, ParseError>)
        ensures
            match parse_module_tokens(self.token_models()) {
                Ok(m) => r matches Ok(x) && x@ == m,
                Err(e) => r matches Err(x) && x@ == e,
            },
    {
        proof {
            lemma_tokens_view(self.tokens@);
        }
        let (module, c) = match parse_doc_module(&self.tokens) {
            Ok(t) => t,
            Err(e) => return Err(e),
        };
        if c < self.tokens.len() {
            return Err(ParseError::new(ParseErrorKind::ExtraInput, Some(self.tokens[c].span)));
        }
        Ok(module)
    }

    /// A whole expression.
    pub fn parse_expr_fragment(self) -> (r: Result<Expr, ParseError>)
        ensures
            match parse_fragment_tokens(self.token_models()) {
                Ok(e) => r matches Ok(x) && expr_view(x) == e,
                Err(e) => r matches Err(x) && x@ == e,
            },
    {
        proof {
            lemma_tokens_view(self.tokens@);
        }
        let (expr, c) = match parse_expr(&self.tokens, 0) {
            Ok(t) => t,
            Err(e) => return Err(e),
        };
        if c < self.tokens.len() {
            return Err(ParseError::new(ParseErrorKind::ExtraInput, Some(self.tokens[c].span)));
        }
        Ok(expr)
    }
}

/// Parses a Lightdown IR module.
pub fn parse(input: &str) -> (r: Result<Module, ParseError>)
    requires
        fits(input@),
    ensures
        match parse_text(input@) {
            Ok(m) => r matches Ok(x) && x@ == m,
            Err(e) => r matches Err(x) && x@ == e,
        },
{
    proof {
        reveal(parse_text);
    }
    let parser = match Parser::new(Lexer::new(input)) {
        Ok(p) => p,
        Err(e) => return Err(e),
    };
    parser.parse_module()
}

/// Parses a single Lightdown IR expression.
pub fn parse_expr_fragment(input: &str) -> (r: Result<Expr, ParseError>)
    requires
        fits(input@),
    ensures
        match parse_fragment_text(input@) {
            Ok(e) => r matches Ok(x) && expr_view(x) == e,
            Err(e) => r matches Err(x) && x@ == e,
        },
{
    proof {
        reveal(parse_fragment_text);
    }
    let parser = match Parser::new(Lexer::new(input)) {
        Ok(p) => p,
        Err(e) => return Err(e),
    };
    parser.parse_expr_fragment()
}


/// Whether no call of `a` in `e` holds another link among its arguments,
/// at any depth.
pub open spec fn links_unnested(e: SpecExpr) -> bool
    decreases e,
{
    match e.kind {
        SpecExprKind::Call { callee, args } => {
            &&& links_unnested(*callee)
            &&& forall|i: int| 0 <= i < args.len() ==> links_unnested(#[trigger] args[i])
            &&& (is_link_symbol(*callee) ==> !any_contains_link(args))
        },
        SpecExprKind::Lambda { body, .. } => forall|i: int|
            0 <= i < body.len() ==> links_unnested(#[trigger] body[i]),
        _ => true,
    }
}

pub open spec fn all_links_unnested(es: Seq<SpecExpr>) -> bool {
    forall|i: int| 0 <= i < es.len() ==> links_unnested(#[trigger] es[i])
}

proof fn lemma_unnested_push(es: Seq<SpecExpr>, e: SpecExpr)
    requires
        all_links_unnested(es),
        links_unnested(e),
    ensures
        all_links_unnested(es.push(e)),
{
    assert forall|i: int| 0 <= i < es.push(e).len() implies links_unnested(#[trigger] es.push(e)[i]) by {
        if i < es.len() {
            assert(es.push(e)[i] == es[i]);
        }
    }
}

proof fn lemma_expr_unnested(ts: Seq<SpecToken>, c: int)
    ensures
        p_expr(ts, c) matches Ok((e, _)) ==> links_unnested(e),
    decreases ts.len() - c, 2int,
{
    if 0 <= c < ts.len() && ts[c].kind is LParen {
        lemma_call_unnested(ts, c);
    }
}

proof fn lemma_args_unnested(ts: Seq<SpecToken>, c: int, acc: Seq<SpecExpr>)
    requires
        all_links_unnested(acc),
    ensures
        p_args(ts, c, acc) matches Ok((args, _)) ==> all_links_unnested(args),
    decreases ts.len() - c, 3int,
{
    if !at_shape(ts, c, TokenShape::RParen) {
        lemma_expr_unnested(ts, c);
        if let Ok((e, c2)) = p_expr(ts, c) {
            if c < c2 <= ts.len() {
                lemma_unnested_push(acc, e);
                lemma_args_unnested(ts, c2, acc.push(e));
            }
        }
    }
}

proof fn lemma_bindings_unnested(ts: Seq<SpecToken>, c: int, names: Seq<Seq<char>>, values: Seq<SpecExpr>)
    requires
        all_links_unnested(values),
    ensures
        p_bindings(ts, c, names, values) matches Ok((_, vs, _)) ==> all_links_unnested(vs),
    decreases ts.len() - c, 3int,
{
    if !at_shape(ts, c, TokenShape::RParen) && p_expect(ts, c, TokenShape::LParen) is Ok {
        if let Ok((name, _)) = p_symbol(ts, c + 1) {
            lemma_expr_unnested(ts, c + 2);
            if let Ok((value, c2)) = p_expr(ts, c + 2) {
                if c + 2 < c2 <= ts.len() && p_expect(ts, c2, TokenShape::RParen) is Ok {
                    lemma_unnested_push(values, value);
                    lemma_bindings_unnested(ts, c2 + 1, names.push(name), values.push(value));
                }
            }
        }
    }
}

proof fn lemma_body_unnested(ts: Seq<SpecToken>, c: int, form: Seq<char>)
    ensures
        p_body(ts, c, form) matches Ok((body, _, _)) ==> all_links_unnested(body),
    decreases ts.len() - c, 4int,
{
    lemma_args_unnested(ts, c, Seq::empty());
}

proof fn lemma_lambda_form_unnested(ts: Seq<SpecToken>, c: int, start: Position)
    ensures
        p_lambda_form(ts, c, start) matches Ok((e, _)) ==> links_unnested(e) && e.kind is Lambda,
    decreases ts.len() - c, 0int,
{
    if p_expect(ts, c + 2, TokenShape::LParen) is Ok {
        if let Ok((params, c3)) = p_params(ts, c + 3, Seq::empty()) {
            if c < c3 <= ts.len() {
                lemma_body_unnested(ts, c3, "lambda"@);
            }
        }
    }
}

proof fn lemma_let_form_unnested(ts: Seq<SpecToken>, c: int, start: Position)
    ensures
        p_let_form(ts, c, start) matches Ok((e, _)) ==> links_unnested(e) && e.kind is Call,
    decreases ts.len() - c, 0int,
{
    if p_expect(ts, c + 2, TokenShape::LParen) is Ok {
        lemma_bindings_unnested(ts, c + 3, Seq::empty(), Seq::empty());
        if let Ok((names, values, c3)) = p_bindings(ts, c + 3, Seq::empty(), Seq::empty()) {
            if c < c3 <= ts.len() {
                lemma_body_unnested(ts, c3, "let"@);
                if let Ok((body, rspan, c4)) = p_body(ts, c3, "let"@) {
                    let span = Span { start, end: rspan.end };
                    let lambda = Node { kind: SpecExprKind::Lambda { params: names, body }, span };
                    assert(links_unnested(lambda));
                    assert(!is_link_symbol(lambda));
                }
            }
        }
    }
}

proof fn lemma_named_call_unnested(ts: Seq<SpecToken>, c: int, start: Position, name: Seq<char>)
    requires
        0 <= c,
        c + 1 < ts.len(),
    ensures
        p_named_call(ts, c, start, name) matches Ok((e, _)) ==> links_unnested(e) && e.kind is Call,
    decreases ts.len() - c, 0int,
{
    if let Ok((prefixed, c3)) = p_prefixed_args(ts, c + 2, name) {
        assert forall|i: int| 0 <= i < prefixed.len() implies links_unnested(#[trigger] prefixed[i]) by {
            assert(prefixed[i].kind is String);
        }
        if c < c3 <= ts.len() {
            lemma_args_unnested(ts, c3, prefixed);
            if let Ok((args, c4)) = p_args(ts, c3, prefixed) {
                if let Ok(rp) = p_expect(ts, c4, TokenShape::RParen) {
                    let callee = Node { kind: SpecExprKind::Symbol(name), span: ts[c + 1].span };
                    assert(links_unnested(callee));
                    assert(is_link_symbol(callee) <==> name == "a"@);
                }
            }
        }
    }
}

proof fn lemma_expr_callee_call_unnested(ts: Seq<SpecToken>, c: int, start: Position)
    requires
        at_shape(ts, c + 1, TokenShape::LParen),
    ensures
        p_expr_callee_call(ts, c, start) matches Ok((e, _)) ==> links_unnested(e) && e.kind is Call,
    decreases ts.len() - c, 0int,
{
    if 0 <= c && c + 1 < ts.len() {
        assert(ts[c + 1].kind is LParen);
        lemma_call_unnested(ts, c + 1);
        assert(p_expr(ts, c + 1) == p_call(ts, c + 1));
        if let Ok((callee, c2)) = p_expr(ts, c + 1) {
            if c + 1 < c2 <= ts.len() {
                lemma_args_unnested(ts, c2, Seq::empty());
                assert(!is_link_symbol(callee));
            }
        }
    }
}

proof fn lemma_call_unnested(ts: Seq<SpecToken>, c: int)
    ensures
        p_call(ts, c) matches Ok((e, _)) ==> links_unnested(e) && !(e.kind is Symbol),
    decreases ts.len() - c, 1int,
{
    if let Ok(lp) = p_expect(ts, c, TokenShape::LParen) {
        let start = lp.start;
        if c + 1 < ts.len() && ts[c + 1].kind is Symbol {
            let name = ts[c + 1].kind->Symbol_0;
            if name == "lambda"@ {
                lemma_lambda_form_unnested(ts, c, start);
            } else if name == "let"@ {
                lemma_let_form_unnested(ts, c, start);
            } else {
                lemma_named_call_unnested(ts, c, start, name);
            }
        } else if at_shape(ts, c + 1, TokenShape::LParen) {
            lemma_expr_callee_call_unnested(ts, c, start);
        }
    }
}

proof fn lemma_doc_module_unnested(ts: Seq<SpecToken>)
    ensures
        p_doc_module(ts) matches Ok((m, _)) ==> links_unnested(m.body),
{
    if let Ok((m, c3)) = p_attribute_map(ts, 2, "doc"@, seq!["meta"]) {
        lemma_args_unnested(ts, c3, Seq::empty());
        if let (Ok(_), Ok((name, nspan))) = (p_expect(ts, 0, TokenShape::LParen), p_symbol(ts, 1)) {
            let callee = Node { kind: SpecExprKind::Symbol(name), span: nspan };
            assert(links_unnested(callee));
            if name == "doc"@ {
                reveal_strlit("doc");
                reveal_strlit("a");
                assert("doc"@.len() != "a"@.len());
                assert(name != "a"@);
                assert(!is_link_symbol(callee));
            }
        }
    }
}

/// Links never nest in what the parser accepts: no call of `a` in a parsed
/// module, or in a parsed expression fragment, holds another `a` call in
/// its arguments, at any depth.
pub proof fn law_links_never_nest(s: Seq<char>)
    ensures
        parse_text(s) matches Ok(m) ==> links_unnested(m.body),
        parse_fragment_text(s) matches Ok(e) ==> links_unnested(e),
{
    reveal(parse_text);
    reveal(parse_fragment_text);
    if let Ok(ts) = tokenize_text(s) {
        lemma_expr_unnested(ts, 0);
        lemma_doc_module_unnested(ts);
    }
}


proof fn lemma_bindings_pair_up(ts: Seq<SpecToken>, c: int, names: Seq<Seq<char>>, values: Seq<SpecExpr>)
    requires
        names.len() == values.len(),
    ensures
        p_bindings(ts, c, names, values) matches Ok((ns, vs, _)) ==> ns.len() == vs.len()
            && ns.len() >= names.len() && ns.take(names.len() as int) == names && vs.take(values.len() as int) == values,
    decreases ts.len() - c,
{
    if !at_shape(ts, c, TokenShape::RParen) && p_expect(ts, c, TokenShape::LParen) is Ok {
        if let Ok((name, _)) = p_symbol(ts, c + 1) {
            if let Ok((value, c2)) = p_expr(ts, c + 2) {
                if c + 2 < c2 <= ts.len() && p_expect(ts, c2, TokenShape::RParen) is Ok {
                    lemma_bindings_pair_up(ts, c2 + 1, names.push(name), values.push(value));
                    if let Ok((ns, vs, _)) = p_bindings(ts, c2 + 1, names.push(name), values.push(value)) {
                        assert(ns.take(names.len() as int) =~= ns.take(names.len() as int + 1).take(names.len() as int));
                        assert(vs.take(values.len() as int) =~= vs.take(values.len() as int + 1).take(values.len() as int));
                        assert(names.push(name).take(names.len() as int) =~= names);
                        assert(values.push(value).take(values.len() as int) =~= values);
                    }
                }
            }
        }
    } else {
        assert(names.take(names.len() as int) =~= names);
        assert(values.take(values.len() as int) =~= values);
    }
}

/// A `let` is the call of a `lambda`: its bound names become the lambda's
/// parameters and their values the call's arguments, one for one, and its
/// body the lambda's body.
pub proof fn law_let_is_a_lambda_call(ts: Seq<SpecToken>, c: int, start: Position)
    ensures
        p_let_form(ts, c, start) matches Ok((e, _)) ==> ({
            &&& e.kind is Call
            &&& e.kind->Call_callee.kind is Lambda
            &&& e.kind->Call_callee.kind->Lambda_params.len() == e.kind->Call_args.len()
            &&& e.kind->Call_callee.kind->Lambda_body.len() > 0
        }),
{
    lemma_bindings_pair_up(ts, c + 3, Seq::empty(), Seq::empty());
}
} // verus!
