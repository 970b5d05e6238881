//! Lowering of author documents to Lightdown IR, embedded IR included.
//!
//! Author blocks and inlines become calls of the builtins (`p`, `em`,
//! `text`, ...). An embedded IR fragment `\(...)` is IR text: its `[...]`
//! parts are author inline syntax, lowered and written back as `(list ...)`
//! IR text, and the result is parsed as IR.
use vstd::prelude::*;

use crate::author::error::{ParseError, ParseErrorKind, SpecError, SpecErrorKind, embedded_error};
use crate::author::inline_parser::{inlines_of, lemma_inlines_of_below, parse_fragment};
use crate::author::scan::{chars_range, find_char, find_char_exec, lemma_find_char, origin};
use crate::author::serialize::{ser_list, serialize_inline_sequence};
use crate::author::syntax::{
    SourceBlock, SourceBlockKind, SourceDocument, SourceInline, SourceInlineKind, SpecBlock,
    SpecBlockKind, SpecInline, SpecInlineKind, inline_sources_below, inlines_sources_below,
    lemma_sources_below_mono, lemma_src_blocks_view, lemma_src_inlines_view, src_block_view,
    src_blocks_view, src_inline_view, src_inlines_view,
};
use crate::ir::ast::{
    Expr, ExprKind, Module, ModuleMetadata, Node, SpecExpr, SpecExprKind, SpecModule, expr_view,
    exprs_view, lemma_exprs_view, lemma_exprs_view_push,
};
use crate::ir::lexer::{Position, Span};
use crate::ir::parser::{parse, parse_expr_fragment, parse_fragment_text, parse_text};
use crate::text::{
    char_utf8_len, chars_of, decimal, fits, owned, push_char, push_decimal, push_str,
    string_from_chars, utf8_len, utf8_size,
};

verus! {

/// A call of the builtin `name`.
pub open spec fn call_node(name: Seq<char>, args: Seq<SpecExpr>, span: Span) -> SpecExpr {
    Node {
        kind: SpecExprKind::Call {
            callee: Box::new(Node { kind: SpecExprKind::Symbol(name), span }),
            args,
        },
        span,
    }
}

/// A string literal expression.
pub open spec fn string_node(t: Seq<char>, span: Span) -> SpecExpr {
    Node { kind: SpecExprKind::String(t), span }
}

/// The index of the `]` that closes a `[` whose inside starts at `k`, or
/// -1: inline code and backslash escapes are skipped, nested brackets
/// count.
pub open spec fn match_bracket(s: Seq<char>, k: int, depth: nat, in_code: bool) -> int
    decreases s.len() - k,
{
    if k < 0 || k >= s.len() {
        -1
    } else {
        let c = s[k];
        if in_code {
            match_bracket(s, k + 1, depth, c != '`')
        } else if c == '`' {
            match_bracket(s, k + 1, depth, true)
        } else if c == '\\' {
            if k + 1 >= s.len() {
                -1
            } else {
                match_bracket(s, k + 2, depth, false)
            }
        } else if c == '[' {
            match_bracket(s, k + 1, depth + 1, false)
        } else if c == ']' {
            if depth == 0 {
                k
            } else {
                match_bracket(s, k + 1, (depth - 1) as nat, false)
            }
        } else {
            match_bracket(s, k + 1, depth, false)
        }
    }
}

pub proof fn lemma_match_bracket(s: Seq<char>, k: int, depth: nat, in_code: bool)
    requires
        0 <= k,
    ensures
        match_bracket(s, k, depth, in_code) == -1 || k <= match_bracket(s, k, depth, in_code)
            < s.len(),
    decreases s.len() - k,
{
    if k < s.len() {
        let c = s[k];
        if in_code {
            lemma_match_bracket(s, k + 1, depth, c != '`');
        } else if c == '`' {
            lemma_match_bracket(s, k + 1, depth, true);
        } else if c == '\\' {
            if k + 1 < s.len() {
                lemma_match_bracket(s, k + 2, depth, false);
            }
        } else if c == '[' {
            lemma_match_bracket(s, k + 1, depth + 1, false);
        } else if c == ']' {
            if depth > 0 {
                lemma_match_bracket(s, k + 1, (depth - 1) as nat, false);
            }
        } else {
            lemma_match_bracket(s, k + 1, depth, false);
        }
    }
}

/// The IR of an inline; embedded IR sources must be shorter than `n`.
pub open spec fn lower_inline(i: SpecInline, n: nat) -> Result<SpecExpr, SpecError>
    decreases n, i, 0int,
{
    let span = i.span;
    match i.kind {
        SpecInlineKind::Text(t) => Ok(call_node("text"@, seq![string_node(t, span)], span)),
        SpecInlineKind::Emphasis(c) => match lower_inline_list(c, n, 0, Seq::empty()) {
            Err(e) => Err(e),
            Ok(args) => Ok(call_node("em"@, args, span)),
        },
        SpecInlineKind::Strong(c) => match lower_inline_list(c, n, 0, Seq::empty()) {
            Err(e) => Err(e),
            Ok(args) => Ok(call_node("strong"@, args, span)),
        },
        SpecInlineKind::Code(t) => Ok(call_node("code"@, seq![string_node(t, span)], span)),
        SpecInlineKind::Link { href, children } => match lower_inline_list(
            children,
            n,
            0,
            seq![string_node(href, span)],
        ) {
            Err(e) => Err(e),
            Ok(args) => Ok(call_node("a"@, args, span)),
        },
        SpecInlineKind::Image { src, alt } => Ok(
            call_node("img"@, seq![string_node(src, span), string_node(alt, span)], span),
        ),
        SpecInlineKind::EmbeddedIr(src) => if src.len() >= n {
            Err(SpecError { kind: SpecErrorKind::UnterminatedEmbeddedIr, span: Some(span) })
        } else {
            match resolve_from(src, span, 0, Seq::empty()) {
                Err(e) => Err(e),
                Ok(resolved) => finish_inline_fragment(resolved, span),
            }
        },
    }
}

/// The IR of the inlines from `k` on, after `acc`.
pub open spec fn lower_inline_list(items: Seq<SpecInline>, n: nat, k: int, acc: Seq<SpecExpr>) -> Result<Seq<SpecExpr>, SpecError>
    decreases n, items, items.len() - k,
{
    if k < 0 || k >= items.len() {
        Ok(acc)
    } else {
        match lower_inline(items[k], n) {
            Err(e) => Err(e),
            Ok(x) => lower_inline_list(items, n, k + 1, acc.push(x)),
        }
    }
}

/// The expression of a resolved inline fragment: it is parsed as one IR
/// expression, which takes the fragment's span.
pub open spec fn finish_inline_fragment(resolved: Seq<char>, span: Span) -> Result<SpecExpr, SpecError> {
    let text = seq!['('] + resolved + seq![')'];
    if !fits(text) {
        Err(SpecError { kind: SpecErrorKind::FragmentTooLarge, span: Some(span) })
    } else {
        match parse_fragment_text(text) {
            Err(e) => Err(embedded_error(e)),
            Ok(x) => Ok(Node { kind: x.kind, span }),
        }
    }
}

/// An inline embedded IR fragment: its `[...]` parts resolved, it is
/// parsed as one IR expression, which takes the fragment's span.
pub open spec fn inline_fragment_ir(src: Seq<char>, span: Span) -> Result<SpecExpr, SpecError> {
    match resolve_from(src, span, 0, Seq::empty()) {
        Err(e) => Err(e),
        Ok(resolved) => finish_inline_fragment(resolved, span),
    }
}

/// The IR text of `src` from `cursor` on, after `out`, each `[...]` part
/// replaced by the `list` of its lowered inlines.
pub open spec fn resolve_from(src: Seq<char>, span: Span, cursor: int, out: Seq<char>) -> Result<Seq<char>, SpecError>
    decreases src.len(), src, src.len() - cursor,
{
    if cursor < 0 || cursor > src.len() {
        Ok(out)
    } else {
        let start = find_char(src, '[', cursor);
        proof {
            lemma_find_char(src, '[', cursor);
        }
        if start < 0 {
            Ok(out + src.subrange(cursor, src.len() as int))
        } else {
            let end = match_bracket(src, start + 1, 0, false);
            proof {
                lemma_match_bracket(src, start + 1, 0, false);
            }
            if end < 0 {
                Err(SpecError { kind: SpecErrorKind::UnterminatedEmbeddedIr, span: Some(span) })
            } else {
                let frag = src.subrange(start + 1, end);
                match inlines_of(frag, span.start) {
                    Err(e) => Err(e),
                    Ok(items) => match lower_inline_list(items, frag.len(), 0, Seq::empty()) {
                        Err(e) => Err(e),
                        Ok(exprs) => resolve_from(
                            src,
                            span,
                            end + 1,
                            out + src.subrange(cursor, start) + ser_list(exprs),
                        ),
                    },
                }
            }
        }
    }
}

/// A block-level embedded IR fragment: its `[...]` parts resolved, it is
/// parsed as the one block of a document, which takes the fragment's span.
pub open spec fn block_fragment_ir(src: Seq<char>, span: Span) -> Result<SpecExpr, SpecError> {
    match resolve_from(src, span, 0, Seq::empty()) {
        Err(e) => Err(e),
        Ok(resolved) => {
            let text = "(doc {:meta {:version \"0.1.0\"}} ("@ + resolved + "))"@;
            if !fits(text) {
                Err(SpecError { kind: SpecErrorKind::FragmentTooLarge, span: Some(span) })
            } else {
                match parse_text(text) {
                    Err(e) => Err(embedded_error(e)),
                    Ok(m) => match m.body.kind {
                        SpecExprKind::Call { args, .. } => if args.len() > 0 {
                            Ok(Node { kind: args.last().kind, span })
                        } else {
                            Err(missing_block(span))
                        },
                        _ => Err(missing_block(span)),
                    },
                }
            }
        },
    }
}

/// A document parsed from a block fragment without its block.
pub open spec fn missing_block(span: Span) -> SpecError {
    SpecError {
        kind: SpecErrorKind::EmbeddedIr(
            crate::ir::parser::SpecParseErrorKind::MissingChild { parent: "doc"@, expected: "block" },
        ),
        span: Some(span),
    }
}

/// The IR of a block; embedded IR sources must be shorter than `n`.
pub open spec fn lower_block(b: SpecBlock, n: nat) -> Result<SpecExpr, SpecError>
    decreases b, 0int,
{
    let span = b.span;
    match b.kind {
        SpecBlockKind::Heading { level, inlines } => match lower_inline_list(inlines, n, 0, Seq::empty()) {
            Err(e) => Err(e),
            Ok(args) => Ok(call_node(seq!['h'] + decimal(level as nat), args, span)),
        },
        SpecBlockKind::Paragraph(inlines) => match lower_inline_list(inlines, n, 0, Seq::empty()) {
            Err(e) => Err(e),
            Ok(args) => Ok(call_node("p"@, args, span)),
        },
        SpecBlockKind::EmbeddedIr(src) => block_fragment_ir(src, span),
        SpecBlockKind::List { ordered, items } => match lower_block_list(items, n, 0, Seq::empty()) {
            Err(e) => Err(e),
            Ok(args) => Ok(call_node(if ordered { "ol"@ } else { "ul"@ }, args, span)),
        },
        SpecBlockKind::ListItem(bs) => match lower_block_list(bs, n, 0, Seq::empty()) {
            Err(e) => Err(e),
            Ok(args) => Ok(call_node("li"@, args, span)),
        },
        SpecBlockKind::BlockQuote(bs) => match lower_block_list(bs, n, 0, Seq::empty()) {
            Err(e) => Err(e),
            Ok(args) => Ok(call_node("blockquote"@, args, span)),
        },
        SpecBlockKind::CodeBlock { lang, text } => Ok(
            call_node(
                "codeblock"@,
                match lang {
                    Some(l) => seq![string_node(l, span), string_node(text, span)],
                    None => seq![string_node(text, span)],
                },
                span,
            ),
        ),
        SpecBlockKind::ThematicBreak => Ok(call_node("hr"@, Seq::empty(), span)),
    }
}

/// The IR of the blocks from `k` on, after `acc`.
pub open spec fn lower_block_list(bs: Seq<SpecBlock>, n: nat, k: int, acc: Seq<SpecExpr>) -> Result<Seq<SpecExpr>, SpecError>
    decreases bs, bs.len() - k,
{
    if k < 0 || k >= bs.len() {
        Ok(acc)
    } else {
        match lower_block(bs[k], n) {
            Err(e) => Err(e),
            Ok(x) => lower_block_list(bs, n, k + 1, acc.push(x)),
        }
    }
}

/// The length from which an embedded IR source is refused: no text held in
/// memory reaches it.
pub open spec fn source_limit() -> nat {
    usize::MAX as nat
}

/// The IR module of an author document: a `doc` call of its blocks, with
/// version 0.1.0.
pub open spec fn lower_document_spec(blocks: Seq<SpecBlock>) -> Result<SpecModule, SpecError> {
    let zero = Span { start: origin(), end: origin() };
    match lower_block_list(blocks, source_limit(), 0, Seq::empty()) {
        Err(e) => Err(e),
        Ok(args) => {
            let end = if args.len() > 0 {
                args.last().span.end
            } else {
                origin()
            };
            let span = Span { start: origin(), end };
            Ok(
                SpecModule {
                    version: "0.1.0"@,
                    metadata_span: zero,
                    body: call_node("doc"@, args, span),
                    span,
                },
            )
        },
    }
}


pub open spec fn expr_outcome(r: Result<Expr, ParseError>) -> Result<SpecExpr, SpecError> {
    match r {
        Ok(x) => Ok(expr_view(x)),
        Err(e) => Err(e@),
    }
}

pub open spec fn exprs_outcome(r: Result<Vec<Expr>, ParseError>) -> Result<Seq<SpecExpr>, SpecError> {
    match r {
        Ok(v) => Ok(exprs_view(v@)),
        Err(e) => Err(e@),
    }
}

pub open spec fn text_outcome(r: Result<String, ParseError>) -> Result<Seq<char>, SpecError> {
    match r {
        Ok(t) => Ok(t@),
        Err(e) => Err(e@),
    }
}

/// A call of the builtin `name`.
fn call_expr(name: String, args: Vec<Expr>, span: Span) -> (r: Expr)
    ensures
        expr_view(r) == call_node(name@, exprs_view(args@), span),
{
    let callee = Node { kind: ExprKind::Symbol(name), span };
    assert(expr_view(callee) == Node { kind: SpecExprKind::Symbol(name@), span });
    Node { kind: ExprKind::Call { callee: Box::new(callee), args }, span }
}

/// A string literal expression.
fn string_expr(text: String, span: Span) -> (r: Expr)
    ensures
        expr_view(r) == string_node(text@, span),
{
    Node { kind: ExprKind::String(text), span }
}

/// Whether a text's UTF-8 size, plus its length and two, fits in a
/// `usize`.
fn fits_exec(cs: &Vec<char>) -> (r: bool)
    ensures
        r == fits(cs@),
{
    let mut total: usize = 0;
    let mut i: usize = 0;
    assert(cs@.take(0) =~= Seq::<char>::empty());
    while i < cs.len()
        invariant
            0 <= i <= cs@.len(),
            total == utf8_size(cs@.take(i as int)),
        decreases cs@.len() - i,
    {
        let n = char_utf8_len(cs[i]);
        assert(cs@.take(i + 1).drop_last() =~= cs@.take(i as int));
        if total > usize::MAX - n {
            proof {
                crate::text::lemma_utf8_size_prefix(cs@, i + 1);
            }
            return false;
        }
        total = total + n;
        i += 1;
    }
    assert(cs@.take(cs@.len() as int) =~= cs@);
    let len = cs.len();
    if total > usize::MAX - 2 {
        return false;
    }
    len <= usize::MAX - 2 - total
}

/// The index of the `]` that closes the `[` whose inside starts at `from`.
fn match_bracket_exec(s: &Vec<char>, from: usize) -> (r: Option<usize>)
    ensures
        match r {
            Some(k) => match_bracket(s@, from as int, 0, false) == k,
            None => match_bracket(s@, from as int, 0, false) == -1,
        },
{
    let n = s.len();
    let mut k = from;
    let mut depth: usize = 0;
    let mut in_code = false;
    while k < n
        invariant
            n == s@.len(),
            from <= k,
            depth <= k - from,
            match_bracket(s@, from as int, 0, false) == match_bracket(s@, k as int, depth as nat, in_code),
        decreases n - k,
    {
        let c = s[k];
        if in_code {
            in_code = c != '`';
            k += 1;
        } else if c == '`' {
            in_code = true;
            k += 1;
        } else if c == '\\' {
            if k + 1 >= n {
                return None;
            }
            k += 2;
        } else if c == '[' {
            depth += 1;
            k += 1;
        } else if c == ']' {
            if depth == 0 {
                return Some(k);
            }
            depth -= 1;
            k += 1;
        } else {
            k += 1;
        }
    }
    None
}

/// The IR of an inline; embedded IR sources must be shorter than `limit`.
fn lower_inline_exec(i: &SourceInline, limit: usize) -> (r: Result<Expr, ParseError>)
    ensures
        expr_outcome(r) == lower_inline(src_inline_view(*i), limit as nat),
    decreases limit, i, 0int,
{
    let span = i.span;
    match &i.kind {
        SourceInlineKind::Text(t) => {
            let mut args: Vec<Expr> = Vec::new();
            let x = string_expr(t.clone(), span);
            proof {
                lemma_exprs_view_push(args@, x);
                assert(args@.push(x) =~= seq![x]);
            }
            args.push(x);
            let r = Ok(call_expr(owned("text"), args, span));
            assert(expr_outcome(r) == lower_inline(src_inline_view(*i), limit as nat));
            r
        },
        SourceInlineKind::Emphasis(c) => match lower_inline_list_exec(c, limit, Vec::new()) {
            Ok(args) => Ok(call_expr(owned("em"), args, span)),
            Err(e) => Err(e),
        },
        SourceInlineKind::Strong(c) => match lower_inline_list_exec(c, limit, Vec::new()) {
            Ok(args) => Ok(call_expr(owned("strong"), args, span)),
            Err(e) => Err(e),
        },
        SourceInlineKind::Code(t) => {
            let mut args: Vec<Expr> = Vec::new();
            let x = string_expr(t.clone(), span);
            proof {
                lemma_exprs_view_push(args@, x);
                assert(args@.push(x) =~= seq![x]);
            }
            args.push(x);
            let r = Ok(call_expr(owned("code"), args, span));
            assert(expr_outcome(r) == lower_inline(src_inline_view(*i), limit as nat));
            r
        },
        SourceInlineKind::Link { href, children } => {
            let mut first: Vec<Expr> = Vec::new();
            let x = string_expr(href.clone(), span);
            proof {
                lemma_exprs_view_push(first@, x);
                assert(first@.push(x) =~= seq![x]);
            }
            first.push(x);
            match lower_inline_list_exec(children, limit, first) {
                Ok(args) => Ok(call_expr(owned("a"), args, span)),
                Err(e) => Err(e),
            }
        },
        SourceInlineKind::Image { src, alt } => {
            let mut args: Vec<Expr> = Vec::new();
            let x = string_expr(src.clone(), span);
            let y = string_expr(alt.clone(), span);
            proof {
                lemma_exprs_view_push(args@, x);
                lemma_exprs_view_push(args@.push(x), y);
                assert(args@.push(x).push(y) =~= seq![x, y]);
            }
            args.push(x);
            args.push(y);
            assert(exprs_view(args@) =~= seq![string_node(src@, span), string_node(alt@, span)]);
            let r = Ok(call_expr(owned("img"), args, span));
            assert(expr_outcome(r) == lower_inline(src_inline_view(*i), limit as nat));
            r
        },
        SourceInlineKind::EmbeddedIr(text) => {
            let cs = chars_of(text.as_str());
            if cs.len() >= limit {
                return Err(ParseError::new(ParseErrorKind::UnterminatedEmbeddedIr, Some(span)));
            }
            let r = match resolve_exec(&cs, span) {
                Ok(resolved) => finish_inline_fragment_exec(resolved, span),
                Err(e) => Err(e),
            };
            assert(expr_outcome(r) == lower_inline(src_inline_view(*i), limit as nat));
            r
        },
    }
}

/// The IR of the inlines, after `acc`.
fn lower_inline_list_exec(items: &Vec<SourceInline>, limit: usize, acc: Vec<Expr>) -> (r: Result<Vec<Expr>, ParseError>)
    ensures
        exprs_outcome(r) == lower_inline_list(src_inlines_view(items@), limit as nat, 0, exprs_view(acc@)),
    decreases limit, items, 1int,
{
    let ghost iv = src_inlines_view(items@);
    proof {
        lemma_src_inlines_view(items@);
    }
    let mut out = acc;
    let mut k: usize = 0;
    while k < items.len()
        invariant
            iv == src_inlines_view(items@),
            iv.len() == items@.len(),
            forall|j: int| 0 <= j < items@.len() ==> #[trigger] iv[j] == src_inline_view(items@[j]),
            0 <= k <= items@.len(),
            lower_inline_list(iv, limit as nat, 0, exprs_view(acc@)) == lower_inline_list(iv, limit as nat, k as int, exprs_view(out@)),
        decreases items@.len() - k,
    {
        let x = match lower_inline_exec(&items[k], limit) {
            Ok(x) => x,
            Err(e) => {
                return Err(e);
            },
        };
        proof {
            lemma_exprs_view_push(out@, x);
        }
        out.push(x);
        k += 1;
    }
    Ok(out)
}

/// The IR text of an embedded fragment, each `[...]` part replaced by the
/// `list` of its lowered inlines.
fn resolve_exec(src: &Vec<char>, span: Span) -> (r: Result<String, ParseError>)
    ensures
        text_outcome(r) == resolve_from(src@, span, 0, Seq::empty()),
    decreases src@.len(), src, 0int,
{
    let n = src.len();
    let mut out = String::new();
    let mut cursor: usize = 0;
    loop
        invariant
            n == src@.len(),
            0 <= cursor <= n,
            resolve_from(src@, span, 0, Seq::empty()) == resolve_from(src@, span, cursor as int, out@),
        decreases n + 1 - cursor,
    {
        proof {
            lemma_find_char(src@, '[', cursor as int);
        }
        let start = match find_char_exec(src, '[', cursor) {
            Some(k) => k,
            None => {
                let rest = chars_range(src, cursor, n);
                let rest_s = string_from_chars(&rest);
                push_str(&mut out, rest_s.as_str());
                return Ok(out);
            },
        };
        proof {
            lemma_match_bracket(src@, start + 1, 0, false);
        }
        let end = match match_bracket_exec(src, start + 1) {
            Some(k) => k,
            None => {
                return Err(ParseError::new(ParseErrorKind::UnterminatedEmbeddedIr, Some(span)));
            },
        };
        let frag = chars_range(src, start + 1, end);
        let frag_s = string_from_chars(&frag);
        let items = match parse_fragment(frag_s.as_str(), span) {
            Ok(x) => x,
            Err(e) => {
                return Err(e);
            },
        };
        let exprs = match lower_inline_list_exec(&items, frag.len(), Vec::new()) {
            Ok(x) => x,
            Err(e) => {
                return Err(e);
            },
        };
        let before = chars_range(src, cursor, start);
        let before_s = string_from_chars(&before);
        push_str(&mut out, before_s.as_str());
        serialize_inline_sequence(&exprs, &mut out);
        cursor = end + 1;
    }
}

/// The expression of a resolved inline fragment.
#[verifier::rlimit(50)]
fn finish_inline_fragment_exec(resolved: String, span: Span) -> (r: Result<Expr, ParseError>)
    ensures
        expr_outcome(r) == finish_inline_fragment(resolved@, span),
{
    let mut text = owned("(");
    push_str(&mut text, resolved.as_str());
    push_char(&mut text, ')');
    proof {
        reveal_strlit("(");
        assert(text@ =~= seq!['('] + resolved@ + seq![')']);
    }
    let cs = chars_of(text.as_str());
    if !fits_exec(&cs) {
        return Err(ParseError::new(ParseErrorKind::FragmentTooLarge, Some(span)));
    }
    match parse_expr_fragment(text.as_str()) {
        Ok(x) => Ok(Node { kind: x.kind, span }),
        Err(e) => Err(ParseError::from_ir(e)),
    }
}

/// Lowers an inline embedded IR fragment (the text inside `\(...)`).
pub fn lower_inline_fragment(source: String, span: Span) -> (r: Result<Expr, ParseError>)
    ensures
        expr_outcome(r) == inline_fragment_ir(source@, span),
{
    let cs = chars_of(source.as_str());
    match resolve_exec(&cs, span) {
        Ok(resolved) => finish_inline_fragment_exec(resolved, span),
        Err(e) => Err(e),
    }
}

/// Lowers a block-level embedded IR fragment (the text inside `\(...)`).
pub fn lower_block_fragment(source: String, span: Span) -> (r: Result<Expr, ParseError>)
    ensures
        expr_outcome(r) == block_fragment_ir(source@, span),
{
    let cs = chars_of(source.as_str());
    let resolved = match resolve_exec(&cs, span) {
        Ok(x) => x,
        Err(e) => {
            return Err(e);
        },
    };
    let mut text = owned("(doc {:meta {:version \"0.1.0\"}} (");
    push_str(&mut text, resolved.as_str());
    push_str(&mut text, "))");
    let tcs = chars_of(text.as_str());
    if !fits_exec(&tcs) {
        return Err(ParseError::new(ParseErrorKind::FragmentTooLarge, Some(span)));
    }
    let module = match parse(text.as_str()) {
        Ok(m) => m,
        Err(e) => {
            return Err(ParseError::from_ir(e));
        },
    };
    let missing = ParseError::new(
        ParseErrorKind::EmbeddedIr(
            crate::ir::parser::ParseErrorKind::MissingChild { parent: owned("doc"), expected: "block" },
        ),
        Some(span),
    );
    match module.body.kind {
        ExprKind::Call { callee, args } => {
            let mut args = args;
            proof {
                lemma_exprs_view(args@);
            }
            match args.pop() {
                Some(x) => Ok(Node { kind: x.kind, span }),
                None => Err(missing),
            }
        },
        _ => Err(missing),
    }
}


/// The IR of a block; embedded IR sources must be shorter than `limit`.
fn lower_block_exec(b: &SourceBlock, limit: usize) -> (r: Result<Expr, ParseError>)
    ensures
        expr_outcome(r) == lower_block(src_block_view(*b), limit as nat),
    decreases b, 0int,
{
    let span = b.span;
    match &b.kind {
        SourceBlockKind::Heading { level, inlines } => match lower_inline_list_exec(inlines, limit, Vec::new()) {
            Ok(args) => {
                let mut name = owned("h");
                push_decimal(&mut name, *level as u64);
                proof {
                    reveal_strlit("h");
                    assert(name@ =~= seq!['h'] + decimal(*level as nat));
                }
                Ok(call_expr(name, args, span))
            },
            Err(e) => Err(e),
        },
        SourceBlockKind::Paragraph(inlines) => match lower_inline_list_exec(inlines, limit, Vec::new()) {
            Ok(args) => Ok(call_expr(owned("p"), args, span)),
            Err(e) => Err(e),
        },
        SourceBlockKind::EmbeddedIr(source) => lower_block_fragment(source.clone(), span),
        SourceBlockKind::List { ordered, items } => match lower_block_list_exec(items, limit, Vec::new()) {
            Ok(args) => Ok(call_expr(if *ordered { owned("ol") } else { owned("ul") }, args, span)),
            Err(e) => Err(e),
        },
        SourceBlockKind::ListItem(bs) => match lower_block_list_exec(bs, limit, Vec::new()) {
            Ok(args) => Ok(call_expr(owned("li"), args, span)),
            Err(e) => Err(e),
        },
        SourceBlockKind::BlockQuote(bs) => match lower_block_list_exec(bs, limit, Vec::new()) {
            Ok(args) => Ok(call_expr(owned("blockquote"), args, span)),
            Err(e) => Err(e),
        },
        SourceBlockKind::CodeBlock { lang, text } => {
            let mut args: Vec<Expr> = Vec::new();
            match lang {
                Some(l) => {
                    let x = string_expr(l.clone(), span);
                    proof {
                        lemma_exprs_view_push(args@, x);
                    }
                    args.push(x);
                },
                None => {},
            }
            let y = string_expr(text.clone(), span);
            proof {
                lemma_exprs_view_push(args@, y);
            }
            args.push(y);
            proof {
                match lang {
                    Some(l) => {
                        assert(exprs_view(args@) =~= seq![string_node(l@, span), string_node(text@, span)]);
                    },
                    None => {
                        assert(exprs_view(args@) =~= seq![string_node(text@, span)]);
                    },
                }
            }
            Ok(call_expr(owned("codeblock"), args, span))
        },
        SourceBlockKind::ThematicBreak => {
            let args: Vec<Expr> = Vec::new();
            assert(exprs_view(args@) =~= Seq::<SpecExpr>::empty());
            Ok(call_expr(owned("hr"), args, span))
        },
    }
}

/// The IR of the blocks, after `acc`.
fn lower_block_list_exec(bs: &Vec<SourceBlock>, limit: usize, acc: Vec<Expr>) -> (r: Result<Vec<Expr>, ParseError>)
    ensures
        exprs_outcome(r) == lower_block_list(src_blocks_view(bs@), limit as nat, 0, exprs_view(acc@)),
    decreases bs, 1int,
{
    let ghost bv = src_blocks_view(bs@);
    proof {
        lemma_src_blocks_view(bs@);
    }
    let mut out = acc;
    let mut k: usize = 0;
    while k < bs.len()
        invariant
            bv == src_blocks_view(bs@),
            bv.len() == bs@.len(),
            forall|j: int| 0 <= j < bs@.len() ==> #[trigger] bv[j] == src_block_view(bs@[j]),
            0 <= k <= bs@.len(),
            lower_block_list(bv, limit as nat, 0, exprs_view(acc@)) == lower_block_list(bv, limit as nat, k as int, exprs_view(out@)),
        decreases bs@.len() - k,
    {
        let x = match lower_block_exec(&bs[k], limit) {
            Ok(x) => x,
            Err(e) => {
                return Err(e);
            },
        };
        proof {
            lemma_exprs_view_push(out@, x);
        }
        out.push(x);
        k += 1;
    }
    Ok(out)
}

/// The IR of blocks, one expression per block.
pub fn lower_blocks(blocks: &Vec<SourceBlock>) -> (r: Result<Vec<Expr>, ParseError>)
    ensures
        exprs_outcome(r) == lower_block_list(src_blocks_view(blocks@), source_limit(), 0, Seq::empty()),
{
    let acc: Vec<Expr> = Vec::new();
    assert(exprs_view(acc@) =~= Seq::<SpecExpr>::empty());
    lower_block_list_exec(blocks, usize::MAX, acc)
}

/// The IR of inlines, one expression per inline.
pub fn lower_inlines(inlines: &Vec<SourceInline>) -> (r: Result<Vec<Expr>, ParseError>)
    ensures
        exprs_outcome(r) == lower_inline_list(src_inlines_view(inlines@), source_limit(), 0, Seq::empty()),
{
    let acc: Vec<Expr> = Vec::new();
    assert(exprs_view(acc@) =~= Seq::<SpecExpr>::empty());
    lower_inline_list_exec(inlines, usize::MAX, acc)
}

/// The IR of inlines, as `lower_inlines`.
pub fn lower_inline_vec(inlines: &Vec<SourceInline>) -> (r: Result<Vec<Expr>, ParseError>)
    ensures
        exprs_outcome(r) == lower_inline_list(src_inlines_view(inlines@), source_limit(), 0, Seq::empty()),
{
    lower_inlines(inlines)
}

/// The IR module of an author document: a `doc` call of its blocks, with
/// version 0.1.0.
pub fn lower_document(_input: &str, document: SourceDocument) -> (r: Result<Module, ParseError>)
    ensures
        match lower_document_spec(src_blocks_view(document.blocks@)) {
            Ok(m) => r is Ok && r->Ok_0@ == m,
            Err(e) => r is Err && r->Err_0@ == e,
        },
{
    let origin = Position { offset: 0, line: 1, column: 1 };
    let zero = Span { start: origin, end: origin };
    let args = match lower_blocks(&document.blocks) {
        Ok(x) => x,
        Err(e) => {
            return Err(e);
        },
    };
    proof {
        lemma_exprs_view(args@);
    }
    let n = args.len();
    let end = if n > 0 {
        args[n - 1].span.end
    } else {
        origin
    };
    let span = Span { start: origin, end };
    Ok(
        Module {
            metadata: ModuleMetadata { version: owned("0.1.0"), span: zero },
            body: call_expr(owned("doc"), args, span),
            span,
        },
    )
}


proof fn lemma_lower_block_list(bs: Seq<SpecBlock>, n: nat, k: int, acc: Seq<SpecExpr>)
    requires
        0 <= k <= bs.len(),
    ensures
        match lower_block_list(bs, n, k, acc) {
            Ok(args) => {
                &&& args.len() == acc.len() + bs.len() - k
                &&& args.take(acc.len() as int) == acc
                &&& forall|j: int|
                    k <= j < bs.len() ==> lower_block(#[trigger] bs[j], n) == Ok::<SpecExpr, SpecError>(
                        args[acc.len() + j - k],
                    )
            },
            Err(e) => exists|j: int|
                k <= j < bs.len() && lower_block(#[trigger] bs[j], n) == Err::<SpecExpr, SpecError>(e)
                    && forall|i: int| k <= i < j ==> (#[trigger] lower_block(bs[i], n)) is Ok,
        },
    decreases bs.len() - k,
{
    if k < bs.len() {
        match lower_block(bs[k], n) {
            Err(e) => {},
            Ok(x) => {
                lemma_lower_block_list(bs, n, k + 1, acc.push(x));
                match lower_block_list(bs, n, k + 1, acc.push(x)) {
                    Ok(args) => {
                        let m = acc.len() as int;
                        assert(args.take(m + 1) == acc.push(x));
                        assert(args.take(m) =~= acc.push(x).take(m));
                        assert(acc.push(x).take(m) =~= acc);
                        assert(args[m] == args.take(m + 1)[m]);
                    },
                    Err(e) => {
                        let j = choose|j: int|
                            k + 1 <= j < bs.len() && lower_block(#[trigger] bs[j], n) == Err::<SpecExpr, SpecError>(e)
                                && forall|i: int| k + 1 <= i < j ==> (#[trigger] lower_block(bs[i], n)) is Ok;
                        assert forall|i: int| k <= i < j implies (#[trigger] lower_block(bs[i], n)) is Ok by {}
                    },
                }
            },
        }
    } else {
        assert(acc.take(acc.len() as int) =~= acc);
    }
}

/// A document lowers block by block: when it lowers, the module (of
/// version 0.1.0) is a `doc` call with one argument per block, in order,
/// each the IR of its block; when it fails, the error is that of the first
/// block that fails to lower.
pub proof fn law_document_lowers_blockwise(blocks: Seq<SpecBlock>)
    ensures
        match lower_document_spec(blocks) {
            Ok(m) => {
                &&& m.version == "0.1.0"@
                &&& m.body.kind matches SpecExprKind::Call { callee, args } && {
                    &&& callee.kind == SpecExprKind::Symbol("doc"@)
                    &&& args.len() == blocks.len()
                    &&& forall|j: int|
                        0 <= j < blocks.len() ==> lower_block(#[trigger] blocks[j], source_limit())
                            == Ok::<SpecExpr, SpecError>(args[j])
                }
            },
            Err(e) => exists|j: int|
                0 <= j < blocks.len() && lower_block(#[trigger] blocks[j], source_limit())
                    == Err::<SpecExpr, SpecError>(e) && forall|i: int|
                    0 <= i < j ==> (#[trigger] lower_block(blocks[i], source_limit())) is Ok,
        },
{
    lemma_lower_block_list(blocks, source_limit(), 0, Seq::empty());
}

proof fn lemma_lower_inline_limit(i: SpecInline, n1: nat, n2: nat)
    requires
        inline_sources_below(i, n1),
        inline_sources_below(i, n2),
    ensures
        lower_inline(i, n1) == lower_inline(i, n2),
    decreases i, 0int,
{
    match i.kind {
        SpecInlineKind::Emphasis(c) => lemma_lower_inline_list_limit(c, n1, n2, 0, Seq::empty()),
        SpecInlineKind::Strong(c) => lemma_lower_inline_list_limit(c, n1, n2, 0, Seq::empty()),
        SpecInlineKind::Link { href, children } => lemma_lower_inline_list_limit(
            children,
            n1,
            n2,
            0,
            seq![string_node(href, i.span)],
        ),
        _ => {},
    }
}

proof fn lemma_lower_inline_list_limit(items: Seq<SpecInline>, n1: nat, n2: nat, k: int, acc: Seq<SpecExpr>)
    requires
        inlines_sources_below(items, n1),
        inlines_sources_below(items, n2),
    ensures
        lower_inline_list(items, n1, k, acc) == lower_inline_list(items, n2, k, acc),
    decreases items, items.len() - k,
{
    if 0 <= k < items.len() {
        lemma_lower_inline_limit(items[k], n1, n2);
        if let Ok(x) = lower_inline(items[k], n1) {
            lemma_lower_inline_list_limit(items, n1, n2, k + 1, acc.push(x));
        }
    }
}

/// An embedded IR fragment is never refused for its length: the inlines
/// read from a text hold no embedded IR source as long as the text, so
/// lowering them gives the same result under every limit from the text's
/// length up.
pub proof fn law_fragment_length_never_refused(s: Seq<char>, base: Position, n1: nat, n2: nat)
    requires
        s.len() <= n1,
        s.len() <= n2,
    ensures
        inlines_of(s, base) matches Ok(items) ==> inlines_sources_below(items, s.len())
            && lower_inline_list(items, n1, 0, Seq::empty()) == lower_inline_list(
            items,
            n2,
            0,
            Seq::empty(),
        ),
{
    lemma_inlines_of_below(s, base);
    if let Ok(items) = inlines_of(s, base) {
        assert forall|k: int| 0 <= k < items.len() implies inline_sources_below(#[trigger] items[k], n1)
            && inline_sources_below(items[k], n2) by {
            lemma_sources_below_mono(items[k], s.len(), n1);
            lemma_sources_below_mono(items[k], s.len(), n2);
        }
        lemma_lower_inline_list_limit(items, n1, n2, 0, Seq::empty());
    }
}

proof fn lemma_block_list_acc(bs: Seq<SpecBlock>, n: nat, k: int, acc: Seq<SpecExpr>)
    ensures
        match lower_block_list(bs, n, k, Seq::empty()) {
            Ok(x) => lower_block_list(bs, n, k, acc) == Ok::<Seq<SpecExpr>, SpecError>(acc + x),
            Err(e) => lower_block_list(bs, n, k, acc) == Err::<Seq<SpecExpr>, SpecError>(e),
        },
    decreases bs.len() - k,
{
    if 0 <= k < bs.len() {
        if let Ok(x) = lower_block(bs[k], n) {
            lemma_block_list_acc(bs, n, k + 1, acc.push(x));
            lemma_block_list_acc(bs, n, k + 1, seq![x]);
            assert(Seq::<SpecExpr>::empty().push(x) =~= seq![x]);
            if let Ok(y) = lower_block_list(bs, n, k + 1, Seq::empty()) {
                assert(acc.push(x) + y =~= acc + (seq![x] + y));
            }
        }
    } else {
        assert(acc + Seq::<SpecExpr>::empty() =~= acc);
    }
}

proof fn lemma_block_list_shift(a: Seq<SpecBlock>, b: Seq<SpecBlock>, n: nat, j: int, acc: Seq<SpecExpr>)
    requires
        0 <= j <= b.len(),
    ensures
        lower_block_list(a + b, n, a.len() + j, acc) == lower_block_list(b, n, j, acc),
    decreases b.len() - j,
{
    if j < b.len() {
        assert((a + b)[a.len() + j] == b[j]);
        if let Ok(x) = lower_block(b[j], n) {
            lemma_block_list_shift(a, b, n, j + 1, acc.push(x));
        }
    }
}

proof fn lemma_block_list_prefix(a: Seq<SpecBlock>, b: Seq<SpecBlock>, n: nat, k: int, acc: Seq<SpecExpr>)
    requires
        0 <= k <= a.len(),
    ensures
        lower_block_list(a + b, n, k, acc) == match lower_block_list(a, n, k, acc) {
            Ok(x) => lower_block_list(a + b, n, a.len() as int, x),
            Err(e) => Err(e),
        },
    decreases a.len() - k,
{
    if k < a.len() {
        assert((a + b)[k] == a[k]);
        if let Ok(x) = lower_block(a[k], n) {
            lemma_block_list_prefix(a, b, n, k + 1, acc.push(x));
        }
    }
}

/// Lowering distributes over concatenation: the blocks of `a + b` lower to
/// the IR of `a` followed by that of `b`, and the first failing block gives
/// the error. Each block lowers to exactly one expression, which takes the
/// block's span.
pub proof fn law_lower_blocks_concat(a: Seq<SpecBlock>, b: Seq<SpecBlock>, n: nat)
    ensures
        lower_block_list(a + b, n, 0, Seq::empty()) == match lower_block_list(a, n, 0, Seq::empty()) {
            Err(e) => Err(e),
            Ok(x) => match lower_block_list(b, n, 0, Seq::empty()) {
                Err(e) => Err(e),
                Ok(y) => Ok::<Seq<SpecExpr>, SpecError>(x + y),
            },
        },
        lower_block_list(a, n, 0, Seq::empty()) matches Ok(es) ==> es.len() == a.len() && forall|i: int|
            0 <= i < a.len() ==> (#[trigger] es[i]).span == a[i].span,
{
    lemma_block_list_prefix(a, b, n, 0, Seq::empty());
    if let Ok(x) = lower_block_list(a, n, 0, Seq::empty()) {
        lemma_block_list_shift(a, b, n, 0, x);
        lemma_block_list_acc(b, n, 0, x);
    }
    lemma_lower_block_list(a, n, 0, Seq::empty());
    if let Ok(es) = lower_block_list(a, n, 0, Seq::empty()) {
        assert forall|i: int| 0 <= i < a.len() implies (#[trigger] es[i]).span == a[i].span by {
            lemma_lower_block_span(a[i], n);
        }
    }
}

proof fn lemma_lower_block_span(bl: SpecBlock, n: nat)
    ensures
        lower_block(bl, n) matches Ok(x) ==> x.span == bl.span,
{
}

/// The name of the builtin that `e` calls and the arguments of the call,
/// when `e` is a call of a named builtin.
pub open spec fn named_call(e: SpecExpr) -> Option<(Seq<char>, Seq<SpecExpr>)> {
    match e.kind {
        SpecExprKind::Call { callee, args } => match callee.kind {
            SpecExprKind::Symbol(name) => Some((name, args)),
            _ => None,
        },
        _ => None,
    }
}

/// A code block lowers to a call of `codeblock` whose arguments are its
/// language, when it has one, and then its text, all as string literals
/// that take the block's span.
pub proof fn law_code_block_lowering(lang: Option<Seq<char>>, text: Seq<char>, span: Span, n: nat)
    ensures
        ({
            let r = lower_block(Node { kind: SpecBlockKind::CodeBlock { lang, text }, span }, n);
            let want = match lang {
                Some(l) => seq![
                    Node { kind: SpecExprKind::String(l), span },
                    Node { kind: SpecExprKind::String(text), span },
                ],
                None => seq![Node { kind: SpecExprKind::String(text), span }],
            };
            &&& r is Ok
            &&& r->Ok_0.span == span
            &&& named_call(r->Ok_0) == Some(("codeblock"@, want))
        }),
{
}

/// A heading of level 1 to 6 lowers to a call of the builtin named `h`
/// followed by the level's digit, with one argument per inline.
pub proof fn law_heading_lowering(level: u8, inlines: Seq<SpecInline>, span: Span, n: nat)
    requires
        1 <= level <= 6,
    ensures
        ({
            let r = lower_block(Node { kind: SpecBlockKind::Heading { level, inlines }, span }, n);
            r matches Ok(e) ==> named_call(e) matches Some((name, args)) && name == seq![
                'h',
                ((level as int + 48) as u32) as char,
            ] && args.len() == inlines.len()
        }),
{
    lemma_lower_inline_list_len(inlines, n, 0, Seq::empty());
    assert(decimal(level as nat) =~= seq![((level as int + 48) as u32) as char]);
}

proof fn lemma_lower_inline_list_len(items: Seq<SpecInline>, n: nat, k: int, acc: Seq<SpecExpr>)
    requires
        0 <= k <= items.len(),
    ensures
        lower_inline_list(items, n, k, acc) matches Ok(r) ==> r.len() == acc.len() + items.len() - k,
    decreases items.len() - k,
{
    if k < items.len() {
        if let Ok(x) = lower_inline(items[k], n) {
            lemma_lower_inline_list_len(items, n, k + 1, acc.push(x));
        }
    }
}

/// The IR builtin that a source block of this kind maps to (embedded IR
/// maps to whatever it writes).
pub open spec fn block_builtin(k: SpecBlockKind) -> Seq<char> {
    match k {
        SpecBlockKind::Heading { level, .. } => seq!['h'] + decimal(level as nat),
        SpecBlockKind::Paragraph(_) => seq!['p'],
        SpecBlockKind::List { ordered, .. } => if ordered { seq!['o', 'l'] } else { seq!['u', 'l'] },
        SpecBlockKind::ListItem(_) => seq!['l', 'i'],
        SpecBlockKind::BlockQuote(_) => seq!['b', 'l', 'o', 'c', 'k', 'q', 'u', 'o', 't', 'e'],
        SpecBlockKind::CodeBlock { .. } => seq!['c', 'o', 'd', 'e', 'b', 'l', 'o', 'c', 'k'],
        SpecBlockKind::ThematicBreak => seq!['h', 'r'],
        SpecBlockKind::EmbeddedIr(_) => Seq::empty(),
    }
}

/// How many arguments the call that a source block maps to takes: one per
/// inline or child block, or the code block's language and text.
pub open spec fn block_arity(k: SpecBlockKind) -> int {
    match k {
        SpecBlockKind::Heading { inlines, .. } => inlines.len() as int,
        SpecBlockKind::Paragraph(inlines) => inlines.len() as int,
        SpecBlockKind::List { items, .. } => items.len() as int,
        SpecBlockKind::ListItem(bs) => bs.len() as int,
        SpecBlockKind::BlockQuote(bs) => bs.len() as int,
        SpecBlockKind::CodeBlock { lang, .. } => if lang is Some { 2int } else { 1int },
        SpecBlockKind::ThematicBreak => 0,
        SpecBlockKind::EmbeddedIr(_) => 0,
    }
}

/// Every source block other than embedded IR lowers to one call of the
/// builtin of its kind, with one argument per inline or child block,
/// spanning the block.
pub proof fn law_blocks_lower_to_their_builtin(b: SpecBlock, n: nat)
    ensures
        !(b.kind is EmbeddedIr) ==> (lower_block(b, n) matches Ok(e) ==> named_call(e) == Some(
            (block_builtin(b.kind), named_call(e)->Some_0.1),
        ) && named_call(e)->Some_0.1.len() == block_arity(b.kind) && e.span == b.span),
{
    match b.kind {
        SpecBlockKind::Heading { inlines, .. } => lemma_lower_inline_list_len(inlines, n, 0, Seq::empty()),
        SpecBlockKind::Paragraph(inlines) => lemma_lower_inline_list_len(inlines, n, 0, Seq::empty()),
        SpecBlockKind::List { items, .. } => lemma_lower_block_list(items, n, 0, Seq::empty()),
        SpecBlockKind::ListItem(bs) => lemma_lower_block_list(bs, n, 0, Seq::empty()),
        SpecBlockKind::BlockQuote(bs) => lemma_lower_block_list(bs, n, 0, Seq::empty()),
        _ => {},
    }
    reveal_strlit("p");
    reveal_strlit("ol");
    reveal_strlit("ul");
    reveal_strlit("li");
    reveal_strlit("blockquote");
    reveal_strlit("codeblock");
    reveal_strlit("hr");
}

/// The IR builtin that a source inline of this kind maps to.
pub open spec fn inline_builtin(k: SpecInlineKind) -> Seq<char> {
    match k {
        SpecInlineKind::Text(_) => seq!['t', 'e', 'x', 't'],
        SpecInlineKind::Emphasis(_) => seq!['e', 'm'],
        SpecInlineKind::Strong(_) => seq!['s', 't', 'r', 'o', 'n', 'g'],
        SpecInlineKind::Code(_) => seq!['c', 'o', 'd', 'e'],
        SpecInlineKind::Link { .. } => seq!['a'],
        SpecInlineKind::Image { .. } => seq!['i', 'm', 'g'],
        SpecInlineKind::EmbeddedIr(_) => Seq::empty(),
    }
}

/// Every source inline other than embedded IR lowers to one call of the
/// builtin of its kind: text and code take their text, emphasis and strong
/// one argument per child, a link its destination and then one argument
/// per child, an image its source and its alternative text.
pub proof fn law_inlines_lower_to_their_builtin(i: SpecInline, n: nat)
    ensures
        !(i.kind is EmbeddedIr) ==> (lower_inline(i, n) matches Ok(e) ==> ({
            let args = named_call(e)->Some_0.1;
            &&& named_call(e) == Some((inline_builtin(i.kind), args))
            &&& e.span == i.span
            &&& match i.kind {
                SpecInlineKind::Text(t) => args == seq![Node { kind: SpecExprKind::String(t), span: i.span }],
                SpecInlineKind::Code(t) => args == seq![Node { kind: SpecExprKind::String(t), span: i.span }],
                SpecInlineKind::Emphasis(c) => args.len() == c.len(),
                SpecInlineKind::Strong(c) => args.len() == c.len(),
                SpecInlineKind::Link { href, children } => args.len() == children.len() + 1 && args[0]
                    == Node { kind: SpecExprKind::String(href), span: i.span },
                SpecInlineKind::Image { src, alt } => args == seq![
                    Node { kind: SpecExprKind::String(src), span: i.span },
                    Node { kind: SpecExprKind::String(alt), span: i.span },
                ],
                SpecInlineKind::EmbeddedIr(_) => true,
            }
        })),
{
    match i.kind {
        SpecInlineKind::Emphasis(c) => lemma_lower_inline_list_len(c, n, 0, Seq::empty()),
        SpecInlineKind::Strong(c) => lemma_lower_inline_list_len(c, n, 0, Seq::empty()),
        SpecInlineKind::Link { href, children } => {
            let first = seq![string_node(href, i.span)];
            lemma_lower_inline_list_len(children, n, 0, first);
            lemma_lower_inline_list_prefix(children, n, 0, first);
            if let Ok(r) = lower_inline_list(children, n, 0, first) {
                assert(r[0] == r.take(1)[0]);
            }
        },
        _ => {},
    }
    reveal_strlit("text");
    reveal_strlit("em");
    reveal_strlit("strong");
    reveal_strlit("code");
    reveal_strlit("a");
    reveal_strlit("img");
}

proof fn lemma_lower_inline_list_prefix(items: Seq<SpecInline>, n: nat, k: int, acc: Seq<SpecExpr>)
    requires
        0 <= k <= items.len(),
    ensures
        lower_inline_list(items, n, k, acc) matches Ok(r) ==> r.len() >= acc.len() && r.take(
            acc.len() as int,
        ) == acc,
    decreases items.len() - k,
{
    if k < items.len() {
        if let Ok(x) = lower_inline(items[k], n) {
            lemma_lower_inline_list_prefix(items, n, k + 1, acc.push(x));
            if let Ok(r) = lower_inline_list(items, n, k + 1, acc.push(x)) {
                assert(r.take(acc.len() as int) =~= r.take(acc.len() as int + 1).take(acc.len() as int));
                assert(acc.push(x).take(acc.len() as int) =~= acc);
            }
        }
    } else {
        assert(acc.take(acc.len() as int) =~= acc);
    }
}

} // verus!
