//! The inline syntax of author documents: `**strong**`, `*emphasis*`,
//! `` `code` ``, `[links](href)`, `![images](src)`, `\(embedded IR)` and
//! text.
//!
//! `inline_items` is the model: it reads the inlines of a text from a
//! character index on; the parser follows it exactly, spans included.
use vstd::prelude::*;

use crate::author::error::{ParseError, ParseErrorKind, SpecError, SpecErrorKind};
use crate::author::scan::{
    at, at2, at2_exec, at_exec, chars_range, find_char, find_char_exec, find_double,
    find_double_exec, lemma_find_char, lemma_find_double, lemma_scan_ir, pos_over, position_of,
    scan_ir, scan_ir_exec, span_in, span_of,
};
use crate::author::syntax::{
    SourceInline, SourceInlineKind, SpecInline, SpecInlineKind, inline_sources_below,
    inlines_sources_below, lemma_sources_below_mono, lemma_src_inlines_view_push,
    src_inline_view, src_inlines_view,
};
use crate::ir::ast::Node;
use crate::ir::lexer::{Position, Span};
use crate::text::{chars_of, string_of};

verus! {

/// The error of `kind` over `s[a..b]`.
pub open spec fn err_at(kind: SpecErrorKind, base: Position, s: Seq<char>, a: int, b: int) -> SpecError {
    SpecError { kind, span: Some(span_in(base, s, a, b)) }
}

/// Whether an inline other than text starts at `i`.
pub open spec fn special_at(s: Seq<char>, i: int) -> bool {
    ||| at(s, i, '*')
    ||| at(s, i, '`')
    ||| at2(s, i, '!', '[')
    ||| at(s, i, '[')
    ||| at2(s, i, '\\', '(')
}

/// The end of the text run at `i`: the next start of another inline, or
/// the end.
pub open spec fn text_end(s: Seq<char>, i: int) -> int
    decreases s.len() - i,
{
    if i < 0 || i >= s.len() || special_at(s, i) {
        i
    } else {
        text_end(s, i + 1)
    }
}

pub proof fn lemma_text_end(s: Seq<char>, i: int)
    requires
        0 <= i <= s.len(),
    ensures
        i <= text_end(s, i) <= s.len(),
    decreases s.len() - i,
{
    if i < s.len() && !special_at(s, i) {
        lemma_text_end(s, i + 1);
    }
}

/// The inlines of `s` from `i` on, after `acc`; `base` is where `s` starts.
pub open spec fn inline_items(s: Seq<char>, base: Position, i: int, acc: Seq<SpecInline>) -> Result<Seq<SpecInline>, SpecError>
    decreases s.len(), 1int, s.len() - i,
{
    if i < 0 || i >= s.len() {
        Ok(acc)
    } else {
        match inline_item(s, base, i) {
            Err(e) => Err(e),
            Ok((item, j)) => if j <= i || j > s.len() {
                Ok(acc)
            } else {
                inline_items(s, base, j, acc.push(item))
            },
        }
    }
}

/// The inlines of a whole text.
pub open spec fn inlines_of(s: Seq<char>, base: Position) -> Result<Seq<SpecInline>, SpecError>
    decreases s.len(), 2int, 0int,
{
    inline_items(s, base, 0, Seq::empty())
}

/// The inlines of `s[a..b]`, which starts where `s[..a]` ends.
pub open spec fn inner_inlines(s: Seq<char>, base: Position, a: int, b: int) -> Result<Seq<SpecInline>, SpecError>
    decreases s.len(), 0int, 1int,
{
    if 0 <= a <= b <= s.len() && b - a < s.len() {
        inlines_of(s.subrange(a, b), pos_over(base, s.take(a)))
    } else {
        Ok(Seq::empty())
    }
}

/// The inline that starts at `i`, and the index after it.
pub open spec fn inline_item(s: Seq<char>, base: Position, i: int) -> Result<(SpecInline, int), SpecError>
    decreases s.len(), 0int, 2int,
{
    let n = s.len() as int;
    if at2(s, i, '*', '*') {
        let close = find_double(s, '*', i + 2);
        if close < 0 {
            Err(err_at(SpecErrorKind::UnterminatedStrong, base, s, i, n))
        } else {
            match inner_inlines(s, base, i + 2, close) {
                Err(e) => Err(e),
                Ok(children) => Ok(
                    (
                        Node { kind: SpecInlineKind::Strong(children), span: span_in(base, s, i, close + 2) },
                        close + 2,
                    ),
                ),
            }
        }
    } else if at(s, i, '*') {
        let close = find_char(s, '*', i + 1);
        if close < 0 {
            Err(err_at(SpecErrorKind::UnterminatedEmphasis, base, s, i, n))
        } else {
            match inner_inlines(s, base, i + 1, close) {
                Err(e) => Err(e),
                Ok(children) => Ok(
                    (
                        Node { kind: SpecInlineKind::Emphasis(children), span: span_in(base, s, i, close + 1) },
                        close + 1,
                    ),
                ),
            }
        }
    } else if at(s, i, '`') {
        let close = find_char(s, '`', i + 1);
        if close < 0 {
            Err(err_at(SpecErrorKind::UnterminatedInlineCode, base, s, i, n))
        } else {
            Ok(
                (
                    Node {
                        kind: SpecInlineKind::Code(s.subrange(i + 1, close)),
                        span: span_in(base, s, i, close + 1),
                    },
                    close + 1,
                ),
            )
        }
    } else if at2(s, i, '!', '[') {
        let alt_end = find_char(s, ']', i + 2);
        if alt_end < 0 {
            Err(err_at(SpecErrorKind::UnterminatedImage, base, s, i, n))
        } else if !at(s, alt_end + 1, '(') {
            Err(err_at(SpecErrorKind::UnterminatedImage, base, s, i, alt_end + 1))
        } else {
            let src_end = find_char(s, ')', alt_end + 2);
            if src_end < 0 {
                Err(err_at(SpecErrorKind::UnterminatedImage, base, s, i, n))
            } else {
                Ok(
                    (
                        Node {
                            kind: SpecInlineKind::Image {
                                src: s.subrange(alt_end + 2, src_end),
                                alt: s.subrange(i + 2, alt_end),
                            },
                            span: span_in(base, s, i, src_end + 1),
                        },
                        src_end + 1,
                    ),
                )
            }
        }
    } else if at(s, i, '[') {
        let label_end = find_char(s, ']', i + 1);
        if label_end < 0 {
            Err(err_at(SpecErrorKind::UnterminatedLink, base, s, i, n))
        } else if !at(s, label_end + 1, '(') {
            Err(err_at(SpecErrorKind::UnterminatedLink, base, s, i, label_end + 1))
        } else {
            let href_end = find_char(s, ')', label_end + 2);
            if href_end < 0 {
                Err(err_at(SpecErrorKind::UnterminatedLink, base, s, i, n))
            } else {
                match inner_inlines(s, base, i + 1, label_end) {
                    Err(e) => Err(e),
                    Ok(children) => Ok(
                        (
                            Node {
                                kind: SpecInlineKind::Link {
                                    href: s.subrange(label_end + 2, href_end),
                                    children,
                                },
                                span: span_in(base, s, i, href_end + 1),
                            },
                            href_end + 1,
                        ),
                    ),
                }
            }
        }
    } else if at2(s, i, '\\', '(') {
        let close = scan_ir(s, i + 2, 1, 0, false, false);
        if close < 0 {
            Err(err_at(SpecErrorKind::UnterminatedEmbeddedIr, base, s, i, n))
        } else {
            Ok(
                (
                    Node {
                        kind: SpecInlineKind::EmbeddedIr(s.subrange(i + 2, close)),
                        span: span_in(base, s, i, close + 1),
                    },
                    close + 1,
                ),
            )
        }
    } else {
        let end = text_end(s, i + 1);
        Ok((Node { kind: SpecInlineKind::Text(s.subrange(i, end)), span: span_in(base, s, i, end) }, end))
    }
}

/// Every inline moves past its start and stays within the text.
pub proof fn lemma_inline_item_progress(s: Seq<char>, base: Position, i: int)
    requires
        0 <= i < s.len(),
    ensures
        inline_item(s, base, i) is Ok ==> i < inline_item(s, base, i)->Ok_0.1 <= s.len(),
{
    lemma_find_double(s, '*', i + 2);
    lemma_find_char(s, '*', i + 1);
    lemma_find_char(s, '`', i + 1);
    lemma_find_char(s, ']', i + 2);
    lemma_find_char(s, ']', i + 1);
    let a = find_char(s, ']', i + 2);
    if a >= 0 {
        lemma_find_char(s, ')', a + 2);
    }
    let b = find_char(s, ']', i + 1);
    if b >= 0 {
        lemma_find_char(s, ')', b + 2);
    }
    lemma_scan_ir(s, i + 2, 1, 0, false, false);
    lemma_text_end(s, i + 1);
}

proof fn lemma_items_below(s: Seq<char>, base: Position, i: int, acc: Seq<SpecInline>)
    requires
        inlines_sources_below(acc, s.len()),
    ensures
        inline_items(s, base, i, acc) matches Ok(items) ==> inlines_sources_below(items, s.len()),
    decreases s.len(), 1int, s.len() - i,
{
    if 0 <= i < s.len() {
        lemma_item_below(s, base, i);
        lemma_inline_item_progress(s, base, i);
        if let Ok((item, j)) = inline_item(s, base, i) {
            if i < j <= s.len() {
                let next = acc.push(item);
                assert forall|k: int| 0 <= k < next.len() implies inline_sources_below(
                    #[trigger] next[k],
                    s.len(),
                ) by {
                    if k < acc.len() {
                        assert(next[k] == acc[k]);
                    }
                }
                lemma_items_below(s, base, j, next);
            }
        }
    }
}

pub proof fn lemma_inlines_of_below(s: Seq<char>, base: Position)
    ensures
        inlines_of(s, base) matches Ok(items) ==> inlines_sources_below(items, s.len()),
    decreases s.len(), 2int, 0int,
{
    lemma_items_below(s, base, 0, Seq::empty());
}

proof fn lemma_inner_below(s: Seq<char>, base: Position, a: int, b: int)
    ensures
        inner_inlines(s, base, a, b) matches Ok(items) ==> inlines_sources_below(items, s.len()),
    decreases s.len(), 0int, 1int,
{
    if 0 <= a <= b <= s.len() && b - a < s.len() {
        let sub = s.subrange(a, b);
        lemma_inlines_of_below(sub, pos_over(base, s.take(a)));
        if let Ok(items) = inlines_of(sub, pos_over(base, s.take(a))) {
            assert forall|k: int| 0 <= k < items.len() implies inline_sources_below(
                #[trigger] items[k],
                s.len(),
            ) by {
                lemma_sources_below_mono(items[k], sub.len(), s.len());
            }
        }
    }
}

proof fn lemma_item_below(s: Seq<char>, base: Position, i: int)
    ensures
        inline_item(s, base, i) matches Ok((item, _)) ==> inline_sources_below(item, s.len()),
    decreases s.len(), 0int, 2int,
{
    if at2(s, i, '*', '*') {
        lemma_inner_below(s, base, i + 2, find_double(s, '*', i + 2));
    } else if at(s, i, '*') {
        lemma_inner_below(s, base, i + 1, find_char(s, '*', i + 1));
    } else if at(s, i, '`') || at2(s, i, '!', '[') {
    } else if at(s, i, '[') {
        lemma_inner_below(s, base, i + 1, find_char(s, ']', i + 1));
    } else if at2(s, i, '\\', '(') {
        if 0 <= i {
            lemma_scan_ir(s, i + 2, 1, 0, false, false);
        }
    }
}

proof fn lemma_find_double_hit(s: Seq<char>, c: char, i: int)
    requires
        0 <= i,
    ensures
        find_double(s, c, i) != -1 ==> s[find_double(s, c, i)] == c && s[find_double(s, c, i) + 1] == c,
    decreases s.len() - i,
{
    if i + 1 < s.len() && !(s[i] == c && s[i + 1] == c) {
        lemma_find_double_hit(s, c, i + 1);
    }
}

proof fn lemma_scan_ir_closes(s: Seq<char>, k: int, paren: nat, bracket: nat, in_str: bool, esc: bool)
    requires
        0 <= k,
    ensures
        scan_ir(s, k, paren, bracket, in_str, esc) >= 0 ==> s[scan_ir(s, k, paren, bracket, in_str, esc)] == ')',
    decreases s.len() - k,
{
    if 0 <= k < s.len() {
        let c = s[k];
        if in_str {
            if esc {
                lemma_scan_ir_closes(s, k + 1, paren, bracket, true, false);
            } else if c == '\\' {
                lemma_scan_ir_closes(s, k + 1, paren, bracket, true, true);
            } else if c == '"' {
                lemma_scan_ir_closes(s, k + 1, paren, bracket, false, false);
            } else {
                lemma_scan_ir_closes(s, k + 1, paren, bracket, true, false);
            }
        } else if c == '"' {
            lemma_scan_ir_closes(s, k + 1, paren, bracket, true, false);
        } else if c == '[' {
            lemma_scan_ir_closes(s, k + 1, paren, bracket + 1, false, false);
        } else if c == ']' && bracket > 0 {
            lemma_scan_ir_closes(s, k + 1, paren, (bracket - 1) as nat, false, false);
        } else if c == '(' && bracket == 0 {
            lemma_scan_ir_closes(s, k + 1, paren + 1, bracket, false, false);
        } else if c == ')' && bracket == 0 {
            if paren > 1 {
                lemma_scan_ir_closes(s, k + 1, (paren - 1) as nat, bracket, false, false);
            }
        } else {
            lemma_scan_ir_closes(s, k + 1, paren, bracket, false, false);
        }
    }
}

/// Whether the characters `s[i..j]` spell the inline `item`: for strong
/// text, `**`, its inner text and `**`; for emphasis, `*`, its inner text
/// and `*`; for code, `` ` ``, its text and `` ` ``; for a link, `[`, its
/// label, `](`, its destination and `)`; for an image, `![`, its
/// alternative text, `](`, its source and `)`; for embedded IR, `\(`, its
/// source and `)`; for text, the text itself. The children of strong text,
/// emphasis and links are the inlines of their inner text or label.
pub open spec fn spells_inline(s: Seq<char>, base: Position, i: int, j: int, item: SpecInline) -> bool {
    let t = s.subrange(i, j);
    &&& i < j <= s.len()
    &&& match item.kind {
        SpecInlineKind::Strong(c) => exists|x: Seq<char>|
            t == seq!['*', '*'] + x + seq!['*', '*'] && #[trigger] inner_inlines(s, base, i + 2, i + 2 + x.len())
                == Ok::<Seq<SpecInline>, SpecError>(c),
        SpecInlineKind::Emphasis(c) => exists|x: Seq<char>|
            t == seq!['*'] + x + seq!['*'] && #[trigger] inner_inlines(s, base, i + 1, i + 1 + x.len())
                == Ok::<Seq<SpecInline>, SpecError>(c),
        SpecInlineKind::Code(x) => t == seq!['`'] + x + seq!['`'],
        SpecInlineKind::Link { href, children } => exists|x: Seq<char>|
            t == seq!['['] + x + seq![']', '('] + href + seq![')'] && #[trigger] inner_inlines(
                s,
                base,
                i + 1,
                i + 1 + x.len(),
            ) == Ok::<Seq<SpecInline>, SpecError>(children),
        SpecInlineKind::Image { src, alt } => t == seq!['!', '['] + alt + seq![']', '('] + src + seq![')'],
        SpecInlineKind::EmbeddedIr(x) => t == seq!['\\', '('] + x + seq![')'],
        SpecInlineKind::Text(x) => t == x,
    }
}

proof fn lemma_spells_strong(s: Seq<char>, base: Position, i: int)
    requires
        0 <= i < s.len(),
        at2(s, i, '*', '*'),
    ensures
        inline_item(s, base, i) matches Ok((item, j)) ==> spells_inline(s, base, i, j, item),
{
    lemma_inline_item_progress(s, base, i);
    lemma_find_double(s, '*', i + 2);
    lemma_find_double_hit(s, '*', i + 2);
    let close = find_double(s, '*', i + 2);
    if close >= 0 {
        let x = s.subrange(i + 2, close);
        assert(s.subrange(i, close + 2) =~= seq!['*', '*'] + x + seq!['*', '*']);
        assert(inner_inlines(s, base, i + 2, i + 2 + x.len()) == inner_inlines(s, base, i + 2, close));
    }
}

proof fn lemma_spells_emphasis(s: Seq<char>, base: Position, i: int)
    requires
        0 <= i < s.len(),
        !at2(s, i, '*', '*'),
        at(s, i, '*'),
    ensures
        inline_item(s, base, i) matches Ok((item, j)) ==> spells_inline(s, base, i, j, item),
{
    lemma_inline_item_progress(s, base, i);
    lemma_find_char(s, '*', i + 1);
    let close = find_char(s, '*', i + 1);
    if close >= 0 {
        let x = s.subrange(i + 1, close);
        assert(s.subrange(i, close + 1) =~= seq!['*'] + x + seq!['*']);
        assert(inner_inlines(s, base, i + 1, i + 1 + x.len()) == inner_inlines(s, base, i + 1, close));
    }
}

proof fn lemma_spells_code(s: Seq<char>, base: Position, i: int)
    requires
        0 <= i < s.len(),
        !at(s, i, '*'),
        at(s, i, '`'),
    ensures
        inline_item(s, base, i) matches Ok((item, j)) ==> spells_inline(s, base, i, j, item),
{
    lemma_inline_item_progress(s, base, i);
    lemma_find_char(s, '`', i + 1);
    let close = find_char(s, '`', i + 1);
    if close >= 0 {
        assert(s.subrange(i, close + 1) =~= seq!['`'] + s.subrange(i + 1, close) + seq!['`']);
    }
}

proof fn lemma_spells_image(s: Seq<char>, base: Position, i: int)
    requires
        0 <= i < s.len(),
        !at(s, i, '*'),
        !at(s, i, '`'),
        at2(s, i, '!', '['),
    ensures
        inline_item(s, base, i) matches Ok((item, j)) ==> spells_inline(s, base, i, j, item),
{
    lemma_inline_item_progress(s, base, i);
    lemma_find_char(s, ']', i + 2);
    let alt_end = find_char(s, ']', i + 2);
    if alt_end >= 0 && at(s, alt_end + 1, '(') {
        lemma_find_char(s, ')', alt_end + 2);
        let src_end = find_char(s, ')', alt_end + 2);
        if src_end >= 0 {
            assert(s.subrange(i, src_end + 1) =~= seq!['!', '['] + s.subrange(i + 2, alt_end) + seq![
                ']',
                '(',
            ] + s.subrange(alt_end + 2, src_end) + seq![')']);
        }
    }
}

proof fn lemma_spells_link(s: Seq<char>, base: Position, i: int)
    requires
        0 <= i < s.len(),
        !at(s, i, '*'),
        !at(s, i, '`'),
        !at2(s, i, '!', '['),
        at(s, i, '['),
    ensures
        inline_item(s, base, i) matches Ok((item, j)) ==> spells_inline(s, base, i, j, item),
{
    lemma_inline_item_progress(s, base, i);
    lemma_find_char(s, ']', i + 1);
    let label_end = find_char(s, ']', i + 1);
    if label_end >= 0 && at(s, label_end + 1, '(') {
        lemma_find_char(s, ')', label_end + 2);
        let href_end = find_char(s, ')', label_end + 2);
        if href_end >= 0 {
            let x = s.subrange(i + 1, label_end);
            assert(s.subrange(i, href_end + 1) =~= seq!['['] + x + seq![']', '('] + s.subrange(
                label_end + 2,
                href_end,
            ) + seq![')']);
            assert(inner_inlines(s, base, i + 1, i + 1 + x.len()) == inner_inlines(s, base, i + 1, label_end));
        }
    }
}

proof fn lemma_spells_embedded(s: Seq<char>, base: Position, i: int)
    requires
        0 <= i < s.len(),
        !at(s, i, '*'),
        !at(s, i, '`'),
        !at2(s, i, '!', '['),
        !at(s, i, '['),
        at2(s, i, '\\', '('),
    ensures
        inline_item(s, base, i) matches Ok((item, j)) ==> spells_inline(s, base, i, j, item),
{
    lemma_inline_item_progress(s, base, i);
    lemma_scan_ir(s, i + 2, 1, 0, false, false);
    lemma_scan_ir_closes(s, i + 2, 1, 0, false, false);
    let close = scan_ir(s, i + 2, 1, 0, false, false);
    if close >= 0 {
        assert(s.subrange(i, close + 1) =~= seq!['\\', '('] + s.subrange(i + 2, close) + seq![')']);
    }
}

/// An inline spells its own syntax: the characters it was read from are
/// its delimiters around its contents, as `spells_inline` lists them.
pub proof fn law_inlines_spell_their_syntax(s: Seq<char>, base: Position, i: int)
    requires
        0 <= i < s.len(),
    ensures
        inline_item(s, base, i) matches Ok((item, j)) ==> spells_inline(s, base, i, j, item),
{
    if at2(s, i, '*', '*') {
        lemma_spells_strong(s, base, i);
    } else if at(s, i, '*') {
        lemma_spells_emphasis(s, base, i);
    } else if at(s, i, '`') {
        lemma_spells_code(s, base, i);
    } else if at2(s, i, '!', '[') {
        lemma_spells_image(s, base, i);
    } else if at(s, i, '[') {
        lemma_spells_link(s, base, i);
    } else if at2(s, i, '\\', '(') {
        lemma_spells_embedded(s, base, i);
    } else {
        lemma_inline_item_progress(s, base, i);
    }
}

/// The error of `kind` over `s[a..b]`.
fn error_at(kind: ParseErrorKind, base: Position, s: &Vec<char>, a: usize, b: usize) -> (r: ParseError)
    requires
        a <= s@.len(),
        b <= s@.len(),
    ensures
        r.kind == kind,
        r.span == Some(span_in(base, s@, a as int, b as int)),
{
    ParseError::new(kind, Some(span_of(base, s, a, b)))
}

/// The inlines of `s[a..b]`, which starts where `s[..a]` ends.
fn inner_inlines_exec(s: &Vec<char>, base: Position, a: usize, b: usize) -> (r: Result<Vec<SourceInline>, ParseError>)
    requires
        a <= b <= s@.len(),
        b - a < s@.len(),
    ensures
        match r {
            Ok(v) => inner_inlines(s@, base, a as int, b as int) == Ok::<Seq<SpecInline>, SpecError>(src_inlines_view(v@)),
            Err(e) => inner_inlines(s@, base, a as int, b as int) == Err::<Seq<SpecInline>, SpecError>(e@),
        },
    decreases s@.len(), 0int,
{
    let sub = chars_range(s, a, b);
    let start = position_of(base, s, a);
    inline_items_exec(&sub, start)
}

fn strong_exec(s: &Vec<char>, base: Position, i: usize) -> (r: Result<(SourceInline, usize), ParseError>)
    requires
        i < s@.len(),
        at2(s@, i as int, '*', '*'),
    ensures
        match r {
            Ok((x, j)) => inline_item(s@, base, i as int) == Ok::<(SpecInline, int), SpecError>((src_inline_view(x), j as int)),
            Err(e) => inline_item(s@, base, i as int) == Err::<(SpecInline, int), SpecError>(e@),
        },
    decreases s@.len(), 1int,
{
    let n = s.len();
    proof {
        lemma_find_double(s@, '*', i + 2);
    }
    let close = match find_double_exec(s, '*', i + 2) {
        Some(k) => k,
        None => {
            return Err(error_at(ParseErrorKind::UnterminatedStrong, base, s, i, s.len()));
        },
    };
    let children = match inner_inlines_exec(s, base, i + 2, close) {
        Ok(c) => c,
        Err(e) => {
            return Err(e);
        },
    };
    let span = span_of(base, s, i, close + 2);
    Ok((SourceInline { kind: SourceInlineKind::Strong(children), span }, close + 2))
}

fn emphasis_exec(s: &Vec<char>, base: Position, i: usize) -> (r: Result<(SourceInline, usize), ParseError>)
    requires
        i < s@.len(),
        !at2(s@, i as int, '*', '*'),
        at(s@, i as int, '*'),
    ensures
        match r {
            Ok((x, j)) => inline_item(s@, base, i as int) == Ok::<(SpecInline, int), SpecError>((src_inline_view(x), j as int)),
            Err(e) => inline_item(s@, base, i as int) == Err::<(SpecInline, int), SpecError>(e@),
        },
    decreases s@.len(), 1int,
{
    let n = s.len();
    proof {
        lemma_find_char(s@, '*', i + 1);
    }
    let close = match find_char_exec(s, '*', i + 1) {
        Some(k) => k,
        None => {
            return Err(error_at(ParseErrorKind::UnterminatedEmphasis, base, s, i, s.len()));
        },
    };
    let children = match inner_inlines_exec(s, base, i + 1, close) {
        Ok(c) => c,
        Err(e) => {
            return Err(e);
        },
    };
    let span = span_of(base, s, i, close + 1);
    Ok((SourceInline { kind: SourceInlineKind::Emphasis(children), span }, close + 1))
}

fn code_exec(s: &Vec<char>, base: Position, i: usize) -> (r: Result<(SourceInline, usize), ParseError>)
    requires
        i < s@.len(),
        !at(s@, i as int, '*'),
        at(s@, i as int, '`'),
    ensures
        match r {
            Ok((x, j)) => inline_item(s@, base, i as int) == Ok::<(SpecInline, int), SpecError>((src_inline_view(x), j as int)),
            Err(e) => inline_item(s@, base, i as int) == Err::<(SpecInline, int), SpecError>(e@),
        },
{
    let n = s.len();
    proof {
        lemma_find_char(s@, '`', i + 1);
    }
    let close = match find_char_exec(s, '`', i + 1) {
        Some(k) => k,
        None => {
            return Err(error_at(ParseErrorKind::UnterminatedInlineCode, base, s, i, s.len()));
        },
    };
    let text = string_of(s, i + 1, close);
    let span = span_of(base, s, i, close + 1);
    Ok((SourceInline { kind: SourceInlineKind::Code(text), span }, close + 1))
}

fn image_exec(s: &Vec<char>, base: Position, i: usize) -> (r: Result<(SourceInline, usize), ParseError>)
    requires
        i < s@.len(),
        !at(s@, i as int, '*'),
        !at(s@, i as int, '`'),
        at2(s@, i as int, '!', '['),
    ensures
        match r {
            Ok((x, j)) => inline_item(s@, base, i as int) == Ok::<(SpecInline, int), SpecError>((src_inline_view(x), j as int)),
            Err(e) => inline_item(s@, base, i as int) == Err::<(SpecInline, int), SpecError>(e@),
        },
{
    let n = s.len();
    proof {
        lemma_find_char(s@, ']', i + 2);
    }
    let alt_end = match find_char_exec(s, ']', i + 2) {
        Some(k) => k,
        None => {
            return Err(error_at(ParseErrorKind::UnterminatedImage, base, s, i, s.len()));
        },
    };
    if !at_exec(s, alt_end + 1, '(') {
        return Err(error_at(ParseErrorKind::UnterminatedImage, base, s, i, alt_end + 1));
    }
    proof {
        lemma_find_char(s@, ')', alt_end + 2);
    }
    let src_end = match find_char_exec(s, ')', alt_end + 2) {
        Some(k) => k,
        None => {
            return Err(error_at(ParseErrorKind::UnterminatedImage, base, s, i, s.len()));
        },
    };
    let src = string_of(s, alt_end + 2, src_end);
    let alt = string_of(s, i + 2, alt_end);
    let span = span_of(base, s, i, src_end + 1);
    Ok((SourceInline { kind: SourceInlineKind::Image { src, alt }, span }, src_end + 1))
}

fn link_exec(s: &Vec<char>, base: Position, i: usize) -> (r: Result<(SourceInline, usize), ParseError>)
    requires
        i < s@.len(),
        !at(s@, i as int, '*'),
        !at(s@, i as int, '`'),
        !at2(s@, i as int, '!', '['),
        at(s@, i as int, '['),
    ensures
        match r {
            Ok((x, j)) => inline_item(s@, base, i as int) == Ok::<(SpecInline, int), SpecError>((src_inline_view(x), j as int)),
            Err(e) => inline_item(s@, base, i as int) == Err::<(SpecInline, int), SpecError>(e@),
        },
    decreases s@.len(), 1int,
{
    let n = s.len();
    proof {
        lemma_find_char(s@, ']', i + 1);
    }
    let label_end = match find_char_exec(s, ']', i + 1) {
        Some(k) => k,
        None => {
            return Err(error_at(ParseErrorKind::UnterminatedLink, base, s, i, s.len()));
        },
    };
    if !at_exec(s, label_end + 1, '(') {
        return Err(error_at(ParseErrorKind::UnterminatedLink, base, s, i, label_end + 1));
    }
    proof {
        lemma_find_char(s@, ')', label_end + 2);
    }
    let href_end = match find_char_exec(s, ')', label_end + 2) {
        Some(k) => k,
        None => {
            return Err(error_at(ParseErrorKind::UnterminatedLink, base, s, i, s.len()));
        },
    };
    let href = string_of(s, label_end + 2, href_end);
    let children = match inner_inlines_exec(s, base, i + 1, label_end) {
        Ok(c) => c,
        Err(e) => {
            return Err(e);
        },
    };
    let span = span_of(base, s, i, href_end + 1);
    Ok((SourceInline { kind: SourceInlineKind::Link { href, children }, span }, href_end + 1))
}

fn embedded_exec(s: &Vec<char>, base: Position, i: usize) -> (r: Result<(SourceInline, usize), ParseError>)
    requires
        i < s@.len(),
        !at(s@, i as int, '*'),
        !at(s@, i as int, '`'),
        !at2(s@, i as int, '!', '['),
        !at(s@, i as int, '['),
        at2(s@, i as int, '\\', '('),
    ensures
        match r {
            Ok((x, j)) => inline_item(s@, base, i as int) == Ok::<(SpecInline, int), SpecError>((src_inline_view(x), j as int)),
            Err(e) => inline_item(s@, base, i as int) == Err::<(SpecInline, int), SpecError>(e@),
        },
{
    let n = s.len();
    proof {
        lemma_scan_ir(s@, i + 2, 1, 0, false, false);
    }
    let close = match scan_ir_exec(s, i + 2) {
        Some(k) => k,
        None => {
            return Err(error_at(ParseErrorKind::UnterminatedEmbeddedIr, base, s, i, s.len()));
        },
    };
    let text = string_of(s, i + 2, close);
    let span = span_of(base, s, i, close + 1);
    Ok((SourceInline { kind: SourceInlineKind::EmbeddedIr(text), span }, close + 1))
}

fn text_exec(s: &Vec<char>, base: Position, i: usize) -> (r: Result<(SourceInline, usize), ParseError>)
    requires
        i < s@.len(),
        !special_at(s@, i as int),
    ensures
        match r {
            Ok((x, j)) => inline_item(s@, base, i as int) == Ok::<(SpecInline, int), SpecError>((src_inline_view(x), j as int)),
            Err(e) => inline_item(s@, base, i as int) == Err::<(SpecInline, int), SpecError>(e@),
        },
{
    let n = s.len();
    let mut end = i + 1;
    while end < n && !(at_exec(s, end, '*') || at_exec(s, end, '`') || at2_exec(s, end, '!', '[')
        || at_exec(s, end, '[') || at2_exec(s, end, '\\', '('))
        invariant
            i < end <= n == s@.len(),
            text_end(s@, i + 1) == text_end(s@, end as int),
        decreases n - end,
    {
        end += 1;
    }
    let text = string_of(s, i, end);
    let span = span_of(base, s, i, end);
    Ok((SourceInline { kind: SourceInlineKind::Text(text), span }, end))
}

/// The inline that starts at `i`, and the index after it.
fn inline_item_exec(s: &Vec<char>, base: Position, i: usize) -> (r: Result<(SourceInline, usize), ParseError>)
    requires
        i < s@.len(),
    ensures
        match r {
            Ok((x, j)) => inline_item(s@, base, i as int) == Ok::<(SpecInline, int), SpecError>((src_inline_view(x), j as int)),
            Err(e) => inline_item(s@, base, i as int) == Err::<(SpecInline, int), SpecError>(e@),
        },
    decreases s@.len(), 2int,
{
    if at2_exec(s, i, '*', '*') {
        strong_exec(s, base, i)
    } else if at_exec(s, i, '*') {
        emphasis_exec(s, base, i)
    } else if at_exec(s, i, '`') {
        code_exec(s, base, i)
    } else if at2_exec(s, i, '!', '[') {
        image_exec(s, base, i)
    } else if at_exec(s, i, '[') {
        link_exec(s, base, i)
    } else if at2_exec(s, i, '\\', '(') {
        embedded_exec(s, base, i)
    } else {
        text_exec(s, base, i)
    }
}

/// The inlines of a whole text; `base` is where it starts.
fn inline_items_exec(s: &Vec<char>, base: Position) -> (r: Result<Vec<SourceInline>, ParseError>)
    ensures
        match r {
            Ok(v) => inlines_of(s@, base) == Ok::<Seq<SpecInline>, SpecError>(src_inlines_view(v@)),
            Err(e) => inlines_of(s@, base) == Err::<Seq<SpecInline>, SpecError>(e@),
        },
    decreases s@.len(), 3int,
{
    let mut items: Vec<SourceInline> = Vec::new();
    let mut i: usize = 0;
    assert(src_inlines_view(items@) =~= Seq::<SpecInline>::empty());
    while i < s.len()
        invariant
            0 <= i <= s@.len(),
            inlines_of(s@, base) == inline_items(s@, base, i as int, src_inlines_view(items@)),
        decreases s@.len() - i,
    {
        proof {
            lemma_inline_item_progress(s@, base, i as int);
        }
        let (item, j) = match inline_item_exec(s, base, i) {
            Ok(x) => x,
            Err(e) => {
                return Err(e);
            },
        };
        proof {
            lemma_src_inlines_view_push(items@, item);
        }
        items.push(item);
        i = j;
    }
    Ok(items)
}

/// The inline syntax of `input`, whose first character is at the start of
/// `base_span`.
pub fn parse_inlines(input: &str, base_span: Span) -> (r: Result<Vec<SourceInline>, ParseError>)
    ensures
        match r {
            Ok(v) => inlines_of(input@, base_span.start) == Ok::<Seq<SpecInline>, SpecError>(src_inlines_view(v@)),
            Err(e) => inlines_of(input@, base_span.start) == Err::<Seq<SpecInline>, SpecError>(e@),
        },
{
    let cs = chars_of(input);
    inline_items_exec(&cs, base_span.start)
}

/// The inline syntax of a fragment (of a paragraph, or of `[...]` in
/// embedded IR).
pub fn parse_fragment(input: &str, base_span: Span) -> (r: Result<Vec<SourceInline>, ParseError>)
    ensures
        match r {
            Ok(v) => inlines_of(input@, base_span.start) == Ok::<Seq<SpecInline>, SpecError>(src_inlines_view(v@)),
            Err(e) => inlines_of(input@, base_span.start) == Err::<Seq<SpecInline>, SpecError>(e@),
        },
{
    parse_inlines(input, base_span)
}

} // verus!
