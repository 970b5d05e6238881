//! The block syntax of author documents: headings, paragraphs, lists, block
//! quotes, code fences, thematic breaks and block-level embedded IR.
//!
//! The model works on the characters of the input and its lines (pairs of
//! character indices, the newline excluded); `blocks_from` reads the blocks
//! from a line on. The parser follows it exactly, spans included.
use vstd::prelude::*;

use crate::author::error::{ParseError, ParseErrorKind, SpecError, SpecErrorKind};
use crate::author::inline_parser::{inlines_of, parse_inlines};
use crate::author::scan::{
    at, chars_range, lemma_scan_ir, lemma_trimmed, origin, pos_over, position_of, scan_ir,
    scan_ir_exec, span_in, span_of, trim_range, trimmed,
};
use crate::author::syntax::{
    SourceBlock, SourceBlockKind, SourceDocument, SourceInline, SpecBlock, SpecBlockKind,
    SpecInline, lemma_src_blocks_view_push, src_block_view, src_blocks_view, src_inlines_view,
};
use crate::ir::ast::Node;
use crate::ir::lexer::Span;
use crate::text::{chars_of, push_char, push_str, string_from_chars, string_of};

verus! {

/// The index of the first newline at or after `i`, or the length.
pub open spec fn eol(s: Seq<char>, i: int) -> int
    decreases s.len() - i,
{
    if i < 0 || i >= s.len() || s[i] == '\n' {
        i
    } else {
        eol(s, i + 1)
    }
}

pub proof fn lemma_eol(s: Seq<char>, i: int)
    requires
        0 <= i <= s.len(),
    ensures
        i <= eol(s, i) <= s.len(),
    decreases s.len() - i,
{
    if i < s.len() && s[i] != '\n' {
        lemma_eol(s, i + 1);
    }
}

/// The lines of `s` from `start` on: the bounds of each, newline excluded.
/// A last line is there only if it is not empty.
pub open spec fn lines_from(s: Seq<char>, start: int) -> Seq<(usize, usize)>
    decreases s.len() - start,
{
    if start < 0 || start >= s.len() {
        Seq::empty()
    } else {
        let e = eol(s, start);
        proof {
            lemma_eol(s, start);
        }
        if e + 1 >= s.len() {
            seq![(start as usize, e as usize)]
        } else {
            seq![(start as usize, e as usize)] + lines_from(s, e + 1)
        }
    }
}

/// Every line lies within the text.
pub open spec fn lines_ok(s: Seq<char>, lines: Seq<(usize, usize)>) -> bool {
    forall|i: int| 0 <= i < lines.len() ==> #[trigger] lines[i].0 <= lines[i].1 <= s.len()
}

proof fn lemma_lines_from(s: Seq<char>, start: int)
    requires
        0 <= start,
        s.len() <= usize::MAX,
    ensures
        lines_ok(s, lines_from(s, start)),
    decreases s.len() - start,
{
    if start < s.len() {
        lemma_eol(s, start);
        let e = eol(s, start);
        if e + 1 < s.len() {
            lemma_lines_from(s, e + 1);
        }
        let rest = if e + 1 >= s.len() {
            Seq::<(usize, usize)>::empty()
        } else {
            lines_from(s, e + 1)
        };
        assert(lines_from(s, start) == seq![(start as usize, e as usize)] + rest);
        assert forall|i: int| 0 <= i < lines_from(s, start).len() implies #[trigger] lines_from(
            s,
            start,
        )[i].0 <= lines_from(s, start)[i].1 <= s.len() by {
            if i > 0 {
                assert(lines_from(s, start)[i] == rest[i - 1]);
            }
        }
    }
}

/// The lines of a text.
fn collect_lines(s: &Vec<char>) -> (r: Vec<(usize, usize)>)
    ensures
        r@ == lines_from(s@, 0),
        lines_ok(s@, r@),
{
    let n = s.len();
    let mut lines: Vec<(usize, usize)> = Vec::new();
    let mut start: usize = 0;
    proof {
        lemma_lines_from(s@, 0);
    }
    while start < n
        invariant
            n == s@.len(),
            0 <= start,
            start <= n || start == 0,
            lines_ok(s@, lines_from(s@, 0)),
            lines_from(s@, 0) == lines@ + lines_from(s@, start as int),
        decreases n - start,
    {
        let mut e = start;
        while e < n && s[e] != '\n'
            invariant
                n == s@.len(),
                start < n,
                start <= e <= n,
                eol(s@, start as int) == eol(s@, e as int),
            decreases n - e,
        {
            e += 1;
        }
        proof {
            lemma_eol(s@, start as int);
        }
        if e >= n - 1 {
            proof {
                assert(lines@ + lines_from(s@, start as int) =~= lines@.push((start, e)));
            }
            lines.push((start, e));
            return lines;
        }
        proof {
            assert(lines@ + lines_from(s@, start as int) =~= lines@.push((start, e)) + lines_from(
                s@,
                e + 1,
            ));
        }
        lines.push((start, e));
        start = e + 1;
    }
    assert(lines@ + lines_from(s@, start as int) =~= lines@);
    lines
}

/// Whether `s[a..b]` holds whitespace only.
pub open spec fn blank(s: Seq<char>, a: int, b: int) -> bool {
    trimmed(s, a, b).0 == trimmed(s, a, b).1
}

/// Whether the line `s[a..b]` starts with the characters `p`.
pub open spec fn starts(s: Seq<char>, a: int, b: int, p: Seq<char>) -> bool {
    a + p.len() <= b && s.subrange(a, a + p.len()) == p
}

/// Whether the trimmed line `s[a..b]` is `p`.
pub open spec fn trimmed_is(s: Seq<char>, a: int, b: int, p: Seq<char>) -> bool {
    s.subrange(trimmed(s, a, b).0, trimmed(s, a, b).1) == p
}

/// The end of the run of `c` that starts at `i`, before `b`.
pub open spec fn run_end(s: Seq<char>, c: char, i: int, b: int) -> int
    decreases b - i,
{
    if 0 <= i < b && i < s.len() && s[i] == c {
        run_end(s, c, i + 1, b)
    } else {
        i
    }
}

/// The end of the run of ASCII digits that starts at `i`, before `b`.
pub open spec fn digits_end(s: Seq<char>, i: int, b: int) -> int
    decreases b - i,
{
    if 0 <= i < b && i < s.len() && '0' <= s[i] <= '9' {
        digits_end(s, i + 1, b)
    } else {
        i
    }
}

/// Whether the line `s[a..b]` is a heading: one to six `#` and a space.
pub open spec fn is_heading(s: Seq<char>, a: int, b: int) -> bool {
    let h = run_end(s, '#', a, b);
    1 <= h - a <= 6 && h < b && s[h] == ' '
}

/// Where the content of an unordered list item line starts.
pub open spec fn unordered_content(s: Seq<char>, a: int, b: int) -> Option<int> {
    if starts(s, a, b, seq!['-', ' ']) {
        Some(a + 2)
    } else {
        None
    }
}

/// Where the content of an ordered list item line (`12. `) starts.
pub open spec fn ordered_content(s: Seq<char>, a: int, b: int) -> Option<int> {
    let d = digits_end(s, a, b);
    if d == a {
        None
    } else if starts(s, d, b, seq!['.', ' ']) {
        Some(d + 2)
    } else {
        None
    }
}

/// Where the content of a block quote line (`> ` or `>`) starts.
pub open spec fn quote_content(s: Seq<char>, a: int, b: int) -> Option<int> {
    if starts(s, a, b, seq!['>', ' ']) {
        Some(a + 2)
    } else if starts(s, a, b, seq!['>']) {
        Some(a + 1)
    } else {
        None
    }
}

pub open spec fn at_embedded(s: Seq<char>, a: int, b: int) -> bool {
    starts(s, a, b, seq!['\\', '('])
}

pub open spec fn at_fence(s: Seq<char>, a: int, b: int) -> bool {
    starts(s, a, b, seq!['`', '`', '`'])
}

pub open spec fn at_break(s: Seq<char>, a: int, b: int) -> bool {
    trimmed_is(s, a, b, seq!['-', '-', '-'])
}

/// Whether a line starts a block other than a paragraph, which ends the
/// paragraph before it.
pub open spec fn is_block_start(s: Seq<char>, a: int, b: int) -> bool {
    ||| is_heading(s, a, b)
    ||| at_embedded(s, a, b)
    ||| unordered_content(s, a, b) is Some
    ||| ordered_content(s, a, b) is Some
    ||| quote_content(s, a, b) is Some
    ||| at_break(s, a, b)
    ||| at_fence(s, a, b)
}

/// The span of `s[a..b]` in the document.
pub open spec fn doc_span(s: Seq<char>, a: int, b: int) -> Span {
    span_in(origin(), s, a, b)
}

/// The parts joined, with `sep` between each two.
pub open spec fn join_with(parts: Seq<Seq<char>>, sep: char) -> Seq<char>
    decreases parts.len(),
{
    if parts.len() == 0 {
        Seq::empty()
    } else if parts.len() == 1 {
        parts[0]
    } else {
        join_with(parts.drop_last(), sep).push(sep) + parts.last()
    }
}

/// The text of `s[a..b]` without leading and trailing whitespace.
pub open spec fn trimmed_text(s: Seq<char>, a: int, b: int) -> Seq<char> {
    s.subrange(trimmed(s, a, b).0, trimmed(s, a, b).1)
}

/// The end of a paragraph whose lines go on from `i`: at a blank line, a
/// line that starts another block, or the end.
pub open spec fn para_more(s: Seq<char>, lines: Seq<(usize, usize)>, i: int) -> int
    decreases lines.len() - i,
{
    if i < 0 || i >= lines.len() || blank(s, lines[i].0 as int, lines[i].1 as int)
        || is_block_start(s, lines[i].0 as int, lines[i].1 as int) {
        i
    } else {
        para_more(s, lines, i + 1)
    }
}

/// The trimmed texts of the lines `c0..c1`.
pub open spec fn para_parts(s: Seq<char>, lines: Seq<(usize, usize)>, c0: int, c1: int) -> Seq<Seq<char>> {
    Seq::new((c1 - c0) as nat, |k: int| trimmed_text(s, lines[c0 + k].0 as int, lines[c0 + k].1 as int))
}

/// The end of a block quote whose lines go on from `i`.
pub open spec fn quote_more(s: Seq<char>, lines: Seq<(usize, usize)>, i: int) -> int
    decreases lines.len() - i,
{
    if i < 0 || i >= lines.len() || quote_content(s, lines[i].0 as int, lines[i].1 as int) is None
        || blank(s, lines[i].0 as int, lines[i].1 as int) {
        i
    } else {
        quote_more(s, lines, i + 1)
    }
}

/// The trimmed contents of the quote lines `c0..c1`.
pub open spec fn quote_parts(s: Seq<char>, lines: Seq<(usize, usize)>, c0: int, c1: int) -> Seq<Seq<char>> {
    Seq::new(
        (c1 - c0) as nat,
        |k: int|
            trimmed_text(
                s,
                quote_content(s, lines[c0 + k].0 as int, lines[c0 + k].1 as int)->Some_0,
                lines[c0 + k].1 as int,
            ),
    )
}

/// Where the content of a list item line starts, for the list's kind.
pub open spec fn item_content(s: Seq<char>, a: int, b: int, ordered: bool) -> Option<int> {
    if ordered {
        ordered_content(s, a, b)
    } else {
        unordered_content(s, a, b)
    }
}

/// The end of a list whose lines go on from `i`.
pub open spec fn list_more(s: Seq<char>, lines: Seq<(usize, usize)>, i: int, ordered: bool) -> int
    decreases lines.len() - i,
{
    if i < 0 || i >= lines.len() || blank(s, lines[i].0 as int, lines[i].1 as int)
        || item_content(s, lines[i].0 as int, lines[i].1 as int, ordered) is None {
        i
    } else {
        list_more(s, lines, i + 1, ordered)
    }
}

/// The item of the list line `i`: a paragraph of the line's content.
pub open spec fn list_item_at(s: Seq<char>, lines: Seq<(usize, usize)>, i: int, ordered: bool) -> Result<SpecBlock, SpecError> {
    let a = lines[i].0 as int;
    let b = lines[i].1 as int;
    let k = item_content(s, a, b, ordered)->Some_0;
    match inlines_of(s.subrange(k, b), pos_over(origin(), s.take(k))) {
        Err(e) => Err(e),
        Ok(inlines) => Ok(
            Node {
                kind: SpecBlockKind::ListItem(
                    seq![Node { kind: SpecBlockKind::Paragraph(inlines), span: doc_span(s, k, b) }],
                ),
                span: doc_span(s, a, b),
            },
        ),
    }
}

/// The items of the list lines `i..e`, after `acc`.
pub open spec fn list_items(s: Seq<char>, lines: Seq<(usize, usize)>, i: int, e: int, ordered: bool, acc: Seq<SpecBlock>) -> Result<Seq<SpecBlock>, SpecError>
    decreases e - i,
{
    if i < 0 || i >= e || e > lines.len() {
        Ok(acc)
    } else {
        match list_item_at(s, lines, i, ordered) {
            Err(e) => Err(e),
            Ok(item) => list_items(s, lines, i + 1, e, ordered, acc.push(item)),
        }
    }
}

/// The line at or after `i` that closes a code fence, or -1.
pub open spec fn fence_close(s: Seq<char>, lines: Seq<(usize, usize)>, i: int) -> int
    decreases lines.len() - i,
{
    if i < 0 || i >= lines.len() {
        -1
    } else if trimmed_is(s, lines[i].0 as int, lines[i].1 as int, seq!['`', '`', '`']) {
        i
    } else {
        fence_close(s, lines, i + 1)
    }
}

/// The raw texts of the lines `c0..c1`.
pub open spec fn raw_parts(s: Seq<char>, lines: Seq<(usize, usize)>, c0: int, c1: int) -> Seq<Seq<char>> {
    Seq::new((c1 - c0) as nat, |k: int| s.subrange(lines[c0 + k].0 as int, lines[c0 + k].1 as int))
}

/// The first line at or after `i` that ends at or after `end`.
pub open spec fn skip_to(lines: Seq<(usize, usize)>, i: int, end: int) -> int
    decreases lines.len() - i,
{
    if i < 0 || i >= lines.len() || lines[i].1 >= end {
        i
    } else {
        skip_to(lines, i + 1, end)
    }
}

/// A heading line: the text after the marker, which must not be blank,
/// holds the heading's inlines.
pub open spec fn heading_at(s: Seq<char>, lines: Seq<(usize, usize)>, c: int) -> Result<(SpecBlock, int), SpecError> {
    let a = lines[c].0 as int;
    let b = lines[c].1 as int;
    let h = run_end(s, '#', a, b);
    if blank(s, h + 1, b) {
        Err(SpecError { kind: SpecErrorKind::EmptyHeading, span: Some(doc_span(s, a, b)) })
    } else {
    match inlines_of(s.subrange(h + 1, b), pos_over(origin(), s.take(h + 1))) {
        Err(e) => Err(e),
        Ok(inlines) => Ok(
            (
                Node {
                    kind: SpecBlockKind::Heading { level: (h - a) as u8, inlines },
                    span: doc_span(s, a, b),
                },
                c + 1,
            ),
        ),
    }
    }
}

pub open spec fn embedded_at(s: Seq<char>, lines: Seq<(usize, usize)>, c: int) -> Result<(SpecBlock, int), SpecError> {
    let a = lines[c].0 as int;
    let k = scan_ir(s, a + 2, 1, 0, false, false);
    if k < 0 {
        Err(
            SpecError {
                kind: SpecErrorKind::UnterminatedEmbeddedIr,
                span: Some(doc_span(s, a, s.len() as int)),
            },
        )
    } else {
        let next = skip_to(lines, c, k + 1);
        Ok(
            (
                Node {
                    kind: SpecBlockKind::EmbeddedIr(s.subrange(a + 2, k)),
                    span: doc_span(s, a, k + 1),
                },
                if next < lines.len() {
                    next + 1
                } else {
                    next
                },
            ),
        )
    }
}

pub open spec fn list_at(s: Seq<char>, lines: Seq<(usize, usize)>, c: int) -> Result<(SpecBlock, int), SpecError> {
    let a = lines[c].0 as int;
    let b = lines[c].1 as int;
    let ordered = ordered_content(s, a, b) is Some;
    let e = list_more(s, lines, c, ordered);
    match list_items(s, lines, c, e, ordered, Seq::empty()) {
        Err(err) => Err(err),
        Ok(items) => Ok(
            (
                Node {
                    kind: SpecBlockKind::List { ordered, items },
                    span: doc_span(s, a, lines[e - 1].1 as int),
                },
                e,
            ),
        ),
    }
}

pub open spec fn quote_at(s: Seq<char>, lines: Seq<(usize, usize)>, c: int) -> Result<(SpecBlock, int), SpecError> {
    let a = lines[c].0 as int;
    let e = quote_more(s, lines, c);
    let span = doc_span(s, a, lines[e - 1].1 as int);
    match inlines_of(join_with(quote_parts(s, lines, c, e), ' '), span.start) {
        Err(err) => Err(err),
        Ok(inlines) => Ok(
            (
                Node {
                    kind: SpecBlockKind::BlockQuote(
                        seq![Node { kind: SpecBlockKind::Paragraph(inlines), span }],
                    ),
                    span,
                },
                e,
            ),
        ),
    }
}

pub open spec fn fence_at(s: Seq<char>, lines: Seq<(usize, usize)>, c: int) -> Result<(SpecBlock, int), SpecError> {
    let a = lines[c].0 as int;
    let b = lines[c].1 as int;
    let (ls, le) = trimmed(s, a + 3, b);
    let lang = if ls == le {
        None
    } else {
        Some(s.subrange(ls, le))
    };
    let close = fence_close(s, lines, c + 1);
    if close < 0 {
        Err(
            SpecError {
                kind: SpecErrorKind::UnterminatedCodeFence,
                span: Some(
                    doc_span(
                        s,
                        a,
                        if c + 1 < lines.len() {
                            lines.last().1 as int
                        } else {
                            b
                        },
                    ),
                ),
            },
        )
    } else {
        Ok(
            (
                Node {
                    kind: SpecBlockKind::CodeBlock {
                        lang,
                        text: join_with(raw_parts(s, lines, c + 1, close), '\n'),
                    },
                    span: doc_span(s, a, lines[close].1 as int),
                },
                close + 1,
            ),
        )
    }
}

pub open spec fn paragraph_at(s: Seq<char>, lines: Seq<(usize, usize)>, c: int) -> Result<(SpecBlock, int), SpecError> {
    let a = lines[c].0 as int;
    let e = para_more(s, lines, c + 1);
    let span = doc_span(s, a, lines[e - 1].1 as int);
    match inlines_of(join_with(para_parts(s, lines, c, e), ' '), span.start) {
        Err(err) => Err(err),
        Ok(inlines) => Ok((Node { kind: SpecBlockKind::Paragraph(inlines), span }, e)),
    }
}

/// The block that starts at the (not blank) line `c`, and the line after
/// it.
pub open spec fn block_at(s: Seq<char>, lines: Seq<(usize, usize)>, c: int) -> Result<(SpecBlock, int), SpecError> {
    let a = lines[c].0 as int;
    let b = lines[c].1 as int;
    if is_heading(s, a, b) {
        heading_at(s, lines, c)
    } else if at_embedded(s, a, b) {
        embedded_at(s, lines, c)
    } else if unordered_content(s, a, b) is Some || ordered_content(s, a, b) is Some {
        list_at(s, lines, c)
    } else if quote_content(s, a, b) is Some {
        quote_at(s, lines, c)
    } else if at_fence(s, a, b) {
        fence_at(s, lines, c)
    } else if at_break(s, a, b) {
        Ok((Node { kind: SpecBlockKind::ThematicBreak, span: doc_span(s, a, b) }, c + 1))
    } else {
        paragraph_at(s, lines, c)
    }
}

/// The blocks of the document from line `c` on, after `acc`; blank lines
/// between blocks are skipped.
pub open spec fn blocks_from(s: Seq<char>, lines: Seq<(usize, usize)>, c: int, acc: Seq<SpecBlock>) -> Result<Seq<SpecBlock>, SpecError>
    decreases lines.len() - c,
{
    if c < 0 || c >= lines.len() {
        Ok(acc)
    } else if blank(s, lines[c].0 as int, lines[c].1 as int) {
        blocks_from(s, lines, c + 1, acc)
    } else {
        match block_at(s, lines, c) {
            Err(e) => Err(e),
            Ok((block, next)) => if next <= c || next > lines.len() {
                Ok(acc)
            } else {
                blocks_from(s, lines, next, acc.push(block))
            },
        }
    }
}

/// The blocks of an author document.
pub open spec fn document_blocks(s: Seq<char>) -> Result<Seq<SpecBlock>, SpecError> {
    blocks_from(s, lines_from(s, 0), 0, Seq::empty())
}


/// The result of reading one block, as the model sees it.
pub open spec fn block_outcome(r: Result<(SourceBlock, usize), ParseError>) -> Result<(SpecBlock, int), SpecError> {
    match r {
        Ok((x, j)) => Ok((src_block_view(x), j as int)),
        Err(e) => Err(e@),
    }
}

pub proof fn lemma_para_more(s: Seq<char>, lines: Seq<(usize, usize)>, i: int)
    requires
        0 <= i <= lines.len(),
    ensures
        i <= para_more(s, lines, i) <= lines.len(),
    decreases lines.len() - i,
{
    if i < lines.len() && !blank(s, lines[i].0 as int, lines[i].1 as int) && !is_block_start(
        s,
        lines[i].0 as int,
        lines[i].1 as int,
    ) {
        lemma_para_more(s, lines, i + 1);
    }
}

pub proof fn lemma_quote_more(s: Seq<char>, lines: Seq<(usize, usize)>, i: int)
    requires
        0 <= i <= lines.len(),
    ensures
        i <= quote_more(s, lines, i) <= lines.len(),
        forall|j: int|
            i <= j < quote_more(s, lines, i) ==> #[trigger] quote_content(
                s,
                lines[j].0 as int,
                lines[j].1 as int,
            ) is Some,
    decreases lines.len() - i,
{
    if i < lines.len() && quote_content(s, lines[i].0 as int, lines[i].1 as int) is Some && !blank(
        s,
        lines[i].0 as int,
        lines[i].1 as int,
    ) {
        lemma_quote_more(s, lines, i + 1);
    }
}

pub proof fn lemma_list_more(s: Seq<char>, lines: Seq<(usize, usize)>, i: int, ordered: bool)
    requires
        0 <= i <= lines.len(),
    ensures
        i <= list_more(s, lines, i, ordered) <= lines.len(),
        forall|j: int|
            i <= j < list_more(s, lines, i, ordered) ==> #[trigger] item_content(
                s,
                lines[j].0 as int,
                lines[j].1 as int,
                ordered,
            ) is Some,
    decreases lines.len() - i,
{
    if i < lines.len() && !blank(s, lines[i].0 as int, lines[i].1 as int) && item_content(
        s,
        lines[i].0 as int,
        lines[i].1 as int,
        ordered,
    ) is Some {
        lemma_list_more(s, lines, i + 1, ordered);
    }
}

pub proof fn lemma_fence_close(s: Seq<char>, lines: Seq<(usize, usize)>, i: int)
    requires
        0 <= i,
    ensures
        fence_close(s, lines, i) == -1 || i <= fence_close(s, lines, i) < lines.len(),
    decreases lines.len() - i,
{
    if i < lines.len() && !trimmed_is(s, lines[i].0 as int, lines[i].1 as int, seq!['`', '`', '`']) {
        lemma_fence_close(s, lines, i + 1);
    }
}

pub proof fn lemma_skip_to(lines: Seq<(usize, usize)>, i: int, end: int)
    requires
        0 <= i <= lines.len(),
    ensures
        i <= skip_to(lines, i, end) <= lines.len(),
    decreases lines.len() - i,
{
    if i < lines.len() && lines[i].1 < end {
        lemma_skip_to(lines, i + 1, end);
    }
}

pub proof fn lemma_run_end(s: Seq<char>, c: char, i: int, b: int)
    requires
        0 <= i <= b,
    ensures
        i <= run_end(s, c, i, b) <= b,
    decreases b - i,
{
    if i < b && i < s.len() && s[i] == c {
        lemma_run_end(s, c, i + 1, b);
    }
}

pub proof fn lemma_digits_end(s: Seq<char>, i: int, b: int)
    requires
        0 <= i <= b,
    ensures
        i <= digits_end(s, i, b) <= b,
    decreases b - i,
{
    if i < b && i < s.len() && '0' <= s[i] <= '9' {
        lemma_digits_end(s, i + 1, b);
    }
}

fn run_end_exec(s: &Vec<char>, c: char, i: usize, b: usize) -> (r: usize)
    requires
        i <= b <= s@.len(),
    ensures
        r == run_end(s@, c, i as int, b as int),
        i <= r <= b,
{
    proof {
        lemma_run_end(s@, c, i as int, b as int);
    }
    let mut k = i;
    while k < b && s[k] == c
        invariant
            i <= k <= b <= s@.len(),
            run_end(s@, c, i as int, b as int) == run_end(s@, c, k as int, b as int),
        decreases b - k,
    {
        k += 1;
    }
    k
}

fn digits_end_exec(s: &Vec<char>, i: usize, b: usize) -> (r: usize)
    requires
        i <= b <= s@.len(),
    ensures
        r == digits_end(s@, i as int, b as int),
        i <= r <= b,
{
    proof {
        lemma_digits_end(s@, i as int, b as int);
    }
    let mut k = i;
    while k < b && '0' <= s[k] && s[k] <= '9'
        invariant
            i <= k <= b <= s@.len(),
            digits_end(s@, i as int, b as int) == digits_end(s@, k as int, b as int),
        decreases b - k,
    {
        k += 1;
    }
    k
}

fn starts1(s: &Vec<char>, a: usize, b: usize, c0: char) -> (r: bool)
    requires
        a <= b <= s@.len(),
    ensures
        r == starts(s@, a as int, b as int, seq![c0]),
{
    if b - a >= 1 && s[a] == c0 {
        assert(s@.subrange(a as int, a + 1) =~= seq![c0]);
        true
    } else {
        proof {
            if a + 1 <= b {
                assert(s@.subrange(a as int, a + 1)[0] == s@[a as int]);
            }
        }
        false
    }
}

fn starts2(s: &Vec<char>, a: usize, b: usize, c0: char, c1: char) -> (r: bool)
    requires
        a <= b <= s@.len(),
    ensures
        r == starts(s@, a as int, b as int, seq![c0, c1]),
{
    if b - a >= 2 && s[a] == c0 && s[a + 1] == c1 {
        assert(s@.subrange(a as int, a + 2) =~= seq![c0, c1]);
        true
    } else {
        proof {
            if a + 2 <= b {
                assert(s@.subrange(a as int, a + 2)[0] == s@[a as int]);
                assert(s@.subrange(a as int, a + 2)[1] == s@[a + 1]);
            }
        }
        false
    }
}

fn starts3(s: &Vec<char>, a: usize, b: usize, c0: char) -> (r: bool)
    requires
        a <= b <= s@.len(),
    ensures
        r == starts(s@, a as int, b as int, seq![c0, c0, c0]),
{
    if b - a >= 3 && s[a] == c0 && s[a + 1] == c0 && s[a + 2] == c0 {
        assert(s@.subrange(a as int, a + 3) =~= seq![c0, c0, c0]);
        true
    } else {
        proof {
            if a + 3 <= b {
                assert(s@.subrange(a as int, a + 3)[0] == s@[a as int]);
                assert(s@.subrange(a as int, a + 3)[1] == s@[a + 1]);
                assert(s@.subrange(a as int, a + 3)[2] == s@[a + 2]);
            }
        }
        false
    }
}

fn blank_exec(s: &Vec<char>, a: usize, b: usize) -> (r: bool)
    requires
        a <= b <= s@.len(),
    ensures
        r == blank(s@, a as int, b as int),
{
    let (ts, te) = trim_range(s, a, b);
    ts == te
}

fn trimmed_is3(s: &Vec<char>, a: usize, b: usize, c0: char) -> (r: bool)
    requires
        a <= b <= s@.len(),
    ensures
        r == trimmed_is(s@, a as int, b as int, seq![c0, c0, c0]),
{
    let (ts, te) = trim_range(s, a, b);
    if te - ts == 3 && s[ts] == c0 && s[ts + 1] == c0 && s[ts + 2] == c0 {
        assert(s@.subrange(ts as int, te as int) =~= seq![c0, c0, c0]);
        true
    } else {
        proof {
            assert(s@.subrange(ts as int, te as int).len() == te - ts);
            assert(seq![c0, c0, c0].len() == 3);
            if te - ts == 3 {
                assert(s@.subrange(ts as int, te as int)[0] == s@[ts as int]);
                assert(s@.subrange(ts as int, te as int)[1] == s@[ts + 1]);
                assert(s@.subrange(ts as int, te as int)[2] == s@[ts + 2]);
            }
        }
        false
    }
}

fn is_heading_exec(s: &Vec<char>, a: usize, b: usize) -> (r: bool)
    requires
        a <= b <= s@.len(),
    ensures
        r == is_heading(s@, a as int, b as int),
{
    let h = run_end_exec(s, '#', a, b);
    1 <= h - a && h - a <= 6 && h < b && s[h] == ' '
}

fn unordered_exec(s: &Vec<char>, a: usize, b: usize) -> (r: Option<usize>)
    requires
        a <= b <= s@.len(),
    ensures
        match unordered_content(s@, a as int, b as int) {
            Some(k) => r == Some(k as usize) && a <= k <= b,
            None => r is None,
        },
{
    if starts2(s, a, b, '-', ' ') {
        Some(a + 2)
    } else {
        None
    }
}

fn ordered_exec(s: &Vec<char>, a: usize, b: usize) -> (r: Option<usize>)
    requires
        a <= b <= s@.len(),
    ensures
        match ordered_content(s@, a as int, b as int) {
            Some(k) => r == Some(k as usize) && a <= k <= b,
            None => r is None,
        },
{
    let d = digits_end_exec(s, a, b);
    if d == a {
        None
    } else if starts2(s, d, b, '.', ' ') {
        Some(d + 2)
    } else {
        None
    }
}

fn quote_exec(s: &Vec<char>, a: usize, b: usize) -> (r: Option<usize>)
    requires
        a <= b <= s@.len(),
    ensures
        match quote_content(s@, a as int, b as int) {
            Some(k) => r == Some(k as usize) && a <= k <= b,
            None => r is None,
        },
{
    if starts2(s, a, b, '>', ' ') {
        Some(a + 2)
    } else if starts1(s, a, b, '>') {
        Some(a + 1)
    } else {
        None
    }
}

fn item_content_exec(s: &Vec<char>, a: usize, b: usize, ordered: bool) -> (r: Option<usize>)
    requires
        a <= b <= s@.len(),
    ensures
        match item_content(s@, a as int, b as int, ordered) {
            Some(k) => r == Some(k as usize) && a <= k <= b,
            None => r is None,
        },
{
    if ordered {
        ordered_exec(s, a, b)
    } else {
        unordered_exec(s, a, b)
    }
}

fn is_block_start_exec(s: &Vec<char>, a: usize, b: usize) -> (r: bool)
    requires
        a <= b <= s@.len(),
    ensures
        r == is_block_start(s@, a as int, b as int),
{
    is_heading_exec(s, a, b) || starts2(s, a, b, '\\', '(') || unordered_exec(s, a, b).is_some()
        || ordered_exec(s, a, b).is_some() || quote_exec(s, a, b).is_some() || trimmed_is3(
        s,
        a,
        b,
        '-',
    ) || starts3(s, a, b, '`')
}


fn origin_exec() -> (r: crate::ir::lexer::Position)
    ensures
        r == origin(),
{
    crate::ir::lexer::Position { offset: 0, line: 1, column: 1 }
}

/// The span of `s[a..b]` in the document.
fn doc_span_exec(s: &Vec<char>, a: usize, b: usize) -> (r: Span)
    requires
        a <= s@.len(),
        b <= s@.len(),
    ensures
        r == doc_span(s@, a as int, b as int),
{
    span_of(origin_exec(), s, a, b)
}

proof fn lemma_join_push(parts: Seq<Seq<char>>, p: Seq<char>, sep: char)
    ensures
        join_with(parts.push(p), sep) == if parts.len() == 0 {
            p
        } else {
            join_with(parts, sep).push(sep) + p
        },
{
    assert(parts.push(p).drop_last() =~= parts);
}

/// The trimmed texts of the lines `c0..c1`, joined by spaces.
fn join_trimmed(s: &Vec<char>, lines: &Vec<(usize, usize)>, c0: usize, c1: usize) -> (r: String)
    requires
        lines_ok(s@, lines@),
        c0 <= c1 <= lines@.len(),
    ensures
        r@ == join_with(para_parts(s@, lines@, c0 as int, c1 as int), ' '),
{
    let mut out = String::new();
    let mut i = c0;
    assert(para_parts(s@, lines@, c0 as int, c0 as int) =~= Seq::<Seq<char>>::empty());
    while i < c1
        invariant
            lines_ok(s@, lines@),
            c0 <= i <= c1 <= lines@.len(),
            out@ == join_with(para_parts(s@, lines@, c0 as int, i as int), ' '),
        decreases c1 - i,
    {
        let (a, b) = lines[i];
        assert(lines@[i as int].0 <= lines@[i as int].1 <= s@.len());
        let (ts, te) = trim_range(s, a, b);
        proof {
            assert(para_parts(s@, lines@, c0 as int, i + 1) =~= para_parts(
                s@,
                lines@,
                c0 as int,
                i as int,
            ).push(trimmed_text(s@, a as int, b as int)));
            lemma_join_push(
                para_parts(s@, lines@, c0 as int, i as int),
                trimmed_text(s@, a as int, b as int),
                ' ',
            );
        }
        if i > c0 {
            push_char(&mut out, ' ');
        }
        let part = string_of(s, ts, te);
        push_str(&mut out, part.as_str());
        i += 1;
    }
    out
}

/// The trimmed contents of the quote lines `c0..c1`, joined by spaces.
fn join_quotes(s: &Vec<char>, lines: &Vec<(usize, usize)>, c0: usize, c1: usize) -> (r: String)
    requires
        lines_ok(s@, lines@),
        c0 <= c1 <= lines@.len(),
        forall|j: int|
            c0 <= j < c1 ==> #[trigger] quote_content(s@, lines@[j].0 as int, lines@[j].1 as int) is Some,
    ensures
        r@ == join_with(quote_parts(s@, lines@, c0 as int, c1 as int), ' '),
{
    let mut out = String::new();
    let mut i = c0;
    assert(quote_parts(s@, lines@, c0 as int, c0 as int) =~= Seq::<Seq<char>>::empty());
    while i < c1
        invariant
            lines_ok(s@, lines@),
            c0 <= i <= c1 <= lines@.len(),
            forall|j: int|
                c0 <= j < c1 ==> #[trigger] quote_content(s@, lines@[j].0 as int, lines@[j].1 as int)
                    is Some,
            out@ == join_with(quote_parts(s@, lines@, c0 as int, i as int), ' '),
        decreases c1 - i,
    {
        let (a, b) = lines[i];
        assert(lines@[i as int].0 <= lines@[i as int].1 <= s@.len());
        assert(quote_content(s@, a as int, b as int) is Some);
        let k = match quote_exec(s, a, b) {
            Some(k) => k,
            None => a,
        };
        let (ts, te) = trim_range(s, k, b);
        proof {
            assert(quote_parts(s@, lines@, c0 as int, i + 1) =~= quote_parts(
                s@,
                lines@,
                c0 as int,
                i as int,
            ).push(trimmed_text(s@, k as int, b as int)));
            lemma_join_push(
                quote_parts(s@, lines@, c0 as int, i as int),
                trimmed_text(s@, k as int, b as int),
                ' ',
            );
        }
        if i > c0 {
            push_char(&mut out, ' ');
        }
        let part = string_of(s, ts, te);
        push_str(&mut out, part.as_str());
        i += 1;
    }
    out
}

/// The raw texts of the lines `c0..c1`, joined by newlines.
fn join_raw(s: &Vec<char>, lines: &Vec<(usize, usize)>, c0: usize, c1: usize) -> (r: String)
    requires
        lines_ok(s@, lines@),
        c0 <= c1 <= lines@.len(),
    ensures
        r@ == join_with(raw_parts(s@, lines@, c0 as int, c1 as int), '\n'),
{
    let mut out = String::new();
    let mut i = c0;
    assert(raw_parts(s@, lines@, c0 as int, c0 as int) =~= Seq::<Seq<char>>::empty());
    while i < c1
        invariant
            lines_ok(s@, lines@),
            c0 <= i <= c1 <= lines@.len(),
            out@ == join_with(raw_parts(s@, lines@, c0 as int, i as int), '\n'),
        decreases c1 - i,
    {
        let (a, b) = lines[i];
        assert(lines@[i as int].0 <= lines@[i as int].1 <= s@.len());
        proof {
            assert(raw_parts(s@, lines@, c0 as int, i + 1) =~= raw_parts(
                s@,
                lines@,
                c0 as int,
                i as int,
            ).push(s@.subrange(a as int, b as int)));
            lemma_join_push(
                raw_parts(s@, lines@, c0 as int, i as int),
                s@.subrange(a as int, b as int),
                '\n',
            );
        }
        if i > c0 {
            push_char(&mut out, '\n');
        }
        let part = string_of(s, a, b);
        push_str(&mut out, part.as_str());
        i += 1;
    }
    out
}


fn heading_block(s: &Vec<char>, lines: &Vec<(usize, usize)>, c: usize) -> (r: Result<(SourceBlock, usize), ParseError>)
    requires
        lines_ok(s@, lines@),
        c < lines@.len(),
        is_heading(s@, lines@[c as int].0 as int, lines@[c as int].1 as int),
    ensures
        block_outcome(r) == heading_at(s@, lines@, c as int),
{
    let nl = lines.len();
    let (a, b) = lines[c];
    assert(lines@[c as int].0 <= lines@[c as int].1 <= s@.len());
    let h = run_end_exec(s, '#', a, b);
    if blank_exec(s, h + 1, b) {
        return Err(ParseError::new(ParseErrorKind::EmptyHeading, Some(doc_span_exec(s, a, b))));
    }
    let text = string_of(s, h + 1, b);
    let inlines = match parse_inlines(text.as_str(), doc_span_exec(s, h + 1, b)) {
        Ok(x) => x,
        Err(e) => {
            return Err(e);
        },
    };
    let span = doc_span_exec(s, a, b);
    Ok((SourceBlock { kind: SourceBlockKind::Heading { level: (h - a) as u8, inlines }, span }, c + 1))
}

fn embedded_block(s: &Vec<char>, lines: &Vec<(usize, usize)>, c: usize) -> (r: Result<(SourceBlock, usize), ParseError>)
    requires
        lines_ok(s@, lines@),
        c < lines@.len(),
        !is_heading(s@, lines@[c as int].0 as int, lines@[c as int].1 as int),
        at_embedded(s@, lines@[c as int].0 as int, lines@[c as int].1 as int),
    ensures
        block_outcome(r) == embedded_at(s@, lines@, c as int),
{
    let nl = lines.len();
    let (a, b) = lines[c];
    assert(lines@[c as int].0 <= lines@[c as int].1 <= s@.len());
    let n = s.len();
    proof {
        lemma_scan_ir(s@, a + 2, 1, 0, false, false);
    }
    let k = match scan_ir_exec(s, a + 2) {
        Some(k) => k,
        None => {
            return Err(ParseError::new(ParseErrorKind::UnterminatedEmbeddedIr, Some(doc_span_exec(s, a, n))));
        },
    };
    let source = string_of(s, a + 2, k);
    let span = doc_span_exec(s, a, k + 1);
    let mut next = c;
    proof {
        lemma_skip_to(lines@, c as int, k + 1);
    }
    let end = k + 1;
    while next < lines.len() && lines[next].1 < end
        invariant
            c <= next <= lines@.len(),
            end == k + 1,
            skip_to(lines@, c as int, k + 1) == skip_to(lines@, next as int, k + 1),
        decreases lines@.len() - next,
    {
        next += 1;
    }
    if next < lines.len() {
        next += 1;
    }
    Ok((SourceBlock { kind: SourceBlockKind::EmbeddedIr(source), span }, next))
}

fn list_item_exec(s: &Vec<char>, lines: &Vec<(usize, usize)>, i: usize, ordered: bool) -> (r: Result<SourceBlock, ParseError>)
    requires
        lines_ok(s@, lines@),
        i < lines@.len(),
        item_content(s@, lines@[i as int].0 as int, lines@[i as int].1 as int, ordered) is Some,
    ensures
        match r {
            Ok(x) => list_item_at(s@, lines@, i as int, ordered) == Ok::<SpecBlock, SpecError>(src_block_view(x)),
            Err(e) => list_item_at(s@, lines@, i as int, ordered) == Err::<SpecBlock, SpecError>(e@),
        },
{
    let (ia, ib) = lines[i];
    assert(lines@[i as int].0 <= lines@[i as int].1 <= s@.len());
    let k = match item_content_exec(s, ia, ib, ordered) {
        Some(k) => k,
        None => ia,
    };
    let text = string_of(s, k, ib);
    let pspan = doc_span_exec(s, k, ib);
    let inlines = match parse_inlines(text.as_str(), pspan) {
        Ok(x) => x,
        Err(err) => {
            return Err(err);
        },
    };
    let mut children: Vec<SourceBlock> = Vec::new();
    let para = SourceBlock { kind: SourceBlockKind::Paragraph(inlines), span: pspan };
    proof {
        lemma_src_blocks_view_push(children@, para);
        assert(children@.push(para) =~= seq![para]);
    }
    children.push(para);
    Ok(SourceBlock { kind: SourceBlockKind::ListItem(children), span: doc_span_exec(s, ia, ib) })
}

fn list_block(s: &Vec<char>, lines: &Vec<(usize, usize)>, c: usize) -> (r: Result<(SourceBlock, usize), ParseError>)
    requires
        lines_ok(s@, lines@),
        c < lines@.len(),
        !blank(s@, lines@[c as int].0 as int, lines@[c as int].1 as int),
        !is_heading(s@, lines@[c as int].0 as int, lines@[c as int].1 as int),
        !at_embedded(s@, lines@[c as int].0 as int, lines@[c as int].1 as int),
        unordered_content(s@, lines@[c as int].0 as int, lines@[c as int].1 as int) is Some || ordered_content(s@, lines@[c as int].0 as int, lines@[c as int].1 as int) is Some,
    ensures
        block_outcome(r) == list_at(s@, lines@, c as int),
{
    let nl = lines.len();
    let (a, b) = lines[c];
    assert(lines@[c as int].0 <= lines@[c as int].1 <= s@.len());
    let ordered = ordered_exec(s, a, b).is_some();
    proof {
        lemma_list_more(s@, lines@, c as int, ordered);
        lemma_list_more(s@, lines@, c + 1, ordered);
    }
    let mut e = c;
    while e < lines.len() && !blank_exec(s, lines[e].0, lines[e].1) && item_content_exec(s, lines[e].0, lines[e].1, ordered).is_some()
        invariant
            lines_ok(s@, lines@),
            c <= e <= lines@.len(),
            list_more(s@, lines@, c as int, ordered) == list_more(s@, lines@, e as int, ordered),
        decreases lines@.len() - e,
    {
        assert(lines@[e as int].0 <= lines@[e as int].1 <= s@.len());
        e += 1;
    }
    let mut items: Vec<SourceBlock> = Vec::new();
    assert(src_blocks_view(items@) =~= Seq::<SpecBlock>::empty());
    let mut i = c;
    while i < e
        invariant
            lines_ok(s@, lines@),
            c <= i <= e <= lines@.len(),
            e == list_more(s@, lines@, c as int, ordered),
            forall|j: int| c <= j < e ==> #[trigger] item_content(s@, lines@[j].0 as int, lines@[j].1 as int, ordered) is Some,
            list_items(s@, lines@, c as int, e as int, ordered, Seq::empty()) == list_items(s@, lines@, i as int, e as int, ordered, src_blocks_view(items@)),
        decreases e - i,
    {
        let item = match list_item_exec(s, lines, i, ordered) {
            Ok(x) => x,
            Err(err) => {
                return Err(err);
            },
        };
        proof {
            lemma_src_blocks_view_push(items@, item);
        }
        items.push(item);
        i += 1;
    }
    assert(lines@[e - 1].0 <= lines@[e - 1].1 <= s@.len());
    let span = doc_span_exec(s, a, lines[e - 1].1);
    Ok((SourceBlock { kind: SourceBlockKind::List { ordered, items }, span }, e))
}

fn quote_block(s: &Vec<char>, lines: &Vec<(usize, usize)>, c: usize) -> (r: Result<(SourceBlock, usize), ParseError>)
    requires
        lines_ok(s@, lines@),
        c < lines@.len(),
        !blank(s@, lines@[c as int].0 as int, lines@[c as int].1 as int),
        !is_heading(s@, lines@[c as int].0 as int, lines@[c as int].1 as int),
        !at_embedded(s@, lines@[c as int].0 as int, lines@[c as int].1 as int),
        unordered_content(s@, lines@[c as int].0 as int, lines@[c as int].1 as int) is None,
        ordered_content(s@, lines@[c as int].0 as int, lines@[c as int].1 as int) is None,
        quote_content(s@, lines@[c as int].0 as int, lines@[c as int].1 as int) is Some,
    ensures
        block_outcome(r) == quote_at(s@, lines@, c as int),
{
    let nl = lines.len();
    let (a, b) = lines[c];
    assert(lines@[c as int].0 <= lines@[c as int].1 <= s@.len());
    proof {
        lemma_quote_more(s@, lines@, c as int);
        lemma_quote_more(s@, lines@, c + 1);
    }
    let mut e = c;
    while e < lines.len() && quote_exec(s, lines[e].0, lines[e].1).is_some() && !blank_exec(s, lines[e].0, lines[e].1)
        invariant
            lines_ok(s@, lines@),
            c <= e <= lines@.len(),
            quote_more(s@, lines@, c as int) == quote_more(s@, lines@, e as int),
        decreases lines@.len() - e,
    {
        assert(lines@[e as int].0 <= lines@[e as int].1 <= s@.len());
        e += 1;
    }
    let text = join_quotes(s, lines, c, e);
    assert(lines@[e - 1].0 <= lines@[e - 1].1 <= s@.len());
    let span = doc_span_exec(s, a, lines[e - 1].1);
    let inlines = match parse_inlines(text.as_str(), span) {
        Ok(x) => x,
        Err(err) => {
            return Err(err);
        },
    };
    let mut children: Vec<SourceBlock> = Vec::new();
    let para = SourceBlock { kind: SourceBlockKind::Paragraph(inlines), span };
    proof {
        lemma_src_blocks_view_push(children@, para);
        assert(children@.push(para) =~= seq![para]);
    }
    children.push(para);
    Ok((SourceBlock { kind: SourceBlockKind::BlockQuote(children), span }, e))
}

fn fence_block(s: &Vec<char>, lines: &Vec<(usize, usize)>, c: usize) -> (r: Result<(SourceBlock, usize), ParseError>)
    requires
        lines_ok(s@, lines@),
        c < lines@.len(),
        !is_heading(s@, lines@[c as int].0 as int, lines@[c as int].1 as int),
        !at_embedded(s@, lines@[c as int].0 as int, lines@[c as int].1 as int),
        unordered_content(s@, lines@[c as int].0 as int, lines@[c as int].1 as int) is None,
        ordered_content(s@, lines@[c as int].0 as int, lines@[c as int].1 as int) is None,
        quote_content(s@, lines@[c as int].0 as int, lines@[c as int].1 as int) is None,
        at_fence(s@, lines@[c as int].0 as int, lines@[c as int].1 as int),
    ensures
        block_outcome(r) == fence_at(s@, lines@, c as int),
{
    let nl = lines.len();
    let (a, b) = lines[c];
    assert(lines@[c as int].0 <= lines@[c as int].1 <= s@.len());
    let (ls, le) = trim_range(s, a + 3, b);
    let lang = if ls == le {
        None
    } else {
        Some(string_of(s, ls, le))
    };
    proof {
        lemma_fence_close(s@, lines@, c + 1);
    }
    let mut close = c + 1;
    while close < lines.len() && !trimmed_is3(s, lines[close].0, lines[close].1, '`')
        invariant
            lines_ok(s@, lines@),
            c + 1 <= close <= lines@.len(),
            fence_close(s@, lines@, c + 1) == fence_close(s@, lines@, close as int),
        decreases lines@.len() - close,
    {
        assert(lines@[close as int].0 <= lines@[close as int].1 <= s@.len());
        close += 1;
    }
    if close >= lines.len() {
        let n = lines.len();
        let end = if c + 1 < n {
            assert(lines@[n - 1].0 <= lines@[n - 1].1 <= s@.len());
            lines[n - 1].1
        } else {
            b
        };
        return Err(ParseError::new(ParseErrorKind::UnterminatedCodeFence, Some(doc_span_exec(s, a, end))));
    }
    let text = join_raw(s, lines, c + 1, close);
    assert(lines@[close as int].0 <= lines@[close as int].1 <= s@.len());
    let span = doc_span_exec(s, a, lines[close].1);
    Ok((SourceBlock { kind: SourceBlockKind::CodeBlock { lang, text }, span }, close + 1))
}

fn paragraph_block(s: &Vec<char>, lines: &Vec<(usize, usize)>, c: usize) -> (r: Result<(SourceBlock, usize), ParseError>)
    requires
        lines_ok(s@, lines@),
        c < lines@.len(),
        !is_heading(s@, lines@[c as int].0 as int, lines@[c as int].1 as int),
        !at_embedded(s@, lines@[c as int].0 as int, lines@[c as int].1 as int),
        unordered_content(s@, lines@[c as int].0 as int, lines@[c as int].1 as int) is None,
        ordered_content(s@, lines@[c as int].0 as int, lines@[c as int].1 as int) is None,
        quote_content(s@, lines@[c as int].0 as int, lines@[c as int].1 as int) is None,
        !at_fence(s@, lines@[c as int].0 as int, lines@[c as int].1 as int),
        !at_break(s@, lines@[c as int].0 as int, lines@[c as int].1 as int),
    ensures
        block_outcome(r) == paragraph_at(s@, lines@, c as int),
{
    let nl = lines.len();
    let (a, b) = lines[c];
    assert(lines@[c as int].0 <= lines@[c as int].1 <= s@.len());
    proof {
        lemma_para_more(s@, lines@, c + 1);
    }
    let mut e = c + 1;
    while e < lines.len() && !blank_exec(s, lines[e].0, lines[e].1) && !is_block_start_exec(s, lines[e].0, lines[e].1)
        invariant
            lines_ok(s@, lines@),
            c + 1 <= e <= lines@.len(),
            para_more(s@, lines@, c + 1) == para_more(s@, lines@, e as int),
        decreases lines@.len() - e,
    {
        assert(lines@[e as int].0 <= lines@[e as int].1 <= s@.len());
        e += 1;
    }
    let text = join_trimmed(s, lines, c, e);
    assert(lines@[e - 1].0 <= lines@[e - 1].1 <= s@.len());
    let span = doc_span_exec(s, a, lines[e - 1].1);
    let inlines = match parse_inlines(text.as_str(), span) {
        Ok(x) => x,
        Err(err) => {
            return Err(err);
        },
    };
    Ok((SourceBlock { kind: SourceBlockKind::Paragraph(inlines), span }, e))
}

/// The block that starts at the (not blank) line `c`, and the line after
/// it.
fn block_exec(s: &Vec<char>, lines: &Vec<(usize, usize)>, c: usize) -> (r: Result<(SourceBlock, usize), ParseError>)
    requires
        lines_ok(s@, lines@),
        c < lines@.len(),
        !blank(s@, lines@[c as int].0 as int, lines@[c as int].1 as int),
    ensures
        block_outcome(r) == block_at(s@, lines@, c as int),
{
    let nl = lines.len();
    let (a, b) = lines[c];
    assert(lines@[c as int].0 <= lines@[c as int].1 <= s@.len());
    if is_heading_exec(s, a, b) {
        heading_block(s, lines, c)
    } else if starts2(s, a, b, '\\', '(') {
        embedded_block(s, lines, c)
    } else if unordered_exec(s, a, b).is_some() || ordered_exec(s, a, b).is_some() {
        list_block(s, lines, c)
    } else if quote_exec(s, a, b).is_some() {
        quote_block(s, lines, c)
    } else if starts3(s, a, b, '`') {
        fence_block(s, lines, c)
    } else if trimmed_is3(s, a, b, '-') {
        let span = doc_span_exec(s, a, b);
        Ok((SourceBlock { kind: SourceBlockKind::ThematicBreak, span }, c + 1))
    } else {
        paragraph_block(s, lines, c)
    }
}

/// Every block moves past the line it starts at, and stays within the
/// lines.
pub proof fn lemma_block_at_progress(s: Seq<char>, lines: Seq<(usize, usize)>, c: int)
    requires
        0 <= c < lines.len(),
        !blank(s, lines[c].0 as int, lines[c].1 as int),
    ensures
        block_at(s, lines, c) is Ok ==> c < block_at(s, lines, c)->Ok_0.1 <= lines.len(),
{
    let a = lines[c].0 as int;
    let b = lines[c].1 as int;
    lemma_skip_to(lines, c, scan_ir(s, a + 2, 1, 0, false, false) + 1);
    lemma_list_more(s, lines, c, ordered_content(s, a, b) is Some);
    lemma_list_more(s, lines, c + 1, ordered_content(s, a, b) is Some);
    lemma_quote_more(s, lines, c);
    lemma_quote_more(s, lines, c + 1);
    lemma_fence_close(s, lines, c + 1);
    lemma_para_more(s, lines, c + 1);
}

/// The blocks of an author document.
pub fn parse_document(input: &str) -> (r: Result<SourceDocument, ParseError>)
    ensures
        match document_blocks(input@) {
            Ok(blocks) => r is Ok && src_blocks_view(r->Ok_0.blocks@) == blocks,
            Err(e) => r is Err && r->Err_0@ == e,
        },
{
    let s = chars_of(input);
    let lines = collect_lines(&s);
    let mut blocks: Vec<SourceBlock> = Vec::new();
    assert(src_blocks_view(blocks@) =~= Seq::<SpecBlock>::empty());
    let mut c: usize = 0;
    while c < lines.len()
        invariant
            s@ == input@,
            lines@ == lines_from(s@, 0),
            lines_ok(s@, lines@),
            0 <= c <= lines@.len(),
            document_blocks(input@) == blocks_from(s@, lines@, c as int, src_blocks_view(blocks@)),
        decreases lines@.len() - c,
    {
        let (a, b) = lines[c];
        assert(lines@[c as int].0 <= lines@[c as int].1 <= s@.len());
        if blank_exec(&s, a, b) {
            c += 1;
        } else {
            proof {
                lemma_block_at_progress(s@, lines@, c as int);
            }
            let (block, next) = match block_exec(&s, &lines, c) {
                Ok(x) => x,
                Err(e) => {
                    return Err(e);
                },
            };
            proof {
                lemma_src_blocks_view_push(blocks@, block);
            }
            blocks.push(block);
            c = next;
        }
    }
    Ok(SourceDocument { blocks })
}

/// The text of line `k`: trimmed of surrounding whitespace, or as it is.
pub open spec fn line_text(s: Seq<char>, lines: Seq<(usize, usize)>, k: int, trim: bool) -> Seq<char> {
    if trim {
        trimmed_text(s, lines[k].0 as int, lines[k].1 as int)
    } else {
        s.subrange(lines[k].0 as int, lines[k].1 as int)
    }
}

/// The texts of the lines `c0..c1`, one after another, with `sep` between
/// each two.
pub open spec fn joined_lines(s: Seq<char>, lines: Seq<(usize, usize)>, c0: int, c1: int, trim: bool, sep: char) -> Seq<char>
    decreases c1 - c0,
{
    if c1 <= c0 {
        Seq::empty()
    } else if c1 == c0 + 1 {
        line_text(s, lines, c0, trim)
    } else {
        joined_lines(s, lines, c0, c1 - 1, trim, sep).push(sep) + line_text(s, lines, c1 - 1, trim)
    }
}

proof fn lemma_joined_paragraph(s: Seq<char>, lines: Seq<(usize, usize)>, c0: int, c1: int)
    requires
        c0 <= c1,
    ensures
        joined_lines(s, lines, c0, c1, true, ' ') == join_with(para_parts(s, lines, c0, c1), ' '),
    decreases c1 - c0,
{
    let parts = para_parts(s, lines, c0, c1);
    if c1 > c0 + 1 {
        lemma_joined_paragraph(s, lines, c0, c1 - 1);
        assert(parts.drop_last() =~= para_parts(s, lines, c0, c1 - 1));
    } else if c1 == c0 + 1 {
        assert(parts.len() == 1);
    } else {
        assert(parts.len() == 0);
    }
}

proof fn lemma_joined_raw(s: Seq<char>, lines: Seq<(usize, usize)>, c0: int, c1: int)
    requires
        c0 <= c1,
    ensures
        joined_lines(s, lines, c0, c1, false, '\n') == join_with(raw_parts(s, lines, c0, c1), '\n'),
    decreases c1 - c0,
{
    let parts = raw_parts(s, lines, c0, c1);
    if c1 > c0 + 1 {
        lemma_joined_raw(s, lines, c0, c1 - 1);
        assert(parts.drop_last() =~= raw_parts(s, lines, c0, c1 - 1));
    } else if c1 == c0 + 1 {
        assert(parts.len() == 1);
    } else {
        assert(parts.len() == 0);
    }
}

proof fn lemma_para_more_stops(s: Seq<char>, lines: Seq<(usize, usize)>, i: int)
    requires
        0 <= i <= lines.len(),
    ensures
        ({
            let e = para_more(s, lines, i);
            &&& i <= e <= lines.len()
            &&& forall|j: int|
                i <= j < e ==> !blank(s, lines[j].0 as int, lines[j].1 as int) && !is_block_start(
                    s,
                    #[trigger] lines[j].0 as int,
                    lines[j].1 as int,
                )
            &&& e == lines.len() || blank(s, lines[e].0 as int, lines[e].1 as int) || is_block_start(
                s,
                lines[e].0 as int,
                lines[e].1 as int,
            )
        }),
    decreases lines.len() - i,
{
    if i < lines.len() && !blank(s, lines[i].0 as int, lines[i].1 as int) && !is_block_start(
        s,
        lines[i].0 as int,
        lines[i].1 as int,
    ) {
        lemma_para_more_stops(s, lines, i + 1);
    }
}

/// A paragraph runs from its first line up to the first blank line, or line
/// that starts another block, or the end, and its inlines are those of all
/// its lines, each trimmed, joined by single spaces.
pub proof fn law_paragraph_joins_its_lines(s: Seq<char>, lines: Seq<(usize, usize)>, c: int)
    requires
        0 <= c < lines.len(),
    ensures
        paragraph_at(s, lines, c) matches Ok((b, next)) ==> ({
            &&& c < next <= lines.len()
            &&& forall|j: int|
                c < j < next ==> !blank(s, lines[j].0 as int, lines[j].1 as int) && !is_block_start(
                    s,
                    #[trigger] lines[j].0 as int,
                    lines[j].1 as int,
                )
            &&& next == lines.len() || blank(s, lines[next].0 as int, lines[next].1 as int)
                || is_block_start(s, lines[next].0 as int, lines[next].1 as int)
            &&& b.kind is Paragraph
            &&& inlines_of(joined_lines(s, lines, c, next, true, ' '), b.span.start) == Ok::<
                Seq<SpecInline>,
                SpecError,
            >(b.kind->Paragraph_0)
        }),
{
    lemma_para_more_stops(s, lines, c + 1);
    let e = para_more(s, lines, c + 1);
    lemma_joined_paragraph(s, lines, c, e);
}

/// A fenced code block runs from its opening fence to the first line that
/// is a closing fence; its text is the raw lines in between, joined by
/// newlines, and its language is the trimmed text after the opening three
/// backticks, when that text is not blank.
pub proof fn law_fence_keeps_language_and_lines(s: Seq<char>, lines: Seq<(usize, usize)>, c: int)
    requires
        0 <= c < lines.len(),
    ensures
        ({
            let a = lines[c].0 as int;
            let b = lines[c].1 as int;
            fence_at(s, lines, c) matches Ok((blk, next)) ==> ({
                &&& c + 2 <= next <= lines.len()
                &&& trimmed_is(s, lines[next - 1].0 as int, lines[next - 1].1 as int, seq!['`', '`', '`'])
                &&& forall|j: int|
                    c < j < next - 1 ==> !trimmed_is(
                        s,
                        #[trigger] lines[j].0 as int,
                        lines[j].1 as int,
                        seq!['`', '`', '`'],
                    )
                &&& blk.kind is CodeBlock
                &&& blk.kind->CodeBlock_text == joined_lines(s, lines, c + 1, next - 1, false, '\n')
                &&& (blk.kind->CodeBlock_lang is None <==> blank(s, a + 3, b))
                &&& (blk.kind->CodeBlock_lang is Some ==> blk.kind->CodeBlock_lang->Some_0
                    == trimmed_text(s, a + 3, b))
            })
        }),
{
    lemma_fence_close_first(s, lines, c + 1);
    let close = fence_close(s, lines, c + 1);
    if close >= 0 {
        lemma_joined_raw(s, lines, c + 1, close);
    }
}

proof fn lemma_fence_close_first(s: Seq<char>, lines: Seq<(usize, usize)>, i: int)
    requires
        0 <= i,
    ensures
        ({
            let k = fence_close(s, lines, i);
            &&& k == -1 || (i <= k < lines.len() && trimmed_is(s, lines[k].0 as int, lines[k].1 as int, seq!['`', '`', '`']))
            &&& forall|j: int|
                i <= j < (if k == -1 { lines.len() as int } else { k }) ==> !trimmed_is(
                    s,
                    #[trigger] lines[j].0 as int,
                    lines[j].1 as int,
                    seq!['`', '`', '`'],
                )
        }),
    decreases lines.len() - i,
{
    if i < lines.len() && !trimmed_is(s, lines[i].0 as int, lines[i].1 as int, seq!['`', '`', '`']) {
        lemma_fence_close_first(s, lines, i + 1);
    }
}

proof fn lemma_run_end_all(s: Seq<char>, c: char, i: int, b: int)
    requires
        0 <= i <= b <= s.len(),
    ensures
        forall|k: int| i <= k < run_end(s, c, i, b) ==> #[trigger] s[k] == c,
        run_end(s, c, i, b) < b ==> s[run_end(s, c, i, b)] != c,
    decreases b - i,
{
    if i < b && s[i] == c {
        lemma_run_end_all(s, c, i + 1, b);
    }
}

proof fn lemma_list_items_len(s: Seq<char>, lines: Seq<(usize, usize)>, i: int, e: int, ordered: bool, acc: Seq<SpecBlock>)
    requires
        0 <= i <= e <= lines.len(),
    ensures
        list_items(s, lines, i, e, ordered, acc) matches Ok(items) ==> items.len() == acc.len() + e - i,
    decreases e - i,
{
    if i < e {
        if let Ok(item) = list_item_at(s, lines, i, ordered) {
            lemma_list_items_len(s, lines, i + 1, e, ordered, acc.push(item));
        }
    }
}

/// A heading's level is the number of `#` that open its line, followed by
/// a space, and its inlines are those of the rest of the line; a list is
/// ordered when its first line opens with a digit and unordered when it
/// opens with `- `, and it has one item per line.
#[verifier::spinoff_prover]
#[verifier::rlimit(50)]
pub proof fn law_block_markers(s: Seq<char>, lines: Seq<(usize, usize)>, c: int)
    requires
        0 <= c < lines.len(),
        lines_ok(s, lines),
    ensures
        ({
            let a = lines[c].0 as int;
            let b = lines[c].1 as int;
            block_at(s, lines, c) matches Ok((blk, next)) ==> {
                &&& blk.kind is Heading ==> {
                    let level = blk.kind->Heading_level as int;
                    &&& 1 <= level <= 6
                    &&& a + level < b
                    &&& (forall|k: int| a <= k < a + level ==> #[trigger] s[k] == '#')
                    &&& s[a + level] == ' '
                    &&& inlines_of(s.subrange(a + level + 1, b), pos_over(origin(), s.take(a + level + 1)))
                        == Ok::<Seq<SpecInline>, SpecError>(blk.kind->Heading_inlines)
                }
                &&& blk.kind is List ==> {
                    &&& (blk.kind->List_ordered ==> '0' <= s[a] <= '9')
                    &&& (!blk.kind->List_ordered ==> s[a] == '-' && s[a + 1] == ' ')
                    &&& blk.kind->List_items.len() == next - c
                }
            }
        }),
{
    let a = lines[c].0 as int;
    let b = lines[c].1 as int;
    assert(lines[c].0 <= lines[c].1 <= s.len());
    lemma_run_end(s, '#', a, b);
    lemma_run_end_all(s, '#', a, b);
    lemma_digits_end(s, a, b);
    let ordered = ordered_content(s, a, b) is Some;
    lemma_list_more(s, lines, c, ordered);
    let e = list_more(s, lines, c, ordered);
    lemma_list_items_len(s, lines, c, e, ordered, Seq::empty());
    if ordered {
        assert(digits_end(s, a, b) > a);
    }
}

/// The text of the quote lines `c0..c1` without their `>` markers (and the
/// one space after each), each trimmed, joined by single spaces.
pub open spec fn quote_text(s: Seq<char>, lines: Seq<(usize, usize)>, c0: int, c1: int) -> Seq<char>
    decreases c1 - c0,
{
    let body = |k: int|
        {
            let a = lines[k].0 as int;
            let b = lines[k].1 as int;
            let from = if starts(s, a, b, seq!['>', ' ']) {
                a + 2
            } else {
                a + 1
            };
            trimmed_text(s, from, b)
        };
    if c1 <= c0 {
        Seq::empty()
    } else if c1 == c0 + 1 {
        body(c0)
    } else {
        quote_text(s, lines, c0, c1 - 1).push(' ') + body(c1 - 1)
    }
}

proof fn lemma_quote_text(s: Seq<char>, lines: Seq<(usize, usize)>, c0: int, c1: int)
    requires
        c0 <= c1,
        forall|j: int| c0 <= j < c1 ==> #[trigger] quote_content(s, lines[j].0 as int, lines[j].1 as int) is Some,
    ensures
        quote_text(s, lines, c0, c1) == join_with(quote_parts(s, lines, c0, c1), ' '),
    decreases c1 - c0,
{
    let parts = quote_parts(s, lines, c0, c1);
    if c1 > c0 + 1 {
        lemma_quote_text(s, lines, c0, c1 - 1);
        assert(parts.drop_last() =~= quote_parts(s, lines, c0, c1 - 1));
        assert(quote_content(s, lines[c1 - 1].0 as int, lines[c1 - 1].1 as int) is Some);
    } else if c1 == c0 + 1 {
        assert(parts.len() == 1);
        assert(quote_content(s, lines[c0].0 as int, lines[c0].1 as int) is Some);
    } else {
        assert(parts.len() == 0);
    }
}

/// A block quote runs over the quote lines from its first, up to a blank
/// line, a line without `>`, or the end; it holds one paragraph, whose
/// inlines are those of its lines' text after the `>` (and one space),
/// trimmed and joined by single spaces.
pub proof fn law_quote_joins_its_lines(s: Seq<char>, lines: Seq<(usize, usize)>, c: int)
    requires
        0 <= c < lines.len(),
        quote_content(s, lines[c].0 as int, lines[c].1 as int) is Some,
        !blank(s, lines[c].0 as int, lines[c].1 as int),
    ensures
        quote_at(s, lines, c) matches Ok((b, next)) ==> ({
            &&& c < next <= lines.len()
            &&& forall|j: int|
                c <= j < next ==> #[trigger] quote_content(s, lines[j].0 as int, lines[j].1 as int)
                    is Some
            &&& b.kind is BlockQuote
            &&& b.kind->BlockQuote_0.len() == 1
            &&& b.kind->BlockQuote_0[0].kind is Paragraph
            &&& inlines_of(quote_text(s, lines, c, next), b.span.start) == Ok::<Seq<SpecInline>, SpecError>(
                b.kind->BlockQuote_0[0].kind->Paragraph_0,
            )
        }),
{
    lemma_quote_more(s, lines, c);
    lemma_quote_more(s, lines, c + 1);
    let e = quote_more(s, lines, c);
    lemma_quote_text(s, lines, c, e);
}

proof fn lemma_digits_end_all(s: Seq<char>, i: int, b: int)
    requires
        0 <= i <= b <= s.len(),
    ensures
        forall|k: int| i <= k < digits_end(s, i, b) ==> '0' <= #[trigger] s[k] <= '9',
    decreases b - i,
{
    if i < b && '0' <= s[i] <= '9' {
        lemma_digits_end_all(s, i + 1, b);
    }
}

/// A list item holds one paragraph: the inlines of its line after the
/// marker, which is `- ` in an unordered list and digits followed by `. `
/// in an ordered one.
pub proof fn law_list_items_hold_their_line(s: Seq<char>, lines: Seq<(usize, usize)>, i: int, ordered: bool)
    requires
        0 <= i < lines.len(),
        lines_ok(s, lines),
        item_content(s, lines[i].0 as int, lines[i].1 as int, ordered) is Some,
    ensures
        ({
            let a = lines[i].0 as int;
            let b = lines[i].1 as int;
            list_item_at(s, lines, i, ordered) matches Ok(item) ==> exists|k: int| {
                &&& a < k <= b
                &&& (!ordered ==> k == a + 2 && s[a] == '-' && s[a + 1] == ' ')
                &&& (ordered ==> a + 3 <= k && s[k - 2] == '.' && s[k - 1] == ' ' && forall|m: int|
                    a <= m < k - 2 ==> '0' <= #[trigger] s[m] <= '9')
                &&& item.kind is ListItem
                &&& item.kind->ListItem_0.len() == 1
                &&& item.kind->ListItem_0[0].kind is Paragraph
                &&& #[trigger] inlines_of(s.subrange(k, b), pos_over(origin(), s.take(k))) == Ok::<
                    Seq<SpecInline>,
                    SpecError,
                >(item.kind->ListItem_0[0].kind->Paragraph_0)
            }
        }),
{
    let a = lines[i].0 as int;
    let b = lines[i].1 as int;
    assert(lines[i].0 <= lines[i].1 <= s.len());
    lemma_digits_end(s, a, b);
    lemma_digits_end_all(s, a, b);
    let k = item_content(s, a, b, ordered)->Some_0;
    if ordered {
        let d = digits_end(s, a, b);
        assert(s.subrange(d, d + 2) == seq!['.', ' ']);
        assert(s[d] == s.subrange(d, d + 2)[0]);
        assert(s[d + 1] == s.subrange(d, d + 2)[1]);
    } else {
        assert(s[a] == s.subrange(a, a + 2)[0]);
        assert(s[a + 1] == s.subrange(a, a + 2)[1]);
    }
    if let Ok(item) = list_item_at(s, lines, i, ordered) {
        assert(inlines_of(s.subrange(k, b), pos_over(origin(), s.take(k))) == Ok::<Seq<SpecInline>, SpecError>(
            item.kind->ListItem_0[0].kind->Paragraph_0,
        ));
    }
}

} // verus!
