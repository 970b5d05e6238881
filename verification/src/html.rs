//! HTML rendering of resolved documents.
//!
//! `render_node` gives the HTML of a node of the model; the renderer writes
//! exactly it. Text and attribute values are escaped (`&`, `<`, `>`, `"`).
use vstd::prelude::*;

use crate::ir::compile::{CompileError, compile_module, compile_spec, program_outcome};
use crate::ir::document::{
    Block, BlockKind, Document, Inline, InlineKind, SpecNode, TableCell, TableCellKind,
    TableChild, TableChildKind, TableRow, block_view, blocks_view, cell_view, cells_view,
    inline_view, inlines_view, lemma_blocks_view, lemma_cells_view, lemma_inlines_view,
    lemma_rows_view, lemma_table_children_view, row_view, rows_view, table_child_view,
    table_children_view,
};
use crate::ir::lexer::Span;
use crate::ir::parser::{ParseError, SpecParseError, parse, parse_text};
use crate::ir::vm::{SpecVmError, VmError, document_outcome, document_spec, execute_document};
use crate::text::{char_from_u32, chars_of, fits, push_char, push_str};

verus! {

#[derive(Debug, PartialEq, Eq)]
pub enum RenderError {
    Parse(ParseError),
    Compile(CompileError),
    Vm(VmError),
}

/// The model of a rendering error.
pub enum SpecRenderError {
    Parse(SpecParseError),
    Compile(CompileError),
    Vm(SpecVmError),
}

impl View for RenderError {
    type V = SpecRenderError;

    open spec fn view(&self) -> SpecRenderError {
        match self {
            RenderError::Parse(e) => SpecRenderError::Parse(e@),
            RenderError::Compile(e) => SpecRenderError::Compile(*e),
            RenderError::Vm(e) => SpecRenderError::Vm(e@),
        }
    }
}

/// The escaped form of one character.
pub open spec fn escape_char(c: char) -> Seq<char> {
    if c == '&' {
        "&amp;"@
    } else if c == '<' {
        "&lt;"@
    } else if c == '>' {
        "&gt;"@
    } else if c == '"' {
        "&quot;"@
    } else {
        seq![c]
    }
}

/// The escaped form of a text.
pub open spec fn escape(s: Seq<char>) -> Seq<char>
    decreases s.len(),
{
    if s.len() == 0 {
        Seq::empty()
    } else {
        escape(s.drop_last()) + escape_char(s.last())
    }
}

/// The digit of a heading level, as the renderer writes it.
pub open spec fn level_char(level: u8) -> char {
    (((level as int + 48) % 256) as u32) as char
}

/// The HTML of a node.
pub open spec fn render_node(n: SpecNode) -> Seq<char>
    decreases n, 0int,
{
    match n {
        SpecNode::Document { blocks, .. } => render_list(blocks, 0),
        SpecNode::Heading { level, inlines, .. } => "<h"@ + seq![level_char(level)] + ">"@
            + render_list(inlines, 0) + "</h"@ + seq![level_char(level)] + ">"@,
        SpecNode::Paragraph { inlines, .. } => "<p>"@ + render_list(inlines, 0) + "</p>"@,
        SpecNode::List { ordered, items, .. } => (if ordered {
            "<ol>"@
        } else {
            "<ul>"@
        }) + render_list(items, 0) + (if ordered {
            "</ol>"@
        } else {
            "</ul>"@
        }),
        SpecNode::ListItem { children, .. } => "<li>"@ + render_list(children, 0) + "</li>"@,
        SpecNode::BlockQuote { children, .. } => "<blockquote>"@ + render_list(children, 0)
            + "</blockquote>"@,
        SpecNode::CodeBlock { lang, text, .. } => "<pre><code"@ + (match lang {
            Some(l) => " class=\"language-"@ + escape(l) + "\""@,
            None => Seq::empty(),
        }) + ">"@ + escape(text) + "</code></pre>"@,
        SpecNode::ThematicBreak { .. } => "<hr>"@,
        SpecNode::Table { children, .. } => "<table>"@ + render_list(children, 0) + "</table>"@,
        SpecNode::Text { text, .. } => escape(text),
        SpecNode::Emphasis { children, .. } => "<em>"@ + render_list(children, 0) + "</em>"@,
        SpecNode::Strong { children, .. } => "<strong>"@ + render_list(children, 0)
            + "</strong>"@,
        SpecNode::Code { text, .. } => "<code>"@ + escape(text) + "</code>"@,
        SpecNode::Link { href, children, .. } => "<a href=\""@ + escape(href) + "\">"@
            + render_list(children, 0) + "</a>"@,
        SpecNode::Image { src, alt, .. } => "<img src=\""@ + escape(src) + "\""@ + (match alt {
            Some(a) => " alt=\""@ + escape(a) + "\""@,
            None => Seq::empty(),
        }) + ">"@,
        SpecNode::Break { .. } => "<br>"@,
        SpecNode::Head { rows, .. } => "<thead>"@ + render_list(rows, 0) + "</thead>"@,
        SpecNode::Body { rows, .. } => "<tbody>"@ + render_list(rows, 0) + "</tbody>"@,
        SpecNode::Row { cells, .. } => "<tr>"@ + render_list(cells, 0) + "</tr>"@,
        SpecNode::HeaderCell { children, .. } => "<th>"@ + render_list(children, 0) + "</th>"@,
        SpecNode::DataCell { children, .. } => "<td>"@ + render_list(children, 0) + "</td>"@,
    }
}

/// The HTML of the nodes `ns` from `i` on, one after the other.
pub open spec fn render_list(ns: Seq<SpecNode>, i: int) -> Seq<char>
    decreases ns, ns.len() - i,
{
    if i < 0 || i >= ns.len() {
        Seq::empty()
    } else {
        render_node(ns[i]) + render_list(ns, i + 1)
    }
}

/// Appends the escaped form of `input` to `output`.
fn escape_text(input: &str, output: &mut String)
    ensures
        final(output)@ == old(output)@ + escape(input@),
{
    let cs = chars_of(input);
    let ghost o = output@;
    let mut i: usize = 0;
    while i < cs.len()
        invariant
            cs@ == input@,
            0 <= i <= cs@.len(),
            output@ == o + escape(cs@.take(i as int)),
        decreases cs@.len() - i,
    {
        let c = cs[i];
        proof {
            assert(cs@.take(i + 1).drop_last() =~= cs@.take(i as int));
        }
        if c == '&' {
            push_str(output, "&amp;");
        } else if c == '<' {
            push_str(output, "&lt;");
        } else if c == '>' {
            push_str(output, "&gt;");
        } else if c == '"' {
            push_str(output, "&quot;");
        } else {
            push_char(output, c);
        }
        proof {
            assert(output@ =~= o + escape(cs@.take(i + 1)));
        }
        i += 1;
    }
    assert(cs@.take(cs@.len() as int) =~= cs@);
}

/// Appends the escaped form of an attribute value to `output`.
fn escape_attribute(input: &str, output: &mut String)
    ensures
        final(output)@ == old(output)@ + escape(input@),
{
    escape_text(input, output);
}

/// Appends the digit of a heading level.
fn push_level(output: &mut String, level: u8)
    ensures
        final(output)@ == old(output)@.push(level_char(level)),
{
    let v: u32 = (level as u32 + 48) % 256;
    let c = match char_from_u32(v) {
        Some(c) => c,
        None => {
            assert(false);
            ' '
        },
    };
    proof {
        assert(c as u32 == v);
        assert(level_char(level) as u32 == v);
        crate::text::lemma_same_char(c, level_char(level));
    }
    push_char(output, c);
}

fn render_block(block: &Block, output: &mut String)
    ensures
        final(output)@ == old(output)@ + render_node(block_view(*block)),
    decreases block, 1int,
{
    let ghost o = output@;
    match &block.kind {
        BlockKind::Heading { level, inlines } => {
            push_str(output, "<h");
            push_level(output, *level);
            push_str(output, ">");
            render_inlines(inlines, output);
            push_str(output, "</h");
            push_level(output, *level);
            push_str(output, ">");
        },
        BlockKind::Paragraph(inlines) => {
            push_str(output, "<p>");
            render_inlines(inlines, output);
            push_str(output, "</p>");
        },
        BlockKind::List { ordered, items } => {
            if *ordered {
                push_str(output, "<ol>");
            } else {
                push_str(output, "<ul>");
            }
            render_blocks(items, output);
            if *ordered {
                push_str(output, "</ol>");
            } else {
                push_str(output, "</ul>");
            }
        },
        BlockKind::ListItem(blocks) => {
            push_str(output, "<li>");
            render_blocks(blocks, output);
            push_str(output, "</li>");
        },
        BlockKind::BlockQuote(blocks) => {
            push_str(output, "<blockquote>");
            render_blocks(blocks, output);
            push_str(output, "</blockquote>");
        },
        BlockKind::CodeBlock { lang, text } => {
            push_str(output, "<pre><code");
            match lang {
                Some(l) => {
                    push_str(output, " class=\"language-");
                    escape_attribute(l.as_str(), output);
                    push_str(output, "\"");
                },
                None => {},
            }
            push_str(output, ">");
            escape_text(text.as_str(), output);
            push_str(output, "</code></pre>");
        },
        BlockKind::ThematicBreak => push_str(output, "<hr>"),
        BlockKind::Table(children) => {
            push_str(output, "<table>");
            render_table_children(children, output);
            push_str(output, "</table>");
        },
    }
    proof {
        assert(output@ =~= o + render_node(block_view(*block)));
    }
}

fn render_blocks(blocks: &Vec<Block>, output: &mut String)
    ensures
        final(output)@ == old(output)@ + render_list(blocks_view(blocks@), 0),
    decreases blocks, 0int,
{
    let ghost o = output@;
    let ghost bv = blocks_view(blocks@);
    proof {
        lemma_blocks_view(blocks@);
    }
    let mut i: usize = 0;
    while i < blocks.len()
        invariant
            bv == blocks_view(blocks@),
            bv.len() == blocks@.len(),
            forall|j: int| 0 <= j < blocks@.len() ==> #[trigger] bv[j] == block_view(blocks@[j]),
            0 <= i <= blocks@.len(),
            o + render_list(bv, 0) == output@ + render_list(bv, i as int),
        decreases blocks@.len() - i,
    {
        let ghost before = output@;
        render_block(&blocks[i], output);
        proof {
            assert(before + render_list(bv, i as int) =~= output@ + render_list(bv, i + 1));
        }
        i += 1;
    }
    assert(output@ + render_list(bv, i as int) =~= output@);
}

fn render_inline(inline: &Inline, output: &mut String)
    ensures
        final(output)@ == old(output)@ + render_node(inline_view(*inline)),
    decreases inline, 1int,
{
    let ghost o = output@;
    match &inline.kind {
        InlineKind::Text(text) => escape_text(text.as_str(), output),
        InlineKind::Emphasis(inlines) => {
            push_str(output, "<em>");
            render_inlines(inlines, output);
            push_str(output, "</em>");
        },
        InlineKind::Strong(inlines) => {
            push_str(output, "<strong>");
            render_inlines(inlines, output);
            push_str(output, "</strong>");
        },
        InlineKind::Code(text) => {
            push_str(output, "<code>");
            escape_text(text.as_str(), output);
            push_str(output, "</code>");
        },
        InlineKind::Link { href, children } => {
            push_str(output, "<a href=\"");
            escape_attribute(href.as_str(), output);
            push_str(output, "\">");
            render_inlines(children, output);
            push_str(output, "</a>");
        },
        InlineKind::Image { src, alt } => {
            push_str(output, "<img src=\"");
            escape_attribute(src.as_str(), output);
            push_str(output, "\"");
            match alt {
                Some(a) => {
                    push_str(output, " alt=\"");
                    escape_attribute(a.as_str(), output);
                    push_str(output, "\"");
                },
                None => {},
            }
            push_str(output, ">");
        },
        InlineKind::Break => push_str(output, "<br>"),
    }
    proof {
        assert(output@ =~= o + render_node(inline_view(*inline)));
    }
}

fn render_inlines(inlines: &Vec<Inline>, output: &mut String)
    ensures
        final(output)@ == old(output)@ + render_list(inlines_view(inlines@), 0),
    decreases inlines, 0int,
{
    let ghost o = output@;
    let ghost iv = inlines_view(inlines@);
    proof {
        lemma_inlines_view(inlines@);
    }
    let mut i: usize = 0;
    while i < inlines.len()
        invariant
            iv == inlines_view(inlines@),
            iv.len() == inlines@.len(),
            forall|j: int| 0 <= j < inlines@.len() ==> #[trigger] iv[j] == inline_view(inlines@[j]),
            0 <= i <= inlines@.len(),
            o + render_list(iv, 0) == output@ + render_list(iv, i as int),
        decreases inlines@.len() - i,
    {
        let ghost before = output@;
        render_inline(&inlines[i], output);
        proof {
            assert(before + render_list(iv, i as int) =~= output@ + render_list(iv, i + 1));
        }
        i += 1;
    }
    assert(output@ + render_list(iv, i as int) =~= output@);
}

fn render_table_child(child: &TableChild, output: &mut String)
    ensures
        final(output)@ == old(output)@ + render_node(table_child_view(*child)),
    decreases child, 1int,
{
    let ghost o = output@;
    match &child.kind {
        TableChildKind::Head(rows) => {
            push_str(output, "<thead>");
            render_table_rows(rows, output);
            push_str(output, "</thead>");
        },
        TableChildKind::Body(rows) => {
            push_str(output, "<tbody>");
            render_table_rows(rows, output);
            push_str(output, "</tbody>");
        },
    }
    proof {
        assert(output@ =~= o + render_node(table_child_view(*child)));
    }
}

fn render_table_children(children: &Vec<TableChild>, output: &mut String)
    ensures
        final(output)@ == old(output)@ + render_list(table_children_view(children@), 0),
    decreases children, 0int,
{
    let ghost o = output@;
    let ghost cv = table_children_view(children@);
    proof {
        lemma_table_children_view(children@);
    }
    let mut i: usize = 0;
    while i < children.len()
        invariant
            cv == table_children_view(children@),
            cv.len() == children@.len(),
            forall|j: int|
                0 <= j < children@.len() ==> #[trigger] cv[j] == table_child_view(children@[j]),
            0 <= i <= children@.len(),
            o + render_list(cv, 0) == output@ + render_list(cv, i as int),
        decreases children@.len() - i,
    {
        let ghost before = output@;
        render_table_child(&children[i], output);
        proof {
            assert(before + render_list(cv, i as int) =~= output@ + render_list(cv, i + 1));
        }
        i += 1;
    }
    assert(output@ + render_list(cv, i as int) =~= output@);
}

fn render_table_row(row: &TableRow, output: &mut String)
    ensures
        final(output)@ == old(output)@ + render_node(row_view(*row)),
    decreases row, 1int,
{
    let ghost o = output@;
    push_str(output, "<tr>");
    render_table_cells(&row.kind.cells, output);
    push_str(output, "</tr>");
    proof {
        assert(output@ =~= o + render_node(row_view(*row)));
    }
}

fn render_table_rows(rows: &Vec<TableRow>, output: &mut String)
    ensures
        final(output)@ == old(output)@ + render_list(rows_view(rows@), 0),
    decreases rows, 0int,
{
    let ghost o = output@;
    let ghost rv = rows_view(rows@);
    proof {
        lemma_rows_view(rows@);
    }
    let mut i: usize = 0;
    while i < rows.len()
        invariant
            rv == rows_view(rows@),
            rv.len() == rows@.len(),
            forall|j: int| 0 <= j < rows@.len() ==> #[trigger] rv[j] == row_view(rows@[j]),
            0 <= i <= rows@.len(),
            o + render_list(rv, 0) == output@ + render_list(rv, i as int),
        decreases rows@.len() - i,
    {
        let ghost before = output@;
        render_table_row(&rows[i], output);
        proof {
            assert(before + render_list(rv, i as int) =~= output@ + render_list(rv, i + 1));
        }
        i += 1;
    }
    assert(output@ + render_list(rv, i as int) =~= output@);
}

fn render_table_cell(cell: &TableCell, output: &mut String)
    ensures
        final(output)@ == old(output)@ + render_node(cell_view(*cell)),
    decreases cell, 1int,
{
    let ghost o = output@;
    match &cell.kind {
        TableCellKind::Header(inlines) => {
            push_str(output, "<th>");
            render_inlines(inlines, output);
            push_str(output, "</th>");
        },
        TableCellKind::Data(inlines) => {
            push_str(output, "<td>");
            render_inlines(inlines, output);
            push_str(output, "</td>");
        },
    }
    proof {
        assert(output@ =~= o + render_node(cell_view(*cell)));
    }
}

fn render_table_cells(cells: &Vec<TableCell>, output: &mut String)
    ensures
        final(output)@ == old(output)@ + render_list(cells_view(cells@), 0),
    decreases cells, 0int,
{
    let ghost o = output@;
    let ghost cv = cells_view(cells@);
    proof {
        lemma_cells_view(cells@);
    }
    let mut i: usize = 0;
    while i < cells.len()
        invariant
            cv == cells_view(cells@),
            cv.len() == cells@.len(),
            forall|j: int| 0 <= j < cells@.len() ==> #[trigger] cv[j] == cell_view(cells@[j]),
            0 <= i <= cells@.len(),
            o + render_list(cv, 0) == output@ + render_list(cv, i as int),
        decreases cells@.len() - i,
    {
        let ghost before = output@;
        render_table_cell(&cells[i], output);
        proof {
            assert(before + render_list(cv, i as int) =~= output@ + render_list(cv, i + 1));
        }
        i += 1;
    }
    assert(output@ + render_list(cv, i as int) =~= output@);
}

/// Renders a resolved document to HTML.
pub fn render_document(document: &Document) -> (r: Result<String, RenderError>)
    ensures
        r matches Ok(html) && html@ == render_node(document@),
{
    let mut output = String::new();
    render_blocks(&document.blocks, &mut output);
    assert(output@ =~= render_node(document@));
    Ok(output)
}

/// What rendering Lightdown IR text gives.
pub open spec fn render_spec(input: Seq<char>) -> Result<Seq<char>, SpecRenderError> {
    match parse_text(input) {
        Err(e) => Err(SpecRenderError::Parse(e)),
        Ok(m) => match compile_spec(m) {
            Err(e) => Err(SpecRenderError::Compile(e)),
            Ok(p) => match document_spec(p) {
                Err(e) => Err(SpecRenderError::Vm(e)),
                Ok(d) => Ok(render_node(d)),
            },
        },
    }
}

/// Parses, compiles and runs Lightdown IR text and renders the document
/// it builds.
pub fn render(input: &str) -> (r: Result<String, RenderError>)
    requires
        fits(input@),
    ensures
        match r {
            Ok(html) => render_spec(input@) == Ok::<Seq<char>, SpecRenderError>(html@),
            Err(e) => render_spec(input@) == Err::<Seq<char>, SpecRenderError>(e@),
        },
{
    let module = match parse(input) {
        Ok(m) => m,
        Err(e) => {
            return Err(RenderError::Parse(e));
        },
    };
    let program = match compile_module(&module) {
        Ok(p) => p,
        Err(e) => {
            return Err(RenderError::Compile(e));
        },
    };
    let document = match execute_document(&program) {
        Ok(d) => d,
        Err(e) => {
            return Err(RenderError::Vm(e));
        },
    };
    render_document(&document)
}

/// Escaped text holds no markup: no `<`, `>` or `"` is left in it, and
/// escaping a concatenation escapes each part.
pub proof fn law_escape_no_markup(s: Seq<char>, t: Seq<char>)
    ensures
        forall|i: int|
            0 <= i < escape(s).len() ==> #[trigger] escape(s)[i] != '<' && escape(s)[i] != '>'
                && escape(s)[i] != '"',
        escape(s + t) == escape(s) + escape(t),
{
    lemma_escape_clean(s);
    lemma_escape_concat(s, t);
}

proof fn lemma_escape_clean(s: Seq<char>)
    ensures
        forall|i: int|
            0 <= i < escape(s).len() ==> #[trigger] escape(s)[i] != '<' && escape(s)[i] != '>'
                && escape(s)[i] != '"',
    decreases s.len(),
{
    if s.len() > 0 {
        lemma_escape_clean(s.drop_last());
        reveal_strlit("&amp;");
        reveal_strlit("&lt;");
        reveal_strlit("&gt;");
        reveal_strlit("&quot;");
        let a = escape(s.drop_last());
        let b = escape_char(s.last());
        assert forall|i: int| 0 <= i < b.len() implies b[i] != '<' && b[i] != '>' && b[i]
            != '"' by {}
        assert forall|i: int| 0 <= i < (a + b).len() implies #[trigger] (a + b)[i] != '<' && (a
            + b)[i] != '>' && (a + b)[i] != '"' by {
            if i >= a.len() {
                assert((a + b)[i] == b[i - a.len()]);
            }
        }
    }
}

proof fn lemma_escape_concat(s: Seq<char>, t: Seq<char>)
    ensures
        escape(s + t) == escape(s) + escape(t),
    decreases t.len(),
{
    if t.len() == 0 {
        assert(s + t =~= s);
        assert(escape(s) + escape(t) =~= escape(s));
    } else {
        lemma_escape_concat(s, t.drop_last());
        assert((s + t).drop_last() =~= s + t.drop_last());
        assert((s + t).last() == t.last());
        assert(escape(s + t) =~= escape(s) + escape(t.drop_last()) + escape_char(t.last()));
    }
}


/// The HTML of a list depends on whether it is ordered: an ordered list
/// opens with `<ol>` and closes with `</ol>`, an unordered one opens with
/// `<ul>` and closes with `</ul>`, and the items' HTML lies in between.
pub proof fn law_list_tags(ordered: bool, items: Seq<SpecNode>, span: Span)
    ensures
        ({
            let h = render_node(SpecNode::List { ordered, items, span });
            let letter = if ordered { 'o' } else { 'u' };
            &&& h.len() == render_list(items, 0).len() + 9
            &&& h.take(4) == seq!['<', letter, 'l', '>']
            &&& h.skip(h.len() - 5) == seq!['<', '/', letter, 'l', '>']
            &&& h.subrange(4, h.len() - 5) == render_list(items, 0)
        }),
{
    reveal_strlit("<ol>");
    reveal_strlit("<ul>");
    reveal_strlit("</ol>");
    reveal_strlit("</ul>");
    let h = render_node(SpecNode::List { ordered, items, span });
    let inner = render_list(items, 0);
    let letter = if ordered { 'o' } else { 'u' };
    let open = seq!['<', letter, 'l', '>'];
    let close = seq!['<', '/', letter, 'l', '>'];
    if ordered {
        assert("<ol>"@ =~= open);
        assert("</ol>"@ =~= close);
    } else {
        assert("<ul>"@ =~= open);
        assert("</ul>"@ =~= close);
    }
    assert(h == open + inner + close);
    assert(h.take(4) =~= open);
    assert(h.skip(h.len() - 5) =~= close);
    assert(h.subrange(4, h.len() - 5) =~= inner);
}


/// The HTML element name of a node that wraps its children in an element
/// with no attributes (lists and headings aside).
pub open spec fn element_name(n: SpecNode) -> Option<Seq<char>> {
    match n {
        SpecNode::Paragraph { .. } => Some(seq!['p']),
        SpecNode::ListItem { .. } => Some(seq!['l', 'i']),
        SpecNode::BlockQuote { .. } => Some(seq!['b', 'l', 'o', 'c', 'k', 'q', 'u', 'o', 't', 'e']),
        SpecNode::Table { .. } => Some(seq!['t', 'a', 'b', 'l', 'e']),
        SpecNode::Emphasis { .. } => Some(seq!['e', 'm']),
        SpecNode::Strong { .. } => Some(seq!['s', 't', 'r', 'o', 'n', 'g']),
        SpecNode::Head { .. } => Some(seq!['t', 'h', 'e', 'a', 'd']),
        SpecNode::Body { .. } => Some(seq!['t', 'b', 'o', 'd', 'y']),
        SpecNode::Row { .. } => Some(seq!['t', 'r']),
        SpecNode::HeaderCell { .. } => Some(seq!['t', 'h']),
        SpecNode::DataCell { .. } => Some(seq!['t', 'd']),
        _ => None,
    }
}

/// The children of a node whose element has no attributes.
pub open spec fn element_children(n: SpecNode) -> Seq<SpecNode> {
    match n {
        SpecNode::Paragraph { inlines, .. } => inlines,
        SpecNode::ListItem { children, .. } => children,
        SpecNode::BlockQuote { children, .. } => children,
        SpecNode::Table { children, .. } => children,
        SpecNode::Emphasis { children, .. } => children,
        SpecNode::Strong { children, .. } => children,
        SpecNode::Head { rows, .. } => rows,
        SpecNode::Body { rows, .. } => rows,
        SpecNode::Row { cells, .. } => cells,
        SpecNode::HeaderCell { children, .. } => children,
        SpecNode::DataCell { children, .. } => children,
        _ => Seq::empty(),
    }
}

/// `inner` in an element named `name`: `<name>`, `inner`, `</name>`.
pub open spec fn element(name: Seq<char>, inner: Seq<char>) -> Seq<char> {
    seq!['<'] + name + seq!['>'] + inner + seq!['<', '/'] + name + seq!['>']
}

/// Each node maps to its HTML counterpart: a paragraph, list item, quote,
/// table part, cell, emphasis or strong node to the element of that name
/// around its children's HTML; a heading of level 1 to 6 to `h` and the
/// level; a code span to `code` around its escaped text; a code block to
/// `pre` and `code`, with its language as a `language-` class; a link to
/// `a` with its escaped destination; an image to `img` with its escaped
/// source and alternative text; a break to `br`; a thematic break to
/// `hr`; text to its escaped self; a document to its blocks' HTML.
pub proof fn law_nodes_render_to_their_elements(n: SpecNode)
    ensures
        element_name(n) matches Some(name) ==> render_node(n) == element(
            name,
            render_list(element_children(n), 0),
        ),
        n matches SpecNode::Heading { level, inlines, .. } ==> (1 <= level <= 6 ==> render_node(n)
            == element(seq!['h', ((level as int + 48) as u32) as char], render_list(inlines, 0))),
        n matches SpecNode::Code { text, .. } ==> render_node(n) == element(seq!['c', 'o', 'd', 'e'], escape(text)),
        n matches SpecNode::Text { text, .. } ==> render_node(n) == escape(text),
        n matches SpecNode::Document { blocks, .. } ==> render_node(n) == render_list(blocks, 0),
        n matches SpecNode::Break { .. } ==> render_node(n) == seq!['<', 'b', 'r', '>'],
        n matches SpecNode::ThematicBreak { .. } ==> render_node(n) == seq!['<', 'h', 'r', '>'],
        n matches SpecNode::Link { href, children, .. } ==> render_node(n) == seq!['<', 'a', ' ', 'h', 'r', 'e', 'f', '=', '"'] + escape(href)
            + seq!['"', '>'] + render_list(children, 0) + seq!['<', '/', 'a', '>'],
        n matches SpecNode::Image { src, alt, .. } ==> render_node(n) == seq!['<', 'i', 'm', 'g', ' ', 's', 'r', 'c', '=', '"'] + escape(src)
            + seq!['"'] + match alt {
            Some(a) => seq![' ', 'a', 'l', 't', '=', '"'] + escape(a) + seq!['"'],
            None => Seq::<char>::empty(),
        } + seq!['>'],
        n matches SpecNode::CodeBlock { lang, text, .. } ==> render_node(n) == seq!['<', 'p', 'r', 'e', '>', '<', 'c', 'o', 'd', 'e'] + match lang {
            Some(l) => seq![' ', 'c', 'l', 'a', 's', 's', '=', '"', 'l', 'a', 'n', 'g', 'u', 'a', 'g', 'e', '-'] + escape(l) + seq!['"'],
            None => Seq::<char>::empty(),
        } + seq!['>'] + escape(text) + seq!['<', '/', 'c', 'o', 'd', 'e', '>', '<', '/', 'p', 'r', 'e', '>'],
{
    reveal_strlit(" alt=\"");
    reveal_strlit(" class=\"language-");
    reveal_strlit("\"");
    reveal_strlit("\">");
    reveal_strlit("</a>");
    reveal_strlit("</blockquote>");
    reveal_strlit("</code>");
    reveal_strlit("</code></pre>");
    reveal_strlit("</em>");
    reveal_strlit("</h");
    reveal_strlit("</li>");
    reveal_strlit("</p>");
    reveal_strlit("</strong>");
    reveal_strlit("</table>");
    reveal_strlit("</tbody>");
    reveal_strlit("</td>");
    reveal_strlit("</th>");
    reveal_strlit("</thead>");
    reveal_strlit("</tr>");
    reveal_strlit("<a href=\"");
    reveal_strlit("<blockquote>");
    reveal_strlit("<br>");
    reveal_strlit("<code>");
    reveal_strlit("<em>");
    reveal_strlit("<h");
    reveal_strlit("<hr>");
    reveal_strlit("<img src=\"");
    reveal_strlit("<li>");
    reveal_strlit("<p>");
    reveal_strlit("<pre><code");
    reveal_strlit("<strong>");
    reveal_strlit("<table>");
    reveal_strlit("<tbody>");
    reveal_strlit("<td>");
    reveal_strlit("<th>");
    reveal_strlit("<thead>");
    reveal_strlit("<tr>");
    reveal_strlit(">");
    let h = render_node(n);
    match n {
        SpecNode::Heading { level, inlines, .. } => {
            if 1 <= level <= 6 {
                assert(level_char(level) == ((level as int + 48) as u32) as char);
                assert(h =~= element(seq!['h', level_char(level)], render_list(inlines, 0)));
            }
        },
        _ => {
            if let Some(name) = element_name(n) {
                assert(h =~= element(name, render_list(element_children(n), 0)));
            }
        },
    }
}

/// Escaping replaces each of `&`, `<`, `>` and `"` by its character
/// entity and keeps every other character as it is.
pub proof fn law_escape_entities(c: char)
    ensures
        escape(seq![c]) == if c == '&' {
            seq!['&', 'a', 'm', 'p', ';']
        } else if c == '<' {
            seq!['&', 'l', 't', ';']
        } else if c == '>' {
            seq!['&', 'g', 't', ';']
        } else if c == '"' {
            seq!['&', 'q', 'u', 'o', 't', ';']
        } else {
            seq![c]
        },
{
    reveal_strlit("&amp;");
    reveal_strlit("&lt;");
    reveal_strlit("&gt;");
    reveal_strlit("&quot;");
    let one = seq![c];
    assert(one.drop_last() =~= Seq::<char>::empty());
    assert(one.last() == c);
    assert(escape(Seq::<char>::empty()) == Seq::<char>::empty());
    assert(escape(one) == escape(one.drop_last()) + escape_char(one.last()));
    assert(escape(one) =~= escape_char(c));
}

} // verus!
