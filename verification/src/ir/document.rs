//! The resolved document tree that the bytecode VM produces and renderers
//! consume, and its model.
//!
//! The model is one tree type, `SpecNode`, shared by runtime node values and
//! resolved documents: a resolved document is a node tree whose children have
//! the kinds their parents expect.
use vstd::prelude::*;

use crate::ir::ast::Node;
use crate::ir::lexer::Span;

verus! {

#[derive(Debug, PartialEq, Eq)]
pub struct Document {
    pub metadata: DocumentMetadata,
    pub blocks: Vec<Block>,
    pub span: Span,
}

#[derive(Clone, Debug, PartialEq, Eq)]
pub struct DocumentMetadata {
    pub version: String,
    pub span: Span,
}

pub type Block = Node<BlockKind>;

#[derive(Debug, PartialEq, Eq)]
pub enum BlockKind {
    Heading { level: u8, inlines: Vec<Inline> },
    Paragraph(Vec<Inline>),
    List { ordered: bool, items: Vec<Block> },
    ListItem(Vec<Block>),
    BlockQuote(Vec<Block>),
    CodeBlock { lang: Option<String>, text: String },
    ThematicBreak,
    Table(Vec<TableChild>),
}

pub type Inline = Node<InlineKind>;

#[derive(Debug, PartialEq, Eq)]
pub enum InlineKind {
    Text(String),
    Emphasis(Vec<Inline>),
    Strong(Vec<Inline>),
    Code(String),
    Link { href: String, children: Vec<Inline> },
    Image { src: String, alt: Option<String> },
    Break,
}

pub type TableChild = Node<TableChildKind>;

#[derive(Debug, PartialEq, Eq)]
pub enum TableChildKind {
    Head(Vec<TableRow>),
    Body(Vec<TableRow>),
}

pub type TableRow = Node<TableRowKind>;

#[derive(Debug, PartialEq, Eq)]
pub struct TableRowKind {
    pub cells: Vec<TableCell>,
}

pub type TableCell = Node<TableCellKind>;

#[derive(Debug, PartialEq, Eq)]
pub enum TableCellKind {
    Header(Vec<Inline>),
    Data(Vec<Inline>),
}

/// The model of a document node, of a runtime node value, and of a whole
/// document.
pub enum SpecNode {
    Document { version: Seq<char>, meta_span: Span, blocks: Seq<SpecNode>, span: Span },
    Heading { level: u8, inlines: Seq<SpecNode>, span: Span },
    Paragraph { inlines: Seq<SpecNode>, span: Span },
    List { ordered: bool, items: Seq<SpecNode>, span: Span },
    ListItem { children: Seq<SpecNode>, span: Span },
    BlockQuote { children: Seq<SpecNode>, span: Span },
    CodeBlock { lang: Option<Seq<char>>, text: Seq<char>, span: Span },
    ThematicBreak { span: Span },
    Table { children: Seq<SpecNode>, span: Span },
    Text { text: Seq<char>, span: Span },
    Emphasis { children: Seq<SpecNode>, span: Span },
    Strong { children: Seq<SpecNode>, span: Span },
    Code { text: Seq<char>, span: Span },
    Link { href: Seq<char>, children: Seq<SpecNode>, span: Span },
    Image { src: Seq<char>, alt: Option<Seq<char>>, span: Span },
    Break { span: Span },
    Head { rows: Seq<SpecNode>, span: Span },
    Body { rows: Seq<SpecNode>, span: Span },
    Row { cells: Seq<SpecNode>, span: Span },
    HeaderCell { children: Seq<SpecNode>, span: Span },
    DataCell { children: Seq<SpecNode>, span: Span },
}

/// The kinds of node, as builtins and the decoder tell them apart.
#[derive(Clone, Copy, Debug, PartialEq, Eq, Structural)]
pub enum NodeKind {
    Document,
    Block,
    Inline,
    TableChild,
    TableRow,
    TableCell,
}

pub open spec fn node_kind(n: SpecNode) -> NodeKind {
    match n {
        SpecNode::Document { .. } => NodeKind::Document,
        SpecNode::Heading { .. } | SpecNode::Paragraph { .. } | SpecNode::List { .. }
        | SpecNode::ListItem { .. } | SpecNode::BlockQuote { .. } | SpecNode::CodeBlock { .. }
        | SpecNode::ThematicBreak { .. } | SpecNode::Table { .. } => NodeKind::Block,
        SpecNode::Text { .. } | SpecNode::Emphasis { .. } | SpecNode::Strong { .. }
        | SpecNode::Code { .. } | SpecNode::Link { .. } | SpecNode::Image { .. }
        | SpecNode::Break { .. } => NodeKind::Inline,
        SpecNode::Head { .. } | SpecNode::Body { .. } => NodeKind::TableChild,
        SpecNode::Row { .. } => NodeKind::TableRow,
        SpecNode::HeaderCell { .. } | SpecNode::DataCell { .. } => NodeKind::TableCell,
    }
}

pub open spec fn node_span(n: SpecNode) -> Span {
    match n {
        SpecNode::Document { span, .. } => span,
        SpecNode::Heading { span, .. } => span,
        SpecNode::Paragraph { span, .. } => span,
        SpecNode::List { span, .. } => span,
        SpecNode::ListItem { span, .. } => span,
        SpecNode::BlockQuote { span, .. } => span,
        SpecNode::CodeBlock { span, .. } => span,
        SpecNode::ThematicBreak { span } => span,
        SpecNode::Table { span, .. } => span,
        SpecNode::Text { span, .. } => span,
        SpecNode::Emphasis { span, .. } => span,
        SpecNode::Strong { span, .. } => span,
        SpecNode::Code { span, .. } => span,
        SpecNode::Link { span, .. } => span,
        SpecNode::Image { span, .. } => span,
        SpecNode::Break { span } => span,
        SpecNode::Head { span, .. } => span,
        SpecNode::Body { span, .. } => span,
        SpecNode::Row { span, .. } => span,
        SpecNode::HeaderCell { span, .. } => span,
        SpecNode::DataCell { span, .. } => span,
    }
}

/// The name of a node kind in diagnostics.
pub open spec fn node_kind_name(k: NodeKind) -> &'static str {
    match k {
        NodeKind::Document => "document",
        NodeKind::Block => "block",
        NodeKind::Inline => "inline",
        NodeKind::TableChild => "table child",
        NodeKind::TableRow => "table row",
        NodeKind::TableCell => "table cell",
    }
}

/// The name of a node kind in diagnostics.
pub fn kind_name_of(k: NodeKind) -> (r: &'static str)
    ensures
        r == node_kind_name(k),
{
    match k {
        NodeKind::Document => "document",
        NodeKind::Block => "block",
        NodeKind::Inline => "inline",
        NodeKind::TableChild => "table child",
        NodeKind::TableRow => "table row",
        NodeKind::TableCell => "table cell",
    }
}

pub open spec fn opt_text_view(o: Option<String>) -> Option<Seq<char>> {
    match o {
        Some(s) => Some(s@),
        None => None,
    }
}

pub open spec fn block_view(b: Block) -> SpecNode
    decreases b,
{
    match b.kind {
        BlockKind::Heading { level, inlines } => SpecNode::Heading {
            level,
            inlines: inlines_view(inlines@),
            span: b.span,
        },
        BlockKind::Paragraph(inlines) => SpecNode::Paragraph {
            inlines: inlines_view(inlines@),
            span: b.span,
        },
        BlockKind::List { ordered, items } => SpecNode::List {
            ordered,
            items: blocks_view(items@),
            span: b.span,
        },
        BlockKind::ListItem(children) => SpecNode::ListItem {
            children: blocks_view(children@),
            span: b.span,
        },
        BlockKind::BlockQuote(children) => SpecNode::BlockQuote {
            children: blocks_view(children@),
            span: b.span,
        },
        BlockKind::CodeBlock { lang, text } => SpecNode::CodeBlock {
            lang: opt_text_view(lang),
            text: text@,
            span: b.span,
        },
        BlockKind::ThematicBreak => SpecNode::ThematicBreak { span: b.span },
        BlockKind::Table(children) => SpecNode::Table {
            children: table_children_view(children@),
            span: b.span,
        },
    }
}

pub open spec fn blocks_view(s: Seq<Block>) -> Seq<SpecNode>
    decreases s,
{
    if s.len() == 0 {
        Seq::empty()
    } else {
        blocks_view(s.drop_last()).push(block_view(s.last()))
    }
}

pub open spec fn inline_view(i: Inline) -> SpecNode
    decreases i,
{
    match i.kind {
        InlineKind::Text(text) => SpecNode::Text { text: text@, span: i.span },
        InlineKind::Emphasis(children) => SpecNode::Emphasis {
            children: inlines_view(children@),
            span: i.span,
        },
        InlineKind::Strong(children) => SpecNode::Strong {
            children: inlines_view(children@),
            span: i.span,
        },
        InlineKind::Code(text) => SpecNode::Code { text: text@, span: i.span },
        InlineKind::Link { href, children } => SpecNode::Link {
            href: href@,
            children: inlines_view(children@),
            span: i.span,
        },
        InlineKind::Image { src, alt } => SpecNode::Image {
            src: src@,
            alt: opt_text_view(alt),
            span: i.span,
        },
        InlineKind::Break => SpecNode::Break { span: i.span },
    }
}

pub open spec fn inlines_view(s: Seq<Inline>) -> Seq<SpecNode>
    decreases s,
{
    if s.len() == 0 {
        Seq::empty()
    } else {
        inlines_view(s.drop_last()).push(inline_view(s.last()))
    }
}

pub open spec fn table_child_view(c: TableChild) -> SpecNode
    decreases c,
{
    match c.kind {
        TableChildKind::Head(rows) => SpecNode::Head { rows: rows_view(rows@), span: c.span },
        TableChildKind::Body(rows) => SpecNode::Body { rows: rows_view(rows@), span: c.span },
    }
}

pub open spec fn table_children_view(s: Seq<TableChild>) -> Seq<SpecNode>
    decreases s,
{
    if s.len() == 0 {
        Seq::empty()
    } else {
        table_children_view(s.drop_last()).push(table_child_view(s.last()))
    }
}

pub open spec fn row_view(r: TableRow) -> SpecNode
    decreases r,
{
    SpecNode::Row { cells: cells_view(r.kind.cells@), span: r.span }
}

pub open spec fn rows_view(s: Seq<TableRow>) -> Seq<SpecNode>
    decreases s,
{
    if s.len() == 0 {
        Seq::empty()
    } else {
        rows_view(s.drop_last()).push(row_view(s.last()))
    }
}

pub open spec fn cell_view(c: TableCell) -> SpecNode
    decreases c,
{
    match c.kind {
        TableCellKind::Header(children) => SpecNode::HeaderCell {
            children: inlines_view(children@),
            span: c.span,
        },
        TableCellKind::Data(children) => SpecNode::DataCell {
            children: inlines_view(children@),
            span: c.span,
        },
    }
}

pub open spec fn cells_view(s: Seq<TableCell>) -> Seq<SpecNode>
    decreases s,
{
    if s.len() == 0 {
        Seq::empty()
    } else {
        cells_view(s.drop_last()).push(cell_view(s.last()))
    }
}

impl View for Document {
    type V = SpecNode;

    open spec fn view(&self) -> SpecNode {
        SpecNode::Document {
            version: self.metadata.version@,
            meta_span: self.metadata.span,
            blocks: blocks_view(self.blocks@),
            span: self.span,
        }
    }
}


pub proof fn lemma_blocks_view(s: Seq<Block>)
    ensures
        blocks_view(s).len() == s.len(),
        forall|i: int| 0 <= i < s.len() ==> #[trigger] blocks_view(s)[i] == block_view(s[i]),
    decreases s.len(),
{
    if s.len() > 0 {
        lemma_blocks_view(s.drop_last());
    }
}

pub proof fn lemma_inlines_view(s: Seq<Inline>)
    ensures
        inlines_view(s).len() == s.len(),
        forall|i: int| 0 <= i < s.len() ==> #[trigger] inlines_view(s)[i] == inline_view(s[i]),
    decreases s.len(),
{
    if s.len() > 0 {
        lemma_inlines_view(s.drop_last());
    }
}

pub proof fn lemma_table_children_view(s: Seq<TableChild>)
    ensures
        table_children_view(s).len() == s.len(),
        forall|i: int| 0 <= i < s.len() ==> #[trigger] table_children_view(s)[i] == table_child_view(s[i]),
    decreases s.len(),
{
    if s.len() > 0 {
        lemma_table_children_view(s.drop_last());
    }
}

pub proof fn lemma_rows_view(s: Seq<TableRow>)
    ensures
        rows_view(s).len() == s.len(),
        forall|i: int| 0 <= i < s.len() ==> #[trigger] rows_view(s)[i] == row_view(s[i]),
    decreases s.len(),
{
    if s.len() > 0 {
        lemma_rows_view(s.drop_last());
    }
}

pub proof fn lemma_cells_view(s: Seq<TableCell>)
    ensures
        cells_view(s).len() == s.len(),
        forall|i: int| 0 <= i < s.len() ==> #[trigger] cells_view(s)[i] == cell_view(s[i]),
    decreases s.len(),
{
    if s.len() > 0 {
        lemma_cells_view(s.drop_last());
    }
}

} // verus!
