//! Runtime values of the bytecode VM, their model, and the decoding of a
//! document value into a resolved `Document`.
use vstd::prelude::*;

use crate::ir::ast::Node;
use crate::ir::builtins::Builtin;
use crate::ir::bytecode::FunctionId;
use crate::ir::document::{
    Block, BlockKind, Document, DocumentMetadata, Inline, InlineKind, NodeKind, SpecNode,
    TableCell, TableCellKind, TableChild, TableChildKind, TableRow, TableRowKind, block_view,
    blocks_view, cell_view, cells_view, inline_view, inlines_view, kind_name_of, node_kind,
    node_kind_name, opt_text_view, row_view, rows_view, table_child_view, table_children_view,
};
use crate::ir::lexer::Span;

verus! {

#[derive(Debug, PartialEq, Eq)]
pub enum Value {
    String(String),
    Bool(bool),
    List(Vec<Value>),
    Node(NodeValue),
    Callable(CallableValue),
    Unit,
}

#[derive(Debug, PartialEq, Eq)]
pub enum CallableValue {
    Builtin(Builtin),
    Closure(ClosureValue),
}

#[derive(Debug, PartialEq, Eq)]
pub struct ClosureValue {
    pub function: FunctionId,
    pub captures: Vec<Value>,
}

#[derive(Debug, PartialEq, Eq)]
pub enum NodeValue {
    Document(DocumentValue),
    Block(BlockValue),
    Inline(InlineValue),
    TableChild(TableChildValue),
    TableRow(TableRowValue),
    TableCell(TableCellValue),
}

#[derive(Debug, PartialEq, Eq)]
pub struct DocumentValue {
    pub metadata: MetadataValue,
    pub blocks: Vec<NodeValue>,
    pub span: Span,
}

#[derive(Clone, Debug, PartialEq, Eq)]
pub struct MetadataValue {
    pub version: String,
    pub span: Span,
}

#[derive(Debug, PartialEq, Eq)]
pub enum BlockValue {
    Heading { level: u8, inlines: Vec<NodeValue>, span: Span },
    Paragraph { inlines: Vec<NodeValue>, span: Span },
    List { ordered: bool, items: Vec<NodeValue>, span: Span },
    ListItem { children: Vec<NodeValue>, span: Span },
    BlockQuote { children: Vec<NodeValue>, span: Span },
    CodeBlock { lang: Option<String>, text: String, span: Span },
    ThematicBreak { span: Span },
    Table { children: Vec<NodeValue>, span: Span },
}

#[derive(Debug, PartialEq, Eq)]
pub enum InlineValue {
    Text { text: String, span: Span },
    Emphasis { children: Vec<NodeValue>, span: Span },
    Strong { children: Vec<NodeValue>, span: Span },
    Code { text: String, span: Span },
    Link { href: String, children: Vec<NodeValue>, span: Span },
    Image { src: String, alt: Option<String>, span: Span },
    Break { span: Span },
}

#[derive(Debug, PartialEq, Eq)]
pub enum TableChildValue {
    Head { rows: Vec<NodeValue>, span: Span },
    Body { rows: Vec<NodeValue>, span: Span },
}

#[derive(Debug, PartialEq, Eq)]
pub struct TableRowValue {
    pub cells: Vec<NodeValue>,
    pub span: Span,
}

#[derive(Debug, PartialEq, Eq)]
pub enum TableCellValue {
    Header { children: Vec<NodeValue>, span: Span },
    Data { children: Vec<NodeValue>, span: Span },
}

#[derive(Clone, Copy, Debug, PartialEq, Eq)]
pub enum DecodeError {
    ExpectedBlock,
    ExpectedInline,
    ExpectedTableChild,
    ExpectedTableRow,
    ExpectedTableCell,
}

/// The model of a runtime value.
pub enum SpecValue {
    String(Seq<char>),
    Bool(bool),
    List(Seq<SpecValue>),
    Node(SpecNode),
    Callable(SpecCallable),
    Unit,
}

pub enum SpecCallable {
    Builtin(Builtin),
    Closure { function: FunctionId, captures: Seq<SpecValue> },
}

pub open spec fn value_view(v: Value) -> SpecValue
    decreases v,
{
    match v {
        Value::String(s) => SpecValue::String(s@),
        Value::Bool(b) => SpecValue::Bool(b),
        Value::List(vs) => SpecValue::List(values_view(vs@)),
        Value::Node(n) => SpecValue::Node(node_value_view(n)),
        Value::Callable(c) => SpecValue::Callable(callable_view(c)),
        Value::Unit => SpecValue::Unit,
    }
}

pub open spec fn callable_view(c: CallableValue) -> SpecCallable
    decreases c,
{
    match c {
        CallableValue::Builtin(b) => SpecCallable::Builtin(b),
        CallableValue::Closure(cl) => SpecCallable::Closure {
            function: cl.function,
            captures: values_view(cl.captures@),
        },
    }
}

pub open spec fn values_view(s: Seq<Value>) -> Seq<SpecValue>
    decreases s,
{
    if s.len() == 0 {
        Seq::empty()
    } else {
        values_view(s.drop_last()).push(value_view(s.last()))
    }
}

pub open spec fn node_value_view(n: NodeValue) -> SpecNode
    decreases n,
{
    match n {
        NodeValue::Document(d) => SpecNode::Document {
            version: d.metadata.version@,
            meta_span: d.metadata.span,
            blocks: node_values_view(d.blocks@),
            span: d.span,
        },
        NodeValue::Block(b) => match b {
            BlockValue::Heading { level, inlines, span } => SpecNode::Heading {
                level,
                inlines: node_values_view(inlines@),
                span,
            },
            BlockValue::Paragraph { inlines, span } => SpecNode::Paragraph {
                inlines: node_values_view(inlines@),
                span,
            },
            BlockValue::List { ordered, items, span } => SpecNode::List {
                ordered,
                items: node_values_view(items@),
                span,
            },
            BlockValue::ListItem { children, span } => SpecNode::ListItem {
                children: node_values_view(children@),
                span,
            },
            BlockValue::BlockQuote { children, span } => SpecNode::BlockQuote {
                children: node_values_view(children@),
                span,
            },
            BlockValue::CodeBlock { lang, text, span } => SpecNode::CodeBlock {
                lang: opt_text_view(lang),
                text: text@,
                span,
            },
            BlockValue::ThematicBreak { span } => SpecNode::ThematicBreak { span },
            BlockValue::Table { children, span } => SpecNode::Table {
                children: node_values_view(children@),
                span,
            },
        },
        NodeValue::Inline(i) => match i {
            InlineValue::Text { text, span } => SpecNode::Text { text: text@, span },
            InlineValue::Emphasis { children, span } => SpecNode::Emphasis {
                children: node_values_view(children@),
                span,
            },
            InlineValue::Strong { children, span } => SpecNode::Strong {
                children: node_values_view(children@),
                span,
            },
            InlineValue::Code { text, span } => SpecNode::Code { text: text@, span },
            InlineValue::Link { href, children, span } => SpecNode::Link {
                href: href@,
                children: node_values_view(children@),
                span,
            },
            InlineValue::Image { src, alt, span } => SpecNode::Image {
                src: src@,
                alt: opt_text_view(alt),
                span,
            },
            InlineValue::Break { span } => SpecNode::Break { span },
        },
        NodeValue::TableChild(c) => match c {
            TableChildValue::Head { rows, span } => SpecNode::Head {
                rows: node_values_view(rows@),
                span,
            },
            TableChildValue::Body { rows, span } => SpecNode::Body {
                rows: node_values_view(rows@),
                span,
            },
        },
        NodeValue::TableRow(r) => SpecNode::Row { cells: node_values_view(r.cells@), span: r.span },
        NodeValue::TableCell(c) => match c {
            TableCellValue::Header { children, span } => SpecNode::HeaderCell {
                children: node_values_view(children@),
                span,
            },
            TableCellValue::Data { children, span } => SpecNode::DataCell {
                children: node_values_view(children@),
                span,
            },
        },
    }
}

pub open spec fn node_values_view(s: Seq<NodeValue>) -> Seq<SpecNode>
    decreases s,
{
    if s.len() == 0 {
        Seq::empty()
    } else {
        node_values_view(s.drop_last()).push(node_value_view(s.last()))
    }
}

pub proof fn lemma_values_view(s: Seq<Value>)
    ensures
        values_view(s).len() == s.len(),
        forall|i: int| 0 <= i < s.len() ==> #[trigger] values_view(s)[i] == value_view(s[i]),
    decreases s.len(),
{
    if s.len() > 0 {
        lemma_values_view(s.drop_last());
    }
}

pub proof fn lemma_values_view_push(s: Seq<Value>, v: Value)
    ensures
        values_view(s.push(v)) == values_view(s).push(value_view(v)),
{
    assert(s.push(v).drop_last() =~= s);
}

pub proof fn lemma_values_view_take(s: Seq<Value>, k: int)
    requires
        0 <= k <= s.len(),
    ensures
        values_view(s.take(k)) == values_view(s).take(k),
        values_view(s.skip(k)) == values_view(s).skip(k),
{
    lemma_values_view(s);
    lemma_values_view(s.take(k));
    lemma_values_view(s.skip(k));
    assert(values_view(s.take(k)) =~= values_view(s).take(k));
    assert(values_view(s.skip(k)) =~= values_view(s).skip(k));
}

pub proof fn lemma_values_view_update(s: Seq<Value>, k: int, v: Value)
    requires
        0 <= k < s.len(),
    ensures
        values_view(s.update(k, v)) == values_view(s).update(k, value_view(v)),
{
    lemma_values_view(s);
    lemma_values_view(s.update(k, v));
    assert(values_view(s.update(k, v)) =~= values_view(s).update(k, value_view(v)));
}

pub proof fn lemma_node_values_view(s: Seq<NodeValue>)
    ensures
        node_values_view(s).len() == s.len(),
        forall|i: int|
            0 <= i < s.len() ==> #[trigger] node_values_view(s)[i] == node_value_view(s[i]),
    decreases s.len(),
{
    if s.len() > 0 {
        lemma_node_values_view(s.drop_last());
    }
}

pub proof fn lemma_node_values_view_push(s: Seq<NodeValue>, v: NodeValue)
    ensures
        node_values_view(s.push(v)) == node_values_view(s).push(node_value_view(v)),
{
    assert(s.push(v).drop_last() =~= s);
}

/// The name of a value's kind in diagnostics.
pub open spec fn value_kind_name(v: SpecValue) -> &'static str {
    match v {
        SpecValue::String(_) => "string",
        SpecValue::Bool(_) => "bool",
        SpecValue::List(_) => "list",
        SpecValue::Node(n) => node_kind_name(node_kind(n)),
        SpecValue::Callable(_) => "callable",
        SpecValue::Unit => "unit",
    }
}

/// The span of a node value; other values have none.
pub open spec fn value_span(v: SpecValue) -> Option<Span> {
    match v {
        SpecValue::Node(n) => Some(crate::ir::document::node_span(n)),
        _ => None,
    }
}

impl NodeValue {
    /// The kind of this node.
    pub fn kind(&self) -> (r: NodeKind)
        ensures
            r == node_kind(node_value_view(*self)),
    {
        match self {
            NodeValue::Document(_) => NodeKind::Document,
            NodeValue::Block(_) => NodeKind::Block,
            NodeValue::Inline(_) => NodeKind::Inline,
            NodeValue::TableChild(_) => NodeKind::TableChild,
            NodeValue::TableRow(_) => NodeKind::TableRow,
            NodeValue::TableCell(_) => NodeKind::TableCell,
        }
    }

    /// The span of this node.
    pub fn span(&self) -> (r: Span)
        ensures
            r == crate::ir::document::node_span(node_value_view(*self)),
    {
        match self {
            NodeValue::Document(d) => d.span,
            NodeValue::Block(b) => match b {
                BlockValue::Heading { span, .. } => *span,
                BlockValue::Paragraph { span, .. } => *span,
                BlockValue::List { span, .. } => *span,
                BlockValue::ListItem { span, .. } => *span,
                BlockValue::BlockQuote { span, .. } => *span,
                BlockValue::CodeBlock { span, .. } => *span,
                BlockValue::ThematicBreak { span } => *span,
                BlockValue::Table { span, .. } => *span,
            },
            NodeValue::Inline(i) => match i {
                InlineValue::Text { span, .. } => *span,
                InlineValue::Emphasis { span, .. } => *span,
                InlineValue::Strong { span, .. } => *span,
                InlineValue::Code { span, .. } => *span,
                InlineValue::Link { span, .. } => *span,
                InlineValue::Image { span, .. } => *span,
                InlineValue::Break { span } => *span,
            },
            NodeValue::TableChild(c) => match c {
                TableChildValue::Head { span, .. } => *span,
                TableChildValue::Body { span, .. } => *span,
            },
            NodeValue::TableRow(r) => r.span,
            NodeValue::TableCell(c) => match c {
                TableCellValue::Header { span, .. } => *span,
                TableCellValue::Data { span, .. } => *span,
            },
        }
    }
}

impl Value {
    /// The name of this value's kind in diagnostics.
    pub fn kind_name(&self) -> (r: &'static str)
        ensures
            r == value_kind_name(value_view(*self)),
    {
        match self {
            Value::String(_) => "string",
            Value::Bool(_) => "bool",
            Value::List(_) => "list",
            Value::Node(n) => kind_name_of(n.kind()),
            Value::Callable(_) => "callable",
            Value::Unit => "unit",
        }
    }

    /// The span of a node value; other values have none.
    pub fn span(&self) -> (r: Option<Span>)
        ensures
            r == value_span(value_view(*self)),
    {
        match self {
            Value::Node(n) => Some(n.span()),
            _ => None,
        }
    }
}

fn clone_opt_text(o: &Option<String>) -> (r: Option<String>)
    ensures
        opt_text_view(r) == opt_text_view(*o),
{
    match o {
        Some(s) => Some(s.clone()),
        None => None,
    }
}

/// A copy of a value.
pub fn clone_value(v: &Value) -> (r: Value)
    ensures
        value_view(r) == value_view(*v),
    decreases v,
{
    match v {
        Value::String(s) => Value::String(s.clone()),
        Value::Bool(b) => Value::Bool(*b),
        Value::List(vs) => Value::List(clone_values(vs)),
        Value::Node(n) => Value::Node(clone_node(n)),
        Value::Callable(CallableValue::Builtin(b)) => Value::Callable(CallableValue::Builtin(*b)),
        Value::Callable(CallableValue::Closure(c)) => Value::Callable(
            CallableValue::Closure(
                ClosureValue { function: c.function, captures: clone_values(&c.captures) },
            ),
        ),
        Value::Unit => Value::Unit,
    }
}

/// A copy of a callable value.
pub fn clone_callable(c: &CallableValue) -> (r: CallableValue)
    ensures
        callable_view(r) == callable_view(*c),
{
    match c {
        CallableValue::Builtin(b) => CallableValue::Builtin(*b),
        CallableValue::Closure(cl) => CallableValue::Closure(
            ClosureValue { function: cl.function, captures: clone_values(&cl.captures) },
        ),
    }
}

/// A copy of a list of values.
pub fn clone_values(vs: &Vec<Value>) -> (r: Vec<Value>)
    ensures
        values_view(r@) == values_view(vs@),
    decreases vs,
{
    let mut out: Vec<Value> = Vec::new();
    let mut i: usize = 0;
    while i < vs.len()
        invariant
            0 <= i <= vs@.len(),
            values_view(out@) == values_view(vs@.take(i as int)),
        decreases vs@.len() - i,
    {
        let c = clone_value(&vs[i]);
        proof {
            lemma_values_view_push(out@, c);
            assert(vs@.take(i + 1) =~= vs@.take(i as int).push(vs@[i as int]));
            lemma_values_view_push(vs@.take(i as int), vs@[i as int]);
        }
        out.push(c);
        i += 1;
    }
    assert(vs@.take(vs@.len() as int) =~= vs@);
    out
}

/// A copy of a node.
pub fn clone_node(n: &NodeValue) -> (r: NodeValue)
    ensures
        node_value_view(r) == node_value_view(*n),
    decreases n,
{
    match n {
        NodeValue::Document(d) => NodeValue::Document(
            DocumentValue {
                metadata: MetadataValue {
                    version: d.metadata.version.clone(),
                    span: d.metadata.span,
                },
                blocks: clone_nodes(&d.blocks),
                span: d.span,
            },
        ),
        NodeValue::Block(b) => NodeValue::Block(
            match b {
                BlockValue::Heading { level, inlines, span } => BlockValue::Heading {
                    level: *level,
                    inlines: clone_nodes(inlines),
                    span: *span,
                },
                BlockValue::Paragraph { inlines, span } => BlockValue::Paragraph {
                    inlines: clone_nodes(inlines),
                    span: *span,
                },
                BlockValue::List { ordered, items, span } => BlockValue::List {
                    ordered: *ordered,
                    items: clone_nodes(items),
                    span: *span,
                },
                BlockValue::ListItem { children, span } => BlockValue::ListItem {
                    children: clone_nodes(children),
                    span: *span,
                },
                BlockValue::BlockQuote { children, span } => BlockValue::BlockQuote {
                    children: clone_nodes(children),
                    span: *span,
                },
                BlockValue::CodeBlock { lang, text, span } => BlockValue::CodeBlock {
                    lang: clone_opt_text(lang),
                    text: text.clone(),
                    span: *span,
                },
                BlockValue::ThematicBreak { span } => BlockValue::ThematicBreak { span: *span },
                BlockValue::Table { children, span } => BlockValue::Table {
                    children: clone_nodes(children),
                    span: *span,
                },
            },
        ),
        NodeValue::Inline(i) => NodeValue::Inline(
            match i {
                InlineValue::Text { text, span } => InlineValue::Text {
                    text: text.clone(),
                    span: *span,
                },
                InlineValue::Emphasis { children, span } => InlineValue::Emphasis {
                    children: clone_nodes(children),
                    span: *span,
                },
                InlineValue::Strong { children, span } => InlineValue::Strong {
                    children: clone_nodes(children),
                    span: *span,
                },
                InlineValue::Code { text, span } => InlineValue::Code {
                    text: text.clone(),
                    span: *span,
                },
                InlineValue::Link { href, children, span } => InlineValue::Link {
                    href: href.clone(),
                    children: clone_nodes(children),
                    span: *span,
                },
                InlineValue::Image { src, alt, span } => InlineValue::Image {
                    src: src.clone(),
                    alt: clone_opt_text(alt),
                    span: *span,
                },
                InlineValue::Break { span } => InlineValue::Break { span: *span },
            },
        ),
        NodeValue::TableChild(c) => NodeValue::TableChild(
            match c {
                TableChildValue::Head { rows, span } => TableChildValue::Head {
                    rows: clone_nodes(rows),
                    span: *span,
                },
                TableChildValue::Body { rows, span } => TableChildValue::Body {
                    rows: clone_nodes(rows),
                    span: *span,
                },
            },
        ),
        NodeValue::TableRow(r) => NodeValue::TableRow(
            TableRowValue { cells: clone_nodes(&r.cells), span: r.span },
        ),
        NodeValue::TableCell(c) => NodeValue::TableCell(
            match c {
                TableCellValue::Header { children, span } => TableCellValue::Header {
                    children: clone_nodes(children),
                    span: *span,
                },
                TableCellValue::Data { children, span } => TableCellValue::Data {
                    children: clone_nodes(children),
                    span: *span,
                },
            },
        ),
    }
}

/// A copy of a list of nodes.
pub fn clone_nodes(vs: &Vec<NodeValue>) -> (r: Vec<NodeValue>)
    ensures
        node_values_view(r@) == node_values_view(vs@),
    decreases vs,
{
    let mut out: Vec<NodeValue> = Vec::new();
    let mut i: usize = 0;
    while i < vs.len()
        invariant
            0 <= i <= vs@.len(),
            node_values_view(out@) == node_values_view(vs@.take(i as int)),
        decreases vs@.len() - i,
    {
        let c = clone_node(&vs[i]);
        proof {
            lemma_node_values_view_push(out@, c);
            assert(vs@.take(i + 1) =~= vs@.take(i as int).push(vs@[i as int]));
            lemma_node_values_view_push(vs@.take(i as int), vs@[i as int]);
        }
        out.push(c);
        i += 1;
    }
    assert(vs@.take(vs@.len() as int) =~= vs@);
    out
}


/// The error for a node that is not of the expected kind.
pub open spec fn expected_error(k: NodeKind) -> DecodeError {
    match k {
        NodeKind::Inline => DecodeError::ExpectedInline,
        NodeKind::TableChild => DecodeError::ExpectedTableChild,
        NodeKind::TableRow => DecodeError::ExpectedTableRow,
        NodeKind::TableCell => DecodeError::ExpectedTableCell,
        _ => DecodeError::ExpectedBlock,
    }
}

/// The first decoding error among `ns` from `i` on, each expected of kind
/// `k`: a node of another kind, or an error within a node.
pub open spec fn decode_list(ns: Seq<SpecNode>, k: NodeKind, i: int) -> Option<DecodeError>
    decreases ns, ns.len() - i,
{
    if i < 0 || i >= ns.len() {
        None
    } else if node_kind(ns[i]) != k {
        Some(expected_error(k))
    } else {
        match decode_children(ns[i]) {
            Some(e) => Some(e),
            None => decode_list(ns, k, i + 1),
        }
    }
}

/// The first decoding error among the children of `n`, which must have the
/// kinds that `n` takes.
pub open spec fn decode_children(n: SpecNode) -> Option<DecodeError>
    decreases n, 0int,
{
    match n {
        SpecNode::Document { blocks, .. } => decode_list(blocks, NodeKind::Block, 0),
        SpecNode::Heading { inlines, .. } => decode_list(inlines, NodeKind::Inline, 0),
        SpecNode::Paragraph { inlines, .. } => decode_list(inlines, NodeKind::Inline, 0),
        SpecNode::List { items, .. } => decode_list(items, NodeKind::Block, 0),
        SpecNode::ListItem { children, .. } => decode_list(children, NodeKind::Block, 0),
        SpecNode::BlockQuote { children, .. } => decode_list(children, NodeKind::Block, 0),
        SpecNode::Table { children, .. } => decode_list(children, NodeKind::TableChild, 0),
        SpecNode::Emphasis { children, .. } => decode_list(children, NodeKind::Inline, 0),
        SpecNode::Strong { children, .. } => decode_list(children, NodeKind::Inline, 0),
        SpecNode::Link { children, .. } => decode_list(children, NodeKind::Inline, 0),
        SpecNode::Head { rows, .. } => decode_list(rows, NodeKind::TableRow, 0),
        SpecNode::Body { rows, .. } => decode_list(rows, NodeKind::TableRow, 0),
        SpecNode::Row { cells, .. } => decode_list(cells, NodeKind::TableCell, 0),
        SpecNode::HeaderCell { children, .. } => decode_list(children, NodeKind::Inline, 0),
        SpecNode::DataCell { children, .. } => decode_list(children, NodeKind::Inline, 0),
        _ => None,
    }
}

pub proof fn lemma_blocks_view_push(s: Seq<Block>, x: Block)
    ensures
        blocks_view(s.push(x)) == blocks_view(s).push(block_view(x)),
{
    assert(s.push(x).drop_last() =~= s);
}

pub proof fn lemma_inlines_view_push(s: Seq<Inline>, x: Inline)
    ensures
        inlines_view(s.push(x)) == inlines_view(s).push(inline_view(x)),
{
    assert(s.push(x).drop_last() =~= s);
}

pub proof fn lemma_table_children_view_push(s: Seq<TableChild>, x: TableChild)
    ensures
        table_children_view(s.push(x)) == table_children_view(s).push(table_child_view(x)),
{
    assert(s.push(x).drop_last() =~= s);
}

pub proof fn lemma_rows_view_push(s: Seq<TableRow>, x: TableRow)
    ensures
        rows_view(s.push(x)) == rows_view(s).push(row_view(x)),
{
    assert(s.push(x).drop_last() =~= s);
}

pub proof fn lemma_cells_view_push(s: Seq<TableCell>, x: TableCell)
    ensures
        cells_view(s.push(x)) == cells_view(s).push(cell_view(x)),
{
    assert(s.push(x).drop_last() =~= s);
}

impl MetadataValue {
    pub fn into_metadata(&self) -> (r: DocumentMetadata)
        ensures
            r.version@ == self.version@,
            r.span == self.span,
    {
        DocumentMetadata { version: self.version.clone(), span: self.span }
    }
}

fn decode_blocks(values: &Vec<NodeValue>) -> (r: Result<Vec<Block>, DecodeError>)
    ensures
        match decode_list(node_values_view(values@), NodeKind::Block, 0) {
            None => r is Ok && blocks_view(r->Ok_0@) == node_values_view(values@),
            Some(e) => r == Err::<Vec<Block>, DecodeError>(e),
        },
    decreases values,
{
    let ghost nv = node_values_view(values@);
    proof {
        lemma_node_values_view(values@);
    }
    let mut out: Vec<Block> = Vec::new();
    let mut i: usize = 0;
    assert(blocks_view(out@) =~= nv.take(0));
    while i < values.len()
        invariant
            nv == node_values_view(values@),
            nv.len() == values@.len(),
            forall|j: int| 0 <= j < values@.len() ==> #[trigger] nv[j] == node_value_view(values@[j]),
            0 <= i <= values@.len(),
            decode_list(nv, NodeKind::Block, 0) == decode_list(nv, NodeKind::Block, i as int),
            blocks_view(out@) == nv.take(i as int),
        decreases values@.len() - i,
    {
        let x = match &values[i] {
            NodeValue::Block(v) => match decode_block(v) {
                Ok(x) => x,
                Err(e) => {
                    return Err(e);
                },
            },
            _ => {
                return Err(DecodeError::ExpectedBlock);
            },
        };
        proof {
            lemma_blocks_view_push(out@, x);
            assert(nv.take(i + 1) =~= nv.take(i as int).push(nv[i as int]));
        }
        out.push(x);
        i += 1;
    }
    assert(nv.take(values@.len() as int) =~= nv);
    Ok(out)
}

fn decode_inlines(values: &Vec<NodeValue>) -> (r: Result<Vec<Inline>, DecodeError>)
    ensures
        match decode_list(node_values_view(values@), NodeKind::Inline, 0) {
            None => r is Ok && inlines_view(r->Ok_0@) == node_values_view(values@),
            Some(e) => r == Err::<Vec<Inline>, DecodeError>(e),
        },
    decreases values,
{
    let ghost nv = node_values_view(values@);
    proof {
        lemma_node_values_view(values@);
    }
    let mut out: Vec<Inline> = Vec::new();
    let mut i: usize = 0;
    assert(inlines_view(out@) =~= nv.take(0));
    while i < values.len()
        invariant
            nv == node_values_view(values@),
            nv.len() == values@.len(),
            forall|j: int| 0 <= j < values@.len() ==> #[trigger] nv[j] == node_value_view(values@[j]),
            0 <= i <= values@.len(),
            decode_list(nv, NodeKind::Inline, 0) == decode_list(nv, NodeKind::Inline, i as int),
            inlines_view(out@) == nv.take(i as int),
        decreases values@.len() - i,
    {
        let x = match &values[i] {
            NodeValue::Inline(v) => match decode_inline(v) {
                Ok(x) => x,
                Err(e) => {
                    return Err(e);
                },
            },
            _ => {
                return Err(DecodeError::ExpectedInline);
            },
        };
        proof {
            lemma_inlines_view_push(out@, x);
            assert(nv.take(i + 1) =~= nv.take(i as int).push(nv[i as int]));
        }
        out.push(x);
        i += 1;
    }
    assert(nv.take(values@.len() as int) =~= nv);
    Ok(out)
}

fn decode_table_children(values: &Vec<NodeValue>) -> (r: Result<Vec<TableChild>, DecodeError>)
    ensures
        match decode_list(node_values_view(values@), NodeKind::TableChild, 0) {
            None => r is Ok && table_children_view(r->Ok_0@) == node_values_view(values@),
            Some(e) => r == Err::<Vec<TableChild>, DecodeError>(e),
        },
    decreases values,
{
    let ghost nv = node_values_view(values@);
    proof {
        lemma_node_values_view(values@);
    }
    let mut out: Vec<TableChild> = Vec::new();
    let mut i: usize = 0;
    assert(table_children_view(out@) =~= nv.take(0));
    while i < values.len()
        invariant
            nv == node_values_view(values@),
            nv.len() == values@.len(),
            forall|j: int| 0 <= j < values@.len() ==> #[trigger] nv[j] == node_value_view(values@[j]),
            0 <= i <= values@.len(),
            decode_list(nv, NodeKind::TableChild, 0) == decode_list(nv, NodeKind::TableChild, i as int),
            table_children_view(out@) == nv.take(i as int),
        decreases values@.len() - i,
    {
        let x = match &values[i] {
            NodeValue::TableChild(v) => match decode_table_child(v) {
                Ok(x) => x,
                Err(e) => {
                    return Err(e);
                },
            },
            _ => {
                return Err(DecodeError::ExpectedTableChild);
            },
        };
        proof {
            lemma_table_children_view_push(out@, x);
            assert(nv.take(i + 1) =~= nv.take(i as int).push(nv[i as int]));
        }
        out.push(x);
        i += 1;
    }
    assert(nv.take(values@.len() as int) =~= nv);
    Ok(out)
}

fn decode_rows(values: &Vec<NodeValue>) -> (r: Result<Vec<TableRow>, DecodeError>)
    ensures
        match decode_list(node_values_view(values@), NodeKind::TableRow, 0) {
            None => r is Ok && rows_view(r->Ok_0@) == node_values_view(values@),
            Some(e) => r == Err::<Vec<TableRow>, DecodeError>(e),
        },
    decreases values,
{
    let ghost nv = node_values_view(values@);
    proof {
        lemma_node_values_view(values@);
    }
    let mut out: Vec<TableRow> = Vec::new();
    let mut i: usize = 0;
    assert(rows_view(out@) =~= nv.take(0));
    while i < values.len()
        invariant
            nv == node_values_view(values@),
            nv.len() == values@.len(),
            forall|j: int| 0 <= j < values@.len() ==> #[trigger] nv[j] == node_value_view(values@[j]),
            0 <= i <= values@.len(),
            decode_list(nv, NodeKind::TableRow, 0) == decode_list(nv, NodeKind::TableRow, i as int),
            rows_view(out@) == nv.take(i as int),
        decreases values@.len() - i,
    {
        let x = match &values[i] {
            NodeValue::TableRow(v) => match decode_row(v) {
                Ok(x) => x,
                Err(e) => {
                    return Err(e);
                },
            },
            _ => {
                return Err(DecodeError::ExpectedTableRow);
            },
        };
        proof {
            lemma_rows_view_push(out@, x);
            assert(nv.take(i + 1) =~= nv.take(i as int).push(nv[i as int]));
        }
        out.push(x);
        i += 1;
    }
    assert(nv.take(values@.len() as int) =~= nv);
    Ok(out)
}

fn decode_cells(values: &Vec<NodeValue>) -> (r: Result<Vec<TableCell>, DecodeError>)
    ensures
        match decode_list(node_values_view(values@), NodeKind::TableCell, 0) {
            None => r is Ok && cells_view(r->Ok_0@) == node_values_view(values@),
            Some(e) => r == Err::<Vec<TableCell>, DecodeError>(e),
        },
    decreases values,
{
    let ghost nv = node_values_view(values@);
    proof {
        lemma_node_values_view(values@);
    }
    let mut out: Vec<TableCell> = Vec::new();
    let mut i: usize = 0;
    assert(cells_view(out@) =~= nv.take(0));
    while i < values.len()
        invariant
            nv == node_values_view(values@),
            nv.len() == values@.len(),
            forall|j: int| 0 <= j < values@.len() ==> #[trigger] nv[j] == node_value_view(values@[j]),
            0 <= i <= values@.len(),
            decode_list(nv, NodeKind::TableCell, 0) == decode_list(nv, NodeKind::TableCell, i as int),
            cells_view(out@) == nv.take(i as int),
        decreases values@.len() - i,
    {
        let x = match &values[i] {
            NodeValue::TableCell(v) => match decode_cell(v) {
                Ok(x) => x,
                Err(e) => {
                    return Err(e);
                },
            },
            _ => {
                return Err(DecodeError::ExpectedTableCell);
            },
        };
        proof {
            lemma_cells_view_push(out@, x);
            assert(nv.take(i + 1) =~= nv.take(i as int).push(nv[i as int]));
        }
        out.push(x);
        i += 1;
    }
    assert(nv.take(values@.len() as int) =~= nv);
    Ok(out)
}

fn decode_block(b: &BlockValue) -> (r: Result<Block, DecodeError>)
    ensures
        match decode_children(node_value_view(NodeValue::Block(*b))) {
            None => r is Ok && block_view(r->Ok_0) == node_value_view(NodeValue::Block(*b)),
            Some(e) => r == Err::<Block, DecodeError>(e),
        },
    decreases b,
{
    let (kind, span) = match b {
        BlockValue::Heading { level, inlines, span } => match decode_inlines(inlines) {
            Ok(x) => (BlockKind::Heading { level: *level, inlines: x }, *span),
            Err(e) => {
                return Err(e);
            },
        },
        BlockValue::Paragraph { inlines, span } => match decode_inlines(inlines) {
            Ok(x) => (BlockKind::Paragraph(x), *span),
            Err(e) => {
                return Err(e);
            },
        },
        BlockValue::List { ordered, items, span } => match decode_blocks(items) {
            Ok(x) => (BlockKind::List { ordered: *ordered, items: x }, *span),
            Err(e) => {
                return Err(e);
            },
        },
        BlockValue::ListItem { children, span } => match decode_blocks(children) {
            Ok(x) => (BlockKind::ListItem(x), *span),
            Err(e) => {
                return Err(e);
            },
        },
        BlockValue::BlockQuote { children, span } => match decode_blocks(children) {
            Ok(x) => (BlockKind::BlockQuote(x), *span),
            Err(e) => {
                return Err(e);
            },
        },
        BlockValue::CodeBlock { lang, text, span } => (
            BlockKind::CodeBlock { lang: clone_opt_text(lang), text: text.clone() },
            *span,
        ),
        BlockValue::ThematicBreak { span } => (BlockKind::ThematicBreak, *span),
        BlockValue::Table { children, span } => match decode_table_children(children) {
            Ok(x) => (BlockKind::Table(x), *span),
            Err(e) => {
                return Err(e);
            },
        },
    };
    Ok(Node { kind, span })
}

fn decode_inline(v: &InlineValue) -> (r: Result<Inline, DecodeError>)
    ensures
        match decode_children(node_value_view(NodeValue::Inline(*v))) {
            None => r is Ok && inline_view(r->Ok_0) == node_value_view(NodeValue::Inline(*v)),
            Some(e) => r == Err::<Inline, DecodeError>(e),
        },
    decreases v,
{
    let (kind, span) = match v {
        InlineValue::Text { text, span } => (InlineKind::Text(text.clone()), *span),
        InlineValue::Emphasis { children, span } => match decode_inlines(children) {
            Ok(x) => (InlineKind::Emphasis(x), *span),
            Err(e) => {
                return Err(e);
            },
        },
        InlineValue::Strong { children, span } => match decode_inlines(children) {
            Ok(x) => (InlineKind::Strong(x), *span),
            Err(e) => {
                return Err(e);
            },
        },
        InlineValue::Code { text, span } => (InlineKind::Code(text.clone()), *span),
        InlineValue::Link { href, children, span } => match decode_inlines(children) {
            Ok(x) => (InlineKind::Link { href: href.clone(), children: x }, *span),
            Err(e) => {
                return Err(e);
            },
        },
        InlineValue::Image { src, alt, span } => (
            InlineKind::Image { src: src.clone(), alt: clone_opt_text(alt) },
            *span,
        ),
        InlineValue::Break { span } => (InlineKind::Break, *span),
    };
    Ok(Node { kind, span })
}

fn decode_table_child(v: &TableChildValue) -> (r: Result<TableChild, DecodeError>)
    ensures
        match decode_children(node_value_view(NodeValue::TableChild(*v))) {
            None => r is Ok && table_child_view(r->Ok_0) == node_value_view(NodeValue::TableChild(*v)),
            Some(e) => r == Err::<TableChild, DecodeError>(e),
        },
    decreases v,
{
    let (kind, span) = match v {
        TableChildValue::Head { rows, span } => match decode_rows(rows) {
            Ok(x) => (TableChildKind::Head(x), *span),
            Err(e) => {
                return Err(e);
            },
        },
        TableChildValue::Body { rows, span } => match decode_rows(rows) {
            Ok(x) => (TableChildKind::Body(x), *span),
            Err(e) => {
                return Err(e);
            },
        },
    };
    Ok(Node { kind, span })
}

fn decode_row(v: &TableRowValue) -> (r: Result<TableRow, DecodeError>)
    ensures
        match decode_children(node_value_view(NodeValue::TableRow(*v))) {
            None => r is Ok && row_view(r->Ok_0) == node_value_view(NodeValue::TableRow(*v)),
            Some(e) => r == Err::<TableRow, DecodeError>(e),
        },
    decreases v,
{
    match decode_cells(&v.cells) {
        Ok(cells) => Ok(Node { kind: TableRowKind { cells }, span: v.span }),
        Err(e) => Err(e),
    }
}

fn decode_cell(v: &TableCellValue) -> (r: Result<TableCell, DecodeError>)
    ensures
        match decode_children(node_value_view(NodeValue::TableCell(*v))) {
            None => r is Ok && cell_view(r->Ok_0) == node_value_view(NodeValue::TableCell(*v)),
            Some(e) => r == Err::<TableCell, DecodeError>(e),
        },
    decreases v,
{
    let (kind, span) = match v {
        TableCellValue::Header { children, span } => match decode_inlines(children) {
            Ok(x) => (TableCellKind::Header(x), *span),
            Err(e) => {
                return Err(e);
            },
        },
        TableCellValue::Data { children, span } => match decode_inlines(children) {
            Ok(x) => (TableCellKind::Data(x), *span),
            Err(e) => {
                return Err(e);
            },
        },
    };
    Ok(Node { kind, span })
}

impl DocumentValue {
    /// The resolved document, when every node has the kind its parent
    /// takes.
    pub fn try_into_document(&self) -> (r: Result<Document, DecodeError>)
        ensures
            match decode_children(node_value_view(NodeValue::Document(*self))) {
                None => r is Ok && r->Ok_0@ == node_value_view(NodeValue::Document(*self)),
                Some(e) => r == Err::<Document, DecodeError>(e),
            },
    {
        match decode_blocks(&self.blocks) {
            Ok(blocks) => Ok(Document { metadata: self.metadata.into_metadata(), blocks, span: self.span }),
            Err(e) => Err(e),
        }
    }
}

} // verus!
