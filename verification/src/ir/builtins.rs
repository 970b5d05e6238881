//! The builtins of Lightdown IR: the functions that build document nodes,
//! `list`, and the table helper `ld::table::from-data`.
//!
//! `map` and `apply` call other callables, so the machine dispatches them
//! (see `vm`); every other builtin is a function of its arguments, given
//! here by `construct`.
use vstd::prelude::*;

use crate::ir::document::{NodeKind, SpecNode, kind_name_of, node_kind, node_kind_name, node_span};
use crate::ir::lexer::Span;
use crate::ir::runtime::{
    BlockValue, DocumentValue, InlineValue, MetadataValue, NodeValue, SpecValue, TableCellValue,
    TableChildValue, TableRowValue, Value, clone_node, clone_values, lemma_node_values_view,
    lemma_node_values_view_push, lemma_values_view, node_value_view, node_values_view,
    value_kind_name, value_view, values_view,
};
use crate::ir::vm::{SpecVmError, VmError};
use crate::text::str_eq;

verus! {

#[derive(Clone, Copy, Debug, PartialEq, Eq)]
pub enum Builtin {
    Doc,
    H1,
    H2,
    H3,
    H4,
    H5,
    H6,
    P,
    Ul,
    Ol,
    Li,
    BlockQuote,
    CodeBlock,
    Hr,
    Table,
    Thead,
    Tbody,
    Tr,
    Th,
    Td,
    Text,
    Em,
    Strong,
    Code,
    A,
    Img,
    Br,
    List,
    MapEach,
    Apply,
    TableFromData,
}

/// The name under which a builtin is called.
pub open spec fn builtin_name(b: Builtin) -> &'static str {
    match b {
        Builtin::Doc => "doc",
        Builtin::H1 => "h1",
        Builtin::H2 => "h2",
        Builtin::H3 => "h3",
        Builtin::H4 => "h4",
        Builtin::H5 => "h5",
        Builtin::H6 => "h6",
        Builtin::P => "p",
        Builtin::Ul => "ul",
        Builtin::Ol => "ol",
        Builtin::Li => "li",
        Builtin::BlockQuote => "blockquote",
        Builtin::CodeBlock => "codeblock",
        Builtin::Hr => "hr",
        Builtin::Table => "table",
        Builtin::Thead => "thead",
        Builtin::Tbody => "tbody",
        Builtin::Tr => "tr",
        Builtin::Th => "th",
        Builtin::Td => "td",
        Builtin::Text => "text",
        Builtin::Em => "em",
        Builtin::Strong => "strong",
        Builtin::Code => "code",
        Builtin::A => "a",
        Builtin::Img => "img",
        Builtin::Br => "br",
        Builtin::List => "list",
        Builtin::MapEach => "map",
        Builtin::Apply => "apply",
        Builtin::TableFromData => "ld::table::from-data",
    }
}

/// The builtin that a name denotes, if any.
pub open spec fn builtin_named(s: Seq<char>) -> Option<Builtin> {
    if s == "doc"@ {
        Some(Builtin::Doc)
    } else if s == "h1"@ {
        Some(Builtin::H1)
    } else if s == "h2"@ {
        Some(Builtin::H2)
    } else if s == "h3"@ {
        Some(Builtin::H3)
    } else if s == "h4"@ {
        Some(Builtin::H4)
    } else if s == "h5"@ {
        Some(Builtin::H5)
    } else if s == "h6"@ {
        Some(Builtin::H6)
    } else if s == "p"@ {
        Some(Builtin::P)
    } else if s == "ul"@ {
        Some(Builtin::Ul)
    } else if s == "ol"@ {
        Some(Builtin::Ol)
    } else if s == "li"@ {
        Some(Builtin::Li)
    } else if s == "blockquote"@ {
        Some(Builtin::BlockQuote)
    } else if s == "codeblock"@ {
        Some(Builtin::CodeBlock)
    } else if s == "hr"@ {
        Some(Builtin::Hr)
    } else if s == "table"@ {
        Some(Builtin::Table)
    } else if s == "thead"@ {
        Some(Builtin::Thead)
    } else if s == "tbody"@ {
        Some(Builtin::Tbody)
    } else if s == "tr"@ {
        Some(Builtin::Tr)
    } else if s == "th"@ {
        Some(Builtin::Th)
    } else if s == "td"@ {
        Some(Builtin::Td)
    } else if s == "text"@ {
        Some(Builtin::Text)
    } else if s == "em"@ {
        Some(Builtin::Em)
    } else if s == "strong"@ {
        Some(Builtin::Strong)
    } else if s == "code"@ {
        Some(Builtin::Code)
    } else if s == "a"@ {
        Some(Builtin::A)
    } else if s == "img"@ {
        Some(Builtin::Img)
    } else if s == "br"@ {
        Some(Builtin::Br)
    } else if s == "list"@ {
        Some(Builtin::List)
    } else if s == "map"@ {
        Some(Builtin::MapEach)
    } else if s == "apply"@ {
        Some(Builtin::Apply)
    } else if s == "ld::table::from-data"@ {
        Some(Builtin::TableFromData)
    } else {
        None
    }
}

impl Builtin {
    /// The name under which this builtin is called.
    pub fn name(self) -> (r: &'static str)
        ensures
            r == builtin_name(self),
    {
        match self {
            Builtin::Doc => "doc",
            Builtin::H1 => "h1",
            Builtin::H2 => "h2",
            Builtin::H3 => "h3",
            Builtin::H4 => "h4",
            Builtin::H5 => "h5",
            Builtin::H6 => "h6",
            Builtin::P => "p",
            Builtin::Ul => "ul",
            Builtin::Ol => "ol",
            Builtin::Li => "li",
            Builtin::BlockQuote => "blockquote",
            Builtin::CodeBlock => "codeblock",
            Builtin::Hr => "hr",
            Builtin::Table => "table",
            Builtin::Thead => "thead",
            Builtin::Tbody => "tbody",
            Builtin::Tr => "tr",
            Builtin::Th => "th",
            Builtin::Td => "td",
            Builtin::Text => "text",
            Builtin::Em => "em",
            Builtin::Strong => "strong",
            Builtin::Code => "code",
            Builtin::A => "a",
            Builtin::Img => "img",
            Builtin::Br => "br",
            Builtin::List => "list",
            Builtin::MapEach => "map",
            Builtin::Apply => "apply",
            Builtin::TableFromData => "ld::table::from-data",
        }
    }
}

/// The builtin that a name denotes, if any.
pub fn resolve_builtin(name: &str) -> (r: Option<Builtin>)
    ensures
        r == builtin_named(name@),
{
    if str_eq(name, "doc") {
        return Some(Builtin::Doc);
    }
    if str_eq(name, "h1") {
        return Some(Builtin::H1);
    }
    if str_eq(name, "h2") {
        return Some(Builtin::H2);
    }
    if str_eq(name, "h3") {
        return Some(Builtin::H3);
    }
    if str_eq(name, "h4") {
        return Some(Builtin::H4);
    }
    if str_eq(name, "h5") {
        return Some(Builtin::H5);
    }
    if str_eq(name, "h6") {
        return Some(Builtin::H6);
    }
    if str_eq(name, "p") {
        return Some(Builtin::P);
    }
    if str_eq(name, "ul") {
        return Some(Builtin::Ul);
    }
    if str_eq(name, "ol") {
        return Some(Builtin::Ol);
    }
    if str_eq(name, "li") {
        return Some(Builtin::Li);
    }
    if str_eq(name, "blockquote") {
        return Some(Builtin::BlockQuote);
    }
    if str_eq(name, "codeblock") {
        return Some(Builtin::CodeBlock);
    }
    if str_eq(name, "hr") {
        return Some(Builtin::Hr);
    }
    if str_eq(name, "table") {
        return Some(Builtin::Table);
    }
    if str_eq(name, "thead") {
        return Some(Builtin::Thead);
    }
    if str_eq(name, "tbody") {
        return Some(Builtin::Tbody);
    }
    if str_eq(name, "tr") {
        return Some(Builtin::Tr);
    }
    if str_eq(name, "th") {
        return Some(Builtin::Th);
    }
    if str_eq(name, "td") {
        return Some(Builtin::Td);
    }
    if str_eq(name, "text") {
        return Some(Builtin::Text);
    }
    if str_eq(name, "em") {
        return Some(Builtin::Em);
    }
    if str_eq(name, "strong") {
        return Some(Builtin::Strong);
    }
    if str_eq(name, "code") {
        return Some(Builtin::Code);
    }
    if str_eq(name, "a") {
        return Some(Builtin::A);
    }
    if str_eq(name, "img") {
        return Some(Builtin::Img);
    }
    if str_eq(name, "br") {
        return Some(Builtin::Br);
    }
    if str_eq(name, "list") {
        return Some(Builtin::List);
    }
    if str_eq(name, "map") {
        return Some(Builtin::MapEach);
    }
    if str_eq(name, "apply") {
        return Some(Builtin::Apply);
    }
    if str_eq(name, "ld::table::from-data") {
        return Some(Builtin::TableFromData);
    }
    None
}


/// A builtin refused an argument of the wrong kind.
pub open spec fn type_error(b: Builtin, expected: &'static str, found: &'static str, span: Span) -> SpecVmError {
    SpecVmError::BuiltinTypeMismatch { builtin: builtin_name(b), expected, found, span }
}

/// A builtin refused its number of arguments.
pub open spec fn arity_error(b: Builtin, expected: &'static str, actual: nat, span: Span) -> SpecVmError {
    SpecVmError::BuiltinArityMismatch { builtin: builtin_name(b), expected, actual: actual as usize, span }
}

/// The text of a string argument.
pub open spec fn want_string(b: Builtin, v: SpecValue, span: Span) -> Result<Seq<char>, SpecVmError> {
    match v {
        SpecValue::String(t) => Ok(t),
        other => Err(type_error(b, "string", value_kind_name(other), span)),
    }
}

/// A node argument of kind `k`.
pub open spec fn want_node(b: Builtin, v: SpecValue, k: NodeKind, span: Span) -> Result<SpecNode, SpecVmError> {
    match v {
        SpecValue::Node(n) => if node_kind(n) == k {
            Ok(n)
        } else {
            Err(type_error(b, node_kind_name(k), node_kind_name(node_kind(n)), span))
        },
        other => Err(type_error(b, node_kind_name(k), value_kind_name(other), span)),
    }
}

/// The nodes of kind `k` among `args` from `i` on, after `acc`.
pub open spec fn want_nodes(b: Builtin, args: Seq<SpecValue>, k: NodeKind, span: Span, i: int, acc: Seq<SpecNode>) -> Result<Seq<SpecNode>, SpecVmError>
    decreases args.len() - i,
{
    if i < 0 || i >= args.len() {
        Ok(acc)
    } else {
        match want_node(b, args[i], k, span) {
            Err(e) => Err(e),
            Ok(n) => want_nodes(b, args, k, span, i + 1, acc.push(n)),
        }
    }
}

/// The inline nodes of `v`, lists flattened, after `out`.
pub open spec fn want_inline(b: Builtin, v: SpecValue, span: Span, out: Seq<SpecNode>) -> Result<Seq<SpecNode>, SpecVmError>
    decreases v, 0int,
{
    match v {
        SpecValue::Node(n) => if node_kind(n) == NodeKind::Inline {
            Ok(out.push(n))
        } else {
            Err(type_error(b, "inline", node_kind_name(node_kind(n)), span))
        },
        SpecValue::List(vs) => want_inline_list(b, vs, span, 0, out),
        other => Err(type_error(b, "inline", value_kind_name(other), span)),
    }
}

/// The inline nodes of `vs` from `i` on, lists flattened, after `out`.
pub open spec fn want_inline_list(b: Builtin, vs: Seq<SpecValue>, span: Span, i: int, out: Seq<SpecNode>) -> Result<Seq<SpecNode>, SpecVmError>
    decreases vs, vs.len() - i,
{
    if i < 0 || i >= vs.len() {
        Ok(out)
    } else {
        match want_inline(b, vs[i], span, out) {
            Err(e) => Err(e),
            Ok(o) => want_inline_list(b, vs, span, i + 1, o),
        }
    }
}

/// The inline nodes of the arguments, lists flattened.
pub open spec fn want_inlines(b: Builtin, args: Seq<SpecValue>, span: Span) -> Result<Seq<SpecNode>, SpecVmError> {
    want_inline_list(b, args, span, 0, Seq::empty())
}

/// A node value made by a builtin.
pub open spec fn made(r: Result<SpecNode, SpecVmError>) -> Result<SpecValue, SpecVmError> {
    match r {
        Ok(n) => Ok(SpecValue::Node(n)),
        Err(e) => Err(e),
    }
}

/// The table children and the direct rows among `args` from `i` on; a
/// table takes one or the other.
pub open spec fn table_parts(b: Builtin, args: Seq<SpecValue>, span: Span, i: int, children: Seq<SpecNode>, rows: Seq<SpecNode>) -> Result<(Seq<SpecNode>, Seq<SpecNode>), SpecVmError>
    decreases args.len() - i,
{
    if i < 0 || i >= args.len() {
        Ok((children, rows))
    } else {
        match args[i] {
            SpecValue::Node(n) => if node_kind(n) == NodeKind::TableChild {
                if rows.len() > 0 {
                    Err(type_error(b, "table child", "table row", span))
                } else {
                    table_parts(b, args, span, i + 1, children.push(n), rows)
                }
            } else if node_kind(n) == NodeKind::TableRow {
                if children.len() > 0 {
                    Err(type_error(b, "table row", "table child", span))
                } else {
                    table_parts(b, args, span, i + 1, children, rows.push(n))
                }
            } else {
                Err(type_error(b, "table child", node_kind_name(node_kind(n)), span))
            },
            other => Err(type_error(b, "table child", value_kind_name(other), span)),
        }
    }
}

/// Whether all the cells are header cells.
pub open spec fn all_header_cells(cells: Seq<SpecNode>) -> bool {
    forall|j: int| 0 <= j < cells.len() ==> #[trigger] cells[j] is HeaderCell
}

/// Whether a row holds header cells only.
pub open spec fn is_header_row(n: SpecNode) -> bool {
    match n {
        SpecNode::Row { cells, .. } => all_header_cells(cells),
        _ => false,
    }
}

/// The end of the run of header rows that starts at `i`.
pub open spec fn header_run(rows: Seq<SpecNode>, i: int) -> int
    decreases rows.len() - i,
{
    if 0 <= i < rows.len() && is_header_row(rows[i]) {
        header_run(rows, i + 1)
    } else {
        i
    }
}

/// The span from the start of `a` to the end of `b`.
pub open spec fn span_over(a: SpecNode, b: SpecNode) -> Span {
    Span { start: node_span(a).start, end: node_span(b).end }
}

/// Direct table rows grouped into a head (the leading header rows) and a
/// body (the rest).
pub open spec fn normalized_rows(rows: Seq<SpecNode>) -> Seq<SpecNode> {
    let h = header_run(rows, 0);
    let head: Seq<SpecNode> = if h > 0 {
        seq![SpecNode::Head { rows: rows.take(h), span: span_over(rows[0], rows[h - 1]) }]
    } else {
        Seq::empty()
    };
    let body: Seq<SpecNode> = if h < rows.len() {
        seq![SpecNode::Body { rows: rows.skip(h), span: span_over(rows[h], rows.last()) }]
    } else {
        Seq::empty()
    };
    head + body
}

pub open spec fn table_spec(b: Builtin, args: Seq<SpecValue>, span: Span) -> Result<SpecNode, SpecVmError> {
    match table_parts(b, args, span, 0, Seq::empty(), Seq::empty()) {
        Err(e) => Err(e),
        Ok((children, rows)) => Ok(SpecNode::Table {
            children: if rows.len() > 0 { normalized_rows(rows) } else { children },
            span,
        }),
    }
}

/// The cells made of `items` from `i` on: header cells or data cells.
pub open spec fn data_cells(b: Builtin, items: Seq<SpecValue>, header: bool, span: Span, i: int, acc: Seq<SpecNode>) -> Result<Seq<SpecNode>, SpecVmError>
    decreases items.len() - i,
{
    if i < 0 || i >= items.len() {
        Ok(acc)
    } else {
        match want_inline(b, items[i], span, Seq::empty()) {
            Err(e) => Err(e),
            Ok(children) => data_cells(
                b,
                items,
                header,
                span,
                i + 1,
                acc.push(
                    if header {
                        SpecNode::HeaderCell { children, span }
                    } else {
                        SpecNode::DataCell { children, span }
                    },
                ),
            ),
        }
    }
}

/// The rows made of the lists `args` from `i` on: the first is the header
/// row.
pub open spec fn data_rows(b: Builtin, args: Seq<SpecValue>, span: Span, i: int, acc: Seq<SpecNode>) -> Result<Seq<SpecNode>, SpecVmError>
    decreases args.len() - i,
{
    if i < 0 || i >= args.len() {
        Ok(acc)
    } else {
        match args[i] {
            SpecValue::List(items) => match data_cells(b, items, i == 0, span, 0, Seq::empty()) {
                Err(e) => Err(e),
                Ok(cells) => data_rows(b, args, span, i + 1, acc.push(SpecNode::Row { cells, span })),
            },
            other => Err(type_error(b, "list", value_kind_name(other), span)),
        }
    }
}

/// A table made of lists of cell contents: the first list is the head row,
/// the others are the body rows.
pub open spec fn table_from_data_spec(b: Builtin, args: Seq<SpecValue>, span: Span) -> Result<SpecNode, SpecVmError> {
    match data_rows(b, args, span, 0, Seq::empty()) {
        Err(e) => Err(e),
        Ok(rows) => Ok(SpecNode::Table {
            children: if rows.len() == 0 {
                Seq::empty()
            } else if rows.len() == 1 {
                seq![SpecNode::Head { rows, span }]
            } else {
                seq![SpecNode::Head { rows: rows.take(1), span }, SpecNode::Body { rows: rows.skip(1), span }]
            },
            span,
        }),
    }
}

pub open spec fn codeblock_spec(b: Builtin, args: Seq<SpecValue>, span: Span) -> Result<SpecNode, SpecVmError> {
    if args.len() == 1 {
        match want_string(b, args[0], span) {
            Err(e) => Err(e),
            Ok(text) => Ok(SpecNode::CodeBlock { lang: None, text, span }),
        }
    } else if args.len() == 2 {
        match want_string(b, args[0], span) {
            Err(e) => Err(e),
            Ok(lang) => match want_string(b, args[1], span) {
                Err(e) => Err(e),
                Ok(text) => Ok(SpecNode::CodeBlock { lang: Some(lang), text, span }),
            },
        }
    } else {
        Err(arity_error(b, "1 or 2", args.len(), span))
    }
}

pub open spec fn image_spec(b: Builtin, args: Seq<SpecValue>, span: Span) -> Result<SpecNode, SpecVmError> {
    if args.len() == 1 {
        match want_string(b, args[0], span) {
            Err(e) => Err(e),
            Ok(src) => Ok(SpecNode::Image { src, alt: None, span }),
        }
    } else if args.len() == 2 {
        match want_string(b, args[0], span) {
            Err(e) => Err(e),
            Ok(src) => match want_string(b, args[1], span) {
                Err(e) => Err(e),
                Ok(alt) => Ok(SpecNode::Image { src, alt: Some(alt), span }),
            },
        }
    } else {
        Err(arity_error(b, "1 or 2", args.len(), span))
    }
}

pub open spec fn link_spec(b: Builtin, args: Seq<SpecValue>, span: Span) -> Result<SpecNode, SpecVmError> {
    if args.len() == 0 {
        Err(arity_error(b, "at least 1", 0, span))
    } else {
        match want_string(b, args[0], span) {
            Err(e) => Err(e),
            Ok(href) => match want_inline_list(b, args, span, 1, Seq::empty()) {
                Err(e) => Err(e),
                Ok(children) => Ok(SpecNode::Link { href, children, span }),
            },
        }
    }
}

/// The node holding one string argument.
pub open spec fn text_node_spec(b: Builtin, args: Seq<SpecValue>, span: Span, code: bool) -> Result<SpecNode, SpecVmError> {
    if args.len() != 1 {
        Err(arity_error(b, "1", args.len(), span))
    } else {
        match want_string(b, args[0], span) {
            Err(e) => Err(e),
            Ok(text) => Ok(if code { SpecNode::Code { text, span } } else { SpecNode::Text { text, span } }),
        }
    }
}

pub open spec fn heading_spec(b: Builtin, level: u8, args: Seq<SpecValue>, span: Span) -> Result<SpecNode, SpecVmError> {
    match want_inlines(b, args, span) {
        Err(e) => Err(e),
        Ok(inlines) => Ok(SpecNode::Heading { level, inlines, span }),
    }
}

/// A node whose children are the arguments, of kind `k`.
pub open spec fn parent_spec(b: Builtin, args: Seq<SpecValue>, k: NodeKind, span: Span) -> Result<Seq<SpecNode>, SpecVmError> {
    want_nodes(b, args, k, span, 0, Seq::empty())
}

/// What a builtin that builds values (every builtin but `map` and `apply`)
/// returns for `args`; `version` and `meta_span` are the program's
/// metadata, which `doc` records.
pub open spec fn construct(b: Builtin, args: Seq<SpecValue>, span: Span, version: Seq<char>, meta_span: Span) -> Result<SpecValue, SpecVmError> {
    match b {
        Builtin::Doc => match parent_spec(b, args, NodeKind::Block, span) {
            Err(e) => Err(e),
            Ok(blocks) => Ok(SpecValue::Node(SpecNode::Document { version, meta_span, blocks, span })),
        },
        Builtin::H1 => made(heading_spec(b, 1, args, span)),
        Builtin::H2 => made(heading_spec(b, 2, args, span)),
        Builtin::H3 => made(heading_spec(b, 3, args, span)),
        Builtin::H4 => made(heading_spec(b, 4, args, span)),
        Builtin::H5 => made(heading_spec(b, 5, args, span)),
        Builtin::H6 => made(heading_spec(b, 6, args, span)),
        Builtin::P => match want_inlines(b, args, span) {
            Err(e) => Err(e),
            Ok(inlines) => Ok(SpecValue::Node(SpecNode::Paragraph { inlines, span })),
        },
        Builtin::Ul => match parent_spec(b, args, NodeKind::Block, span) {
            Err(e) => Err(e),
            Ok(items) => Ok(SpecValue::Node(SpecNode::List { ordered: false, items, span })),
        },
        Builtin::Ol => match parent_spec(b, args, NodeKind::Block, span) {
            Err(e) => Err(e),
            Ok(items) => Ok(SpecValue::Node(SpecNode::List { ordered: true, items, span })),
        },
        Builtin::Li => match parent_spec(b, args, NodeKind::Block, span) {
            Err(e) => Err(e),
            Ok(children) => Ok(SpecValue::Node(SpecNode::ListItem { children, span })),
        },
        Builtin::BlockQuote => match parent_spec(b, args, NodeKind::Block, span) {
            Err(e) => Err(e),
            Ok(children) => Ok(SpecValue::Node(SpecNode::BlockQuote { children, span })),
        },
        Builtin::CodeBlock => made(codeblock_spec(b, args, span)),
        Builtin::Hr => if args.len() != 0 {
            Err(arity_error(b, "0", args.len(), span))
        } else {
            Ok(SpecValue::Node(SpecNode::ThematicBreak { span }))
        },
        Builtin::Table => made(table_spec(b, args, span)),
        Builtin::Thead => match parent_spec(b, args, NodeKind::TableRow, span) {
            Err(e) => Err(e),
            Ok(rows) => Ok(SpecValue::Node(SpecNode::Head { rows, span })),
        },
        Builtin::Tbody => match parent_spec(b, args, NodeKind::TableRow, span) {
            Err(e) => Err(e),
            Ok(rows) => Ok(SpecValue::Node(SpecNode::Body { rows, span })),
        },
        Builtin::Tr => match parent_spec(b, args, NodeKind::TableCell, span) {
            Err(e) => Err(e),
            Ok(cells) => Ok(SpecValue::Node(SpecNode::Row { cells, span })),
        },
        Builtin::Th => match want_inlines(b, args, span) {
            Err(e) => Err(e),
            Ok(children) => Ok(SpecValue::Node(SpecNode::HeaderCell { children, span })),
        },
        Builtin::Td => match want_inlines(b, args, span) {
            Err(e) => Err(e),
            Ok(children) => Ok(SpecValue::Node(SpecNode::DataCell { children, span })),
        },
        Builtin::Text => made(text_node_spec(b, args, span, false)),
        Builtin::Em => match want_inlines(b, args, span) {
            Err(e) => Err(e),
            Ok(children) => Ok(SpecValue::Node(SpecNode::Emphasis { children, span })),
        },
        Builtin::Strong => match want_inlines(b, args, span) {
            Err(e) => Err(e),
            Ok(children) => Ok(SpecValue::Node(SpecNode::Strong { children, span })),
        },
        Builtin::Code => made(text_node_spec(b, args, span, true)),
        Builtin::A => made(link_spec(b, args, span)),
        Builtin::Img => made(image_spec(b, args, span)),
        Builtin::Br => if args.len() != 0 {
            Err(arity_error(b, "0", args.len(), span))
        } else {
            Ok(SpecValue::Node(SpecNode::Break { span }))
        },
        Builtin::List => Ok(SpecValue::List(args)),
        Builtin::TableFromData => made(table_from_data_spec(b, args, span)),
        Builtin::MapEach => Ok(SpecValue::Unit),
        Builtin::Apply => Ok(SpecValue::Unit),
    }
}

pub open spec fn text_outcome(r: Result<String, VmError>) -> Result<Seq<char>, SpecVmError> {
    match r {
        Ok(t) => Ok(t@),
        Err(e) => Err(e@),
    }
}

pub open spec fn node_outcome(r: Result<NodeValue, VmError>) -> Result<SpecNode, SpecVmError> {
    match r {
        Ok(n) => Ok(node_value_view(n)),
        Err(e) => Err(e@),
    }
}

pub open spec fn nodes_outcome(r: Result<Vec<NodeValue>, VmError>) -> Result<Seq<SpecNode>, SpecVmError> {
    match r {
        Ok(ns) => Ok(node_values_view(ns@)),
        Err(e) => Err(e@),
    }
}

pub open spec fn value_outcome(r: Result<Value, VmError>) -> Result<SpecValue, SpecVmError> {
    match r {
        Ok(v) => Ok(value_view(v)),
        Err(e) => Err(e@),
    }
}

fn type_mismatch(b: Builtin, expected: &'static str, found: &'static str, span: Span) -> (r: VmError)
    ensures
        r@ == type_error(b, expected, found, span),
{
    VmError::BuiltinTypeMismatch { builtin: b.name(), expected, found, span }
}

fn arity_mismatch(b: Builtin, expected: &'static str, actual: usize, span: Span) -> (r: VmError)
    ensures
        r@ == arity_error(b, expected, actual as nat, span),
{
    VmError::BuiltinArityMismatch { builtin: b.name(), expected, actual, span }
}

fn want_string_exec(b: Builtin, v: &Value, span: Span) -> (r: Result<String, VmError>)
    ensures
        text_outcome(r) == want_string(b, value_view(*v), span),
{
    match v {
        Value::String(t) => Ok(t.clone()),
        other => Err(type_mismatch(b, "string", other.kind_name(), span)),
    }
}

fn want_node_exec(b: Builtin, v: &Value, k: NodeKind, span: Span) -> (r: Result<NodeValue, VmError>)
    ensures
        node_outcome(r) == want_node(b, value_view(*v), k, span),
{
    match v {
        Value::Node(n) => {
            let nk = n.kind();
            if nk == k {
                Ok(clone_node(n))
            } else {
                Err(type_mismatch(b, kind_name_of(k), kind_name_of(nk), span))
            }
        },
        other => Err(type_mismatch(b, kind_name_of(k), other.kind_name(), span)),
    }
}

fn want_nodes_exec(b: Builtin, args: &Vec<Value>, k: NodeKind, span: Span) -> (r: Result<Vec<NodeValue>, VmError>)
    ensures
        nodes_outcome(r) == want_nodes(b, values_view(args@), k, span, 0, Seq::empty()),
{
    let ghost av = values_view(args@);
    proof {
        lemma_values_view(args@);
    }
    let mut out: Vec<NodeValue> = Vec::new();
    assert(node_values_view(out@) =~= Seq::<SpecNode>::empty());
    let mut i: usize = 0;
    while i < args.len()
        invariant
            av == values_view(args@),
            av.len() == args@.len(),
            forall|j: int| 0 <= j < args@.len() ==> #[trigger] av[j] == value_view(args@[j]),
            0 <= i <= args@.len(),
            want_nodes(b, av, k, span, 0, Seq::empty()) == want_nodes(b, av, k, span, i as int, node_values_view(out@)),
        decreases args@.len() - i,
    {
        match want_node_exec(b, &args[i], k, span) {
            Ok(n) => {
                proof {
                    lemma_node_values_view_push(out@, n);
                }
                out.push(n);
            },
            Err(e) => {
                return Err(e);
            },
        }
        i += 1;
    }
    Ok(out)
}

/// Appends the inline nodes of `v`, lists flattened, to `out`.
fn collect_inline(b: Builtin, v: &Value, span: Span, out: &mut Vec<NodeValue>) -> (r: Result<(), VmError>)
    ensures
        match want_inline(b, value_view(*v), span, node_values_view(old(out)@)) {
            Ok(o) => r is Ok && node_values_view(final(out)@) == o,
            Err(e) => r is Err && r->Err_0@ == e,
        },
    decreases v, 0int,
{
    match v {
        Value::Node(n) => {
            let nk = n.kind();
            if nk == NodeKind::Inline {
                let c = clone_node(n);
                proof {
                    lemma_node_values_view_push(out@, c);
                }
                out.push(c);
                Ok(())
            } else {
                Err(type_mismatch(b, "inline", kind_name_of(nk), span))
            }
        },
        Value::List(vs) => collect_inline_list(b, vs, 0, span, out),
        other => Err(type_mismatch(b, "inline", other.kind_name(), span)),
    }
}

/// Appends the inline nodes of `vs` from `start` on, lists flattened, to
/// `out`.
fn collect_inline_list(b: Builtin, vs: &Vec<Value>, start: usize, span: Span, out: &mut Vec<NodeValue>) -> (r: Result<(), VmError>)
    ensures
        match want_inline_list(b, values_view(vs@), span, start as int, node_values_view(old(out)@)) {
            Ok(o) => r is Ok && node_values_view(final(out)@) == o,
            Err(e) => r is Err && r->Err_0@ == e,
        },
    decreases vs, 1int,
{
    let ghost av = values_view(vs@);
    proof {
        lemma_values_view(vs@);
    }
    let mut i: usize = start;
    while i < vs.len()
        invariant
            av == values_view(vs@),
            av.len() == vs@.len(),
            forall|j: int| 0 <= j < vs@.len() ==> #[trigger] av[j] == value_view(vs@[j]),
            start <= i,
            i <= vs@.len() || i == start,
            want_inline_list(b, av, span, start as int, node_values_view(old(out)@)) == want_inline_list(b, av, span, i as int, node_values_view(out@)),
        decreases vs@.len() - i,
    {
        match collect_inline(b, &vs[i], span, out) {
            Ok(()) => {},
            Err(e) => {
                return Err(e);
            },
        }
        i += 1;
    }
    Ok(())
}

fn want_inlines_exec(b: Builtin, args: &Vec<Value>, span: Span) -> (r: Result<Vec<NodeValue>, VmError>)
    ensures
        nodes_outcome(r) == want_inlines(b, values_view(args@), span),
{
    let mut out: Vec<NodeValue> = Vec::new();
    assert(node_values_view(out@) =~= Seq::<SpecNode>::empty());
    match collect_inline_list(b, args, 0, span, &mut out) {
        Ok(()) => Ok(out),
        Err(e) => Err(e),
    }
}

/// Whether a node is a row of header cells only.
fn is_header_row_exec(n: &NodeValue) -> (r: bool)
    ensures
        r == is_header_row(node_value_view(*n)),
{
    match n {
        NodeValue::TableRow(row) => {
            proof {
                lemma_node_values_view(row.cells@);
            }
            assert(node_value_view(*n) == SpecNode::Row {
                cells: node_values_view(row.cells@),
                span: row.span,
            });
            let mut i: usize = 0;
            while i < row.cells.len()
                invariant
                    0 <= i <= row.cells@.len(),
                    node_value_view(*n) == (SpecNode::Row {
                        cells: node_values_view(row.cells@),
                        span: row.span,
                    }),
                    node_values_view(row.cells@).len() == row.cells@.len(),
                    forall|j: int|
                        0 <= j < row.cells@.len() ==> #[trigger] node_values_view(row.cells@)[j]
                            == node_value_view(row.cells@[j]),
                    forall|j: int| 0 <= j < i ==> #[trigger] node_values_view(row.cells@)[j] is HeaderCell,
                decreases row.cells@.len() - i,
            {
                match &row.cells[i] {
                    NodeValue::TableCell(TableCellValue::Header { .. }) => {},
                    _ => {
                        assert(!(node_values_view(row.cells@)[i as int] is HeaderCell));
                        assert(!all_header_cells(node_values_view(row.cells@)));
                        return false;
                    },
                }
                i += 1;
            }
            true
        },
        _ => false,
    }
}

/// Copies of `rows[from..to]`.
fn node_range(rows: &Vec<NodeValue>, from: usize, to: usize) -> (r: Vec<NodeValue>)
    requires
        from <= to <= rows@.len(),
    ensures
        node_values_view(r@) == node_values_view(rows@).subrange(from as int, to as int),
{
    proof {
        lemma_node_values_view(rows@);
    }
    let mut out: Vec<NodeValue> = Vec::new();
    let mut i: usize = from;
    while i < to
        invariant
            from <= i <= to <= rows@.len(),
            node_values_view(rows@).len() == rows@.len(),
            forall|j: int| 0 <= j < rows@.len() ==> #[trigger] node_values_view(rows@)[j] == node_value_view(rows@[j]),
            node_values_view(out@) == node_values_view(rows@).subrange(from as int, i as int),
        decreases to - i,
    {
        let c = clone_node(&rows[i]);
        proof {
            lemma_node_values_view_push(out@, c);
            assert(node_values_view(rows@).subrange(from as int, i + 1) =~= node_values_view(rows@).subrange(from as int, i as int).push(node_value_view(rows@[i as int])));
        }
        out.push(c);
        i += 1;
    }
    out
}

/// Groups direct table rows into a head (the leading header rows) and a
/// body (the rest).
fn normalize_direct_table_rows(rows: &Vec<NodeValue>) -> (r: Vec<NodeValue>)
    ensures
        node_values_view(r@) == normalized_rows(node_values_view(rows@)),
{
    let ghost rv = node_values_view(rows@);
    proof {
        lemma_node_values_view(rows@);
    }
    let n = rows.len();
    let mut h: usize = 0;
    while h < n && is_header_row_exec(&rows[h])
        invariant
            n == rows@.len(),
            rv == node_values_view(rows@),
            rv.len() == n,
            forall|j: int| 0 <= j < n ==> #[trigger] rv[j] == node_value_view(rows@[j]),
            0 <= h <= n,
            header_run(rv, 0) == header_run(rv, h as int),
        decreases n - h,
    {
        h += 1;
    }
    assert(header_run(rv, h as int) == h);
    let mut children: Vec<NodeValue> = Vec::new();
    if h > 0 {
        let head_rows = node_range(rows, 0, h);
        let span = Span { start: rows[0].span().start, end: rows[h - 1].span().end };
        assert(rv.subrange(0, h as int) =~= rv.take(h as int));
        let head = NodeValue::TableChild(TableChildValue::Head { rows: head_rows, span });
        proof {
            lemma_node_values_view_push(children@, head);
        }
        children.push(head);
    }
    assert(node_values_view(children@) =~= (if h > 0 {
        seq![SpecNode::Head { rows: rv.take(h as int), span: span_over(rv[0], rv[h - 1]) }]
    } else {
        Seq::<SpecNode>::empty()
    }));
    let ghost head_part = node_values_view(children@);
    if h < n {
        let body_rows = node_range(rows, h, n);
        let span = Span { start: rows[h].span().start, end: rows[n - 1].span().end };
        assert(rv.subrange(h as int, n as int) =~= rv.skip(h as int));
        proof {
            lemma_node_values_view_push(children@, NodeValue::TableChild(TableChildValue::Body { rows: body_rows, span }));
        }
        children.push(NodeValue::TableChild(TableChildValue::Body { rows: body_rows, span }));
    }
    proof {
        assert(node_values_view(children@) =~= normalized_rows(rv));
    }
    children
}

fn table_exec(b: Builtin, args: &Vec<Value>, span: Span) -> (r: Result<NodeValue, VmError>)
    ensures
        node_outcome(r) == table_spec(b, values_view(args@), span),
{
    let ghost av = values_view(args@);
    proof {
        lemma_values_view(args@);
    }
    let mut children: Vec<NodeValue> = Vec::new();
    let mut rows: Vec<NodeValue> = Vec::new();
    assert(node_values_view(children@) =~= Seq::<SpecNode>::empty());
    assert(node_values_view(rows@) =~= Seq::<SpecNode>::empty());
    let mut i: usize = 0;
    while i < args.len()
        invariant
            av == values_view(args@),
            av.len() == args@.len(),
            forall|j: int| 0 <= j < args@.len() ==> #[trigger] av[j] == value_view(args@[j]),
            0 <= i <= args@.len(),
            node_values_view(children@).len() == children@.len(),
            node_values_view(rows@).len() == rows@.len(),
            table_parts(b, av, span, 0, Seq::empty(), Seq::empty()) == table_parts(b, av, span, i as int, node_values_view(children@), node_values_view(rows@)),
        decreases args@.len() - i,
    {
        match &args[i] {
            Value::Node(n) => {
                let nk = n.kind();
                if nk == NodeKind::TableChild {
                    if rows.len() > 0 {
                        return Err(type_mismatch(b, "table child", "table row", span));
                    }
                    let c = clone_node(n);
                    proof {
                        lemma_node_values_view_push(children@, c);
                    }
                    children.push(c);
                } else if nk == NodeKind::TableRow {
                    if children.len() > 0 {
                        return Err(type_mismatch(b, "table row", "table child", span));
                    }
                    let c = clone_node(n);
                    proof {
                        lemma_node_values_view_push(rows@, c);
                    }
                    rows.push(c);
                } else {
                    return Err(type_mismatch(b, "table child", kind_name_of(nk), span));
                }
            },
            other => {
                return Err(type_mismatch(b, "table child", other.kind_name(), span));
            },
        }
        i += 1;
    }
    let children = if rows.len() > 0 {
        normalize_direct_table_rows(&rows)
    } else {
        children
    };
    Ok(NodeValue::Block(BlockValue::Table { children, span }))
}

fn data_cells_exec(b: Builtin, items: &Vec<Value>, header: bool, span: Span) -> (r: Result<Vec<NodeValue>, VmError>)
    ensures
        nodes_outcome(r) == data_cells(b, values_view(items@), header, span, 0, Seq::empty()),
{
    let ghost av = values_view(items@);
    proof {
        lemma_values_view(items@);
    }
    let mut out: Vec<NodeValue> = Vec::new();
    assert(node_values_view(out@) =~= Seq::<SpecNode>::empty());
    let mut i: usize = 0;
    while i < items.len()
        invariant
            av == values_view(items@),
            av.len() == items@.len(),
            forall|j: int| 0 <= j < items@.len() ==> #[trigger] av[j] == value_view(items@[j]),
            0 <= i <= items@.len(),
            data_cells(b, av, header, span, 0, Seq::empty()) == data_cells(b, av, header, span, i as int, node_values_view(out@)),
        decreases items@.len() - i,
    {
        let mut children: Vec<NodeValue> = Vec::new();
        assert(node_values_view(children@) =~= Seq::<SpecNode>::empty());
        match collect_inline(b, &items[i], span, &mut children) {
            Ok(()) => {},
            Err(e) => {
                return Err(e);
            },
        }
        let cell = if header {
            NodeValue::TableCell(TableCellValue::Header { children, span })
        } else {
            NodeValue::TableCell(TableCellValue::Data { children, span })
        };
        proof {
            lemma_node_values_view_push(out@, cell);
        }
        out.push(cell);
        i += 1;
    }
    Ok(out)
}

fn table_from_data_exec(b: Builtin, args: &Vec<Value>, span: Span) -> (r: Result<NodeValue, VmError>)
    ensures
        node_outcome(r) == table_from_data_spec(b, values_view(args@), span),
{
    let ghost av = values_view(args@);
    proof {
        lemma_values_view(args@);
    }
    let mut rows: Vec<NodeValue> = Vec::new();
    assert(node_values_view(rows@) =~= Seq::<SpecNode>::empty());
    let mut i: usize = 0;
    while i < args.len()
        invariant
            av == values_view(args@),
            av.len() == args@.len(),
            forall|j: int| 0 <= j < args@.len() ==> #[trigger] av[j] == value_view(args@[j]),
            0 <= i <= args@.len(),
            data_rows(b, av, span, 0, Seq::empty()) == data_rows(b, av, span, i as int, node_values_view(rows@)),
        decreases args@.len() - i,
    {
        match &args[i] {
            Value::List(items) => {
                let cells = match data_cells_exec(b, items, i == 0, span) {
                    Ok(cells) => cells,
                    Err(e) => {
                        return Err(e);
                    },
                };
                let row = NodeValue::TableRow(TableRowValue { cells, span });
                proof {
                    lemma_node_values_view_push(rows@, row);
                }
                rows.push(row);
            },
            other => {
                return Err(type_mismatch(b, "list", other.kind_name(), span));
            },
        }
        i += 1;
    }
    proof {
        lemma_node_values_view(rows@);
    }
    let ghost rv = node_values_view(rows@);
    let n = rows.len();
    let mut children: Vec<NodeValue> = Vec::new();
    if n == 1 {
        let c = NodeValue::TableChild(TableChildValue::Head { rows, span });
        proof {
            lemma_node_values_view_push(children@, c);
        }
        children.push(c);
    } else if n > 1 {
        let head = node_range(&rows, 0, 1);
        let body = node_range(&rows, 1, n);
        assert(node_values_view(rows@).subrange(0, 1) =~= node_values_view(rows@).take(1));
        assert(node_values_view(rows@).subrange(1, n as int) =~= node_values_view(rows@).skip(1));
        let c1 = NodeValue::TableChild(TableChildValue::Head { rows: head, span });
        let c2 = NodeValue::TableChild(TableChildValue::Body { rows: body, span });
        proof {
            lemma_node_values_view_push(children@, c1);
            lemma_node_values_view_push(children@.push(c1), c2);
        }
        children.push(c1);
        children.push(c2);
    }
    proof {
        assert(node_values_view(children@) =~= (if n == 0 {
            Seq::<SpecNode>::empty()
        } else if n == 1 {
            seq![SpecNode::Head { rows: rv, span }]
        } else {
            seq![SpecNode::Head { rows: rv.take(1), span }, SpecNode::Body { rows: rv.skip(1), span }]
        }));
    }
    Ok(NodeValue::Block(BlockValue::Table { children, span }))
}

fn codeblock_exec(b: Builtin, args: &Vec<Value>, span: Span) -> (r: Result<NodeValue, VmError>)
    ensures
        node_outcome(r) == codeblock_spec(b, values_view(args@), span),
{
    proof {
        lemma_values_view(args@);
    }
    if args.len() == 1 {
        let text = match want_string_exec(b, &args[0], span) {
            Ok(t) => t,
            Err(e) => {
                return Err(e);
            },
        };
        Ok(NodeValue::Block(BlockValue::CodeBlock { lang: None, text, span }))
    } else if args.len() == 2 {
        let lang = match want_string_exec(b, &args[0], span) {
            Ok(t) => t,
            Err(e) => {
                return Err(e);
            },
        };
        let text = match want_string_exec(b, &args[1], span) {
            Ok(t) => t,
            Err(e) => {
                return Err(e);
            },
        };
        Ok(NodeValue::Block(BlockValue::CodeBlock { lang: Some(lang), text, span }))
    } else {
        Err(arity_mismatch(b, "1 or 2", args.len(), span))
    }
}

fn image_exec(b: Builtin, args: &Vec<Value>, span: Span) -> (r: Result<NodeValue, VmError>)
    ensures
        node_outcome(r) == image_spec(b, values_view(args@), span),
{
    proof {
        lemma_values_view(args@);
    }
    if args.len() == 1 {
        let src = match want_string_exec(b, &args[0], span) {
            Ok(t) => t,
            Err(e) => {
                return Err(e);
            },
        };
        Ok(NodeValue::Inline(InlineValue::Image { src, alt: None, span }))
    } else if args.len() == 2 {
        let src = match want_string_exec(b, &args[0], span) {
            Ok(t) => t,
            Err(e) => {
                return Err(e);
            },
        };
        let alt = match want_string_exec(b, &args[1], span) {
            Ok(t) => t,
            Err(e) => {
                return Err(e);
            },
        };
        Ok(NodeValue::Inline(InlineValue::Image { src, alt: Some(alt), span }))
    } else {
        Err(arity_mismatch(b, "1 or 2", args.len(), span))
    }
}

fn link_exec(b: Builtin, args: &Vec<Value>, span: Span) -> (r: Result<NodeValue, VmError>)
    ensures
        node_outcome(r) == link_spec(b, values_view(args@), span),
{
    proof {
        lemma_values_view(args@);
    }
    if args.len() == 0 {
        return Err(arity_mismatch(b, "at least 1", 0, span));
    }
    let href = match want_string_exec(b, &args[0], span) {
        Ok(t) => t,
        Err(e) => {
            return Err(e);
        },
    };
    let mut children: Vec<NodeValue> = Vec::new();
    assert(node_values_view(children@) =~= Seq::<SpecNode>::empty());
    match collect_inline_list(b, args, 1, span, &mut children) {
        Ok(()) => {},
        Err(e) => {
            return Err(e);
        },
    }
    Ok(NodeValue::Inline(InlineValue::Link { href, children, span }))
}

fn text_node_exec(b: Builtin, args: &Vec<Value>, span: Span, code: bool) -> (r: Result<NodeValue, VmError>)
    ensures
        node_outcome(r) == text_node_spec(b, values_view(args@), span, code),
{
    proof {
        lemma_values_view(args@);
    }
    if args.len() != 1 {
        return Err(arity_mismatch(b, "1", args.len(), span));
    }
    let text = match want_string_exec(b, &args[0], span) {
        Ok(t) => t,
        Err(e) => {
            return Err(e);
        },
    };
    if code {
        Ok(NodeValue::Inline(InlineValue::Code { text, span }))
    } else {
        Ok(NodeValue::Inline(InlineValue::Text { text, span }))
    }
}

fn heading_exec(b: Builtin, level: u8, args: &Vec<Value>, span: Span) -> (r: Result<NodeValue, VmError>)
    ensures
        node_outcome(r) == heading_spec(b, level, values_view(args@), span),
{
    let inlines = match want_inlines_exec(b, args, span) {
        Ok(ns) => ns,
        Err(e) => {
            return Err(e);
        },
    };
    Ok(NodeValue::Block(BlockValue::Heading { level, inlines, span }))
}

/// The value of a node result.
fn node_result(r: Result<NodeValue, VmError>) -> (v: Result<Value, VmError>)
    ensures
        value_outcome(v) == made(node_outcome(r)),
{
    match r {
        Ok(n) => Ok(Value::Node(n)),
        Err(e) => Err(e),
    }
}

/// Calls a builtin that builds a value (every builtin but `map` and
/// `apply`, which call other callables).
#[verifier::rlimit(50)]
pub fn construct_exec(b: Builtin, args: &Vec<Value>, span: Span, metadata: &MetadataValue) -> (r: Result<Value, VmError>)
    ensures
        value_outcome(r) == construct(b, values_view(args@), span, metadata.version@, metadata.span),
{
    proof {
        lemma_values_view(args@);
    }
    match b {
        Builtin::Doc => match want_nodes_exec(b, args, NodeKind::Block, span) {
            Ok(blocks) => Ok(Value::Node(NodeValue::Document(DocumentValue {
                metadata: MetadataValue { version: metadata.version.clone(), span: metadata.span },
                blocks,
                span,
            }))),
            Err(e) => Err(e),
        },
        Builtin::H1 => node_result(heading_exec(b, 1, args, span)),
        Builtin::H2 => node_result(heading_exec(b, 2, args, span)),
        Builtin::H3 => node_result(heading_exec(b, 3, args, span)),
        Builtin::H4 => node_result(heading_exec(b, 4, args, span)),
        Builtin::H5 => node_result(heading_exec(b, 5, args, span)),
        Builtin::H6 => node_result(heading_exec(b, 6, args, span)),
        Builtin::P => match want_inlines_exec(b, args, span) {
            Ok(inlines) => Ok(Value::Node(NodeValue::Block(BlockValue::Paragraph { inlines, span }))),
            Err(e) => Err(e),
        },
        Builtin::Ul => match want_nodes_exec(b, args, NodeKind::Block, span) {
            Ok(items) => Ok(Value::Node(NodeValue::Block(BlockValue::List { ordered: false, items, span }))),
            Err(e) => Err(e),
        },
        Builtin::Ol => match want_nodes_exec(b, args, NodeKind::Block, span) {
            Ok(items) => Ok(Value::Node(NodeValue::Block(BlockValue::List { ordered: true, items, span }))),
            Err(e) => Err(e),
        },
        Builtin::Li => match want_nodes_exec(b, args, NodeKind::Block, span) {
            Ok(children) => Ok(Value::Node(NodeValue::Block(BlockValue::ListItem { children, span }))),
            Err(e) => Err(e),
        },
        Builtin::BlockQuote => match want_nodes_exec(b, args, NodeKind::Block, span) {
            Ok(children) => Ok(Value::Node(NodeValue::Block(BlockValue::BlockQuote { children, span }))),
            Err(e) => Err(e),
        },
        Builtin::CodeBlock => node_result(codeblock_exec(b, args, span)),
        Builtin::Hr => if args.len() != 0 {
            Err(arity_mismatch(b, "0", args.len(), span))
        } else {
            Ok(Value::Node(NodeValue::Block(BlockValue::ThematicBreak { span })))
        },
        Builtin::Table => node_result(table_exec(b, args, span)),
        Builtin::Thead => match want_nodes_exec(b, args, NodeKind::TableRow, span) {
            Ok(rows) => Ok(Value::Node(NodeValue::TableChild(TableChildValue::Head { rows, span }))),
            Err(e) => Err(e),
        },
        Builtin::Tbody => match want_nodes_exec(b, args, NodeKind::TableRow, span) {
            Ok(rows) => Ok(Value::Node(NodeValue::TableChild(TableChildValue::Body { rows, span }))),
            Err(e) => Err(e),
        },
        Builtin::Tr => match want_nodes_exec(b, args, NodeKind::TableCell, span) {
            Ok(cells) => Ok(Value::Node(NodeValue::TableRow(TableRowValue { cells, span }))),
            Err(e) => Err(e),
        },
        Builtin::Th => match want_inlines_exec(b, args, span) {
            Ok(children) => Ok(Value::Node(NodeValue::TableCell(TableCellValue::Header { children, span }))),
            Err(e) => Err(e),
        },
        Builtin::Td => match want_inlines_exec(b, args, span) {
            Ok(children) => Ok(Value::Node(NodeValue::TableCell(TableCellValue::Data { children, span }))),
            Err(e) => Err(e),
        },
        Builtin::Text => node_result(text_node_exec(b, args, span, false)),
        Builtin::Em => match want_inlines_exec(b, args, span) {
            Ok(children) => Ok(Value::Node(NodeValue::Inline(InlineValue::Emphasis { children, span }))),
            Err(e) => Err(e),
        },
        Builtin::Strong => match want_inlines_exec(b, args, span) {
            Ok(children) => Ok(Value::Node(NodeValue::Inline(InlineValue::Strong { children, span }))),
            Err(e) => Err(e),
        },
        Builtin::Code => node_result(text_node_exec(b, args, span, true)),
        Builtin::A => node_result(link_exec(b, args, span)),
        Builtin::Img => node_result(image_exec(b, args, span)),
        Builtin::Br => if args.len() != 0 {
            Err(arity_mismatch(b, "0", args.len(), span))
        } else {
            Ok(Value::Node(NodeValue::Inline(InlineValue::Break { span })))
        },
        Builtin::List => Ok(Value::List(clone_values(args))),
        Builtin::TableFromData => node_result(table_from_data_exec(b, args, span)),
        Builtin::MapEach => Ok(Value::Unit),
        Builtin::Apply => Ok(Value::Unit),
    }
}


/// The rows held by table children, in order.
pub open spec fn child_rows(cs: Seq<SpecNode>) -> Seq<SpecNode>
    decreases cs.len(),
{
    if cs.len() == 0 {
        Seq::empty()
    } else {
        child_rows(cs.drop_last()) + match cs.last() {
            SpecNode::Head { rows, .. } => rows,
            SpecNode::Body { rows, .. } => rows,
            _ => Seq::empty(),
        }
    }
}

proof fn lemma_header_run(rows: Seq<SpecNode>, i: int)
    requires
        0 <= i <= rows.len(),
    ensures
        i <= header_run(rows, i) <= rows.len(),
        forall|j: int| i <= j < header_run(rows, i) ==> is_header_row(#[trigger] rows[j]),
        header_run(rows, i) < rows.len() ==> !is_header_row(rows[header_run(rows, i)]),
    decreases rows.len() - i,
{
    if i < rows.len() && is_header_row(rows[i]) {
        lemma_header_run(rows, i + 1);
    }
}

/// Direct table rows are grouped without loss: the head (first, if any)
/// holds the leading rows made only of header cells, the body (last, if
/// any) holds the other rows, and together they give back the rows in
/// order.
pub proof fn law_table_rows_partition(rows: Seq<SpecNode>)
    ensures
        child_rows(normalized_rows(rows)) == rows,
        normalized_rows(rows).len() <= 2,
        forall|k: int|
            0 <= k < normalized_rows(rows).len() ==> (#[trigger] normalized_rows(rows)[k] is Head
                || normalized_rows(rows)[k] is Body),
        normalized_rows(rows).len() > 0 && normalized_rows(rows)[0] is Head ==> forall|j: int|
            0 <= j < normalized_rows(rows)[0]->Head_rows.len() ==> is_header_row(
                #[trigger] normalized_rows(rows)[0]->Head_rows[j],
            ),
        normalized_rows(rows).len() > 0 && normalized_rows(rows).last() is Body ==> !is_header_row(
            normalized_rows(rows).last()->Body_rows[0],
        ),
{
    let h = header_run(rows, 0);
    lemma_header_run(rows, 0);
    let n = normalized_rows(rows);
    let e = Seq::<SpecNode>::empty();
    assert(child_rows(e) == e);
    if h > 0 && h < rows.len() {
        let first = seq![n[0]];
        assert(n.drop_last() =~= first);
        assert(first.drop_last() =~= e);
        assert(child_rows(first) =~= e + rows.take(h));
        assert(child_rows(n) == child_rows(first) + rows.skip(h));
        assert(rows =~= rows.take(h) + rows.skip(h));
    } else if h > 0 {
        assert(n.drop_last() =~= e);
        assert(child_rows(n) == child_rows(e) + rows.take(h));
        assert(rows.take(h) =~= rows);
    } else if h < rows.len() {
        assert(n.drop_last() =~= e);
        assert(child_rows(n) == child_rows(e) + rows.skip(h));
        assert(rows.skip(h) =~= rows);
    } else {
        assert(n =~= e);
        assert(rows =~= e);
    }
}


/// Names and builtins correspond one to one: every builtin is found again
/// under its name, and a name denotes only the builtin that bears it.
pub proof fn law_builtin_names_round_trip(b: Builtin, s: Seq<char>)
    ensures
        builtin_named(builtin_name(b)@) == Some(b),
        builtin_named(s) == Some(b) ==> builtin_name(b)@ == s,
{
    reveal_strlit("doc");
    reveal_strlit("h1");
    reveal_strlit("h2");
    reveal_strlit("h3");
    reveal_strlit("h4");
    reveal_strlit("h5");
    reveal_strlit("h6");
    reveal_strlit("p");
    reveal_strlit("ul");
    reveal_strlit("ol");
    reveal_strlit("li");
    reveal_strlit("blockquote");
    reveal_strlit("codeblock");
    reveal_strlit("hr");
    reveal_strlit("table");
    reveal_strlit("thead");
    reveal_strlit("tbody");
    reveal_strlit("tr");
    reveal_strlit("th");
    reveal_strlit("td");
    reveal_strlit("text");
    reveal_strlit("em");
    reveal_strlit("strong");
    reveal_strlit("code");
    reveal_strlit("a");
    reveal_strlit("img");
    reveal_strlit("br");
    reveal_strlit("list");
    reveal_strlit("map");
    reveal_strlit("apply");
    reveal_strlit("ld::table::from-data");
    match b {
        Builtin::Doc => {},
        Builtin::H1 => {
            assert("h1"@.len() != "doc"@.len());
        },
        Builtin::H2 => {
            assert("h2"@.len() != "doc"@.len());
            assert("h2"@[1] != "h1"@[1]);
        },
        Builtin::H3 => {
            assert("h3"@.len() != "doc"@.len());
            assert("h3"@[1] != "h1"@[1]);
            assert("h3"@[1] != "h2"@[1]);
        },
        Builtin::H4 => {
            assert("h4"@.len() != "doc"@.len());
            assert("h4"@[1] != "h1"@[1]);
            assert("h4"@[1] != "h2"@[1]);
            assert("h4"@[1] != "h3"@[1]);
        },
        Builtin::H5 => {
            assert("h5"@.len() != "doc"@.len());
            assert("h5"@[1] != "h1"@[1]);
            assert("h5"@[1] != "h2"@[1]);
            assert("h5"@[1] != "h3"@[1]);
            assert("h5"@[1] != "h4"@[1]);
        },
        Builtin::H6 => {
            assert("h6"@.len() != "doc"@.len());
            assert("h6"@[1] != "h1"@[1]);
            assert("h6"@[1] != "h2"@[1]);
            assert("h6"@[1] != "h3"@[1]);
            assert("h6"@[1] != "h4"@[1]);
            assert("h6"@[1] != "h5"@[1]);
        },
        Builtin::P => {
            assert("p"@.len() != "doc"@.len());
            assert("p"@.len() != "h1"@.len());
            assert("p"@.len() != "h2"@.len());
            assert("p"@.len() != "h3"@.len());
            assert("p"@.len() != "h4"@.len());
            assert("p"@.len() != "h5"@.len());
            assert("p"@.len() != "h6"@.len());
        },
        Builtin::Ul => {
            assert("ul"@.len() != "doc"@.len());
            assert("ul"@[0] != "h1"@[0]);
            assert("ul"@[0] != "h2"@[0]);
            assert("ul"@[0] != "h3"@[0]);
            assert("ul"@[0] != "h4"@[0]);
            assert("ul"@[0] != "h5"@[0]);
            assert("ul"@[0] != "h6"@[0]);
            assert("ul"@.len() != "p"@.len());
        },
        Builtin::Ol => {
            assert("ol"@.len() != "doc"@.len());
            assert("ol"@[0] != "h1"@[0]);
            assert("ol"@[0] != "h2"@[0]);
            assert("ol"@[0] != "h3"@[0]);
            assert("ol"@[0] != "h4"@[0]);
            assert("ol"@[0] != "h5"@[0]);
            assert("ol"@[0] != "h6"@[0]);
            assert("ol"@.len() != "p"@.len());
            assert("ol"@[0] != "ul"@[0]);
        },
        Builtin::Li => {
            assert("li"@.len() != "doc"@.len());
            assert("li"@[0] != "h1"@[0]);
            assert("li"@[0] != "h2"@[0]);
            assert("li"@[0] != "h3"@[0]);
            assert("li"@[0] != "h4"@[0]);
            assert("li"@[0] != "h5"@[0]);
            assert("li"@[0] != "h6"@[0]);
            assert("li"@.len() != "p"@.len());
            assert("li"@[0] != "ul"@[0]);
            assert("li"@[0] != "ol"@[0]);
        },
        Builtin::BlockQuote => {
            assert("blockquote"@.len() != "doc"@.len());
            assert("blockquote"@.len() != "h1"@.len());
            assert("blockquote"@.len() != "h2"@.len());
            assert("blockquote"@.len() != "h3"@.len());
            assert("blockquote"@.len() != "h4"@.len());
            assert("blockquote"@.len() != "h5"@.len());
            assert("blockquote"@.len() != "h6"@.len());
            assert("blockquote"@.len() != "p"@.len());
            assert("blockquote"@.len() != "ul"@.len());
            assert("blockquote"@.len() != "ol"@.len());
            assert("blockquote"@.len() != "li"@.len());
        },
        Builtin::CodeBlock => {
            assert("codeblock"@.len() != "doc"@.len());
            assert("codeblock"@.len() != "h1"@.len());
            assert("codeblock"@.len() != "h2"@.len());
            assert("codeblock"@.len() != "h3"@.len());
            assert("codeblock"@.len() != "h4"@.len());
            assert("codeblock"@.len() != "h5"@.len());
            assert("codeblock"@.len() != "h6"@.len());
            assert("codeblock"@.len() != "p"@.len());
            assert("codeblock"@.len() != "ul"@.len());
            assert("codeblock"@.len() != "ol"@.len());
            assert("codeblock"@.len() != "li"@.len());
            assert("codeblock"@.len() != "blockquote"@.len());
        },
        Builtin::Hr => {
            assert("hr"@.len() != "doc"@.len());
            assert("hr"@[1] != "h1"@[1]);
            assert("hr"@[1] != "h2"@[1]);
            assert("hr"@[1] != "h3"@[1]);
            assert("hr"@[1] != "h4"@[1]);
            assert("hr"@[1] != "h5"@[1]);
            assert("hr"@[1] != "h6"@[1]);
            assert("hr"@.len() != "p"@.len());
            assert("hr"@[0] != "ul"@[0]);
            assert("hr"@[0] != "ol"@[0]);
            assert("hr"@[0] != "li"@[0]);
            assert("hr"@.len() != "blockquote"@.len());
            assert("hr"@.len() != "codeblock"@.len());
        },
        Builtin::Table => {
            assert("table"@.len() != "doc"@.len());
            assert("table"@.len() != "h1"@.len());
            assert("table"@.len() != "h2"@.len());
            assert("table"@.len() != "h3"@.len());
            assert("table"@.len() != "h4"@.len());
            assert("table"@.len() != "h5"@.len());
            assert("table"@.len() != "h6"@.len());
            assert("table"@.len() != "p"@.len());
            assert("table"@.len() != "ul"@.len());
            assert("table"@.len() != "ol"@.len());
            assert("table"@.len() != "li"@.len());
            assert("table"@.len() != "blockquote"@.len());
            assert("table"@.len() != "codeblock"@.len());
            assert("table"@.len() != "hr"@.len());
        },
        Builtin::Thead => {
            assert("thead"@.len() != "doc"@.len());
            assert("thead"@.len() != "h1"@.len());
            assert("thead"@.len() != "h2"@.len());
            assert("thead"@.len() != "h3"@.len());
            assert("thead"@.len() != "h4"@.len());
            assert("thead"@.len() != "h5"@.len());
            assert("thead"@.len() != "h6"@.len());
            assert("thead"@.len() != "p"@.len());
            assert("thead"@.len() != "ul"@.len());
            assert("thead"@.len() != "ol"@.len());
            assert("thead"@.len() != "li"@.len());
            assert("thead"@.len() != "blockquote"@.len());
            assert("thead"@.len() != "codeblock"@.len());
            assert("thead"@.len() != "hr"@.len());
            assert("thead"@[1] != "table"@[1]);
        },
        Builtin::Tbody => {
            assert("tbody"@.len() != "doc"@.len());
            assert("tbody"@.len() != "h1"@.len());
            assert("tbody"@.len() != "h2"@.len());
            assert("tbody"@.len() != "h3"@.len());
            assert("tbody"@.len() != "h4"@.len());
            assert("tbody"@.len() != "h5"@.len());
            assert("tbody"@.len() != "h6"@.len());
            assert("tbody"@.len() != "p"@.len());
            assert("tbody"@.len() != "ul"@.len());
            assert("tbody"@.len() != "ol"@.len());
            assert("tbody"@.len() != "li"@.len());
            assert("tbody"@.len() != "blockquote"@.len());
            assert("tbody"@.len() != "codeblock"@.len());
            assert("tbody"@.len() != "hr"@.len());
            assert("tbody"@[1] != "table"@[1]);
            assert("tbody"@[1] != "thead"@[1]);
        },
        Builtin::Tr => {
            assert("tr"@.len() != "doc"@.len());
            assert("tr"@[0] != "h1"@[0]);
            assert("tr"@[0] != "h2"@[0]);
            assert("tr"@[0] != "h3"@[0]);
            assert("tr"@[0] != "h4"@[0]);
            assert("tr"@[0] != "h5"@[0]);
            assert("tr"@[0] != "h6"@[0]);
            assert("tr"@.len() != "p"@.len());
            assert("tr"@[0] != "ul"@[0]);
            assert("tr"@[0] != "ol"@[0]);
            assert("tr"@[0] != "li"@[0]);
            assert("tr"@.len() != "blockquote"@.len());
            assert("tr"@.len() != "codeblock"@.len());
            assert("tr"@[0] != "hr"@[0]);
            assert("tr"@.len() != "table"@.len());
            assert("tr"@.len() != "thead"@.len());
            assert("tr"@.len() != "tbody"@.len());
        },
        Builtin::Th => {
            assert("th"@.len() != "doc"@.len());
            assert("th"@[0] != "h1"@[0]);
            assert("th"@[0] != "h2"@[0]);
            assert("th"@[0] != "h3"@[0]);
            assert("th"@[0] != "h4"@[0]);
            assert("th"@[0] != "h5"@[0]);
            assert("th"@[0] != "h6"@[0]);
            assert("th"@.len() != "p"@.len());
            assert("th"@[0] != "ul"@[0]);
            assert("th"@[0] != "ol"@[0]);
            assert("th"@[0] != "li"@[0]);
            assert("th"@.len() != "blockquote"@.len());
            assert("th"@.len() != "codeblock"@.len());
            assert("th"@[0] != "hr"@[0]);
            assert("th"@.len() != "table"@.len());
            assert("th"@.len() != "thead"@.len());
            assert("th"@.len() != "tbody"@.len());
            assert("th"@[1] != "tr"@[1]);
        },
        Builtin::Td => {
            assert("td"@.len() != "doc"@.len());
            assert("td"@[0] != "h1"@[0]);
            assert("td"@[0] != "h2"@[0]);
            assert("td"@[0] != "h3"@[0]);
            assert("td"@[0] != "h4"@[0]);
            assert("td"@[0] != "h5"@[0]);
            assert("td"@[0] != "h6"@[0]);
            assert("td"@.len() != "p"@.len());
            assert("td"@[0] != "ul"@[0]);
            assert("td"@[0] != "ol"@[0]);
            assert("td"@[0] != "li"@[0]);
            assert("td"@.len() != "blockquote"@.len());
            assert("td"@.len() != "codeblock"@.len());
            assert("td"@[0] != "hr"@[0]);
            assert("td"@.len() != "table"@.len());
            assert("td"@.len() != "thead"@.len());
            assert("td"@.len() != "tbody"@.len());
            assert("td"@[1] != "tr"@[1]);
            assert("td"@[1] != "th"@[1]);
        },
        Builtin::Text => {
            assert("text"@.len() != "doc"@.len());
            assert("text"@.len() != "h1"@.len());
            assert("text"@.len() != "h2"@.len());
            assert("text"@.len() != "h3"@.len());
            assert("text"@.len() != "h4"@.len());
            assert("text"@.len() != "h5"@.len());
            assert("text"@.len() != "h6"@.len());
            assert("text"@.len() != "p"@.len());
            assert("text"@.len() != "ul"@.len());
            assert("text"@.len() != "ol"@.len());
            assert("text"@.len() != "li"@.len());
            assert("text"@.len() != "blockquote"@.len());
            assert("text"@.len() != "codeblock"@.len());
            assert("text"@.len() != "hr"@.len());
            assert("text"@.len() != "table"@.len());
            assert("text"@.len() != "thead"@.len());
            assert("text"@.len() != "tbody"@.len());
            assert("text"@.len() != "tr"@.len());
            assert("text"@.len() != "th"@.len());
            assert("text"@.len() != "td"@.len());
        },
        Builtin::Em => {
            assert("em"@.len() != "doc"@.len());
            assert("em"@[0] != "h1"@[0]);
            assert("em"@[0] != "h2"@[0]);
            assert("em"@[0] != "h3"@[0]);
            assert("em"@[0] != "h4"@[0]);
            assert("em"@[0] != "h5"@[0]);
            assert("em"@[0] != "h6"@[0]);
            assert("em"@.len() != "p"@.len());
            assert("em"@[0] != "ul"@[0]);
            assert("em"@[0] != "ol"@[0]);
            assert("em"@[0] != "li"@[0]);
            assert("em"@.len() != "blockquote"@.len());
            assert("em"@.len() != "codeblock"@.len());
            assert("em"@[0] != "hr"@[0]);
            assert("em"@.len() != "table"@.len());
            assert("em"@.len() != "thead"@.len());
            assert("em"@.len() != "tbody"@.len());
            assert("em"@[0] != "tr"@[0]);
            assert("em"@[0] != "th"@[0]);
            assert("em"@[0] != "td"@[0]);
            assert("em"@.len() != "text"@.len());
        },
        Builtin::Strong => {
            assert("strong"@.len() != "doc"@.len());
            assert("strong"@.len() != "h1"@.len());
            assert("strong"@.len() != "h2"@.len());
            assert("strong"@.len() != "h3"@.len());
            assert("strong"@.len() != "h4"@.len());
            assert("strong"@.len() != "h5"@.len());
            assert("strong"@.len() != "h6"@.len());
            assert("strong"@.len() != "p"@.len());
            assert("strong"@.len() != "ul"@.len());
            assert("strong"@.len() != "ol"@.len());
            assert("strong"@.len() != "li"@.len());
            assert("strong"@.len() != "blockquote"@.len());
            assert("strong"@.len() != "codeblock"@.len());
            assert("strong"@.len() != "hr"@.len());
            assert("strong"@.len() != "table"@.len());
            assert("strong"@.len() != "thead"@.len());
            assert("strong"@.len() != "tbody"@.len());
            assert("strong"@.len() != "tr"@.len());
            assert("strong"@.len() != "th"@.len());
            assert("strong"@.len() != "td"@.len());
            assert("strong"@.len() != "text"@.len());
            assert("strong"@.len() != "em"@.len());
        },
        Builtin::Code => {
            assert("code"@.len() != "doc"@.len());
            assert("code"@.len() != "h1"@.len());
            assert("code"@.len() != "h2"@.len());
            assert("code"@.len() != "h3"@.len());
            assert("code"@.len() != "h4"@.len());
            assert("code"@.len() != "h5"@.len());
            assert("code"@.len() != "h6"@.len());
            assert("code"@.len() != "p"@.len());
            assert("code"@.len() != "ul"@.len());
            assert("code"@.len() != "ol"@.len());
            assert("code"@.len() != "li"@.len());
            assert("code"@.len() != "blockquote"@.len());
            assert("code"@.len() != "codeblock"@.len());
            assert("code"@.len() != "hr"@.len());
            assert("code"@.len() != "table"@.len());
            assert("code"@.len() != "thead"@.len());
            assert("code"@.len() != "tbody"@.len());
            assert("code"@.len() != "tr"@.len());
            assert("code"@.len() != "th"@.len());
            assert("code"@.len() != "td"@.len());
            assert("code"@[0] != "text"@[0]);
            assert("code"@.len() != "em"@.len());
            assert("code"@.len() != "strong"@.len());
        },
        Builtin::A => {
            assert("a"@.len() != "doc"@.len());
            assert("a"@.len() != "h1"@.len());
            assert("a"@.len() != "h2"@.len());
            assert("a"@.len() != "h3"@.len());
            assert("a"@.len() != "h4"@.len());
            assert("a"@.len() != "h5"@.len());
            assert("a"@.len() != "h6"@.len());
            assert("a"@[0] != "p"@[0]);
            assert("a"@.len() != "ul"@.len());
            assert("a"@.len() != "ol"@.len());
            assert("a"@.len() != "li"@.len());
            assert("a"@.len() != "blockquote"@.len());
            assert("a"@.len() != "codeblock"@.len());
            assert("a"@.len() != "hr"@.len());
            assert("a"@.len() != "table"@.len());
            assert("a"@.len() != "thead"@.len());
            assert("a"@.len() != "tbody"@.len());
            assert("a"@.len() != "tr"@.len());
            assert("a"@.len() != "th"@.len());
            assert("a"@.len() != "td"@.len());
            assert("a"@.len() != "text"@.len());
            assert("a"@.len() != "em"@.len());
            assert("a"@.len() != "strong"@.len());
            assert("a"@.len() != "code"@.len());
        },
        Builtin::Img => {
            assert("img"@[0] != "doc"@[0]);
            assert("img"@.len() != "h1"@.len());
            assert("img"@.len() != "h2"@.len());
            assert("img"@.len() != "h3"@.len());
            assert("img"@.len() != "h4"@.len());
            assert("img"@.len() != "h5"@.len());
            assert("img"@.len() != "h6"@.len());
            assert("img"@.len() != "p"@.len());
            assert("img"@.len() != "ul"@.len());
            assert("img"@.len() != "ol"@.len());
            assert("img"@.len() != "li"@.len());
            assert("img"@.len() != "blockquote"@.len());
            assert("img"@.len() != "codeblock"@.len());
            assert("img"@.len() != "hr"@.len());
            assert("img"@.len() != "table"@.len());
            assert("img"@.len() != "thead"@.len());
            assert("img"@.len() != "tbody"@.len());
            assert("img"@.len() != "tr"@.len());
            assert("img"@.len() != "th"@.len());
            assert("img"@.len() != "td"@.len());
            assert("img"@.len() != "text"@.len());
            assert("img"@.len() != "em"@.len());
            assert("img"@.len() != "strong"@.len());
            assert("img"@.len() != "code"@.len());
            assert("img"@.len() != "a"@.len());
        },
        Builtin::Br => {
            assert("br"@.len() != "doc"@.len());
            assert("br"@[0] != "h1"@[0]);
            assert("br"@[0] != "h2"@[0]);
            assert("br"@[0] != "h3"@[0]);
            assert("br"@[0] != "h4"@[0]);
            assert("br"@[0] != "h5"@[0]);
            assert("br"@[0] != "h6"@[0]);
            assert("br"@.len() != "p"@.len());
            assert("br"@[0] != "ul"@[0]);
            assert("br"@[0] != "ol"@[0]);
            assert("br"@[0] != "li"@[0]);
            assert("br"@.len() != "blockquote"@.len());
            assert("br"@.len() != "codeblock"@.len());
            assert("br"@[0] != "hr"@[0]);
            assert("br"@.len() != "table"@.len());
            assert("br"@.len() != "thead"@.len());
            assert("br"@.len() != "tbody"@.len());
            assert("br"@[0] != "tr"@[0]);
            assert("br"@[0] != "th"@[0]);
            assert("br"@[0] != "td"@[0]);
            assert("br"@.len() != "text"@.len());
            assert("br"@[0] != "em"@[0]);
            assert("br"@.len() != "strong"@.len());
            assert("br"@.len() != "code"@.len());
            assert("br"@.len() != "a"@.len());
            assert("br"@.len() != "img"@.len());
        },
        Builtin::List => {
            assert("list"@.len() != "doc"@.len());
            assert("list"@.len() != "h1"@.len());
            assert("list"@.len() != "h2"@.len());
            assert("list"@.len() != "h3"@.len());
            assert("list"@.len() != "h4"@.len());
            assert("list"@.len() != "h5"@.len());
            assert("list"@.len() != "h6"@.len());
            assert("list"@.len() != "p"@.len());
            assert("list"@.len() != "ul"@.len());
            assert("list"@.len() != "ol"@.len());
            assert("list"@.len() != "li"@.len());
            assert("list"@.len() != "blockquote"@.len());
            assert("list"@.len() != "codeblock"@.len());
            assert("list"@.len() != "hr"@.len());
            assert("list"@.len() != "table"@.len());
            assert("list"@.len() != "thead"@.len());
            assert("list"@.len() != "tbody"@.len());
            assert("list"@.len() != "tr"@.len());
            assert("list"@.len() != "th"@.len());
            assert("list"@.len() != "td"@.len());
            assert("list"@[0] != "text"@[0]);
            assert("list"@.len() != "em"@.len());
            assert("list"@.len() != "strong"@.len());
            assert("list"@[0] != "code"@[0]);
            assert("list"@.len() != "a"@.len());
            assert("list"@.len() != "img"@.len());
            assert("list"@.len() != "br"@.len());
        },
        Builtin::MapEach => {
            assert("map"@[0] != "doc"@[0]);
            assert("map"@.len() != "h1"@.len());
            assert("map"@.len() != "h2"@.len());
            assert("map"@.len() != "h3"@.len());
            assert("map"@.len() != "h4"@.len());
            assert("map"@.len() != "h5"@.len());
            assert("map"@.len() != "h6"@.len());
            assert("map"@.len() != "p"@.len());
            assert("map"@.len() != "ul"@.len());
            assert("map"@.len() != "ol"@.len());
            assert("map"@.len() != "li"@.len());
            assert("map"@.len() != "blockquote"@.len());
            assert("map"@.len() != "codeblock"@.len());
            assert("map"@.len() != "hr"@.len());
            assert("map"@.len() != "table"@.len());
            assert("map"@.len() != "thead"@.len());
            assert("map"@.len() != "tbody"@.len());
            assert("map"@.len() != "tr"@.len());
            assert("map"@.len() != "th"@.len());
            assert("map"@.len() != "td"@.len());
            assert("map"@.len() != "text"@.len());
            assert("map"@.len() != "em"@.len());
            assert("map"@.len() != "strong"@.len());
            assert("map"@.len() != "code"@.len());
            assert("map"@.len() != "a"@.len());
            assert("map"@[0] != "img"@[0]);
            assert("map"@.len() != "br"@.len());
            assert("map"@.len() != "list"@.len());
        },
        Builtin::Apply => {
            assert("apply"@.len() != "doc"@.len());
            assert("apply"@.len() != "h1"@.len());
            assert("apply"@.len() != "h2"@.len());
            assert("apply"@.len() != "h3"@.len());
            assert("apply"@.len() != "h4"@.len());
            assert("apply"@.len() != "h5"@.len());
            assert("apply"@.len() != "h6"@.len());
            assert("apply"@.len() != "p"@.len());
            assert("apply"@.len() != "ul"@.len());
            assert("apply"@.len() != "ol"@.len());
            assert("apply"@.len() != "li"@.len());
            assert("apply"@.len() != "blockquote"@.len());
            assert("apply"@.len() != "codeblock"@.len());
            assert("apply"@.len() != "hr"@.len());
            assert("apply"@[0] != "table"@[0]);
            assert("apply"@[0] != "thead"@[0]);
            assert("apply"@[0] != "tbody"@[0]);
            assert("apply"@.len() != "tr"@.len());
            assert("apply"@.len() != "th"@.len());
            assert("apply"@.len() != "td"@.len());
            assert("apply"@.len() != "text"@.len());
            assert("apply"@.len() != "em"@.len());
            assert("apply"@.len() != "strong"@.len());
            assert("apply"@.len() != "code"@.len());
            assert("apply"@.len() != "a"@.len());
            assert("apply"@.len() != "img"@.len());
            assert("apply"@.len() != "br"@.len());
            assert("apply"@.len() != "list"@.len());
            assert("apply"@.len() != "map"@.len());
        },
        Builtin::TableFromData => {
            assert("ld::table::from-data"@.len() != "doc"@.len());
            assert("ld::table::from-data"@.len() != "h1"@.len());
            assert("ld::table::from-data"@.len() != "h2"@.len());
            assert("ld::table::from-data"@.len() != "h3"@.len());
            assert("ld::table::from-data"@.len() != "h4"@.len());
            assert("ld::table::from-data"@.len() != "h5"@.len());
            assert("ld::table::from-data"@.len() != "h6"@.len());
            assert("ld::table::from-data"@.len() != "p"@.len());
            assert("ld::table::from-data"@.len() != "ul"@.len());
            assert("ld::table::from-data"@.len() != "ol"@.len());
            assert("ld::table::from-data"@.len() != "li"@.len());
            assert("ld::table::from-data"@.len() != "blockquote"@.len());
            assert("ld::table::from-data"@.len() != "codeblock"@.len());
            assert("ld::table::from-data"@.len() != "hr"@.len());
            assert("ld::table::from-data"@.len() != "table"@.len());
            assert("ld::table::from-data"@.len() != "thead"@.len());
            assert("ld::table::from-data"@.len() != "tbody"@.len());
            assert("ld::table::from-data"@.len() != "tr"@.len());
            assert("ld::table::from-data"@.len() != "th"@.len());
            assert("ld::table::from-data"@.len() != "td"@.len());
            assert("ld::table::from-data"@.len() != "text"@.len());
            assert("ld::table::from-data"@.len() != "em"@.len());
            assert("ld::table::from-data"@.len() != "strong"@.len());
            assert("ld::table::from-data"@.len() != "code"@.len());
            assert("ld::table::from-data"@.len() != "a"@.len());
            assert("ld::table::from-data"@.len() != "img"@.len());
            assert("ld::table::from-data"@.len() != "br"@.len());
            assert("ld::table::from-data"@.len() != "list"@.len());
            assert("ld::table::from-data"@.len() != "map"@.len());
            assert("ld::table::from-data"@.len() != "apply"@.len());
        },
    }
}


/// Whether `name` is `h` followed by a digit from 1 to 6.
pub open spec fn is_heading_name(name: Seq<char>) -> bool {
    name.len() == 2 && name[0] == 'h' && '1' <= name[1] <= '6'
}

/// The builtins named `h1` to `h6` build headings of the level their name
/// gives: a heading that a builtin builds has the level of the digit in the
/// builtin's name, and whatever a heading builtin builds is a heading.
pub proof fn law_heading_level_matches_name(b: Builtin, args: Seq<SpecValue>, span: Span, version: Seq<char>, meta_span: Span)
    ensures
        construct(b, args, span, version, meta_span) matches Ok(SpecValue::Node(SpecNode::Heading { level, .. }))
            ==> is_heading_name(builtin_name(b)@) && builtin_name(b)@[1] as int == '0' as int + level,
        is_heading_name(builtin_name(b)@) ==> (construct(b, args, span, version, meta_span) matches Ok(
            v,
        ) ==> v matches SpecValue::Node(SpecNode::Heading { .. })),
{
    match b {
        Builtin::H1 => reveal_strlit("h1"),
        Builtin::H2 => reveal_strlit("h2"),
        Builtin::H3 => reveal_strlit("h3"),
        Builtin::H4 => reveal_strlit("h4"),
        Builtin::H5 => reveal_strlit("h5"),
        Builtin::H6 => reveal_strlit("h6"),
        Builtin::Hr => reveal_strlit("hr"),
        Builtin::Ul => reveal_strlit("ul"),
        Builtin::Ol => reveal_strlit("ol"),
        Builtin::Li => reveal_strlit("li"),
        Builtin::Tr => reveal_strlit("tr"),
        Builtin::Th => reveal_strlit("th"),
        Builtin::Td => reveal_strlit("td"),
        Builtin::Em => reveal_strlit("em"),
        Builtin::Br => reveal_strlit("br"),
        Builtin::Doc => reveal_strlit("doc"),
        Builtin::P => reveal_strlit("p"),
        Builtin::A => reveal_strlit("a"),
        Builtin::Img => reveal_strlit("img"),
        Builtin::Text => reveal_strlit("text"),
        Builtin::Code => reveal_strlit("code"),
        Builtin::List => reveal_strlit("list"),
        Builtin::MapEach => reveal_strlit("map"),
        Builtin::Table => reveal_strlit("table"),
        Builtin::Thead => reveal_strlit("thead"),
        Builtin::Tbody => reveal_strlit("tbody"),
        Builtin::Strong => reveal_strlit("strong"),
        Builtin::Apply => reveal_strlit("apply"),
        Builtin::CodeBlock => reveal_strlit("codeblock"),
        Builtin::BlockQuote => reveal_strlit("blockquote"),
        Builtin::TableFromData => reveal_strlit("ld::table::from-data"),
    }
}


/// The name of the builtin that builds nodes of the shape of `n`.
pub open spec fn builder_name(n: SpecNode) -> Seq<char> {
    match n {
        SpecNode::Document { .. } => seq!['d', 'o', 'c'],
        SpecNode::Heading { level, .. } => seq!['h', ((level as int + 48) as u32) as char],
        SpecNode::Paragraph { .. } => seq!['p'],
        SpecNode::List { ordered, .. } => if ordered { seq!['o', 'l'] } else { seq!['u', 'l'] },
        SpecNode::ListItem { .. } => seq!['l', 'i'],
        SpecNode::BlockQuote { .. } => seq!['b', 'l', 'o', 'c', 'k', 'q', 'u', 'o', 't', 'e'],
        SpecNode::CodeBlock { .. } => seq!['c', 'o', 'd', 'e', 'b', 'l', 'o', 'c', 'k'],
        SpecNode::ThematicBreak { .. } => seq!['h', 'r'],
        SpecNode::Table { .. } => seq!['t', 'a', 'b', 'l', 'e'],
        SpecNode::Text { .. } => seq!['t', 'e', 'x', 't'],
        SpecNode::Emphasis { .. } => seq!['e', 'm'],
        SpecNode::Strong { .. } => seq!['s', 't', 'r', 'o', 'n', 'g'],
        SpecNode::Code { .. } => seq!['c', 'o', 'd', 'e'],
        SpecNode::Link { .. } => seq!['a'],
        SpecNode::Image { .. } => seq!['i', 'm', 'g'],
        SpecNode::Break { .. } => seq!['b', 'r'],
        SpecNode::Head { .. } => seq!['t', 'h', 'e', 'a', 'd'],
        SpecNode::Body { .. } => seq!['t', 'b', 'o', 'd', 'y'],
        SpecNode::Row { .. } => seq!['t', 'r'],
        SpecNode::HeaderCell { .. } => seq!['t', 'h'],
        SpecNode::DataCell { .. } => seq!['t', 'd'],
    }
}

/// Each builtin builds nodes of its own name's shape: the node a builtin
/// returns is one whose builder bears that builtin's name (`ld::table::from-data`
/// builds a `table`), and the `list` builtin returns its arguments as a
/// list.
pub proof fn law_builtins_build_their_node(b: Builtin, args: Seq<SpecValue>, span: Span, version: Seq<char>, meta_span: Span)
    ensures
        construct(b, args, span, version, meta_span) matches Ok(SpecValue::Node(n)) ==> (if b is TableFromData {
            n is Table
        } else {
            builder_name(n) == builtin_name(b)@
        }),
        b is List ==> construct(b, args, span, version, meta_span) == Ok::<SpecValue, SpecVmError>(SpecValue::List(args)),
{
    match b {
        Builtin::Doc => reveal_strlit("doc"),
        Builtin::H1 => reveal_strlit("h1"),
        Builtin::H2 => reveal_strlit("h2"),
        Builtin::H3 => reveal_strlit("h3"),
        Builtin::H4 => reveal_strlit("h4"),
        Builtin::H5 => reveal_strlit("h5"),
        Builtin::H6 => reveal_strlit("h6"),
        Builtin::P => reveal_strlit("p"),
        Builtin::Ul => reveal_strlit("ul"),
        Builtin::Ol => reveal_strlit("ol"),
        Builtin::Li => reveal_strlit("li"),
        Builtin::BlockQuote => reveal_strlit("blockquote"),
        Builtin::CodeBlock => reveal_strlit("codeblock"),
        Builtin::Hr => reveal_strlit("hr"),
        Builtin::Table => reveal_strlit("table"),
        Builtin::Thead => reveal_strlit("thead"),
        Builtin::Tbody => reveal_strlit("tbody"),
        Builtin::Tr => reveal_strlit("tr"),
        Builtin::Th => reveal_strlit("th"),
        Builtin::Td => reveal_strlit("td"),
        Builtin::Text => reveal_strlit("text"),
        Builtin::Em => reveal_strlit("em"),
        Builtin::Strong => reveal_strlit("strong"),
        Builtin::Code => reveal_strlit("code"),
        Builtin::A => reveal_strlit("a"),
        Builtin::Img => reveal_strlit("img"),
        Builtin::Br => reveal_strlit("br"),
        _ => {},
    }
}

/// The builtins that take strings keep them where they belong: `text` and
/// `code` hold their one string; `codeblock` holds its one string as its
/// text, or its two as language and text; `a` holds its first argument as
/// its destination; `img` holds its first as its source and its second, if
/// any, as its alternative text.
pub proof fn law_builtins_keep_their_strings(b: Builtin, args: Seq<SpecValue>, span: Span, version: Seq<char>, meta_span: Span)
    ensures
        construct(b, args, span, version, meta_span) matches Ok(SpecValue::Node(n)) ==> match n {
            SpecNode::Text { text, .. } => args == seq![SpecValue::String(text)],
            SpecNode::Code { text, .. } => args == seq![SpecValue::String(text)],
            SpecNode::CodeBlock { lang, text, .. } => match lang {
                None => args == seq![SpecValue::String(text)],
                Some(l) => args == seq![SpecValue::String(l), SpecValue::String(text)],
            },
            SpecNode::Link { href, .. } => args.len() >= 1 && args[0] == SpecValue::String(href),
            SpecNode::Image { src, alt, .. } => match alt {
                None => args == seq![SpecValue::String(src)],
                Some(a) => args == seq![SpecValue::String(src), SpecValue::String(a)],
            },
            _ => true,
        },
{
    match construct(b, args, span, version, meta_span) {
        Ok(SpecValue::Node(n)) => {
            if args.len() == 1 {
                assert(args =~= seq![args[0]]);
            } else if args.len() == 2 {
                assert(args =~= seq![args[0], args[1]]);
            }
        },
        _ => {},
    }
}

proof fn lemma_want_nodes(b: Builtin, args: Seq<SpecValue>, k: NodeKind, span: Span, i: int, acc: Seq<SpecNode>)
    requires
        0 <= i <= args.len(),
    ensures
        want_nodes(b, args, k, span, i, acc) matches Ok(r) ==> {
            &&& r.len() == acc.len() + args.len() - i
            &&& r.take(acc.len() as int) == acc
            &&& forall|j: int|
                i <= j < args.len() ==> #[trigger] args[j] == SpecValue::Node(r[acc.len() + j - i])
                    && node_kind(r[acc.len() + j - i]) == k
        },
    decreases args.len() - i,
{
    if i < args.len() {
        if let Ok(n) = want_node(b, args[i], k, span) {
            lemma_want_nodes(b, args, k, span, i + 1, acc.push(n));
            if let Ok(r) = want_nodes(b, args, k, span, i + 1, acc.push(n)) {
                assert(r.take(acc.len() as int) =~= r.take(acc.len() as int + 1).take(acc.len() as int));
                assert(acc.push(n).take(acc.len() as int) =~= acc);
                assert(r[acc.len() as int] == r.take(acc.len() as int + 1)[acc.len() as int]);
            }
        }
    } else {
        assert(acc.take(acc.len() as int) =~= acc);
    }
}

/// The children of the node a block-level parent builtin (`doc`, `ul`,
/// `ol`, `li`, `blockquote`, `thead`, `tbody`, `tr`) builds are its
/// arguments, in order, one node each.
pub proof fn law_parents_keep_their_children(b: Builtin, args: Seq<SpecValue>, span: Span, version: Seq<char>, meta_span: Span)
    ensures
        construct(b, args, span, version, meta_span) matches Ok(SpecValue::Node(n)) ==> match n {
            SpecNode::Document { blocks: cs, .. } => args == cs.map_values(|c: SpecNode| SpecValue::Node(c)),
            SpecNode::List { items: cs, .. } => args == cs.map_values(|c: SpecNode| SpecValue::Node(c)),
            SpecNode::ListItem { children: cs, .. } => args == cs.map_values(|c: SpecNode| SpecValue::Node(c)),
            SpecNode::BlockQuote { children: cs, .. } => args == cs.map_values(|c: SpecNode| SpecValue::Node(c)),
            SpecNode::Head { rows: cs, .. } => args == cs.map_values(|c: SpecNode| SpecValue::Node(c)),
            SpecNode::Body { rows: cs, .. } => args == cs.map_values(|c: SpecNode| SpecValue::Node(c)),
            SpecNode::Row { cells: cs, .. } => args == cs.map_values(|c: SpecNode| SpecValue::Node(c)),
            _ => true,
        },
{
    let k = match b {
        Builtin::Thead | Builtin::Tbody => NodeKind::TableRow,
        Builtin::Tr => NodeKind::TableCell,
        _ => NodeKind::Block,
    };
    lemma_want_nodes(b, args, k, span, 0, Seq::empty());
    if let Ok(r) = want_nodes(b, args, k, span, 0, Seq::empty()) {
        assert(args =~= r.map_values(|c: SpecNode| SpecValue::Node(c)));
    }
}

} // verus!
