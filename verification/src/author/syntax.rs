//! The syntax tree of author documents, and its model.
use vstd::prelude::*;

use crate::ir::ast::Node;
use crate::ir::lexer::Span;

verus! {

#[derive(Debug, PartialEq, Eq)]
pub struct SourceDocument {
    pub blocks: Vec<SourceBlock>,
}

#[derive(Debug, PartialEq, Eq)]
pub struct SourceBlock {
    pub kind: SourceBlockKind,
    pub span: Span,
}

#[derive(Debug, PartialEq, Eq)]
pub struct SourceInline {
    pub kind: SourceInlineKind,
    pub span: Span,
}

#[derive(Debug, PartialEq, Eq)]
pub enum SourceBlockKind {
    Heading { level: u8, inlines: Vec<SourceInline> },
    Paragraph(Vec<SourceInline>),
    EmbeddedIr(String),
    List { ordered: bool, items: Vec<SourceBlock> },
    ListItem(Vec<SourceBlock>),
    BlockQuote(Vec<SourceBlock>),
    CodeBlock { lang: Option<String>, text: String },
    ThematicBreak,
}

#[derive(Debug, PartialEq, Eq)]
pub enum SourceInlineKind {
    Text(String),
    Emphasis(Vec<SourceInline>),
    Strong(Vec<SourceInline>),
    Code(String),
    Link { href: String, children: Vec<SourceInline> },
    Image { src: String, alt: String },
    EmbeddedIr(String),
}

/// The model of an inline: texts are character sequences.
pub type SpecInline = Node<SpecInlineKind>;

pub enum SpecInlineKind {
    Text(Seq<char>),
    Emphasis(Seq<SpecInline>),
    Strong(Seq<SpecInline>),
    Code(Seq<char>),
    Link { href: Seq<char>, children: Seq<SpecInline> },
    Image { src: Seq<char>, alt: Seq<char> },
    EmbeddedIr(Seq<char>),
}

/// The model of a block.
pub type SpecBlock = Node<SpecBlockKind>;

pub enum SpecBlockKind {
    Heading { level: u8, inlines: Seq<SpecInline> },
    Paragraph(Seq<SpecInline>),
    EmbeddedIr(Seq<char>),
    List { ordered: bool, items: Seq<SpecBlock> },
    ListItem(Seq<SpecBlock>),
    BlockQuote(Seq<SpecBlock>),
    CodeBlock { lang: Option<Seq<char>>, text: Seq<char> },
    ThematicBreak,
}

pub open spec fn src_inline_view(i: SourceInline) -> SpecInline
    decreases i,
{
    Node {
        kind: match i.kind {
            SourceInlineKind::Text(t) => SpecInlineKind::Text(t@),
            SourceInlineKind::Emphasis(c) => SpecInlineKind::Emphasis(src_inlines_view(c@)),
            SourceInlineKind::Strong(c) => SpecInlineKind::Strong(src_inlines_view(c@)),
            SourceInlineKind::Code(t) => SpecInlineKind::Code(t@),
            SourceInlineKind::Link { href, children } => SpecInlineKind::Link {
                href: href@,
                children: src_inlines_view(children@),
            },
            SourceInlineKind::Image { src, alt } => SpecInlineKind::Image { src: src@, alt: alt@ },
            SourceInlineKind::EmbeddedIr(t) => SpecInlineKind::EmbeddedIr(t@),
        },
        span: i.span,
    }
}

pub open spec fn src_inlines_view(s: Seq<SourceInline>) -> Seq<SpecInline>
    decreases s,
{
    if s.len() == 0 {
        Seq::empty()
    } else {
        src_inlines_view(s.drop_last()).push(src_inline_view(s.last()))
    }
}

pub open spec fn src_block_view(b: SourceBlock) -> SpecBlock
    decreases b,
{
    Node {
        kind: match b.kind {
            SourceBlockKind::Heading { level, inlines } => SpecBlockKind::Heading {
                level,
                inlines: src_inlines_view(inlines@),
            },
            SourceBlockKind::Paragraph(inlines) => SpecBlockKind::Paragraph(
                src_inlines_view(inlines@),
            ),
            SourceBlockKind::EmbeddedIr(t) => SpecBlockKind::EmbeddedIr(t@),
            SourceBlockKind::List { ordered, items } => SpecBlockKind::List {
                ordered,
                items: src_blocks_view(items@),
            },
            SourceBlockKind::ListItem(c) => SpecBlockKind::ListItem(src_blocks_view(c@)),
            SourceBlockKind::BlockQuote(c) => SpecBlockKind::BlockQuote(src_blocks_view(c@)),
            SourceBlockKind::CodeBlock { lang, text } => SpecBlockKind::CodeBlock {
                lang: match lang {
                    Some(l) => Some(l@),
                    None => None,
                },
                text: text@,
            },
            SourceBlockKind::ThematicBreak => SpecBlockKind::ThematicBreak,
        },
        span: b.span,
    }
}

pub open spec fn src_blocks_view(s: Seq<SourceBlock>) -> Seq<SpecBlock>
    decreases s,
{
    if s.len() == 0 {
        Seq::empty()
    } else {
        src_blocks_view(s.drop_last()).push(src_block_view(s.last()))
    }
}

pub proof fn lemma_src_inlines_view(s: Seq<SourceInline>)
    ensures
        src_inlines_view(s).len() == s.len(),
        forall|i: int|
            0 <= i < s.len() ==> #[trigger] src_inlines_view(s)[i] == src_inline_view(s[i]),
    decreases s.len(),
{
    if s.len() > 0 {
        lemma_src_inlines_view(s.drop_last());
    }
}

pub proof fn lemma_src_inlines_view_push(s: Seq<SourceInline>, x: SourceInline)
    ensures
        src_inlines_view(s.push(x)) == src_inlines_view(s).push(src_inline_view(x)),
{
    assert(s.push(x).drop_last() =~= s);
}

pub proof fn lemma_src_blocks_view(s: Seq<SourceBlock>)
    ensures
        src_blocks_view(s).len() == s.len(),
        forall|i: int|
            0 <= i < s.len() ==> #[trigger] src_blocks_view(s)[i] == src_block_view(s[i]),
    decreases s.len(),
{
    if s.len() > 0 {
        lemma_src_blocks_view(s.drop_last());
    }
}

pub proof fn lemma_src_blocks_view_push(s: Seq<SourceBlock>, x: SourceBlock)
    ensures
        src_blocks_view(s.push(x)) == src_blocks_view(s).push(src_block_view(x)),
{
    assert(s.push(x).drop_last() =~= s);
}

/// Whether every embedded IR source written among the inline's own text,
/// its children's included, is shorter than `n` (fragments inside embedded
/// IR are not looked into).
pub open spec fn inline_sources_below(i: SpecInline, n: nat) -> bool
    decreases i,
{
    match i.kind {
        SpecInlineKind::EmbeddedIr(src) => src.len() < n,
        SpecInlineKind::Emphasis(c) => forall|k: int|
            0 <= k < c.len() ==> inline_sources_below(#[trigger] c[k], n),
        SpecInlineKind::Strong(c) => forall|k: int|
            0 <= k < c.len() ==> inline_sources_below(#[trigger] c[k], n),
        SpecInlineKind::Link { children, .. } => forall|k: int|
            0 <= k < children.len() ==> inline_sources_below(#[trigger] children[k], n),
        _ => true,
    }
}

pub open spec fn inlines_sources_below(items: Seq<SpecInline>, n: nat) -> bool {
    forall|k: int| 0 <= k < items.len() ==> inline_sources_below(#[trigger] items[k], n)
}

pub proof fn lemma_sources_below_mono(i: SpecInline, n: nat, m: nat)
    requires
        inline_sources_below(i, n),
        n <= m,
    ensures
        inline_sources_below(i, m),
    decreases i,
{
    match i.kind {
        SpecInlineKind::Emphasis(c) => {
            assert forall|k: int| 0 <= k < c.len() implies inline_sources_below(#[trigger] c[k], m) by {
                lemma_sources_below_mono(c[k], n, m);
            }
        },
        SpecInlineKind::Strong(c) => {
            assert forall|k: int| 0 <= k < c.len() implies inline_sources_below(#[trigger] c[k], m) by {
                lemma_sources_below_mono(c[k], n, m);
            }
        },
        SpecInlineKind::Link { children, .. } => {
            assert forall|k: int| 0 <= k < children.len() implies inline_sources_below(
                #[trigger] children[k],
                m,
            ) by {
                lemma_sources_below_mono(children[k], n, m);
            }
        },
        _ => {},
    }
}

} // verus!
