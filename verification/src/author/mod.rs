//! Lightdown author syntax: a small Markdown-like language with embedded
//! IR, parsed to a resolved document through the IR pipeline.
pub mod block_parser;
pub mod error;
pub mod inline_parser;
pub mod lower;
pub mod scan;
pub mod serialize;
pub mod syntax;

use vstd::prelude::*;

use crate::author::block_parser::{document_blocks, parse_document};
use crate::author::error::{ParseError, ParseErrorKind, RenderError, SpecError, SpecErrorKind};
use crate::author::lower::{lower_document, lower_document_spec};
use crate::author::syntax::src_blocks_view;
use crate::html::{SpecRenderError, render_document, render_node};
use crate::ir::compile::{compile_module, compile_spec, law_program_entry};
use crate::ir::document::{Document, SpecNode};
use crate::ir::vm::{document_spec, execute_document, law_document_version};

verus! {

/// The document that an author text stands for.
pub open spec fn parse_spec(s: Seq<char>) -> Result<SpecNode, SpecError> {
    match document_blocks(s) {
        Err(e) => Err(e),
        Ok(blocks) => match lower_document_spec(blocks) {
            Err(e) => Err(e),
            Ok(m) => match compile_spec(m) {
                Err(ce) => Err(SpecError { kind: SpecErrorKind::Compile(ce), span: None }),
                Ok(p) => match document_spec(p) {
                    Err(ve) => Err(SpecError { kind: SpecErrorKind::Evaluation(ve), span: None }),
                    Ok(d) => Ok(d),
                },
            },
        },
    }
}

/// The model of a rendering error of the author pipeline.
pub enum SpecAuthorRenderError {
    Parse(SpecError),
    Html(SpecRenderError),
}

impl View for RenderError {
    type V = SpecAuthorRenderError;

    open spec fn view(&self) -> SpecAuthorRenderError {
        match self {
            RenderError::Parse(e) => SpecAuthorRenderError::Parse(e@),
            RenderError::Html(e) => SpecAuthorRenderError::Html(e@),
        }
    }
}

/// The HTML that an author text renders to.
pub open spec fn render_html_spec(s: Seq<char>) -> Result<Seq<char>, SpecAuthorRenderError> {
    match parse_spec(s) {
        Err(e) => Err(SpecAuthorRenderError::Parse(e)),
        Ok(d) => Ok(render_node(d)),
    }
}

/// Parses author text into the resolved document it stands for: its blocks
/// are lowered to IR, compiled and run.
pub fn parse(input: &str) -> (r: Result<Document, ParseError>)
    ensures
        match r {
            Ok(d) => parse_spec(input@) == Ok::<SpecNode, SpecError>(d@),
            Err(e) => parse_spec(input@) == Err::<SpecNode, SpecError>(e@),
        },
{
    let blocks = match parse_document(input) {
        Ok(d) => d,
        Err(e) => {
            return Err(e);
        },
    };
    let module = match lower_document(input, blocks) {
        Ok(m) => m,
        Err(e) => {
            return Err(e);
        },
    };
    let program = match compile_module(&module) {
        Ok(p) => p,
        Err(e) => {
            return Err(ParseError::new(ParseErrorKind::Compile(e), None));
        },
    };
    match execute_document(&program) {
        Ok(d) => Ok(d),
        Err(e) => Err(ParseError::new(ParseErrorKind::Evaluation(e), None)),
    }
}

/// Renders author text to HTML.
pub fn render_html(input: &str) -> (r: Result<String, RenderError>)
    ensures
        match r {
            Ok(html) => render_html_spec(input@) == Ok::<Seq<char>, SpecAuthorRenderError>(html@),
            Err(e) => render_html_spec(input@) == Err::<Seq<char>, SpecAuthorRenderError>(e@),
        },
{
    let document = match parse(input) {
        Ok(d) => d,
        Err(e) => {
            return Err(RenderError::Parse(e));
        },
    };
    match render_document(&document) {
        Ok(html) => Ok(html),
        Err(e) => Err(RenderError::Html(e)),
    }
}

/// What author text parses to is always a `doc` node of IR version
/// 0.1.0.
pub proof fn law_parse_gives_versioned_doc(s: Seq<char>)
    ensures
        parse_spec(s) matches Ok(d) ==> d matches SpecNode::Document { version, .. } && version
            == "0.1.0"@,
{
    if let Ok(blocks) = document_blocks(s) {
        if let Ok(m) = lower_document_spec(blocks) {
            if let Ok(p) = compile_spec(m) {
                law_program_entry(m);
                law_document_version(p);
            }
        }
    }
}

} // verus!
