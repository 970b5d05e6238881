//! Errors of the author syntax.
use vstd::prelude::*;

use crate::html::RenderError as HtmlRenderError;
use crate::ir::compile::CompileError;
use crate::ir::lexer::Span;
use crate::ir::parser::{
    ParseError as IrParseError, ParseErrorKind as IrParseErrorKind, SpecParseErrorKind,
};
use crate::ir::vm::{SpecVmError, VmError};

verus! {

#[derive(Debug, PartialEq, Eq)]
pub struct ParseError {
    pub kind: ParseErrorKind,
    pub span: Option<Span>,
}

#[derive(Debug, PartialEq, Eq)]
pub enum ParseErrorKind {
    /// A heading marker with no heading content after it.
    EmptyHeading,
    UnterminatedCodeFence,
    UnterminatedInlineCode,
    UnterminatedEmphasis,
    UnterminatedStrong,
    UnterminatedLink,
    UnterminatedImage,
    UnterminatedEmbeddedIr,
    EmbeddedIr(IrParseErrorKind),
    /// The lowered document did not compile to bytecode.
    Compile(CompileError),
    /// The bytecode of the lowered document failed to run.
    Evaluation(VmError),
    /// An embedded IR fragment is too large for its byte positions to be
    /// counted in a `usize`.
    FragmentTooLarge,
}

pub enum SpecErrorKind {
    EmptyHeading,
    UnterminatedCodeFence,
    UnterminatedInlineCode,
    UnterminatedEmphasis,
    UnterminatedStrong,
    UnterminatedLink,
    UnterminatedImage,
    UnterminatedEmbeddedIr,
    EmbeddedIr(SpecParseErrorKind),
    Compile(CompileError),
    Evaluation(SpecVmError),
    FragmentTooLarge,
}

/// The model of an author syntax error.
pub struct SpecError {
    pub kind: SpecErrorKind,
    pub span: Option<Span>,
}

impl View for ParseError {
    type V = SpecError;

    open spec fn view(&self) -> SpecError {
        SpecError {
            kind: match self.kind {
                ParseErrorKind::EmptyHeading => SpecErrorKind::EmptyHeading,
                ParseErrorKind::UnterminatedCodeFence => SpecErrorKind::UnterminatedCodeFence,
                ParseErrorKind::UnterminatedInlineCode => SpecErrorKind::UnterminatedInlineCode,
                ParseErrorKind::UnterminatedEmphasis => SpecErrorKind::UnterminatedEmphasis,
                ParseErrorKind::UnterminatedStrong => SpecErrorKind::UnterminatedStrong,
                ParseErrorKind::UnterminatedLink => SpecErrorKind::UnterminatedLink,
                ParseErrorKind::UnterminatedImage => SpecErrorKind::UnterminatedImage,
                ParseErrorKind::UnterminatedEmbeddedIr => SpecErrorKind::UnterminatedEmbeddedIr,
                ParseErrorKind::EmbeddedIr(k) => SpecErrorKind::EmbeddedIr(k@),
                ParseErrorKind::Compile(e) => SpecErrorKind::Compile(e),
                ParseErrorKind::Evaluation(e) => SpecErrorKind::Evaluation(e@),
                ParseErrorKind::FragmentTooLarge => SpecErrorKind::FragmentTooLarge,
            },
            span: self.span,
        }
    }
}

/// The error for an embedded IR fragment that IR parsing refused.
pub open spec fn embedded_error(e: crate::ir::parser::SpecParseError) -> SpecError {
    SpecError { kind: SpecErrorKind::EmbeddedIr(e.kind), span: e.span }
}

impl ParseError {
    pub fn new(kind: ParseErrorKind, span: Option<Span>) -> (r: Self)
        ensures
            r.kind == kind,
            r.span == span,
    {
        ParseError { kind, span }
    }

    /// The author error for an IR parse error in an embedded fragment.
    pub fn from_ir(error: IrParseError) -> (r: Self)
        ensures
            r@ == embedded_error(error@),
    {
        ParseError { kind: ParseErrorKind::EmbeddedIr(error.kind), span: error.span }
    }
}

#[derive(Debug, PartialEq, Eq)]
pub enum RenderError {
    Parse(ParseError),
    Html(HtmlRenderError),
}

} // verus!
