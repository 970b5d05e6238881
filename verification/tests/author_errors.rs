use lightdown::ir::{LexErrorKind, ParseErrorKind as IrParseErrorKind, VmError};
use lightdown::ParseErrorKind;

fn error_kind(input: &str) -> ParseErrorKind {
    lightdown::parse(input).expect_err("input is rejected").kind
}

#[test]
fn reports_unterminated_inline_code() {
    assert_eq!(error_kind("say `hi"), ParseErrorKind::UnterminatedInlineCode);
}

#[test]
fn reports_unterminated_emphasis() {
    assert_eq!(error_kind("an *open emphasis"), ParseErrorKind::UnterminatedEmphasis);
}

#[test]
fn reports_unterminated_strong() {
    assert_eq!(error_kind("a **strong start"), ParseErrorKind::UnterminatedStrong);
}

#[test]
fn reports_unterminated_links() {
    assert_eq!(error_kind("see [label"), ParseErrorKind::UnterminatedLink);
    assert_eq!(error_kind("see [label] later"), ParseErrorKind::UnterminatedLink);
    assert_eq!(error_kind("see [label](/path"), ParseErrorKind::UnterminatedLink);
}

#[test]
fn reports_unterminated_images() {
    assert_eq!(error_kind("![alt"), ParseErrorKind::UnterminatedImage);
    assert_eq!(error_kind("![alt] x"), ParseErrorKind::UnterminatedImage);
    assert_eq!(error_kind("![alt](/a.png"), ParseErrorKind::UnterminatedImage);
}

#[test]
fn reports_unterminated_embedded_ir() {
    assert_eq!(
        error_kind("before \\((text \"never closed\""),
        ParseErrorKind::UnterminatedEmbeddedIr
    );
}

#[test]
fn reports_embedded_ir_errors_of_the_first_failing_block() {
    let kind = error_kind("\\((text #))\n\nthen\n\n\\((text %))");
    assert_eq!(
        kind,
        ParseErrorKind::EmbeddedIr(IrParseErrorKind::Lex(LexErrorKind::UnexpectedCharacter('#')))
    );
}

#[test]
fn reports_evaluation_errors_of_the_lowered_document() {
    let kind = error_kind("text \\((em \"bare string\"))");
    assert!(
        matches!(kind, ParseErrorKind::Evaluation(VmError::BuiltinTypeMismatch { builtin: "em", .. })),
        "unexpected error: {kind:?}"
    );
}

#[test]
fn error_spans_cover_the_unterminated_construct() {
    let error = lightdown::parse("ab *cd").expect_err("input is rejected");
    let span = error.span.expect("error has a span");
    assert_eq!(span.start.offset, 3);
    assert_eq!(span.end.offset, 6);
    assert_eq!(span.start.line, 1);
    assert_eq!(span.start.column, 4);
}

#[test]
fn rejects_heading_markers_without_content() {
    assert_eq!(error_kind("# "), ParseErrorKind::EmptyHeading);
    assert_eq!(error_kind("intro\n\n###   \n"), ParseErrorKind::EmptyHeading);
    let document = lightdown::parse("## Title").expect("parses");
    assert!(matches!(
        document.blocks[0].kind,
        lightdown::ir::BlockKind::Heading { level: 2, .. }
    ));
    let document = lightdown::parse("####### x").expect("parses");
    assert!(matches!(document.blocks[0].kind, lightdown::ir::BlockKind::Paragraph(_)));
}
