use lightdown::author::serialize::serialize_string;
use lightdown::html::render;
use lightdown::ir::{
    BlockKind, ClosureValue, FunctionId, Lexer, Position, Span, TokenKind, Value, VmError,
    compile_module, execute_document, parse,
};
use lightdown::ir::vm::execute_closure;

#[test]
fn author_documents_are_docs_of_version_0_1_0_with_one_block_per_source_block() {
    let document = lightdown::parse("# A\n\nsome text\n\n---\n\n> quoted").expect("parses");
    assert_eq!(document.metadata.version, "0.1.0");
    assert_eq!(document.blocks.len(), 4);
    assert!(matches!(document.blocks[0].kind, BlockKind::Heading { level: 1, .. }));
    assert!(matches!(document.blocks[1].kind, BlockKind::Paragraph(_)));
    assert!(matches!(document.blocks[2].kind, BlockKind::ThematicBreak));
    assert!(matches!(document.blocks[3].kind, BlockKind::BlockQuote(_)));
}

#[test]
fn empty_author_text_is_an_empty_doc() {
    let document = lightdown::parse("").expect("parses");
    assert_eq!(document.metadata.version, "0.1.0");
    assert!(document.blocks.is_empty());
}

#[test]
fn documents_carry_the_version_of_their_module() {
    let module = parse(r#"(doc {:meta {:version "2.5.0"}} (p (text "x")) (hr))"#).expect("parses");
    let document = execute_document(&compile_module(&module).expect("compiles")).expect("runs");
    assert_eq!(document.metadata.version, "2.5.0");
    assert_eq!(document.blocks.len(), 2);
}

#[test]
fn a_larger_budget_gives_the_same_result() {
    let module = parse(r#"(doc {:meta {:version "0.1.0"}} (apply (lambda () (hr)) (list)))"#)
        .expect("parses");
    let program = compile_module(&module).expect("compiles");
    let origin = Position { offset: 0, line: 1, column: 1 };
    let span = Span { start: origin, end: origin };
    let closure = || ClosureValue { function: FunctionId(1), captures: Vec::new() };

    let none = execute_closure(&program, closure(), Vec::new(), span, 0);
    assert_eq!(none, Err(VmError::StepLimitExceeded));

    let small = execute_closure(&program, closure(), Vec::new(), span, 100);
    let large = execute_closure(&program, closure(), Vec::new(), span, 1_000_000);
    assert!(matches!(small, Ok(Value::Node(_))));
    assert_eq!(small, large);
}

#[test]
fn serialized_strings_lex_back_to_the_same_text() {
    let text = "say \"hi\" \\ back\nslash\ttab\rand more: (brackets) [too]";
    let mut literal = String::new();
    serialize_string(text, &mut literal);
    assert_eq!(
        literal,
        "\"say \\\"hi\\\" \\\\ back\\nslash\\ttab\\rand more: (brackets) [too]\""
    );
    let tokens = Lexer::new(&literal).collect_tokens().expect("lexes");
    assert_eq!(tokens.len(), 1);
    assert_eq!(tokens[0].kind, TokenKind::string(text));
    assert_eq!(tokens[0].span.start.offset, 0);
    assert_eq!(tokens[0].span.end.offset, literal.len());
}

#[test]
fn escaped_text_holds_no_markup() {
    let html = render(r#"(doc {:meta {:version "0.1.0"}} (p (text "<b>\"q\" & 'a'</b>")))"#)
        .expect("renders");
    assert_eq!(html, "<p>&lt;b&gt;&quot;q&quot; &amp; 'a'&lt;/b&gt;</p>");
}

#[test]
fn direct_rows_split_into_header_and_body_rows_in_order() {
    let html = render(
        r#"(doc {:meta {:version "0.1.0"}}
  (table
    (tr (th (text "h1")))
    (tr (th (text "h2")))
    (tr (td (text "d1")))
    (tr (th (text "h3")))))"#,
    )
    .expect("renders");
    assert_eq!(
        html,
        "<table><thead><tr><th>h1</th></tr><tr><th>h2</th></tr></thead><tbody><tr><td>d1</td></tr><tr><th>h3</th></tr></tbody></table>"
    );
}

#[test]
fn tables_of_only_body_rows_have_no_head() {
    let html = render(
        r#"(doc {:meta {:version "0.1.0"}} (table (tr (td (text "a"))) (tr (td (text "b")))))"#,
    )
    .expect("renders");
    assert_eq!(
        html,
        "<table><tbody><tr><td>a</td></tr><tr><td>b</td></tr></tbody></table>"
    );
}

#[test]
fn links_inside_links_are_rejected_at_any_depth() {
    let error = parse(
        r#"(doc {:meta {:version "0.1.0"}} (p (a {:href "/x"} (em (a {:href "/y"} (text "t"))))))"#,
    )
    .expect_err("nested link is rejected");
    assert_eq!(
        error.kind,
        lightdown::ir::ParseErrorKind::InvalidChild { parent: "a".to_string(), child: "a".to_string() }
    );
    let fine = parse(
        r#"(doc {:meta {:version "0.1.0"}} (p (a {:href "/x"} (text "t")) (a {:href "/y"} (text "u"))))"#,
    );
    assert!(fine.is_ok());
}

#[test]
fn codeblocks_take_exactly_one_child() {
    let none = render(r#"(doc {:meta {:version "0.1.0"}} (codeblock {:lang "rust"}))"#);
    assert!(matches!(
        none,
        Err(lightdown::html::RenderError::Parse(ref e))
            if e.kind == lightdown::ir::ParseErrorKind::MissingChild {
                parent: "codeblock".to_string(),
                expected: "text",
            }
    ));
    let two = render(r#"(doc {:meta {:version "0.1.0"}} (codeblock "a" "b"))"#);
    assert!(matches!(
        two,
        Err(lightdown::html::RenderError::Parse(ref e))
            if e.kind == lightdown::ir::ParseErrorKind::InvalidChild {
                parent: "codeblock".to_string(),
                child: "text".to_string(),
            }
    ));
    let one = render(r#"(doc {:meta {:version "0.1.0"}} (codeblock {:lang "rust"} "x"))"#)
        .expect("renders");
    assert_eq!(one, "<pre><code class=\"language-rust\">x</code></pre>");
}
