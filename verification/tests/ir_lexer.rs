use lightdown::ir::{Lexer, Token, TokenKind};

fn check_tokens_by_kinds(tokens: &[Token], kinds: &[TokenKind]) {
    assert_eq!(tokens.len(), kinds.len());
    for (token, kind) in tokens.iter().zip(kinds.iter()) {
        assert_eq!(token.kind, *kind);
    }
}

#[test]
fn a_simple_document() {
    let input = "(doc\n  (meta :version \"0.1.0\")\n  (codeblock {:lang \"js\"} \"\"\"\n    | import foobar from \"./foobar\";\n    |\n    | foobar()\n    \"\"\"))\n";

    let tokens = Lexer::new(input)
        .collect_tokens()
        .expect("lexer should succeed");

    check_tokens_by_kinds(
        &tokens,
        &[
            TokenKind::l_paren(),
            TokenKind::symbol("doc"),
            TokenKind::l_paren(),
            TokenKind::symbol("meta"),
            TokenKind::keyword("version"),
            TokenKind::string("0.1.0"),
            TokenKind::r_paren(),
            TokenKind::l_paren(),
            TokenKind::symbol("codeblock"),
            TokenKind::l_brace(),
            TokenKind::keyword("lang"),
            TokenKind::string("js"),
            TokenKind::r_brace(),
            TokenKind::string("import foobar from \"./foobar\";\n\nfoobar()"),
            TokenKind::r_paren(),
            TokenKind::r_paren(),
        ],
    );
}

#[test]
fn lexer_reports_positions_of_tokens() {
    let tokens = Lexer::new("(doc\n  x)").collect_tokens().expect("lexer should succeed");
    assert_eq!(tokens.len(), 4);
    assert_eq!(tokens[2].span.start.line, 2);
    assert_eq!(tokens[2].span.start.column, 3);
    assert_eq!(tokens[2].span.start.offset, 7);
    assert_eq!(tokens[3].span.end.offset, 9);
}

#[test]
fn lexer_stops_at_the_first_error() {
    let mut lexer = Lexer::new("(a @ b)");
    assert!(matches!(lexer.next(), Some(Ok(_))));
    assert!(matches!(lexer.next(), Some(Ok(_))));
    assert!(matches!(lexer.next(), Some(Err(_))));
    assert!(lexer.next().is_none());
}
