use lightdown::ir::{LexErrorKind, Lexer, TokenKind};

fn lex_error(input: &str) -> LexErrorKind {
    Lexer::new(input).collect_tokens().expect_err("input is rejected").kind
}

#[test]
fn decodes_unicode_escapes_and_surrogate_pairs() {
    let tokens = Lexer::new("\"\\u0041\\u00e9\\uD83D\\uDE00\\n\"").collect_tokens().expect("lexes");
    assert_eq!(tokens.len(), 1);
    assert_eq!(tokens[0].kind, TokenKind::string("A\u{e9}\u{1F600}\n"));
}

#[test]
fn rejects_unknown_escapes() {
    assert_eq!(lex_error("\"\\q\""), LexErrorKind::InvalidEscapeSequence("\\q".to_string()));
    assert_eq!(lex_error("\"\\"), LexErrorKind::InvalidEscapeSequence("\\".to_string()));
}

#[test]
fn rejects_unpaired_surrogates() {
    assert_eq!(
        lex_error("\"\\uDC00\""),
        LexErrorKind::InvalidEscapeSequence("\\uDC00".to_string())
    );
    assert_eq!(
        lex_error("\"\\uD800x\""),
        LexErrorKind::InvalidEscapeSequence("\\uD800".to_string())
    );
    assert_eq!(
        lex_error("\"\\uD800\\u0041\""),
        LexErrorKind::InvalidEscapeSequence("\\uD800\\u0041".to_string())
    );
}

#[test]
fn rejects_unterminated_strings() {
    assert_eq!(lex_error("\"abc"), LexErrorKind::UnterminatedString);
    assert_eq!(lex_error("\"ab\ncd\""), LexErrorKind::UnterminatedString);
    assert_eq!(lex_error("\"\"\"abc"), LexErrorKind::UnterminatedMultilineString);
}

#[test]
fn rejects_stray_colons_and_characters() {
    assert_eq!(lex_error(": x"), LexErrorKind::UnexpectedColon);
    assert_eq!(lex_error("(a :"), LexErrorKind::UnexpectedColon);
    assert_eq!(lex_error("(a @)"), LexErrorKind::UnexpectedCharacter('@'));
}

#[test]
fn keywords_and_namespaced_symbols() {
    let tokens = Lexer::new("(ld::table::from-data :lang)").collect_tokens().expect("lexes");
    assert_eq!(tokens.len(), 4);
    assert_eq!(tokens[1].kind, TokenKind::symbol("ld::table::from-data"));
    assert_eq!(tokens[2].kind, TokenKind::keyword("lang"));
}
