use ringo::syntax::{Diagnostic, ExpressionSyntax, Lexer, Parser, SyntaxKind, SyntaxToken};

#[test]
fn kinds_have_printable_names() {
    assert_eq!(SyntaxKind::PlusToken.name(), "PlusToken");
    assert_eq!(SyntaxKind::BadToken.name(), "BadToken");
    assert_eq!(SyntaxKind::EOFToken.name(), "EOFToken");
}

#[test]
fn token_new_keeps_all_fields() {
    let token = SyntaxToken::new(SyntaxKind::NumberToken, 4, "12".to_string(), Some(12));
    assert_eq!(token.kind, SyntaxKind::NumberToken);
    assert_eq!(token.position, 4);
    assert_eq!(token.text, "12");
    assert_eq!(token.value, Some(12));
}

#[test]
fn lexer_produces_numbers_whitespace_and_operators() {
    let mut lexer = Lexer::new("1 + 20");
    let t = lexer.next_token().unwrap();
    assert_eq!(t.kind, SyntaxKind::NumberToken);
    assert_eq!(t.position, 0);
    assert_eq!(t.text, "1");
    assert_eq!(t.value, Some(1));

    let t = lexer.next_token().unwrap();
    assert_eq!(t.kind, SyntaxKind::WhiteSpaceToken);
    assert_eq!(t.text, " ");

    let t = lexer.next_token().unwrap();
    assert_eq!(t.kind, SyntaxKind::PlusToken);
    assert_eq!(t.position, 2);
    assert_eq!(t.text, "+");

    let t = lexer.next_token().unwrap();
    assert_eq!(t.kind, SyntaxKind::WhiteSpaceToken);

    let t = lexer.next_token().unwrap();
    assert_eq!(t.kind, SyntaxKind::NumberToken);
    assert_eq!(t.position, 4);
    assert_eq!(t.text, "20");
    assert_eq!(t.value, Some(20));

    let t = lexer.next_token().unwrap();
    assert_eq!(t.kind, SyntaxKind::EOFToken);
    assert_eq!(t.text, "\0");
    // the end-of-input token repeats
    let t = lexer.next_token().unwrap();
    assert_eq!(t.kind, SyntaxKind::EOFToken);
    assert!(lexer.diagnostics().is_empty());
}

#[test]
fn unicode_whitespace_is_one_whitespace_token() {
    let mut lexer = Lexer::new("1\u{a0}\u{2003}2");
    assert_eq!(lexer.next_token().unwrap().text, "1");
    let t = lexer.next_token().unwrap();
    assert_eq!(t.kind, SyntaxKind::WhiteSpaceToken);
    assert_eq!(t.text, "\u{a0}\u{2003}");
    assert_eq!(lexer.next_token().unwrap().text, "2");
    assert_eq!(lexer.next_token().unwrap().kind, SyntaxKind::EOFToken);
    assert!(lexer.diagnostics().is_empty());
}

#[test]
fn lexer_strips_line_feeds_before_scanning() {
    let mut lexer = Lexer::new("1\n2");
    let t = lexer.next_token().unwrap();
    assert_eq!(t.kind, SyntaxKind::NumberToken);
    assert_eq!(t.text, "12");
    assert_eq!(t.value, Some(12));
    assert_eq!(lexer.next_token().unwrap().kind, SyntaxKind::EOFToken);
}

#[test]
fn bad_character_yields_bad_token_and_diagnostic() {
    let mut lexer = Lexer::new("@");
    let t = lexer.next_token().unwrap();
    assert_eq!(t.kind, SyntaxKind::BadToken);
    assert_eq!(t.text, "@");
    assert_eq!(t.value, None);
    assert_eq!(
        lexer.diagnostics().as_slice(),
        &[Diagnostic::BadCharacter { position: 0, character: '@' }]
    );
    assert_eq!(lexer.next_token().unwrap().kind, SyntaxKind::EOFToken);
}

#[test]
fn number_beyond_int32_yields_bad_token_and_diagnostic() {
    let mut lexer = Lexer::new("2147483648");
    let t = lexer.next_token().unwrap();
    assert_eq!(t.kind, SyntaxKind::BadToken);
    assert_eq!(t.text, "2147483648");
    assert_eq!(t.value, None);
    assert_eq!(
        lexer.diagnostics().as_slice(),
        &[Diagnostic::NumberTooLarge { position: 0, text: "2147483648".to_string() }]
    );
}

#[test]
fn largest_int32_still_fits() {
    let mut lexer = Lexer::new("2147483647");
    let t = lexer.next_token().unwrap();
    assert_eq!(t.kind, SyntaxKind::NumberToken);
    assert_eq!(t.value, Some(2147483647));
    assert!(lexer.diagnostics().is_empty());
}

#[test]
fn parser_skips_whitespace_and_bad_tokens() {
    let mut parser = Parser::new("1 @ + 2");
    assert_eq!(parser.current().kind, SyntaxKind::NumberToken);
    assert_eq!(parser.next_token().text, "1");
    assert_eq!(parser.next_token().kind, SyntaxKind::PlusToken);
    assert_eq!(parser.next_token().text, "2");
    // past the end the end-of-input token repeats
    assert_eq!(parser.next_token().kind, SyntaxKind::EOFToken);
    assert_eq!(parser.current().kind, SyntaxKind::EOFToken);
}

#[test]
fn match_consumes_only_the_wanted_kind() {
    let mut parser = Parser::new("42");
    let fabricated = parser.match_(SyntaxKind::EqualsToken);
    assert_eq!(fabricated.kind, SyntaxKind::EqualsToken);
    assert_eq!(fabricated.text, "");
    assert_eq!(fabricated.value, None);
    // nothing was consumed
    let number = parser.match_(SyntaxKind::NumberToken);
    assert_eq!(number.kind, SyntaxKind::NumberToken);
    assert_eq!(number.text, "42");
    assert_eq!(number.value, Some(42));
    assert_eq!(parser.current().kind, SyntaxKind::EOFToken);
}

#[test]
fn parse_folds_plus_and_minus_chains() {
    let mut parser = Parser::new("1 + 2 - 3");
    let tree = parser.parse();
    match tree {
        ExpressionSyntax::BinaryExpression(_) => {},
        other => panic!("expected a binary tree, got {:?}", other),
    }
    // the whole expression was consumed
    assert_eq!(parser.current().kind, SyntaxKind::EOFToken);
}

#[test]
fn parse_of_one_number_is_numeric() {
    let mut parser = Parser::new("7");
    let tree = parser.parse();
    match tree {
        ExpressionSyntax::NumericExpression(_) => {},
        other => panic!("expected a numeric leaf, got {:?}", other),
    }
    assert_eq!(parser.current().kind, SyntaxKind::EOFToken);
}

#[test]
fn parse_with_missing_operand_still_returns_a_tree() {
    let mut parser = Parser::new("1 +");
    let tree = parser.parse();
    // the missing right operand is a fabricated empty number token
    match tree {
        ExpressionSyntax::BinaryExpression(_) => {},
        other => panic!("expected a binary tree, got {:?}", other),
    }
}
