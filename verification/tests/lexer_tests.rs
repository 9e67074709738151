use ringo::lexer::{LexError, Lexer};
use ringo::token::TokenKind;

fn next_some(lexer: &mut Lexer) -> ringo::token::Token {
    lexer
        .next_token()
        .expect("no lexical error expected")
        .expect("a token expected")
}

#[test]
fn whitespace_only_input_yields_end_of_input() {
    let mut lexer = Lexer::new("   \t\r\n \u{b}\u{c}  ".to_string());
    assert!(matches!(lexer.next_token(), Ok(None)));
    // the end-of-input condition is terminal and repeatable
    assert!(matches!(lexer.next_token(), Ok(None)));
    assert!(matches!(lexer.peek(), Ok(None)));
}

#[test]
fn unicode_whitespace_only_input_yields_end_of_input() {
    // no-break space, en space, narrow no-break space, ideographic space
    let mut lexer = Lexer::new("\u{a0}\u{2002}\u{202f}\u{3000}".to_string());
    assert!(matches!(lexer.next_token(), Ok(None)));
    assert!(matches!(lexer.peek(), Ok(None)));
}

#[test]
fn identifiers_may_hold_any_alphabetic_character() {
    let mut lexer = Lexer::new("caf\u{e9}".to_string());
    let token = next_some(&mut lexer);
    assert_eq!(token.kind, TokenKind::Identifier);
    assert_eq!(token.literal, "caf\u{e9}");
    assert!(matches!(lexer.next_token(), Ok(None)));
}

#[test]
fn empty_input_yields_end_of_input() {
    let mut lexer = Lexer::new(String::new());
    assert!(matches!(lexer.next_token(), Ok(None)));
    assert!(matches!(lexer.next_token(), Ok(None)));
}

#[test]
fn peek_is_idempotent_and_agrees_with_next() {
    let mut lexer = Lexer::new("let x = 5".to_string());
    let first_peek = lexer.peek().unwrap().unwrap();
    let second_peek = lexer.peek().unwrap().unwrap();
    assert_eq!(first_peek.kind, second_peek.kind);
    assert_eq!(first_peek.literal, second_peek.literal);
    let consumed = lexer.next_token().unwrap().unwrap();
    assert_eq!(consumed.kind, first_peek.kind);
    assert_eq!(consumed.literal, first_peek.literal);
    assert_eq!(consumed.kind, TokenKind::Let);
    // and again at the next position
    let peeked = lexer.peek().unwrap().unwrap();
    let consumed = lexer.next_token().unwrap().unwrap();
    assert_eq!(consumed.kind, peeked.kind);
    assert_eq!(consumed.literal, peeked.literal);
    assert_eq!(consumed.kind, TokenKind::Identifier);
    assert_eq!(consumed.literal, "x");
}

#[test]
fn number_with_separators_and_decimal_point_is_one_token() {
    let mut lexer = Lexer::new("1_000_000.25".to_string());
    let token = next_some(&mut lexer);
    assert_eq!(token.kind, TokenKind::Number);
    assert_eq!(token.literal, "1000000.25");
    assert!(matches!(lexer.next_token(), Ok(None)));
}

#[test]
fn keyword_let_and_longer_identifier() {
    let mut lexer = Lexer::new("let".to_string());
    let token = next_some(&mut lexer);
    assert_eq!(token.kind, TokenKind::Let);
    assert_eq!(token.literal, "let");

    let mut lexer = Lexer::new("letx".to_string());
    let token = next_some(&mut lexer);
    assert_eq!(token.kind, TokenKind::Identifier);
    assert_eq!(token.literal, "letx");
}

#[test]
fn operators_lex_one_character_each() {
    let mut lexer = Lexer::new("= + - * /".to_string());
    let kinds = [
        TokenKind::Assign,
        TokenKind::Plus,
        TokenKind::Minus,
        TokenKind::Multiply,
        TokenKind::Divide,
    ];
    for kind in kinds {
        let token = next_some(&mut lexer);
        assert_eq!(token.kind, kind);
    }
    assert!(matches!(lexer.next_token(), Ok(None)));
}

#[test]
fn statement_without_spaces_lexes() {
    let mut lexer = Lexer::new("x=1".to_string());
    assert_eq!(next_some(&mut lexer).kind, TokenKind::Identifier);
    assert_eq!(next_some(&mut lexer).kind, TokenKind::Assign);
    assert_eq!(next_some(&mut lexer).kind, TokenKind::Number);
    assert!(matches!(lexer.next_token(), Ok(None)));
}

#[test]
fn second_decimal_point_ends_the_number() {
    let mut lexer = Lexer::new("1.2.3".to_string());
    let token = next_some(&mut lexer);
    assert_eq!(token.kind, TokenKind::Number);
    assert_eq!(token.literal, "1.2");
    // the second point begins no token
    assert_eq!(
        lexer.next_token(),
        Err(LexError { position: 3, character: '.' })
    );
}

#[test]
fn invalid_character_is_reported_with_its_position() {
    let mut lexer = Lexer::new("ab $".to_string());
    assert_eq!(next_some(&mut lexer).literal, "ab");
    assert_eq!(
        lexer.next_token(),
        Err(LexError { position: 3, character: '$' })
    );
    // peek reports the same error without moving
    assert_eq!(lexer.peek(), Err(LexError { position: 3, character: '$' }));
}

#[test]
fn token_new_keeps_kind_and_literal() {
    let token = ringo::token::Token::new(TokenKind::Number, "7".to_string());
    assert_eq!(token.kind, TokenKind::Number);
    assert_eq!(token.literal, "7");
}
