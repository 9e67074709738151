use ringo::ast::{BinaryOp, Expression, Statement};
use ringo::lexer::Lexer;
use ringo::parser::{ParseError, Parser};

fn parse(source: &str) -> Result<Vec<Statement>, ParseError> {
    let lexer = Lexer::new(source.to_string());
    let mut parser = Parser::new(lexer);
    parser.parse()
}

fn number(expression: &Expression) -> &str {
    match expression {
        Expression::Number(literal) => literal,
        Expression::Binary(..) => panic!("a number was expected"),
    }
}

#[test]
fn empty_input_parses_to_empty_program() {
    let program = parse("").expect("the empty program parses");
    assert_eq!(program.len(), 0);
}

#[test]
fn whitespace_only_input_parses_to_empty_program() {
    let program = parse("  \t\n  ").expect("a blank program parses");
    assert_eq!(program.len(), 0);
}

#[test]
fn multiplication_binds_tighter_than_addition() {
    let program = parse("let x = 1 + 2 * 3").unwrap();
    assert_eq!(program.len(), 1);
    let Statement::Let { name, initial } = &program[0];
    assert_eq!(name, "x");
    match initial {
        Expression::Binary(left, BinaryOp::Plus, right) => {
            assert_eq!(number(left), "1");
            match right.as_ref() {
                Expression::Binary(inner_left, BinaryOp::Multiply, inner_right) => {
                    assert_eq!(number(inner_left), "2");
                    assert_eq!(number(inner_right), "3");
                },
                other => panic!("expected 2 * 3 on the right, got {:?}", other),
            }
        },
        other => panic!("expected an addition at the top, got {:?}", other),
    }
}

#[test]
fn subtraction_associates_to_the_left() {
    let program = parse("let x = 1 - 2 - 3").unwrap();
    assert_eq!(program.len(), 1);
    let Statement::Let { name: _, initial } = &program[0];
    match initial {
        Expression::Binary(left, BinaryOp::Minus, right) => {
            assert_eq!(number(right), "3");
            match left.as_ref() {
                Expression::Binary(inner_left, BinaryOp::Minus, inner_right) => {
                    assert_eq!(number(inner_left), "1");
                    assert_eq!(number(inner_right), "2");
                },
                other => panic!("expected (1 - 2) on the left, got {:?}", other),
            }
        },
        other => panic!("expected a subtraction at the top, got {:?}", other),
    }
}

#[test]
fn division_associates_to_the_left() {
    let program = parse("let q = 8 / 2 / 2").unwrap();
    let Statement::Let { name, initial } = &program[0];
    assert_eq!(name, "q");
    match initial {
        Expression::Binary(left, BinaryOp::Divide, right) => {
            assert_eq!(number(right), "2");
            assert!(matches!(left.as_ref(), Expression::Binary(_, BinaryOp::Divide, _)));
        },
        other => panic!("expected a division at the top, got {:?}", other),
    }
}

#[test]
fn higher_precedence_on_the_left_nests_first() {
    let program = parse("let x = 2 * 3 + 4").unwrap();
    let Statement::Let { name: _, initial } = &program[0];
    match initial {
        Expression::Binary(left, BinaryOp::Plus, right) => {
            assert_eq!(number(right), "4");
            match left.as_ref() {
                Expression::Binary(inner_left, BinaryOp::Multiply, inner_right) => {
                    assert_eq!(number(inner_left), "2");
                    assert_eq!(number(inner_right), "3");
                },
                other => panic!("expected 2 * 3 on the left, got {:?}", other),
            }
        },
        other => panic!("expected an addition at the top, got {:?}", other),
    }
}

#[test]
fn two_statements_keep_their_order() {
    let program = parse("let a = 1 let b = 2 + 3").unwrap();
    assert_eq!(program.len(), 2);
    let Statement::Let { name, initial } = &program[0];
    assert_eq!(name, "a");
    assert_eq!(number(initial), "1");
    let Statement::Let { name, initial: _ } = &program[1];
    assert_eq!(name, "b");
}

#[test]
fn unicode_name_and_whitespace_parse_as_in_ascii() {
    // a no-break space separates the tokens; the name holds an accented letter
    let program = parse("let\u{a0}caf\u{e9} = 1").unwrap();
    assert_eq!(program.len(), 1);
    let Statement::Let { name, initial } = &program[0];
    assert_eq!(name, "caf\u{e9}");
    assert_eq!(number(initial), "1");
}

#[test]
fn decimal_literal_survives_into_the_tree() {
    let program = parse("let pi = 3.25").unwrap();
    let Statement::Let { name, initial } = &program[0];
    assert_eq!(name, "pi");
    assert_eq!(number(initial), "3.25");
}

#[test]
fn missing_assignment_is_a_structural_failure() {
    assert_eq!(parse("let x 5").unwrap_err(), ParseError::ExpectedAssignment);
}

#[test]
fn missing_identifier_is_a_structural_failure() {
    assert_eq!(parse("let = 5").unwrap_err(), ParseError::ExpectedIdentifier);
    assert_eq!(parse("let").unwrap_err(), ParseError::ExpectedIdentifier);
}

#[test]
fn missing_expression_is_a_structural_failure() {
    assert_eq!(parse("let x =").unwrap_err(), ParseError::ExpectedExpression);
    assert_eq!(parse("let x = let").unwrap_err(), ParseError::ExpectedExpression);
    assert_eq!(parse("let x = 1 +").unwrap_err(), ParseError::ExpectedExpression);
}

#[test]
fn leading_token_other_than_let_is_unsupported() {
    assert_eq!(parse("5").unwrap_err(), ParseError::UnsupportedStatement);
    assert_eq!(parse("x = 1").unwrap_err(), ParseError::UnsupportedStatement);
}

#[test]
fn lexical_error_surfaces_through_parse() {
    assert_eq!(
        parse("let x = 1 $").unwrap_err(),
        ParseError::InvalidCharacter { position: 10, character: '$' }
    );
    assert_eq!(
        parse("let x = %").unwrap_err(),
        ParseError::InvalidCharacter { position: 8, character: '%' }
    );
}
