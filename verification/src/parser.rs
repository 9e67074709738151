//! The parser: consumes the tokenizer's sequence and builds a program, an
//! ordered list of `let` statements, or fails with a typed error.
//!
//! Expressions are parsed by precedence climbing: after a primary
//! expression (a numeric literal), operators are folded in while their
//! left binding power is at least the current threshold, and each
//! right-hand side is parsed with the operator's right binding power as
//! the new threshold. `*` and `/` bind with (8, 9), `+` and `-` with
//! (6, 7); giving the right side the higher number is what makes a chain
//! of equal operators associate to the left.
//!
//! The spec functions [`program_after`], [`expression_after`] and
//! [`infix_after`] describe the whole parse over the scanning model of
//! `crate::lexer`, and `Parser::parse` is proved to return exactly what
//! they prescribe.

use vstd::prelude::*;

use crate::ast::{BinaryOp, Expression, ExpressionModel, Program, Statement, StatementModel};
use crate::lexer::{cursor_after, lex_step, Lexer, LexStep};
use crate::token::TokenKind;

verus! {

/// A parse failure. `InvalidCharacter` reports a lexical error with the
/// offending character and its position; the structural errors name the
/// token that was required and missing or mismatched. Tokens carry no
/// position, so the structural errors carry none either.
#[derive(Debug, Clone, Copy, PartialEq, Eq, Structural)]
pub enum ParseError {
    InvalidCharacter { position: usize, character: char },
    ExpectedIdentifier,
    ExpectedAssignment,
    ExpectedExpression,
    UnsupportedStatement,
}

/// The binding powers (left, right) of an infix operator token; `None` for
/// a token that is no infix operator. Smaller numbers bind looser.
pub open spec fn infix_power(kind: TokenKind) -> Option<(u8, u8)> {
    match kind {
        TokenKind::Multiply | TokenKind::Divide => Some((8u8, 9u8)),
        TokenKind::Plus | TokenKind::Minus => Some((6u8, 7u8)),
        _ => None,
    }
}

/// The AST operator of an infix operator token.
pub open spec fn operator_of(kind: TokenKind) -> BinaryOp {
    match kind {
        TokenKind::Plus => BinaryOp::Plus,
        TokenKind::Minus => BinaryOp::Minus,
        TokenKind::Divide => BinaryOp::Divide,
        _ => BinaryOp::Multiply,
    }
}

/// The parse error that reports a lexical error at position `j`.
pub open spec fn lex_error_of(j: int, c: char) -> ParseError {
    ParseError::InvalidCharacter { position: j as usize, character: c }
}

/// The cursor after the token at `i`, bounded into the buffer. Whenever a
/// token is produced at `i`, this equals [`cursor_after`]; the bound only
/// keeps the recursion below well founded.
pub open spec fn next_cursor(s: Seq<char>, i: int) -> int {
    let k = cursor_after(s, i);
    if i < k && k <= s.len() {
        k
    } else if i + 1 <= s.len() {
        i + 1
    } else {
        s.len() as int
    }
}

/// The result of parsing one expression at position `i` with threshold
/// `min_power`: the expression and the cursor after it, or the error.
pub open spec fn expression_after(s: Seq<char>, i: int, min_power: u8) -> Result<
    (ExpressionModel, int),
    ParseError,
>
    decreases s.len() - i, 1int
    when 0 <= i <= s.len()
{
    if i == s.len() {
        Err(ParseError::ExpectedExpression)
    } else {
        match lex_step(s, i) {
            LexStep::EndOfInput => Err(ParseError::ExpectedExpression),
            LexStep::Invalid(j, c) => Err(lex_error_of(j, c)),
            LexStep::Lexed(lexeme, _) => {
                if lexeme.kind is Number {
                    infix_after(s, next_cursor(s, i), ExpressionModel::Number(lexeme.text), min_power)
                } else {
                    Err(ParseError::ExpectedExpression)
                }
            },
        }
    }
}

/// The result of folding infix operators onto `left` from position `i`
/// while their left binding power reaches `min_power`.
pub open spec fn infix_after(s: Seq<char>, i: int, left: ExpressionModel, min_power: u8) -> Result<
    (ExpressionModel, int),
    ParseError,
>
    decreases s.len() - i, 0int
    when 0 <= i <= s.len()
{
    if i == s.len() {
        Ok((left, i))
    } else {
        match lex_step(s, i) {
            LexStep::EndOfInput => Ok((left, i)),
            LexStep::Invalid(j, c) => Err(lex_error_of(j, c)),
            LexStep::Lexed(op_lexeme, _) => {
                match infix_power(op_lexeme.kind) {
                    None => Ok((left, i)),
                    Some((left_power, right_power)) => {
                        if left_power < min_power {
                            Ok((left, i))
                        } else {
                            let after_op = next_cursor(s, i);
                            match expression_after(s, after_op, right_power) {
                                Err(e) => Err(e),
                                Ok((right, m)) => {
                                    let m2 = if after_op < m && m <= s.len() {
                                        m
                                    } else if after_op + 1 <= s.len() {
                                        after_op + 1
                                    } else {
                                        s.len() as int
                                    };
                                    infix_after(
                                        s,
                                        m2,
                                        ExpressionModel::Binary(
                                            Box::new(left),
                                            operator_of(op_lexeme.kind),
                                            Box::new(right),
                                        ),
                                        min_power,
                                    )
                                },
                            }
                        }
                    },
                }
            },
        }
    }
}

/// The result of parsing the whole statement list from position `i`.
pub open spec fn program_after(s: Seq<char>, i: int) -> Result<Seq<StatementModel>, ParseError>
    decreases s.len() - i, 2int
    when 0 <= i <= s.len()
{
    if i == s.len() {
        Ok(Seq::empty())
    } else {
        match lex_step(s, i) {
            LexStep::EndOfInput => Ok(Seq::empty()),
            LexStep::Invalid(j, c) => Err(lex_error_of(j, c)),
            LexStep::Lexed(first, _) => {
                if first.kind is Let {
                    let i1 = next_cursor(s, i);
                    match lex_step(s, i1) {
                        LexStep::EndOfInput => Err(ParseError::ExpectedIdentifier),
                        LexStep::Invalid(j, c) => Err(lex_error_of(j, c)),
                        LexStep::Lexed(name_lexeme, _) => {
                            if name_lexeme.kind is Identifier {
                                let i2 = next_cursor(s, i1);
                                match lex_step(s, i2) {
                                    LexStep::EndOfInput => Err(ParseError::ExpectedAssignment),
                                    LexStep::Invalid(j, c) => Err(lex_error_of(j, c)),
                                    LexStep::Lexed(assign_lexeme, _) => {
                                        if assign_lexeme.kind is Assign {
                                            let i3 = next_cursor(s, i2);
                                            match expression_after(s, i3, 0) {
                                                Err(e) => Err(e),
                                                Ok((initial, m)) => {
                                                    let m2 = if i < m && m <= s.len() {
                                                        m
                                                    } else if i + 1 <= s.len() {
                                                        i + 1
                                                    } else {
                                                        s.len() as int
                                                    };
                                                    match program_after(s, m2) {
                                                        Err(e) => Err(e),
                                                        Ok(rest) => Ok(
                                                            seq![
                                                                StatementModel::Let {
                                                                    name: name_lexeme.text,
                                                                    initial,
                                                                },
                                                            ] + rest,
                                                        ),
                                                    }
                                                },
                                            }
                                        } else {
                                            Err(ParseError::ExpectedAssignment)
                                        }
                                    },
                                }
                            } else {
                                Err(ParseError::ExpectedIdentifier)
                            }
                        },
                    }
                } else {
                    Err(ParseError::UnsupportedStatement)
                }
            },
        }
    }
}

/// Input that consists of whitespace alone (the empty input included)
/// parses to the empty statement sequence, without error.
pub proof fn lemma_whitespace_only_program(s: Seq<char>, i: int)
    requires
        0 <= i <= s.len(),
        forall|k: int| 0 <= k < s.len() ==> crate::chars::is_whitespace_char(s[k]),
    ensures
        program_after(s, i) == Ok::<Seq<StatementModel>, ParseError>(Seq::empty()),
{
    crate::lexer::lemma_whitespace_only_input(s, i);
}

/// The spec-level values of a statement list.
pub open spec fn models_of(statements: Seq<Statement>) -> Seq<StatementModel> {
    statements.map_values(|st: Statement| st.model())
}

/// Whether `r` and the final cursor `end` are the outcome that
/// [`expression_after`] prescribes.
pub open spec fn expression_result_matches(
    s: Seq<char>,
    i: int,
    min_power: u8,
    r: Result<Expression, ParseError>,
    end: int,
) -> bool {
    match expression_after(s, i, min_power) {
        Ok((model, m)) => (r matches Ok(e) && e.model() == model && end == m),
        Err(e) => (r matches Err(e2) && e2 == e),
    }
}

/// The parser: holds the tokenizer it consumes.
pub struct Parser {
    lexer: Lexer,
}

impl Parser {
    /// The full input text.
    pub closed spec fn text(self) -> Seq<char> {
        self.lexer.text()
    }

    /// The tokenizer's cursor.
    pub closed spec fn cursor(self) -> int {
        self.lexer.cursor()
    }

    pub closed spec fn wf(self) -> bool {
        self.lexer.wf()
    }

    pub fn new(lexer: Lexer) -> (parser: Parser)
        ensures
            parser.wf() == lexer.wf(),
            parser.text() == lexer.text(),
            parser.cursor() == lexer.cursor(),
    {
        Parser { lexer }
    }

    /// Parses the whole program: a sequence of `let` statements, each an
    /// identifier bound to an expression, ending at the end of the input.
    /// Returns exactly what [`program_after`] prescribes for the input.
    pub fn parse(&mut self) -> (r: Result<Program, ParseError>)
        requires
            old(self).wf(),
        ensures
            final(self).wf(),
            final(self).text() == old(self).text(),
            (match program_after(old(self).text(), old(self).cursor()) {
                Ok(models) => r matches Ok(p) && models_of(p@) == models,
                Err(e) => r matches Err(e2) && e2 == e,
            }),
    {
        let ghost s = self.text();
        let ghost c0 = self.cursor();
        let mut statements: Vec<Statement> = Vec::new();
        loop
            invariant
                self.wf(),
                s == old(self).text(),
                c0 == old(self).cursor(),
                self.text() == s,
                0 <= c0 <= s.len(),
                program_after(s, c0) == (match program_after(s, self.cursor()) {
                    Ok(rest) => Ok::<Seq<StatementModel>, ParseError>(
                        models_of(statements@) + rest,
                    ),
                    Err(e) => Err::<Seq<StatementModel>, ParseError>(e),
                }),
            decreases s.len() - self.cursor(),
        {
            let ghost c_iter = self.cursor();
            proof {
                crate::lexer::lemma_step_progress(s, c_iter);
            }
            let first = match self.lexer.next_token() {
                Err(e) => {
                    return Err(ParseError::InvalidCharacter {
                        position: e.position,
                        character: e.character,
                    });
                },
                Ok(None) => {
                    proof {
                        assert(models_of(statements@) + Seq::<StatementModel>::empty()
                            =~= models_of(statements@));
                    }
                    return Ok(statements);
                },
                Ok(Some(t)) => t,
            };
            match first.kind {
                TokenKind::Let => {
                    let ghost c1 = self.cursor();
                    proof {
                        crate::lexer::lemma_step_progress(s, c1);
                    }
                    let identifier = match self.lexer.next_token() {
                        Err(e) => {
                            return Err(ParseError::InvalidCharacter {
                                position: e.position,
                                character: e.character,
                            });
                        },
                        Ok(None) => {
                            return Err(ParseError::ExpectedIdentifier);
                        },
                        Ok(Some(t)) => {
                            if !matches!(t.kind, TokenKind::Identifier) {
                                return Err(ParseError::ExpectedIdentifier);
                            }
                            t
                        },
                    };
                    let ghost c2 = self.cursor();
                    proof {
                        crate::lexer::lemma_step_progress(s, c2);
                    }
                    match self.lexer.peek() {
                        Err(e) => {
                            return Err(ParseError::InvalidCharacter {
                                position: e.position,
                                character: e.character,
                            });
                        },
                        Ok(None) => {
                            return Err(ParseError::ExpectedAssignment);
                        },
                        Ok(Some(t)) => {
                            if !matches!(t.kind, TokenKind::Assign) {
                                return Err(ParseError::ExpectedAssignment);
                            }
                        },
                    }
                    let _assign = self.lexer.next_token();
                    let initial = match self.parse_expression(0) {
                        Err(e) => {
                            return Err(e);
                        },
                        Ok(e) => e,
                    };
                    let ghost m = self.cursor();
                    let ghost name_text = identifier.literal@;
                    let st = Statement::Let { name: identifier.literal, initial };
                    proof {
                        assert(models_of(statements@.push(st)) =~= models_of(statements@)
                            + seq![st.model()]);
                        assert(st.model() matches StatementModel::Let { name, initial: _ }
                            && name == name_text);
                        match program_after(s, m) {
                            Ok(rest) => {
                                assert(models_of(statements@) + (seq![st.model()] + rest)
                                    =~= (models_of(statements@) + seq![st.model()]) + rest);
                            },
                            Err(_) => {},
                        }
                    }
                    statements.push(st);
                },
                _ => {
                    return Err(ParseError::UnsupportedStatement);
                },
            }
        }
    }

    /// Parses one expression with threshold `min_power`, consuming exactly
    /// the tokens that [`expression_after`] consumes.
    fn parse_expression(&mut self, min_power: u8) -> (r: Result<Expression, ParseError>)
        requires
            old(self).wf(),
        ensures
            final(self).wf(),
            final(self).text() == old(self).text(),
            expression_result_matches(
                old(self).text(),
                old(self).cursor(),
                min_power,
                r,
                final(self).cursor(),
            ),
            r is Ok ==> old(self).cursor() < final(self).cursor(),
        decreases self.text().len() - self.cursor(),
    {
        let ghost s = self.text();
        let ghost c0 = self.cursor();
        proof {
            crate::lexer::lemma_step_progress(s, c0);
        }
        let first = match self.lexer.next_token() {
            Err(e) => {
                return Err(ParseError::InvalidCharacter {
                    position: e.position,
                    character: e.character,
                });
            },
            Ok(None) => {
                return Err(ParseError::ExpectedExpression);
            },
            Ok(Some(t)) => t,
        };
        let mut lhs = match first.kind {
            TokenKind::Number => Expression::Number(first.literal),
            _ => {
                return Err(ParseError::ExpectedExpression);
            },
        };
        loop
            invariant
                self.wf(),
                s == old(self).text(),
                c0 == old(self).cursor(),
                self.text() == s,
                0 <= c0 < self.cursor() <= s.len(),
                expression_after(s, c0, min_power) == infix_after(
                    s,
                    self.cursor(),
                    lhs.model(),
                    min_power,
                ),
            ensures
                self.wf(),
                self.text() == s,
                c0 < self.cursor() <= s.len(),
                expression_after(s, c0, min_power) == Ok::<(ExpressionModel, int), ParseError>(
                    (lhs.model(), self.cursor()),
                ),
            decreases s.len() - self.cursor(),
        {
            let ghost c_loop = self.cursor();
            proof {
                crate::lexer::lemma_step_progress(s, c_loop);
            }
            let infix = match self.lexer.peek() {
                Err(e) => {
                    return Err(ParseError::InvalidCharacter {
                        position: e.position,
                        character: e.character,
                    });
                },
                Ok(None) => {
                    break;
                },
                Ok(Some(t)) => t,
            };
            match infix_binding_power(infix.kind) {
                None => {
                    break;
                },
                Some((left_power, right_power)) => {
                    if left_power < min_power {
                        break;
                    }
                    let _operator = match self.lexer.next_token() {
                        Ok(Some(t)) => t,
                        _ => {
                            return Err(ParseError::ExpectedExpression);
                        },
                    };
                    let rhs = match self.parse_expression(right_power) {
                        Err(e) => {
                            return Err(e);
                        },
                        Ok(e) => e,
                    };
                    lhs = make_infix_expression(lhs, infix.kind, rhs);
                },
            }
        }
        Ok(lhs)
    }
}

/// Wraps two expressions into the binary node for an infix operator token.
fn make_infix_expression(lhs: Expression, operator: TokenKind, rhs: Expression) -> (r: Expression)
    requires
        infix_power(operator) is Some,
    ensures
        r.model() == ExpressionModel::Binary(
            Box::new(lhs.model()),
            operator_of(operator),
            Box::new(rhs.model()),
        ),
{
    let lhs = Box::new(lhs);
    let rhs = Box::new(rhs);
    match operator {
        TokenKind::Plus => Expression::Binary(lhs, BinaryOp::Plus, rhs),
        TokenKind::Multiply => Expression::Binary(lhs, BinaryOp::Multiply, rhs),
        TokenKind::Minus => Expression::Binary(lhs, BinaryOp::Minus, rhs),
        _ => Expression::Binary(lhs, BinaryOp::Divide, rhs),
    }
}

/// The binding powers of an infix operator token, as [`infix_power`] gives
/// them.
fn infix_binding_power(kind: TokenKind) -> (r: Option<(u8, u8)>)
    ensures
        r == infix_power(kind),
{
    match kind {
        TokenKind::Multiply | TokenKind::Divide => Some((8, 9)),
        TokenKind::Plus | TokenKind::Minus => Some((6, 7)),
        _ => None,
    }
}

} // verus!
