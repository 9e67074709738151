//! The tokenizer: a forward-only scanner over a character buffer, with
//! one-token lookahead that leaves the cursor untouched.
//!
//! The whole behaviour of one scanning step is captured by the spec
//! function [`lex_step`]: after skipping whitespace it either reports the
//! end of the input, produces one token (a single-character operator, an
//! identifier or keyword, or a numeric literal), or reports the offending
//! character as a lexical error. `Lexer::next_token` and `Lexer::peek` are
//! proved against that model, so peeking and consuming stay in lockstep.

use vstd::prelude::*;

use crate::chars::{
    chars_of, is_alpha_char, is_digit, is_digit_char, is_whitespace_char, string_of_chars,
};
use crate::token::{Token, TokenKind};

verus! {

/// A lexical error: the character at `position` (a character offset into
/// the input) begins no token.
#[derive(Debug, Clone, Copy, PartialEq, Eq, Structural)]
pub struct LexError {
    pub position: usize,
    pub character: char,
}

/// A token as the scanning model describes it: a kind and the literal text.
pub struct Lexeme {
    pub kind: TokenKind,
    pub text: Seq<char>,
}

/// What one call to the tokenizer does: reach the end of the input, produce
/// a token and leave the cursor at the given position, or stop at an
/// invalid character.
pub enum LexStep {
    EndOfInput,
    Lexed(Lexeme, int),
    Invalid(int, char),
}

/// The position of the first non-whitespace character at or after `i`.
pub open spec fn whitespace_end(s: Seq<char>, i: int) -> int
    decreases s.len() - i
    when 0 <= i <= s.len()
{
    if i < s.len() && is_whitespace_char(s[i]) {
        whitespace_end(s, i + 1)
    } else {
        i
    }
}

/// The end of a run of letters starting at `i`.
pub open spec fn identifier_end(s: Seq<char>, i: int) -> int
    decreases s.len() - i
    when 0 <= i <= s.len()
{
    if i < s.len() && is_alpha_char(s[i]) {
        identifier_end(s, i + 1)
    } else {
        i
    }
}

/// The end of a numeric literal whose first digit has been read: the run
/// continues over digits, digit-group separators `_`, and at most one
/// decimal point.
pub open spec fn number_end(s: Seq<char>, i: int, seen_point: bool) -> int
    decreases s.len() - i
    when 0 <= i <= s.len()
{
    if i < s.len() {
        if is_digit_char(s[i]) || s[i] == '_' {
            number_end(s, i + 1, seen_point)
        } else if s[i] == '.' && !seen_point {
            number_end(s, i + 1, true)
        } else {
            i
        }
    } else {
        i
    }
}

/// The text of that run with the separators dropped: `1_000_000.25` yields
/// `1000000.25`.
pub open spec fn number_text(s: Seq<char>, i: int, seen_point: bool) -> Seq<char>
    decreases s.len() - i
    when 0 <= i <= s.len()
{
    if i < s.len() {
        if is_digit_char(s[i]) {
            seq![s[i]] + number_text(s, i + 1, seen_point)
        } else if s[i] == '_' {
            number_text(s, i + 1, seen_point)
        } else if s[i] == '.' && !seen_point {
            seq![s[i]] + number_text(s, i + 1, true)
        } else {
            Seq::empty()
        }
    } else {
        Seq::empty()
    }
}

/// The token kind of a single-character operator, if the character is one.
pub open spec fn operator_kind(c: char) -> Option<TokenKind> {
    if c == '=' {
        Some(TokenKind::Assign)
    } else if c == '+' {
        Some(TokenKind::Plus)
    } else if c == '-' {
        Some(TokenKind::Minus)
    } else if c == '*' {
        Some(TokenKind::Multiply)
    } else if c == '/' {
        Some(TokenKind::Divide)
    } else {
        None
    }
}

/// `let` is the one keyword; any other run of letters is an identifier.
pub open spec fn word_kind(text: Seq<char>) -> TokenKind {
    if text == "let"@ {
        TokenKind::Let
    } else {
        TokenKind::Identifier
    }
}

/// One step of the scanner at position `i` of `s`.
pub open spec fn lex_step(s: Seq<char>, i: int) -> LexStep {
    let j = whitespace_end(s, i);
    if j >= s.len() {
        LexStep::EndOfInput
    } else {
        match operator_kind(s[j]) {
            Some(kind) => LexStep::Lexed(Lexeme { kind, text: seq![s[j]] }, j + 1),
            None => {
                if is_alpha_char(s[j]) {
                    let k = identifier_end(s, j);
                    LexStep::Lexed(
                        Lexeme { kind: word_kind(s.subrange(j, k)), text: s.subrange(j, k) },
                        k,
                    )
                } else if is_digit_char(s[j]) {
                    LexStep::Lexed(
                        Lexeme {
                            kind: TokenKind::Number,
                            text: seq![s[j]] + number_text(s, j + 1, false),
                        },
                        number_end(s, j + 1, false),
                    )
                } else {
                    LexStep::Invalid(j, s[j])
                }
            },
        }
    }
}

/// Where the cursor stands after one scanning step at position `i`.
pub open spec fn cursor_after(s: Seq<char>, i: int) -> int {
    match lex_step(s, i) {
        LexStep::EndOfInput => whitespace_end(s, i),
        LexStep::Lexed(_, n) => n,
        LexStep::Invalid(j, _) => j,
    }
}

/// Whether `r` is the outcome that the scanning model prescribes at
/// position `i`: end of input, the modelled token, or the modelled error.
pub open spec fn lex_result_matches(s: Seq<char>, i: int, r: Result<Option<Token>, LexError>) -> bool {
    match lex_step(s, i) {
        LexStep::EndOfInput => r matches Ok(None),
        LexStep::Lexed(lexeme, _) => (r matches Ok(Some(t)) && t.kind == lexeme.kind
            && t.literal@ == lexeme.text),
        LexStep::Invalid(j, c) => (r matches Err(e) && e.position as int == j && e.character == c),
    }
}

pub proof fn lemma_whitespace_end_bounds(s: Seq<char>, i: int)
    requires
        0 <= i <= s.len(),
    ensures
        i <= whitespace_end(s, i) <= s.len(),
    decreases s.len() - i,
{
    if i < s.len() && is_whitespace_char(s[i]) {
        lemma_whitespace_end_bounds(s, i + 1);
    }
}

pub proof fn lemma_identifier_end_bounds(s: Seq<char>, i: int)
    requires
        0 <= i <= s.len(),
    ensures
        i <= identifier_end(s, i) <= s.len(),
    decreases s.len() - i,
{
    if i < s.len() && is_alpha_char(s[i]) {
        lemma_identifier_end_bounds(s, i + 1);
    }
}

pub proof fn lemma_number_end_bounds(s: Seq<char>, i: int, seen_point: bool)
    requires
        0 <= i <= s.len(),
    ensures
        i <= number_end(s, i, seen_point) <= s.len(),
    decreases s.len() - i,
{
    if i < s.len() {
        if is_digit_char(s[i]) || s[i] == '_' {
            lemma_number_end_bounds(s, i + 1, seen_point);
        } else if s[i] == '.' && !seen_point {
            lemma_number_end_bounds(s, i + 1, true);
        }
    }
}

/// Every scanning step leaves the cursor inside the buffer, and a step that
/// produces a token moves it strictly forward.
pub proof fn lemma_step_progress(s: Seq<char>, i: int)
    requires
        0 <= i <= s.len(),
    ensures
        i <= cursor_after(s, i) <= s.len(),
        lex_step(s, i) is Lexed ==> i < cursor_after(s, i),
{
    lemma_whitespace_end_bounds(s, i);
    let j = whitespace_end(s, i);
    if j < s.len() {
        if operator_kind(s[j]) is None {
            if is_alpha_char(s[j]) {
                lemma_identifier_end_bounds(s, j + 1);
                assert(identifier_end(s, j) == identifier_end(s, j + 1));
            } else if is_digit_char(s[j]) {
                lemma_number_end_bounds(s, j + 1, false);
            }
        }
    }
}

proof fn lemma_whitespace_end_of_whitespace(s: Seq<char>, i: int)
    requires
        0 <= i <= s.len(),
        forall|k: int| 0 <= k < s.len() ==> is_whitespace_char(s[k]),
    ensures
        whitespace_end(s, i) == s.len(),
    decreases s.len() - i,
{
    if i < s.len() {
        lemma_whitespace_end_of_whitespace(s, i + 1);
    }
}

/// Input that consists of whitespace alone tokenizes to the end-of-input
/// signal and nothing else, from every cursor position.
pub proof fn lemma_whitespace_only_input(s: Seq<char>, i: int)
    requires
        0 <= i <= s.len(),
        forall|k: int| 0 <= k < s.len() ==> is_whitespace_char(s[k]),
    ensures
        lex_step(s, i) is EndOfInput,
{
    lemma_whitespace_end_of_whitespace(s, i);
}

/// The scanning relation is deterministic: any two results it admits at one
/// position agree on everything observable. Together with the contracts of
/// `Lexer::peek` (which leaves the state unchanged) and `Lexer::next_token`
/// (which answers from the same state), this says that repeated peeks
/// return the same token and that the peeked token is exactly what the next
/// consuming call returns.
pub proof fn lemma_lex_deterministic(
    s: Seq<char>,
    i: int,
    r1: Result<Option<Token>, LexError>,
    r2: Result<Option<Token>, LexError>,
)
    requires
        lex_result_matches(s, i, r1),
        lex_result_matches(s, i, r2),
    ensures
        r1 matches Ok(None) <==> r2 matches Ok(None),
        r1 is Err <==> r2 is Err,
        (match (r1, r2) {
            (Ok(Some(t1)), Ok(Some(t2))) => t1.kind == t2.kind && t1.literal@ == t2.literal@,
            (Err(e1), Err(e2)) => e1 == e2,
            _ => true,
        }),
{
}

/// The tokenizer: a read-only character buffer and a cursor that only moves
/// forward. Exhausting it is terminal; a fresh instance is needed to
/// re-scan.
#[derive(Debug)]
pub struct Lexer {
    source: Vec<char>,
    current: usize,
}

impl Lexer {
    /// The full input text.
    pub closed spec fn text(self) -> Seq<char> {
        self.source@
    }

    /// The cursor: the index of the next character to scan.
    pub closed spec fn cursor(self) -> int {
        self.current as int
    }

    /// The cursor never leaves the buffer (one past the end included).
    pub open spec fn wf(self) -> bool {
        0 <= self.cursor() <= self.text().len()
    }

    pub fn new(input: String) -> (lexer: Lexer)
        ensures
            lexer.wf(),
            lexer.text() == input@,
            lexer.cursor() == 0,
    {
        Lexer { source: chars_of(input.as_str()), current: 0 }
    }

    fn skip_whitespace(&mut self)
        requires
            old(self).wf(),
        ensures
            final(self).wf(),
            final(self).text() == old(self).text(),
            final(self).cursor() == whitespace_end(old(self).text(), old(self).cursor()),
    {
        while self.current < self.source.len() && self.source[self.current].is_whitespace()
            invariant
                self.wf(),
                self.text() == old(self).text(),
                whitespace_end(self.text(), self.cursor()) == whitespace_end(
                    old(self).text(),
                    old(self).cursor(),
                ),
            decreases self.source.len() - self.current,
        {
            self.current = self.current + 1;
        }
    }

    /// Returns the next token, advancing the cursor; `Ok(None)` once the
    /// cursor has passed the final character, and that state is terminal:
    /// further calls keep returning `Ok(None)`.
    pub fn next_token(&mut self) -> (r: Result<Option<Token>, LexError>)
        requires
            old(self).wf(),
        ensures
            final(self).wf(),
            final(self).text() == old(self).text(),
            final(self).cursor() == cursor_after(old(self).text(), old(self).cursor()),
            lex_result_matches(old(self).text(), old(self).cursor(), r),
    {
        self.skip_whitespace();
        if self.current >= self.source.len() {
            return Ok(None);
        }
        let ghost s = self.text();
        let ghost j = self.cursor();
        let c = self.source[self.current];
        if c == '=' {
            self.current = self.current + 1;
            let t = Token::new(TokenKind::Assign, "=".to_owned());
            proof {
                reveal_strlit("=");
                assert(t.literal@ =~= seq![c]);
            }
            return Ok(Some(t));
        }
        if c == '+' {
            self.current = self.current + 1;
            let t = Token::new(TokenKind::Plus, "+".to_owned());
            proof {
                reveal_strlit("+");
                assert(t.literal@ =~= seq![c]);
            }
            return Ok(Some(t));
        }
        if c == '-' {
            self.current = self.current + 1;
            let t = Token::new(TokenKind::Minus, "-".to_owned());
            proof {
                reveal_strlit("-");
                assert(t.literal@ =~= seq![c]);
            }
            return Ok(Some(t));
        }
        if c == '*' {
            self.current = self.current + 1;
            let t = Token::new(TokenKind::Multiply, "*".to_owned());
            proof {
                reveal_strlit("*");
                assert(t.literal@ =~= seq![c]);
            }
            return Ok(Some(t));
        }
        if c == '/' {
            self.current = self.current + 1;
            let t = Token::new(TokenKind::Divide, "/".to_owned());
            proof {
                reveal_strlit("/");
                assert(t.literal@ =~= seq![c]);
            }
            return Ok(Some(t));
        }
        if c.is_alphabetic() {
            let mut buffer: Vec<char> = Vec::new();
            while self.current < self.source.len() && self.source[self.current].is_alphabetic()
                invariant
                    self.wf(),
                    self.text() == s,
                    0 <= j <= self.cursor() <= s.len(),
                    identifier_end(s, self.cursor()) == identifier_end(s, j),
                    buffer@ == s.subrange(j, self.cursor()),
                decreases self.source.len() - self.current,
            {
                proof {
                    assert(s.subrange(j, self.cursor() + 1) =~= s.subrange(j, self.cursor()).push(
                        s[self.cursor()],
                    ));
                }
                buffer.push(self.source[self.current]);
                self.current = self.current + 1;
            }
            let kind = if buffer.len() == 3 && buffer[0] == 'l' && buffer[1] == 'e' && buffer[2]
                == 't' {
                TokenKind::Let
            } else {
                TokenKind::Identifier
            };
            proof {
                reveal_strlit("let");
                if buffer@.len() == 3 && buffer@[0] == 'l' && buffer@[1] == 'e' && buffer@[2]
                    == 't' {
                    assert(buffer@ =~= "let"@);
                } else {
                    assert(buffer@ != "let"@);
                }
            }
            let literal = string_of_chars(&buffer);
            return Ok(Some(Token::new(kind, literal)));
        }
        if is_digit(c) {
            let mut buffer: Vec<char> = Vec::new();
            buffer.push(c);
            self.current = self.current + 1;
            let mut seen_point = false;
            while self.current < self.source.len() && number_continues(
                self.source[self.current],
                seen_point,
            )
                invariant
                    self.wf(),
                    self.text() == s,
                    0 <= j,
                    j + 1 <= self.cursor() <= s.len(),
                    number_end(s, self.cursor(), seen_point) == number_end(s, j + 1, false),
                    buffer@ + number_text(s, self.cursor(), seen_point) == seq![s[j]]
                        + number_text(s, j + 1, false),
                decreases self.source.len() - self.current,
            {
                let ch = self.source[self.current];
                let ghost pos = self.cursor();
                let ghost tail = number_text(s, pos + 1, seen_point || ch == '.');
                if ch == '_' {
                    // separators are dropped from the literal
                } else {
                    proof {
                        assert((buffer@.push(ch)) + tail =~= buffer@ + (seq![ch] + tail));
                    }
                    buffer.push(ch);
                }
                if ch == '.' {
                    seen_point = true;
                }
                self.current = self.current + 1;
            }
            proof {
                assert(buffer@ + number_text(s, self.cursor(), seen_point) =~= buffer@);
            }
            let literal = string_of_chars(&buffer);
            return Ok(Some(Token::new(TokenKind::Number, literal)));
        }
        Err(LexError { position: self.current, character: c })
    }

    /// Looks at the token that `next_token` would return, without consuming
    /// it: the cursor is saved, one token is scanned, and the cursor is
    /// restored, so the state after the call is exactly the state before.
    pub fn peek(&mut self) -> (r: Result<Option<Token>, LexError>)
        requires
            old(self).wf(),
        ensures
            final(self).wf(),
            final(self).text() == old(self).text(),
            final(self).cursor() == old(self).cursor(),
            lex_result_matches(old(self).text(), old(self).cursor(), r),
    {
        let saved: usize = self.current;
        let r = self.next_token();
        self.current = saved;
        r
    }
}

/// Whether a character continues a numeric literal already begun.
fn number_continues(c: char, seen_point: bool) -> (r: bool)
    ensures
        r == (is_digit_char(c) || c == '_' || (c == '.' && !seen_point)),
{
    is_digit(c) || c == '_' || (c == '.' && !seen_point)
}

} // verus!
