//! The calculator-style front end: an error-tolerant lexer that
//! emits a token for every position (whitespace runs and bad input
//! included, with an explicit end-of-input token), and a parser over the
//! pre-lexed token list that folds `+` and `-` chains left-associatively.
//!
//! The lexer records a diagnostic for every bad token instead of failing:
//! a digit run whose value does not fit a 32-bit integer, or a character
//! that begins no token. The parser never fails either: where a required
//! token is missing it fabricates an empty token of the required kind and
//! carries on.
//!
//! The spec function [`syntax_step`] captures one lexing step;
//! [`syntax_token_list`] the significant tokens of a whole input, with the
//! end-of-input token as terminator; [`simple_parse`] the parse.

use vstd::prelude::*;

use crate::chars::{chars_of, is_digit, is_digit_char, is_whitespace_char, string_of_chars};
use crate::lexer::{whitespace_end, lemma_whitespace_end_bounds};

verus! {

broadcast use vstd::seq::group_seq_axioms;

/// The classification of a token of this front end. `NumericExpressionSyntax`
/// is a node kind reserved for the tree, never produced by the lexer.
#[derive(Clone, Copy, PartialEq, Eq, Structural, Debug)]
pub enum SyntaxKind {
    NumberToken,
    WhiteSpaceToken,
    PlusToken,
    MinusToken,
    StarToken,
    OpenParenthesisToken,
    CloseParenthesisToken,
    PipeToken,
    ForwardSlashToken,
    BackwardSlashToken,
    OpenCurlyBraceToken,
    CloseCurlyBraceToken,
    EqualsToken,
    BadToken,
    EOFToken,
    NumericExpressionSyntax,
}

/// The printable name of a kind.
pub open spec fn kind_name(kind: SyntaxKind) -> Seq<char> {
    match kind {
        SyntaxKind::NumberToken => "NumberToken"@,
        SyntaxKind::WhiteSpaceToken => "WhiteSpaceToken"@,
        SyntaxKind::PlusToken => "PlusToken"@,
        SyntaxKind::MinusToken => "MinusToken"@,
        SyntaxKind::StarToken => "StarToken"@,
        SyntaxKind::OpenParenthesisToken => "OpenParenthesisToken"@,
        SyntaxKind::CloseParenthesisToken => "CloseParenthesisToken"@,
        SyntaxKind::PipeToken => "PipeToken"@,
        SyntaxKind::ForwardSlashToken => "ForwardSlashToken"@,
        SyntaxKind::BackwardSlashToken => "BackwardSlashToken"@,
        SyntaxKind::OpenCurlyBraceToken => "OpenCurlyBraceToken"@,
        SyntaxKind::CloseCurlyBraceToken => "CloseCurlyBraceToken"@,
        SyntaxKind::EqualsToken => "EqualsToken"@,
        SyntaxKind::BadToken => "BadToken"@,
        SyntaxKind::EOFToken => "EOFToken"@,
        SyntaxKind::NumericExpressionSyntax => "NumericExpressionSyntax"@,
    }
}

impl SyntaxKind {
    /// The printable name of this kind.
    pub fn name(&self) -> (r: &'static str)
        ensures
            r@ == kind_name(*self),
    {
        match *self {
            SyntaxKind::NumberToken => "NumberToken",
            SyntaxKind::WhiteSpaceToken => "WhiteSpaceToken",
            SyntaxKind::PlusToken => "PlusToken",
            SyntaxKind::MinusToken => "MinusToken",
            SyntaxKind::StarToken => "StarToken",
            SyntaxKind::OpenParenthesisToken => "OpenParenthesisToken",
            SyntaxKind::CloseParenthesisToken => "CloseParenthesisToken",
            SyntaxKind::PipeToken => "PipeToken",
            SyntaxKind::ForwardSlashToken => "ForwardSlashToken",
            SyntaxKind::BackwardSlashToken => "BackwardSlashToken",
            SyntaxKind::OpenCurlyBraceToken => "OpenCurlyBraceToken",
            SyntaxKind::CloseCurlyBraceToken => "CloseCurlyBraceToken",
            SyntaxKind::EqualsToken => "EqualsToken",
            SyntaxKind::BadToken => "BadToken",
            SyntaxKind::EOFToken => "EOFToken",
            SyntaxKind::NumericExpressionSyntax => "NumericExpressionSyntax",
        }
    }
}

/// A token: its kind, the character offset where its text starts, the
/// matched text, and the numeric value for a number token.
#[derive(Debug, Clone)]
pub struct SyntaxToken {
    pub kind: SyntaxKind,
    pub position: usize,
    pub text: String,
    pub value: Option<i32>,
}

impl SyntaxToken {
    pub fn new(kind: SyntaxKind, position: usize, text: String, value: Option<i32>) -> (t:
        SyntaxToken)
        ensures
            t.kind == kind,
            t.position == position,
            t.text == text,
            t.value == value,
    {
        SyntaxToken { kind, position, text, value }
    }
}

/// A diagnostic recorded while lexing: a digit run whose value does not
/// fit a 32-bit integer, or a character that begins no token.
#[derive(Debug, Clone, PartialEq)]
pub enum Diagnostic {
    NumberTooLarge { position: usize, text: String },
    BadCharacter { position: usize, character: char },
}

/// A token as the lexing model describes it.
pub struct SyntaxLexeme {
    pub kind: SyntaxKind,
    pub position: int,
    pub text: Seq<char>,
    pub value: Option<i32>,
}

/// The end of a run of digits starting at `i`.
pub open spec fn digits_end(s: Seq<char>, i: int) -> int
    decreases s.len() - i
    when 0 <= i <= s.len()
{
    if i < s.len() && is_digit_char(s[i]) {
        digits_end(s, i + 1)
    } else {
        i
    }
}

/// The numeric value of a digit character.
pub open spec fn digit_value(c: char) -> int {
    (c as int) - ('0' as int)
}

/// The numeric value of a string of digits.
pub open spec fn digits_value(s: Seq<char>) -> int
    decreases s.len(),
{
    if s.len() == 0 {
        0
    } else {
        digits_value(s.drop_last()) * 10 + digit_value(s.last())
    }
}

/// The token kind of a single punctuation character, if it is one.
pub open spec fn punct_kind(c: char) -> Option<SyntaxKind> {
    if c == '+' {
        Some(SyntaxKind::PlusToken)
    } else if c == '-' {
        Some(SyntaxKind::MinusToken)
    } else if c == '*' {
        Some(SyntaxKind::StarToken)
    } else if c == '/' {
        Some(SyntaxKind::ForwardSlashToken)
    } else if c == '(' {
        Some(SyntaxKind::OpenParenthesisToken)
    } else if c == ')' {
        Some(SyntaxKind::CloseParenthesisToken)
    } else if c == '\\' {
        Some(SyntaxKind::BackwardSlashToken)
    } else if c == '|' {
        Some(SyntaxKind::PipeToken)
    } else if c == '=' {
        Some(SyntaxKind::EqualsToken)
    } else {
        None
    }
}

/// One lexing step at position `i` of `s`: the token produced and the
/// position after it. At the end of the input the end-of-input token is
/// produced over and over, without moving.
pub open spec fn syntax_step(s: Seq<char>, i: int) -> (SyntaxLexeme, int) {
    if i >= s.len() {
        (SyntaxLexeme { kind: SyntaxKind::EOFToken, position: i, text: seq!['\0'], value: None }, i)
    } else if is_digit_char(s[i]) {
        let k = digits_end(s, i);
        let text = s.subrange(i, k);
        if digits_value(text) <= i32::MAX as int {
            (
                SyntaxLexeme {
                    kind: SyntaxKind::NumberToken,
                    position: i,
                    text,
                    value: Some(digits_value(text) as i32),
                },
                k,
            )
        } else {
            (SyntaxLexeme { kind: SyntaxKind::BadToken, position: i, text, value: None }, k)
        }
    } else if is_whitespace_char(s[i]) {
        let k = whitespace_end(s, i);
        (
            SyntaxLexeme {
                kind: SyntaxKind::WhiteSpaceToken,
                position: i,
                text: s.subrange(i, k),
                value: None,
            },
            k,
        )
    } else {
        match punct_kind(s[i]) {
            Some(kind) => (
                SyntaxLexeme { kind, position: i, text: seq![s[i]], value: None },
                i + 1,
            ),
            None => (
                SyntaxLexeme {
                    kind: SyntaxKind::BadToken,
                    position: i,
                    text: seq![s[i]],
                    value: None,
                },
                i + 1,
            ),
        }
    }
}

/// Whether an exec token carries exactly the modelled one.
pub open spec fn lexeme_matches(t: SyntaxToken, lexeme: SyntaxLexeme) -> bool {
    t.kind == lexeme.kind && t.position as int == lexeme.position && t.text@ == lexeme.text
        && t.value == lexeme.value
}

/// The diagnostic that one bad token at position `i` records.
pub open spec fn diagnostic_for(d: Diagnostic, s: Seq<char>, i: int) -> bool {
    match d {
        Diagnostic::NumberTooLarge { position, text } => position as int == i && 0 <= i < s.len()
            && is_digit_char(s[i]) && text@ == syntax_step(s, i).0.text,
        Diagnostic::BadCharacter { position, character } => position as int == i && 0 <= i
            < s.len() && !is_digit_char(s[i]) && character == s[i],
    }
}

/// How one lexing step changes the diagnostics: a bad token appends its
/// diagnostic, everything else leaves them alone.
pub open spec fn diagnostics_after(
    old_diags: Seq<Diagnostic>,
    s: Seq<char>,
    i: int,
    new_diags: Seq<Diagnostic>,
) -> bool {
    if syntax_step(s, i).0.kind is BadToken {
        new_diags.len() == old_diags.len() + 1 && new_diags == old_diags.push(new_diags.last())
            && diagnostic_for(new_diags.last(), s, i)
    } else {
        new_diags == old_diags
    }
}

/// The input with every line feed removed.
pub open spec fn strip_newlines(s: Seq<char>) -> Seq<char>
    decreases s.len(),
{
    if s.len() == 0 {
        Seq::empty()
    } else if s.last() == '\n' {
        strip_newlines(s.drop_last())
    } else {
        strip_newlines(s.drop_last()).push(s.last())
    }
}

proof fn lemma_digits_value_bounds(s: Seq<char>)
    requires
        forall|k: int| 0 <= k < s.len() ==> is_digit_char(s[k]),
    ensures
        digits_value(s) >= 0,
    decreases s.len(),
{
    if s.len() > 0 {
        lemma_digits_value_bounds(s.drop_last());
    }
}

proof fn lemma_digits_value_monotonic(s: Seq<char>, j: int)
    requires
        forall|k: int| 0 <= k < s.len() ==> is_digit_char(s[k]),
        0 <= j <= s.len(),
    ensures
        digits_value(s.take(j)) <= digits_value(s),
    decreases s.len() - j,
{
    if j < s.len() {
        lemma_digits_value_monotonic(s, j + 1);
        assert(s.take(j + 1).drop_last() =~= s.take(j));
        assert(forall|k: int| 0 <= k < s.take(j + 1).len() ==> is_digit_char(
            #[trigger] s.take(j + 1)[k],
        ));
        lemma_digits_value_bounds(s.take(j));
        assert(digits_value(s.take(j + 1)) == digits_value(s.take(j)) * 10 + digit_value(s[j]));
    } else {
        assert(s.take(j) =~= s);
    }
}

/// The value of a string of digits, where it fits a 32-bit integer;
/// `None` where it does not.
fn digits_to_value(digits: &Vec<char>) -> (r: Option<i32>)
    requires
        forall|k: int| 0 <= k < digits@.len() ==> is_digit_char(digits@[k]),
    ensures
        r is Some <==> digits_value(digits@) <= i32::MAX as int,
        r matches Some(v) ==> v as int == digits_value(digits@),
{
    let mut value: u64 = 0;
    let mut idx: usize = 0;
    while idx < digits.len()
        invariant
            forall|k: int| 0 <= k < digits@.len() ==> is_digit_char(digits@[k]),
            0 <= idx <= digits@.len(),
            value as int == digits_value(digits@.take(idx as int)),
            value <= i32::MAX as u64,
        decreases digits@.len() - idx,
    {
        let c = digits[idx];
        let d: u64 = (c as u32 - '0' as u32) as u64;
        value = value * 10 + d;
        idx = idx + 1;
        proof {
            assert(digits@.take(idx as int).drop_last() =~= digits@.take(idx as int - 1));
        }
        if value > i32::MAX as u64 {
            proof {
                lemma_digits_value_monotonic(digits@, idx as int);
            }
            return None;
        }
    }
    proof {
        assert(digits@.take(digits@.len() as int) =~= digits@);
    }
    Some(value as i32)
}

/// The lexer of this front end: the input with line feeds removed, a
/// cursor, and the diagnostics recorded so far.
#[derive(Debug)]
pub struct Lexer {
    pub text: Vec<char>,
    pub position: usize,
    diagnostics: Vec<Diagnostic>,
}

impl Lexer {
    /// The input characters (line feeds already removed).
    pub closed spec fn input(self) -> Seq<char> {
        self.text@
    }

    /// The cursor.
    pub closed spec fn pos(self) -> int {
        self.position as int
    }

    /// The diagnostics recorded so far.
    pub closed spec fn diags(self) -> Seq<Diagnostic> {
        self.diagnostics@
    }

    /// The cursor never leaves the buffer.
    pub closed spec fn wf(self) -> bool {
        0 <= self.pos() <= self.input().len()
    }

    pub fn new(text: &str) -> (lexer: Lexer)
        ensures
            lexer.wf(),
            lexer.input() == strip_newlines(text@),
            lexer.pos() == 0,
            lexer.diags() == Seq::<Diagnostic>::empty(),
    {
        let source = chars_of(text);
        let mut kept: Vec<char> = Vec::new();
        let mut idx: usize = 0;
        while idx < source.len()
            invariant
                source@ == text@,
                0 <= idx <= source@.len(),
                kept@ == strip_newlines(text@.take(idx as int)),
            decreases source@.len() - idx,
        {
            let c = source[idx];
            proof {
                assert(text@.take(idx as int + 1).drop_last() =~= text@.take(idx as int));
            }
            if c != '\n' {
                kept.push(c);
            }
            idx = idx + 1;
        }
        proof {
            assert(text@.take(text@.len() as int) =~= text@);
        }
        Lexer { text: kept, position: 0, diagnostics: Vec::new() }
    }

    pub fn diagnostics(&self) -> (r: &Vec<Diagnostic>)
        ensures
            r@ == self.diags(),
    {
        &self.diagnostics
    }

    /// The character at the cursor; a NUL once the cursor has passed the
    /// final character.
    fn current(&self) -> (c: char)
        ensures
            c == (if self.pos() < self.input().len() {
                self.input()[self.pos()]
            } else {
                '\0'
            }),
    {
        if self.position >= self.text.len() {
            '\0'
        } else {
            self.text[self.position]
        }
    }

    fn next(&mut self)
        requires
            old(self).pos() < old(self).input().len(),
        ensures
            final(self).input() == old(self).input(),
            final(self).diags() == old(self).diags(),
            final(self).pos() == old(self).pos() + 1,
    {
        if self.position < self.text.len() {
            self.position = self.position + 1;
        }
    }

    /// Produces the token at the cursor as [`syntax_step`] describes it,
    /// recording a diagnostic for a bad token; at the end of the input it
    /// keeps returning the end-of-input token.
    pub fn next_token(&mut self) -> (r: Option<SyntaxToken>)
        requires
            old(self).wf(),
        ensures
            final(self).wf(),
            final(self).input() == old(self).input(),
            (r matches Some(t) && lexeme_matches(
                t,
                syntax_step(old(self).input(), old(self).pos()).0,
            )),
            final(self).pos() == syntax_step(old(self).input(), old(self).pos()).1,
            diagnostics_after(
                old(self).diags(),
                old(self).input(),
                old(self).pos(),
                final(self).diags(),
            ),
    {
        let ghost s = self.input();
        let ghost start_pos = self.pos();
        if self.position >= self.text.len() {
            let text = "\0".to_owned();
            proof {
                reveal_strlit("\0");
                assert(text@ =~= seq!['\0']);
            }
            return Some(
                SyntaxToken { kind: SyntaxKind::EOFToken, position: self.position, text, value: None },
            );
        }
        let start = self.position;
        let c = self.text[self.position];
        if is_digit(c) {
            let mut buffer: Vec<char> = Vec::new();
            while self.position < self.text.len() && is_digit(self.text[self.position])
                invariant
                    self.input() == s,
                    self.diags() == old(self).diags(),
                    0 <= start <= self.pos() <= s.len(),
                    digits_end(s, self.pos()) == digits_end(s, start as int),
                    buffer@ == s.subrange(start as int, self.pos()),
                    forall|k: int| 0 <= k < buffer@.len() ==> is_digit_char(buffer@[k]),
                decreases s.len() - self.pos(),
            {
                proof {
                    assert(s.subrange(start as int, self.pos() + 1) =~= s.subrange(
                        start as int,
                        self.pos(),
                    ).push(s[self.pos()]));
                }
                buffer.push(self.text[self.position]);
                self.position = self.position + 1;
            }
            let value = digits_to_value(&buffer);
            let text = string_of_chars(&buffer);
            match value {
                Some(v) => {
                    return Some(
                        SyntaxToken {
                            kind: SyntaxKind::NumberToken,
                            position: start,
                            text,
                            value: Some(v),
                        },
                    );
                },
                None => {
                    let report = string_of_chars(&buffer);
                    self.diagnostics.push(
                        Diagnostic::NumberTooLarge { position: start, text: report },
                    );
                    return Some(
                        SyntaxToken { kind: SyntaxKind::BadToken, position: start, text, value: None },
                    );
                },
            }
        }
        if c.is_whitespace() {
            let mut buffer: Vec<char> = Vec::new();
            while self.position < self.text.len() && self.text[self.position].is_whitespace()
                invariant
                    self.input() == s,
                    self.diags() == old(self).diags(),
                    0 <= start <= self.pos() <= s.len(),
                    whitespace_end(s, self.pos()) == whitespace_end(s, start as int),
                    buffer@ == s.subrange(start as int, self.pos()),
                decreases s.len() - self.pos(),
            {
                proof {
                    assert(s.subrange(start as int, self.pos() + 1) =~= s.subrange(
                        start as int,
                        self.pos(),
                    ).push(s[self.pos()]));
                }
                buffer.push(self.text[self.position]);
                self.position = self.position + 1;
            }
            let text = string_of_chars(&buffer);
            return Some(
                SyntaxToken { kind: SyntaxKind::WhiteSpaceToken, position: start, text, value: None },
            );
        }
        let mut single: Vec<char> = Vec::new();
        single.push(c);
        let text = string_of_chars(&single);
        self.next();
        match punct_token_kind(c) {
            Some(kind) => {
                proof {
                    assert(!(syntax_step(s, start_pos).0.kind is BadToken));
                }
                Some(SyntaxToken { kind, position: start, text, value: None })
            },
            None => {
                let d = Diagnostic::BadCharacter { position: start, character: c };
                let ghost dd = d;
                self.diagnostics.push(d);
                proof {
                    let before = old(self).diags();
                    let after = self.diags();
                    assert(syntax_step(s, start_pos).0.kind is BadToken);
                    assert(after == before.push(dd));
                    assert(before.push(dd)[before.len() as int] == dd) by {
                        vstd::seq::axiom_seq_push_index_same(before, dd, before.len() as int);
                    }
                    assert(after.last() == dd);
                    assert(diagnostic_for(dd, s, start_pos));
                }
                Some(SyntaxToken { kind: SyntaxKind::BadToken, position: start, text, value: None })
            },
        }
    }
}

/// The end of this lexing step, bounded into the buffer.
pub proof fn lemma_syntax_step_progress(s: Seq<char>, i: int)
    requires
        0 <= i <= s.len(),
    ensures
        i <= syntax_step(s, i).1 <= s.len(),
        i < s.len() ==> i < syntax_step(s, i).1,
        i >= s.len() ==> syntax_step(s, i).1 == i,
{
    if i < s.len() {
        if is_digit_char(s[i]) {
            lemma_digits_end_bounds(s, i + 1);
            assert(digits_end(s, i) == digits_end(s, i + 1));
        } else if is_whitespace_char(s[i]) {
            lemma_whitespace_end_bounds(s, i + 1);
            assert(whitespace_end(s, i) == whitespace_end(s, i + 1));
        }
    }
}

pub proof fn lemma_digits_end_bounds(s: Seq<char>, i: int)
    requires
        0 <= i <= s.len(),
    ensures
        i <= digits_end(s, i) <= s.len(),
    decreases s.len() - i,
{
    if i < s.len() && is_digit_char(s[i]) {
        lemma_digits_end_bounds(s, i + 1);
    }
}

/// Whether a token survives into the parser's token list: whitespace, bad
/// tokens and the end-of-input token do not.
pub open spec fn significant(kind: SyntaxKind) -> bool {
    !(kind is WhiteSpaceToken) && !(kind is BadToken) && !(kind is EOFToken)
}

/// The significant tokens of `s` from position `i` on, with the
/// end-of-input token as the final element.
pub open spec fn syntax_token_list(s: Seq<char>, i: int) -> Seq<SyntaxLexeme>
    decreases s.len() - i
    when 0 <= i <= s.len()
{
    if i >= s.len() {
        seq![syntax_step(s, i).0]
    } else {
        let step = syntax_step(s, i);
        let n = step.1;
        let n2 = if i < n && n <= s.len() {
            n
        } else {
            i + 1
        };
        let rest = syntax_token_list(s, n2);
        if significant(step.0.kind) {
            seq![step.0] + rest
        } else {
            rest
        }
    }
}

/// The token list is never empty and always ends with the end-of-input
/// token.
pub proof fn lemma_token_list_shape(s: Seq<char>, i: int)
    requires
        0 <= i <= s.len(),
    ensures
        syntax_token_list(s, i).len() >= 1,
        syntax_token_list(s, i).last().kind is EOFToken,
    decreases s.len() - i,
{
    if i < s.len() {
        lemma_syntax_step_progress(s, i);
        let n2 = syntax_step(s, i).1;
        lemma_token_list_shape(s, n2);
        let rest = syntax_token_list(s, n2);
        if significant(syntax_step(s, i).0.kind) {
            assert((seq![syntax_step(s, i).0] + rest).last() == rest.last());
        }
    }
}

/// The token as a modelled lexeme.
pub open spec fn lexeme_of(t: SyntaxToken) -> SyntaxLexeme {
    SyntaxLexeme { kind: t.kind, position: t.position as int, text: t.text@, value: t.value }
}

/// Whether the tokens carry exactly the modelled lexemes.
pub open spec fn tokens_match(v: Seq<SyntaxToken>, l: Seq<SyntaxLexeme>) -> bool {
    v.len() == l.len() && (forall|k: int|
        0 <= k < v.len() ==> lexeme_matches(#[trigger] v[k], l[k]))
}

/// The lexeme at `index`, clamped to the final (end-of-input) one.
pub open spec fn lexeme_at(l: Seq<SyntaxLexeme>, index: int) -> SyntaxLexeme {
    if 0 <= index < l.len() {
        l[index]
    } else {
        l[l.len() - 1]
    }
}

/// The empty token that `match_` fabricates for a missing kind.
pub open spec fn fabricated(kind: SyntaxKind, position: int) -> SyntaxLexeme {
    SyntaxLexeme { kind, position, text: Seq::empty(), value: None }
}

/// An expression of this front end: a numeric literal or a binary node.
#[derive(Debug)]
pub enum ExpressionSyntax {
    NumericExpression(NumericExpressionSyntax),
    BinaryExpression(BinaryExpressionSyntax),
}

#[derive(Debug)]
pub struct NumericExpressionSyntax {
    number_token: SyntaxToken,
}

#[derive(Debug)]
pub struct BinaryExpressionSyntax {
    left: Box<ExpressionSyntax>,
    operator_token: SyntaxToken,
    right: Box<ExpressionSyntax>,
}

/// The spec-level shape of an expression of this front end.
pub enum ExpressionSyntaxModel {
    Numeric(SyntaxLexeme),
    Binary(Box<ExpressionSyntaxModel>, SyntaxLexeme, Box<ExpressionSyntaxModel>),
}

impl ExpressionSyntax {
    /// The mathematical value of this tree.
    pub closed spec fn model(&self) -> ExpressionSyntaxModel
        decreases self,
    {
        match self {
            ExpressionSyntax::NumericExpression(n) => ExpressionSyntaxModel::Numeric(
                lexeme_of(n.number_token),
            ),
            ExpressionSyntax::BinaryExpression(b) => ExpressionSyntaxModel::Binary(
                Box::new((*b.left).model()),
                lexeme_of(b.operator_token),
                Box::new((*b.right).model()),
            ),
        }
    }
}

/// One primary expression at token index `i`: a number token is consumed;
/// anything else yields a fabricated empty number token, consuming
/// nothing.
pub open spec fn simple_primary(l: Seq<SyntaxLexeme>, i: int) -> (ExpressionSyntaxModel, int) {
    let t = lexeme_at(l, i);
    if t.kind is NumberToken {
        (ExpressionSyntaxModel::Numeric(t), if i < l.len() { i + 1 } else { i })
    } else {
        (ExpressionSyntaxModel::Numeric(fabricated(SyntaxKind::NumberToken, t.position)), i)
    }
}

/// Folding `+` and `-` chains onto `left` from token index `i`,
/// left-associatively, until some other token is reached.
pub open spec fn simple_expression(
    l: Seq<SyntaxLexeme>,
    i: int,
    left: ExpressionSyntaxModel,
) -> (ExpressionSyntaxModel, int)
    decreases l.len() - i
    when 0 <= i <= l.len() && l.len() >= 1 && l.last().kind is EOFToken
{
    let t = lexeme_at(l, i);
    if t.kind is PlusToken || t.kind is MinusToken {
        let (right, j) = simple_primary(l, i + 1);
        simple_expression(
            l,
            j,
            ExpressionSyntaxModel::Binary(Box::new(left), t, Box::new(right)),
        )
    } else {
        (left, i)
    }
}

/// A whole parse from token index `i`: one primary expression, then the
/// operator fold.
pub open spec fn simple_parse(l: Seq<SyntaxLexeme>, i: int) -> (ExpressionSyntaxModel, int) {
    let (first, j) = simple_primary(l, i);
    simple_expression(l, j, first)
}

/// The parser of this front end: the text as given, the pre-lexed token
/// list (significant tokens, then the end-of-input token), and a cursor
/// into it.
pub struct Parser {
    text: String,
    position: usize,
    tokens: Vec<SyntaxToken>,
}

impl Parser {
    /// The text as handed to `new`, line feeds included.
    pub closed spec fn source(self) -> Seq<char> {
        self.text@
    }

    /// The token list.
    pub closed spec fn items(self) -> Seq<SyntaxToken> {
        self.tokens@
    }

    /// The token list as modelled lexemes.
    pub closed spec fn lexemes(self) -> Seq<SyntaxLexeme> {
        self.tokens@.map_values(|t: SyntaxToken| lexeme_of(t))
    }

    /// The cursor.
    pub closed spec fn pos(self) -> int {
        self.position as int
    }

    /// The token at `index`, clamped to the final (end-of-input) one.
    pub closed spec fn token_at(self, index: int) -> SyntaxToken {
        if 0 <= index < self.tokens@.len() {
            self.tokens@[index]
        } else {
            self.tokens@[self.tokens@.len() - 1]
        }
    }

    /// The tokens are the significant ones of the lexed text, the list is
    /// never empty, it ends with the end-of-input token, and the cursor
    /// stays within it.
    pub closed spec fn wf(self) -> bool {
        &&& tokens_match(self.tokens@, syntax_token_list(strip_newlines(self.text@), 0))
        &&& 0 <= self.position <= self.tokens@.len()
        &&& self.tokens@.len() >= 1
        &&& self.tokens@[self.tokens@.len() - 1].kind is EOFToken
    }

    proof fn lemma_views(self, index: int)
        requires
            self.wf(),
        ensures
            self.lexemes().len() == self.items().len() >= 1,
            self.lexemes().last().kind is EOFToken,
            0 <= index ==> lexeme_at(self.lexemes(), index) == lexeme_of(self.token_at(index)),
    {
        assert(self.lexemes().last() == lexeme_of(self.tokens@[self.tokens@.len() - 1]));
    }

    /// Lexes the whole text up front, keeping the significant tokens and
    /// the final end-of-input token; whitespace and bad tokens are
    /// dropped, and the lexer is discarded here, its diagnostics with it.
    pub fn new(text: &str) -> (parser: Parser)
        ensures
            parser.wf(),
            parser.pos() == 0,
            parser.source() == text@,
            parser.lexemes() == syntax_token_list(strip_newlines(text@), 0),
    {
        let mut lexer = Lexer::new(text);
        let ghost s = lexer.input();
        let mut tokens: Vec<SyntaxToken> = Vec::new();
        loop
            invariant_except_break
                syntax_token_list(s, 0) == tokens@.map_values(|t: SyntaxToken| lexeme_of(t))
                    + syntax_token_list(s, lexer.pos()),
            invariant
                lexer.wf(),
                lexer.input() == s,
                s == strip_newlines(text@),
                0 <= lexer.pos() <= s.len(),
            ensures
                syntax_token_list(s, 0) == tokens@.map_values(|t: SyntaxToken| lexeme_of(t)),
                s == strip_newlines(text@),
            decreases s.len() - lexer.pos(),
        {
            let ghost p = lexer.pos();
            let ghost old_tokens = tokens@;
            proof {
                lemma_syntax_step_progress(s, p);
            }
            match lexer.next_token() {
                Some(token) => {
                    let is_eof = matches!(token.kind, SyntaxKind::EOFToken);
                    let keep = !matches!(
                        token.kind,
                        SyntaxKind::EOFToken | SyntaxKind::WhiteSpaceToken | SyntaxKind::BadToken
                    );
                    let ghost lexeme = lexeme_of(token);
                    if is_eof || keep {
                        tokens.push(token);
                        proof {
                            assert(tokens@.map_values(|t: SyntaxToken| lexeme_of(t))
                                =~= old_tokens.map_values(|t: SyntaxToken| lexeme_of(t))
                                    + seq![lexeme]);
                        }
                    }
                    if is_eof {
                        proof {
                            assert(p >= s.len());
                            assert(syntax_token_list(s, p) =~= seq![lexeme]);
                            assert(syntax_token_list(s, 0) =~= tokens@.map_values(
                                |t: SyntaxToken| lexeme_of(t),
                            ));
                        }
                        break;
                    }
                    proof {
                        assert(p < s.len());
                        let n2 = syntax_step(s, p).1;
                        if keep {
                            assert(syntax_token_list(s, p) =~= seq![lexeme] + syntax_token_list(
                                s,
                                n2,
                            ));
                            assert(old_tokens.map_values(|t: SyntaxToken| lexeme_of(t)) + (
                            seq![lexeme] + syntax_token_list(s, n2)) =~= (old_tokens.map_values(
                                |t: SyntaxToken| lexeme_of(t),
                            ) + seq![lexeme]) + syntax_token_list(s, n2));
                        } else {
                            assert(syntax_token_list(s, p) =~= syntax_token_list(s, n2));
                        }
                    }
                },
                None => {},
            }
        }
        proof {
            lemma_token_list_shape(s, 0);
        }
        let parser = Parser { text: text.to_owned(), position: 0, tokens };
        proof {
            assert(parser.lexemes() =~= syntax_token_list(strip_newlines(text@), 0));
            assert forall|k: int| 0 <= k < parser.tokens@.len() implies lexeme_matches(
                #[trigger] parser.tokens@[k],
                syntax_token_list(strip_newlines(text@), 0)[k],
            ) by {
                assert(syntax_token_list(strip_newlines(text@), 0)[k] == lexeme_of(
                    parser.tokens@[k],
                ));
            }
            assert(parser.lexemes().last().kind is EOFToken);
            assert(parser.tokens@[parser.tokens@.len() - 1].kind is EOFToken);
        }
        parser
    }

    fn peek(&self, offset: usize) -> (r: Option<SyntaxToken>)
        requires
            self.wf(),
            self.position + offset <= usize::MAX,
        ensures
            (r matches Some(t) && t == self.token_at(self.pos() + offset)),
    {
        let index = self.position + offset;
        let clamped = if index >= self.tokens.len() {
            self.tokens.len() - 1
        } else {
            index
        };
        Some(copy_token(&self.tokens[clamped]))
    }

    /// The token at the cursor; once the cursor has passed the list's end
    /// this is the final, end-of-input token, over and over.
    pub fn current(&self) -> (r: SyntaxToken)
        requires
            self.wf(),
        ensures
            r == self.token_at(self.pos()),
    {
        match self.peek(0) {
            Some(t) => t,
            None => SyntaxToken::new(SyntaxKind::EOFToken, 0, String::new(), None),
        }
    }

    /// Returns the token at the cursor and moves the cursor forward; at
    /// the list's end (the end-of-input token) the cursor stays.
    pub fn next_token(&mut self) -> (r: SyntaxToken)
        requires
            old(self).wf(),
        ensures
            final(self).wf(),
            final(self).source() == old(self).source(),
            final(self).items() == old(self).items(),
            r == old(self).token_at(old(self).pos()),
            final(self).pos() == (if old(self).pos() + 1 < old(self).items().len() {
                old(self).pos() + 1
            } else {
                old(self).pos()
            }),
    {
        let current = self.current();
        if self.position < self.tokens.len() - 1 {
            self.position = self.position + 1;
        }
        current
    }

    /// Returns the token at the cursor and consumes it when it has the
    /// wanted kind; otherwise fabricates an empty token of that kind at
    /// the current token's position, consuming nothing.
    pub fn match_(&mut self, kind: SyntaxKind) -> (r: SyntaxToken)
        requires
            old(self).wf(),
        ensures
            final(self).wf(),
            final(self).source() == old(self).source(),
            final(self).items() == old(self).items(),
            (if old(self).token_at(old(self).pos()).kind == kind {
                r == old(self).token_at(old(self).pos()) && final(self).pos() == (if old(
                    self,
                ).pos() + 1 < old(self).items().len() {
                    old(self).pos() + 1
                } else {
                    old(self).pos()
                })
            } else {
                lexeme_of(r) == fabricated(kind, old(self).token_at(old(self).pos()).position as int)
                    && final(self).pos() == old(self).pos()
            }),
    {
        if kind_eq(self.current().kind, kind) {
            self.next_token()
        } else {
            let t = SyntaxToken::new(kind, self.current().position, String::new(), None);
            proof {
                assert(t.text@ =~= Seq::<char>::empty());
            }
            t
        }
    }

    fn match_token(&mut self, kind: SyntaxKind) -> (r: SyntaxToken)
        requires
            old(self).wf(),
        ensures
            final(self).wf(),
            final(self).source() == old(self).source(),
            final(self).items() == old(self).items(),
            (if old(self).token_at(old(self).pos()).kind == kind {
                r == old(self).token_at(old(self).pos()) && final(self).pos() == (if old(
                    self,
                ).pos() + 1 < old(self).items().len() {
                    old(self).pos() + 1
                } else {
                    old(self).pos()
                })
            } else {
                lexeme_of(r) == fabricated(kind, old(self).token_at(old(self).pos()).position as int)
                    && final(self).pos() == old(self).pos()
            }),
    {
        if kind_eq(self.current().kind, kind) {
            self.next_token()
        } else {
            let t = SyntaxToken::new(kind, self.current().position, String::new(), None);
            proof {
                assert(t.text@ =~= Seq::<char>::empty());
            }
            t
        }
    }
    /// Parses one expression: a primary expression, then `+` and `-`
    /// chains folded left-associatively, exactly as [`simple_parse`]
    /// prescribes over the token list.
    pub fn parse(&mut self) -> (r: ExpressionSyntax)
        requires
            old(self).wf(),
        ensures
            final(self).wf(),
            final(self).source() == old(self).source(),
            final(self).items() == old(self).items(),
            r.model() == simple_parse(old(self).lexemes(), old(self).pos()).0,
            final(self).pos() == simple_parse(old(self).lexemes(), old(self).pos()).1,
    {
        let ghost l = self.lexemes();
        let ghost c0 = self.pos();
        proof {
            self.lemma_views(c0);
        }
        let mut left = self.parse_primary_expression();
        loop
            invariant
                self.wf(),
                l == old(self).lexemes(),
                c0 == old(self).pos(),
                self.lexemes() == l,
                self.source() == old(self).source(),
                self.items() == old(self).items(),
                0 <= self.pos() <= l.len(),
                l.len() >= 1,
                l.last().kind is EOFToken,
                simple_expression(l, self.pos(), left.model()) == simple_parse(l, c0),
            ensures
                self.wf(),
                self.lexemes() == l,
                self.source() == old(self).source(),
                self.items() == old(self).items(),
                simple_parse(l, c0) == (left.model(), self.pos()),
            decreases l.len() - self.pos(),
        {
            let ghost p = self.pos();
            proof {
                self.lemma_views(p);
            }
            let cur = self.current();
            let is_op = matches!(cur.kind, SyntaxKind::PlusToken | SyntaxKind::MinusToken);
            if !is_op {
                break;
            }
            let operator_token = self.next_token();
            proof {
                self.lemma_views(self.pos());
            }
            let right = self.parse_primary_expression();
            let boxed_left = Box::new(left);
            let boxed_right = Box::new(right);
            left = ExpressionSyntax::BinaryExpression(
                BinaryExpressionSyntax { left: boxed_left, operator_token, right: boxed_right },
            );
        }
        left
    }

    fn parse_primary_expression(&mut self) -> (r: ExpressionSyntax)
        requires
            old(self).wf(),
        ensures
            final(self).wf(),
            final(self).source() == old(self).source(),
            final(self).items() == old(self).items(),
            final(self).lexemes() == old(self).lexemes(),
            r.model() == simple_primary(old(self).lexemes(), old(self).pos()).0,
            final(self).pos() == simple_primary(old(self).lexemes(), old(self).pos()).1,
    {
        proof {
            old(self).lemma_views(old(self).pos());
        }
        let number_token = self.match_token(SyntaxKind::NumberToken);
        ExpressionSyntax::NumericExpression(NumericExpressionSyntax { number_token })
    }
}

/// Copies a token field by field.
fn copy_token(t: &SyntaxToken) -> (r: SyntaxToken)
    ensures
        r == *t,
{
    SyntaxToken { kind: t.kind, position: t.position, text: t.text.clone(), value: t.value }
}

/// Whether two kinds are the same.
fn kind_eq(a: SyntaxKind, b: SyntaxKind) -> (r: bool)
    ensures
        r == (a == b),
{
    a == b
}

/// The kind of a single punctuation character, as [`punct_kind`] gives it.
fn punct_token_kind(c: char) -> (r: Option<SyntaxKind>)
    ensures
        r == punct_kind(c),
{
    if c == '+' {
        Some(SyntaxKind::PlusToken)
    } else if c == '-' {
        Some(SyntaxKind::MinusToken)
    } else if c == '*' {
        Some(SyntaxKind::StarToken)
    } else if c == '/' {
        Some(SyntaxKind::ForwardSlashToken)
    } else if c == '(' {
        Some(SyntaxKind::OpenParenthesisToken)
    } else if c == ')' {
        Some(SyntaxKind::CloseParenthesisToken)
    } else if c == '\\' {
        Some(SyntaxKind::BackwardSlashToken)
    } else if c == '|' {
        Some(SyntaxKind::PipeToken)
    } else if c == '=' {
        Some(SyntaxKind::EqualsToken)
    } else {
        None
    }
}

} // verus!
