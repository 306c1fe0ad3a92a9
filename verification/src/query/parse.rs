//! Lexer and parser for the textual query grammar.
//!
//! The lexer turns the input into a token stream in two passes: a flat pass
//! that applies the priority-ordered readers at each position, and a
//! grouping pass that folds parenthesis markers into nested `Grouped`
//! tokens.  The parser is the recursive-descent consumer of the token
//! stream, [`parse_spec`] being its exact definition.

use vstd::prelude::*;
use crate::query::{is_digit, Query, QueryV, Value, ValueV};

verus! {

/// A binary connective token.
#[derive(Debug, Clone, Copy, PartialEq)]
pub enum Operator {
    And,
    Or,
}

/// A comparison-operator token.
#[derive(Debug, Clone, Copy, PartialEq)]
pub enum Operand {
    Eq,
    Neq,
    Gt,
    GtE,
    Lt,
    LtE,
    Rx,
}

/// One lexical token; a `Grouped` token carries the tokens found between a
/// matching pair of parentheses.
#[derive(Debug, PartialEq)]
pub enum TokenValue {
    Number(i64),
    Float(String),
    Text(String),
    Bool(bool),
    Operand(Operand),
    Operator(Operator),
    Identifier(String),
    Grouped(Vec<TokenValue>),
}

/// The mathematical model of a [`TokenValue`].
#[verifier::ext_equal]
pub enum TokenV {
    Number(i64),
    Float(Seq<char>),
    Text(Seq<char>),
    Bool(bool),
    Operand(Operand),
    Operator(Operator),
    Identifier(Seq<char>),
    Grouped(Seq<TokenV>),
}

/// The model of a [`TokenValue`].
pub open spec fn token_view(t: TokenValue) -> TokenV
    decreases t,
{
    match t {
        TokenValue::Number(n) => TokenV::Number(n),
        TokenValue::Float(s) => TokenV::Float(s@),
        TokenValue::Text(s) => TokenV::Text(s@),
        TokenValue::Bool(b) => TokenV::Bool(b),
        TokenValue::Operand(o) => TokenV::Operand(o),
        TokenValue::Operator(o) => TokenV::Operator(o),
        TokenValue::Identifier(s) => TokenV::Identifier(s@),
        TokenValue::Grouped(ts) => TokenV::Grouped(
            Seq::new(
                ts@.len(),
                |i: int|
                    if 0 <= i < ts@.len() {
                        token_view(ts@[i])
                    } else {
                        TokenV::Bool(false)
                    },
            ),
        ),
    }
}

/// The models of a token sequence, element by element.
pub open spec fn token_views(s: Seq<TokenValue>) -> Seq<TokenV> {
    Seq::new(s.len(), |i: int| token_view(s[i]))
}

impl View for TokenValue {
    type V = TokenV;

    open spec fn view(&self) -> TokenV {
        token_view(*self)
    }
}

/// A lexical failure.
#[derive(Debug, Clone, Copy, PartialEq)]
pub enum LexError {
    /// No reader matches at the current position.
    UnexpectedChar,
    /// A `'` without a closing `'`.
    UnterminatedText,
    /// A `(` without a matching `)`.
    UnterminatedGroup,
    /// A numeric run with more than one decimal point.
    MalformedNumber,
    /// An integer literal beyond the 64-bit signed range.
    NumberOverflow,
}

/// A structural failure of the token stream.
#[derive(Debug, Clone, Copy, PartialEq)]
pub enum ParseError {
    /// An identifier with fewer than two tokens after it.
    IncompleteComparison,
    /// The token after an identifier is not a comparison operator.
    ExpectedOperator,
    /// The token after a comparison operator is not a literal.
    ExpectedLiteral,
    /// A connective with nothing after it.
    DanglingConnective,
}

/// What [`from_str`] can fail with.
#[derive(Debug, Clone, Copy, PartialEq)]
pub enum QueryError {
    Lex(LexError),
    Parse(ParseError),
}

// ---------------------------------------------------------------------------
// Character classes of the grammar.
pub open spec fn is_space(c: char) -> bool {
    c == ' ' || c == '\t' || c == '\n' || c == '\r' || c == ','
}

pub open spec fn is_letter(c: char) -> bool {
    ('a' <= c && c <= 'z') || ('A' <= c && c <= 'Z')
}

pub open spec fn is_ident_char(c: char) -> bool {
    is_letter(c) || is_digit(c) || c == '.' || c == '_'
}

pub open spec fn is_number_char(c: char) -> bool {
    is_digit(c) || c == '.'
}

/// The end of the numeric run starting at `i`: the first position at or
/// after `i` holding neither a digit nor a decimal point.
pub open spec fn number_run_end(s: Seq<char>, i: int) -> int
    decreases s.len() - i,
{
    if i < s.len() && is_number_char(s[i]) {
        number_run_end(s, i + 1)
    } else {
        i
    }
}

/// The end of the identifier run starting at `i`.
pub open spec fn ident_run_end(s: Seq<char>, i: int) -> int
    decreases s.len() - i,
{
    if i < s.len() && is_ident_char(s[i]) {
        ident_run_end(s, i + 1)
    } else {
        i
    }
}

/// The position of the next `'` at or after `i`, or the input's length.
pub open spec fn quote_end(s: Seq<char>, i: int) -> int
    decreases s.len() - i,
{
    if i < s.len() {
        if s[i] == '\'' {
            i
        } else {
            quote_end(s, i + 1)
        }
    } else {
        i
    }
}

/// The numeric value of a run of decimal digits.
pub open spec fn digits_val(s: Seq<char>) -> int
    decreases s.len(),
{
    if s.len() == 0 {
        0
    } else {
        digits_val(s.drop_last()) * 10 + (s.last() as int - '0' as int)
    }
}

// ---------------------------------------------------------------------------
// The flat pass: simple tokens and parenthesis markers.

/// One token of the flat pass: a parenthesis marker or a simple token.
#[derive(Debug, PartialEq)]
pub enum FlatTok {
    Open,
    Close,
    Tok(TokenValue),
}

/// The model of a flat token.
#[verifier::ext_equal]
pub enum FlatTokV {
    Open,
    Close,
    Tok(TokenV),
}

impl View for FlatTok {
    type V = FlatTokV;

    open spec fn view(&self) -> FlatTokV {
        match self {
            FlatTok::Open => FlatTokV::Open,
            FlatTok::Close => FlatTokV::Close,
            FlatTok::Tok(t) => FlatTokV::Tok(token_view(*t)),
        }
    }
}

/// The models of a flat token sequence, element by element.
pub open spec fn flat_views(s: Seq<FlatTok>) -> Seq<FlatTokV> {
    Seq::new(s.len(), |i: int| s[i]@)
}

/// What the numeric reader emits for the run `[i, j)`.
pub open spec fn number_token(s: Seq<char>, i: int, j: int) -> Result<TokenV, LexError> {
    let text = s.subrange(i, j);
    if crate::query::dot_count(text) == 0 {
        if digits_val(text) > i64::MAX {
            Err(LexError::NumberOverflow)
        } else {
            Ok(TokenV::Number(digits_val(text) as i64))
        }
    } else if crate::query::dot_count(text) == 1 {
        Ok(TokenV::Float(text))
    } else {
        Err(LexError::MalformedNumber)
    }
}

/// What the identifier reader emits for the word `[i, j)`: the boolean
/// literals become `Bool` tokens, every other word an `Identifier`.
pub open spec fn ident_token(s: Seq<char>, i: int, j: int) -> TokenV {
    let word = s.subrange(i, j);
    if word == ("true")@ {
        TokenV::Bool(true)
    } else if word == ("false")@ {
        TokenV::Bool(false)
    } else {
        TokenV::Identifier(word)
    }
}

/// The flat pass from position `i`: at each position the first reader that
/// matches consumes characters; no reader matching is a lexical failure.
pub open spec fn flat_lex_from(s: Seq<char>, i: int) -> Result<Seq<FlatTokV>, LexError>
    decreases s.len() - i,
    when 0 <= i
    via flat_lex_from_decreases
{
    if i >= s.len() {
        Ok(Seq::empty())
    } else if is_space(s[i]) {
        flat_lex_from(s, i + 1)
    } else if is_digit(s[i]) {
        let j = number_run_end(s, i);
        match number_token(s, i, j) {
            Err(e) => Err(e),
            Ok(t) => match flat_lex_from(s, j) {
                Err(e) => Err(e),
                Ok(rest) => Ok(seq![FlatTokV::Tok(t)] + rest),
            },
        }
    } else if s[i] == '\'' {
        let j = quote_end(s, i + 1);
        if j >= s.len() {
            Err(LexError::UnterminatedText)
        } else {
            match flat_lex_from(s, j + 1) {
                Err(e) => Err(e),
                Ok(rest) => Ok(seq![FlatTokV::Tok(TokenV::Text(s.subrange(i + 1, j)))] + rest),
            }
        }
    } else if s[i] == '=' || s[i] == '!' || s[i] == '#' {
        if i + 1 < s.len() && s[i + 1] == '=' {
            let op = if s[i] == '=' {
                Operand::Eq
            } else if s[i] == '!' {
                Operand::Neq
            } else {
                Operand::Rx
            };
            match flat_lex_from(s, i + 2) {
                Err(e) => Err(e),
                Ok(rest) => Ok(seq![FlatTokV::Tok(TokenV::Operand(op))] + rest),
            }
        } else {
            Err(LexError::UnexpectedChar)
        }
    } else if s[i] == '<' || s[i] == '>' {
        let two = i + 1 < s.len() && s[i + 1] == '=';
        let op = if s[i] == '<' {
            if two {
                Operand::LtE
            } else {
                Operand::Lt
            }
        } else {
            if two {
                Operand::GtE
            } else {
                Operand::Gt
            }
        };
        let j = if two {
            i + 2
        } else {
            i + 1
        };
        match flat_lex_from(s, j) {
            Err(e) => Err(e),
            Ok(rest) => Ok(seq![FlatTokV::Tok(TokenV::Operand(op))] + rest),
        }
    } else if s[i] == '&' || s[i] == '|' {
        if i + 1 < s.len() && s[i + 1] == s[i] {
            let op = if s[i] == '&' {
                Operator::And
            } else {
                Operator::Or
            };
            match flat_lex_from(s, i + 2) {
                Err(e) => Err(e),
                Ok(rest) => Ok(seq![FlatTokV::Tok(TokenV::Operator(op))] + rest),
            }
        } else {
            Err(LexError::UnexpectedChar)
        }
    } else if is_letter(s[i]) {
        let j = ident_run_end(s, i + 1);
        match flat_lex_from(s, j) {
            Err(e) => Err(e),
            Ok(rest) => Ok(seq![FlatTokV::Tok(ident_token(s, i, j))] + rest),
        }
    } else if s[i] == '(' {
        match flat_lex_from(s, i + 1) {
            Err(e) => Err(e),
            Ok(rest) => Ok(seq![FlatTokV::Open] + rest),
        }
    } else if s[i] == ')' {
        match flat_lex_from(s, i + 1) {
            Err(e) => Err(e),
            Ok(rest) => Ok(seq![FlatTokV::Close] + rest),
        }
    } else {
        Err(LexError::UnexpectedChar)
    }
}

pub proof fn lemma_number_run_end(s: Seq<char>, i: int)
    requires
        0 <= i <= s.len(),
    ensures
        i <= number_run_end(s, i) <= s.len(),
        forall|k: int| i <= k < number_run_end(s, i) ==> is_number_char(#[trigger] s[k]),
        number_run_end(s, i) < s.len() ==> !is_number_char(s[number_run_end(s, i)]),
    decreases s.len() - i,
{
    if i < s.len() && is_number_char(s[i]) {
        lemma_number_run_end(s, i + 1);
    }
}

pub proof fn lemma_ident_run_end(s: Seq<char>, i: int)
    requires
        0 <= i <= s.len(),
    ensures
        i <= ident_run_end(s, i) <= s.len(),
        forall|k: int| i <= k < ident_run_end(s, i) ==> is_ident_char(#[trigger] s[k]),
        ident_run_end(s, i) < s.len() ==> !is_ident_char(s[ident_run_end(s, i)]),
    decreases s.len() - i,
{
    if i < s.len() && is_ident_char(s[i]) {
        lemma_ident_run_end(s, i + 1);
    }
}

pub proof fn lemma_quote_end(s: Seq<char>, i: int)
    requires
        0 <= i <= s.len(),
    ensures
        i <= quote_end(s, i) <= s.len(),
        forall|k: int| i <= k < quote_end(s, i) ==> #[trigger] s[k] != '\'',
        quote_end(s, i) < s.len() ==> s[quote_end(s, i)] == '\'',
    decreases s.len() - i,
{
    if i < s.len() && s[i] != '\'' {
        lemma_quote_end(s, i + 1);
    }
}

#[via_fn]
proof fn flat_lex_from_decreases(s: Seq<char>, i: int) {
    if 0 <= i < s.len() {
        if is_digit(s[i]) {
            lemma_number_run_end(s, i);
        } else if is_letter(s[i]) {
            lemma_ident_run_end(s, i + 1);
        } else if s[i] == '\'' {
            lemma_quote_end(s, i + 1);
        }
    }
}

// ---------------------------------------------------------------------------
// The grouping pass: folding parenthesis markers into Grouped tokens.

/// One step of the grouping pass: the stack holds the tokens of each group
/// still open, outermost first.
pub open spec fn nest_step(stack: Seq<Seq<TokenV>>, t: FlatTokV) -> Result<
    Seq<Seq<TokenV>>,
    LexError,
> {
    match t {
        FlatTokV::Tok(tv) => Ok(
            stack.update(stack.len() - 1, stack.last().push(tv)),
        ),
        FlatTokV::Open => Ok(stack.push(Seq::empty())),
        FlatTokV::Close => if stack.len() >= 2 {
            let shorter = stack.drop_last();
            Ok(
                shorter.update(
                    shorter.len() - 1,
                    shorter.last().push(TokenV::Grouped(stack.last())),
                ),
            )
        } else {
            Err(LexError::UnexpectedChar)
        },
    }
}

/// The grouping pass over a flat token run, from a given stack.
pub open spec fn nest_run(flat: Seq<FlatTokV>, stack: Seq<Seq<TokenV>>) -> Result<
    Seq<Seq<TokenV>>,
    LexError,
>
    decreases flat.len(),
{
    if flat.len() == 0 {
        Ok(stack)
    } else {
        match nest_step(stack, flat[0]) {
            Err(e) => Err(e),
            Ok(st) => nest_run(flat.drop_first(), st),
        }
    }
}

/// The grouping pass over the whole flat stream: a group still open at the
/// end is a lexical failure.
pub open spec fn nest_all(flat: Seq<FlatTokV>) -> Result<Seq<TokenV>, LexError> {
    match nest_run(flat, seq![Seq::empty()]) {
        Err(e) => Err(e),
        Ok(st) => if st.len() == 1 {
            Ok(st[0])
        } else {
            Err(LexError::UnterminatedGroup)
        },
    }
}

/// The whole lexer: the flat pass, then the grouping pass.
pub open spec fn lex_spec(s: Seq<char>) -> Result<Seq<TokenV>, LexError> {
    match flat_lex_from(s, 0) {
        Err(e) => Err(e),
        Ok(flat) => nest_all(flat),
    }
}

// ---------------------------------------------------------------------------
// The parser.

/// The size of a token tree: groups count their contents.
pub open spec fn token_size(t: TokenV) -> nat
    decreases t,
{
    match t {
        TokenV::Grouped(ts) => 1 + tokens_size(ts),
        _ => 1,
    }
}

/// The summed size of a token sequence.
pub open spec fn tokens_size(ts: Seq<TokenV>) -> nat
    decreases ts,
{
    if ts.len() == 0 {
        0
    } else {
        token_size(ts[0]) + tokens_size(ts.drop_first())
    }
}

pub proof fn lemma_tokens_size_step(ts: Seq<TokenV>)
    requires
        ts.len() > 0,
    ensures
        tokens_size(ts) == token_size(ts[0]) + tokens_size(ts.drop_first()),
        tokens_size(ts) >= 1,
{
    assert(token_size(ts[0]) >= 1);
}

/// The value a literal token denotes, if the token is a literal.
pub open spec fn literal_value(t: TokenV) -> Option<ValueV> {
    match t {
        TokenV::Number(n) => Some(ValueV::Number(n)),
        TokenV::Float(s) => Some(ValueV::Float(s)),
        TokenV::Text(s) => Some(ValueV::Text(s)),
        TokenV::Bool(b) => Some(ValueV::Bool(b)),
        _ => None,
    }
}

/// The comparison leaf an operator token builds.
pub open spec fn comparison(op: Operand, field: Seq<char>, value: ValueV) -> QueryV {
    match op {
        Operand::Eq => QueryV::Eq { field, value },
        Operand::Neq => QueryV::Neq { field, value },
        Operand::Gt => QueryV::Gt { field, value },
        Operand::GtE => QueryV::GtE { field, value },
        Operand::Lt => QueryV::Lt { field, value },
        Operand::LtE => QueryV::LtE { field, value },
        Operand::Rx => QueryV::Rx { field, value },
    }
}

/// The recursive-descent parser over a token sequence with the pending
/// accumulator `acc`:
///
/// - an exhausted stream returns the accumulator;
/// - a group is parsed on its own from `Empty` and replaces the accumulator;
/// - a connective combines the accumulator with everything that follows,
///   parsed independently (chains are therefore right-associative); one with
///   nothing following fails;
/// - an identifier must be followed by a comparison operator and a literal
///   and builds a fresh leaf, discarding the accumulator;
/// - any other token at the head yields `Empty`.
pub open spec fn parse_spec(ts: Seq<TokenV>, acc: QueryV) -> Result<QueryV, ParseError>
    decreases tokens_size(ts),
    via parse_spec_decreases
{
    if ts.len() == 0 {
        Ok(acc)
    } else {
        let rest = ts.drop_first();
        match ts[0] {
            TokenV::Grouped(g) => match parse_spec(g, QueryV::Empty) {
                Err(e) => Err(e),
                Ok(q) => parse_spec(rest, q),
            },
            TokenV::Operator(op) => if rest.len() == 0 {
                Err(ParseError::DanglingConnective)
            } else {
                match parse_spec(rest, QueryV::Empty) {
                    Err(e) => Err(e),
                    Ok(r) => Ok(
                        if op is And {
                            QueryV::And { left: Box::new(acc), right: Box::new(r) }
                        } else {
                            QueryV::Or { left: Box::new(acc), right: Box::new(r) }
                        },
                    ),
                }
            },
            TokenV::Identifier(field) => if rest.len() < 2 {
                Err(ParseError::IncompleteComparison)
            } else {
                match rest[0] {
                    TokenV::Operand(op) => match literal_value(rest[1]) {
                        Some(v) => parse_spec(
                            rest.drop_first().drop_first(),
                            comparison(op, field, v),
                        ),
                        _ => Err(ParseError::ExpectedLiteral),
                    },
                    _ => Err(ParseError::ExpectedOperator),
                }
            },
            _ => Ok(QueryV::Empty),
        }
    }
}

#[via_fn]
proof fn parse_spec_decreases(ts: Seq<TokenV>, acc: QueryV) {
    if ts.len() > 0 {
        lemma_tokens_size_step(ts);
        let rest = ts.drop_first();
        match ts[0] {
            TokenV::Grouped(g) => {
                assert(tokens_size(g) < token_size(ts[0]));
            },
            TokenV::Identifier(_) => {
                if rest.len() >= 2 {
                    lemma_tokens_size_step(rest);
                    lemma_tokens_size_step(rest.drop_first());
                }
            },
            _ => {},
        }
    }
}

/// The whole textual front end: lex, then parse from `Empty`.
pub open spec fn from_str_spec(s: Seq<char>) -> Result<QueryV, QueryError> {
    match lex_spec(s) {
        Err(e) => Err(QueryError::Lex(e)),
        Ok(toks) => match parse_spec(toks, QueryV::Empty) {
            Err(e) => Err(QueryError::Parse(e)),
            Ok(q) => Ok(q),
        },
    }
}

// ---------------------------------------------------------------------------
// The executable readers.

#[verifier::when_used_as_spec(is_space)]
pub fn space_char(c: char) -> (b: bool)
    ensures
        b == is_space(c),
{
    c == ' ' || c == '\t' || c == '\n' || c == '\r' || c == ','
}

pub fn digit_char(c: char) -> (b: bool)
    ensures
        b == is_digit(c),
{
    '0' <= c && c <= '9'
}

#[verifier::when_used_as_spec(is_letter)]
pub fn letter_char(c: char) -> (b: bool)
    ensures
        b == is_letter(c),
{
    ('a' <= c && c <= 'z') || ('A' <= c && c <= 'Z')
}

#[verifier::when_used_as_spec(is_ident_char)]
pub fn ident_char(c: char) -> (b: bool)
    ensures
        b == is_ident_char(c),
{
    letter_char(c) || digit_char(c) || c == '.' || c == '_'
}

/// What one reader application yields: a token with the next position, a
/// consumed separator run, a failure, or no match at this position.
#[derive(Debug, PartialEq)]
pub enum ReadOutcome {
    Token(TokenValue, usize),
    Skip(usize),
    NoMatch,
    Fail(LexError),
}

/// Consumes a run of whitespace or comma separators.
#[derive(Debug, Clone, Copy, Eq, PartialEq, Hash)]
pub struct WhitespaceReader;

/// Reads a run of digits with an optional decimal point: an integer token
/// without one, a float token with one, a failure on more than one or on an
/// integer beyond the 64-bit signed range.
#[derive(Debug, Clone, Copy, Eq, PartialEq, Hash)]
pub struct NumberReader;

/// Reads a `'`-quoted text literal, unescaped.
#[derive(Debug, Clone, Copy, Eq, PartialEq, Hash)]
pub struct StringReader;

/// Reads a comparison operator: `==`, `!=`, `#=`, `<`, `<=`, `>`, `>=`.
#[derive(Debug, Clone, Copy, Eq, PartialEq, Hash)]
pub struct OperandReader;

/// Reads a connective operator: `&&` or `||`.
#[derive(Debug, Clone, Copy, Eq, PartialEq, Hash)]
pub struct OperatorReader;

/// Reads a word starting with a letter; `true` and `false` become boolean
/// tokens, every other word an identifier.
#[derive(Debug, Clone, Copy, Eq, PartialEq, Hash)]
pub struct IdentifierReader;

/// Folds the parenthesis markers of the flat pass into `Grouped` tokens.
#[derive(Debug, Clone, Copy, Eq, PartialEq, Hash)]
pub struct GroupedReader;

impl WhitespaceReader {
    /// Consumes the separator run starting at `i`, if there is one.
    pub fn read(s: &str, i: usize) -> (r: ReadOutcome)
        requires
            i < s@.len(),
        ensures
            !is_space(s@[i as int]) ==> r == ReadOutcome::NoMatch,
            is_space(s@[i as int]) ==> (r matches ReadOutcome::Skip(j) && i < j <= s@.len() && (
            forall|k: int| i <= k < j ==> is_space(#[trigger] s@[k])) && (j == s@.len() || !is_space(
                s@[j as int],
            ))),
    {
        let n = s.unicode_len();
        if !space_char(s.get_char(i)) {
            return ReadOutcome::NoMatch;
        }
        let mut j: usize = i + 1;
        while j < n && space_char(s.get_char(j))
            invariant
                i < j <= n,
                n == s@.len(),
                forall|k: int| i <= k < j ==> is_space(#[trigger] s@[k]),
            decreases n - j,
        {
            j += 1;
        }
        ReadOutcome::Skip(j)
    }
}

impl NumberReader {
    /// Reads the numeric run starting at `i`, if there is one.
    pub fn read(s: &str, i: usize) -> (r: ReadOutcome)
        requires
            i < s@.len(),
        ensures
            !is_digit(s@[i as int]) ==> r == ReadOutcome::NoMatch,
            is_digit(s@[i as int]) ==> (match number_token(
                s@,
                i as int,
                number_run_end(s@, i as int),
            ) {
                Ok(t) => r matches ReadOutcome::Token(tok, j) && tok@ == t && j == number_run_end(
                    s@,
                    i as int,
                ) && i < j <= s@.len(),
                Err(e) => r == ReadOutcome::Fail(e),
            }),
    {
        let n = s.unicode_len();
        if !digit_char(s.get_char(i)) {
            return ReadOutcome::NoMatch;
        }
        proof {
            lemma_number_run_end(s@, i as int);
        }
        let ghost end = number_run_end(s@, i as int);
        let mut j: usize = i;
        let mut dots: usize = 0;
        while j < n && (digit_char(s.get_char(j)) || s.get_char(j) == '.')
            invariant
                i <= j <= n,
                n == s@.len(),
                i < s@.len(),
                end == number_run_end(s@, i as int),
                number_run_end(s@, j as int) == end,
                forall|k: int| i <= k < j ==> is_number_char(#[trigger] s@[k]),
                dots <= j - i,
                dots == crate::query::dot_count(s@.subrange(i as int, j as int)),
            decreases n - j,
        {
            proof {
                assert(s@.subrange(i as int, j + 1 as int).drop_last() =~= s@.subrange(
                    i as int,
                    j as int,
                ));
            }
            if s.get_char(j) == '.' {
                dots += 1;
            }
            j += 1;
        }
        proof {
            assert(j == end);
            assert(s@.subrange(i as int, j as int).len() == j - i);
        }
        let ghost text = s@.subrange(i as int, end);
        if dots == 0 {
            // Convert the digit run, watching for 64-bit overflow.
            let mut acc: i64 = 0;
            let mut k: usize = i;
            while k < j
                invariant
                    i <= k <= j <= n,
                    n == s@.len(),
                    end == number_run_end(s@, i as int),
                    j == end,
                    i < s@.len(),
                    is_digit(s@[i as int]),
                    forall|q: int| i <= q < j ==> is_number_char(#[trigger] s@[q]),
                    crate::query::dot_count(s@.subrange(i as int, j as int)) == 0,
                    forall|q: int| i <= q < k ==> is_digit(#[trigger] s@[q]),
                    0 <= acc <= i64::MAX,
                    acc == digits_val(s@.subrange(i as int, k as int)),
                decreases j - k,
            {
                proof {
                    assert(s@.subrange(i as int, k + 1 as int).drop_last() =~= s@.subrange(
                        i as int,
                        k as int,
                    ));
                    lemma_dot_count_zero(s@.subrange(i as int, j as int), k - i);
                    assert(s@.subrange(i as int, j as int)[k - i] == s@[k as int]);
                }
                let c = s.get_char(k);
                proof {
                    assert(is_number_char(s@[k as int]) && s@[k as int] != '.');
                }
                let u: u32 = c as u32;
                proof {
                    assert('0' <= c && c <= '9');
                    assert(48 <= u <= 57);
                }
                let d: i64 = (u - 48) as i64;
                proof {
                    assert(d == c as int - '0' as int);
                }
                if acc > (i64::MAX - d) / 10 {
                    proof {
                        let run = s@.subrange(i as int, j as int);
                        assert forall|q: int| 0 <= q < run.len() implies is_digit(
                            #[trigger] run[q],
                        ) by {
                            lemma_dot_count_zero(run, q);
                        }
                        lemma_digits_val_grows(s@.subrange(i as int, j as int), k + 1 - i);
                        assert(digits_val(s@.subrange(i as int, k + 1 as int)) > i64::MAX) by (
                        nonlinear_arith)
                            requires
                                acc > (i64::MAX - d) / 10,
                                0 <= d <= 9,
                                0 <= acc,
                                digits_val(s@.subrange(i as int, k + 1 as int)) == acc * 10 + d,
                        ;
                        assert(s@.subrange(i as int, j as int).subrange(0, k + 1 - i) =~= s@
                            .subrange(i as int, k + 1 as int));
                    }
                    return ReadOutcome::Fail(LexError::NumberOverflow);
                }
                proof {
                    assert(acc * 10 + d <= i64::MAX) by (nonlinear_arith)
                        requires
                            0 <= acc <= (i64::MAX - d) / 10,
                            0 <= d <= 9,
                    ;
                }
                acc = acc * 10 + d;
                k += 1;
            }
            proof {
                assert(text =~= s@.subrange(i as int, j as int));
            }
            ReadOutcome::Token(TokenValue::Number(acc), j)
        } else if dots == 1 {
            let t = s.substring_char(i, j).to_owned();
            ReadOutcome::Token(TokenValue::Float(t), j)
        } else {
            ReadOutcome::Fail(LexError::MalformedNumber)
        }
    }
}

/// In a run without decimal points every character that is a digit or a
/// point is a digit.
proof fn lemma_dot_count_zero(t: Seq<char>, m: int)
    requires
        crate::query::dot_count(t) == 0,
        0 <= m < t.len(),
    ensures
        t[m] != '.',
    decreases t.len(),
{
    if m == t.len() - 1 {
    } else {
        lemma_dot_count_zero(t.drop_last(), m);
    }
}

/// A digit run's value only grows as digits are appended.
proof fn lemma_digits_val_grows(t: Seq<char>, m: int)
    requires
        0 <= m <= t.len(),
        forall|k: int| 0 <= k < t.len() ==> is_digit(#[trigger] t[k]),
    ensures
        digits_val(t) >= digits_val(t.subrange(0, m)),
        digits_val(t) >= 0,
    decreases t.len() - m,
{
    if m == t.len() {
        assert(t.subrange(0, m) =~= t);
        lemma_digits_val_nonneg(t);
    } else {
        lemma_digits_val_grows(t, m + 1);
        let a = t.subrange(0, m);
        let b = t.subrange(0, m + 1);
        assert(b.drop_last() =~= a);
        lemma_digits_val_nonneg(a);
        assert(digits_val(b) == digits_val(a) * 10 + (b.last() as int - '0' as int));
        assert(digits_val(a) * 10 >= digits_val(a)) by (nonlinear_arith)
            requires
                digits_val(a) >= 0,
        ;
    }
}

/// A digit run's value is never negative.
proof fn lemma_digits_val_nonneg(t: Seq<char>)
    requires
        forall|k: int| 0 <= k < t.len() ==> is_digit(#[trigger] t[k]),
    ensures
        digits_val(t) >= 0,
    decreases t.len(),
{
    if t.len() > 0 {
        lemma_digits_val_nonneg(t.drop_last());
        assert(digits_val(t.drop_last()) * 10 >= 0) by (nonlinear_arith)
            requires
                digits_val(t.drop_last()) >= 0,
        ;
    }
}

impl StringReader {
    /// Reads the quoted text starting at `i`, if there is one.
    pub fn read(s: &str, i: usize) -> (r: ReadOutcome)
        requires
            i < s@.len(),
        ensures
            s@[i as int] != '\'' ==> r == ReadOutcome::NoMatch,
            s@[i as int] == '\'' ==> (if quote_end(s@, i + 1) >= s@.len() {
                r == ReadOutcome::Fail(LexError::UnterminatedText)
            } else {
                r matches ReadOutcome::Token(tok, j) && tok@ == TokenV::Text(
                    s@.subrange(i + 1, quote_end(s@, i + 1)),
                ) && j == quote_end(s@, i + 1) + 1 && i < j <= s@.len()
            }),
    {
        let n = s.unicode_len();
        if s.get_char(i) != '\'' {
            return ReadOutcome::NoMatch;
        }
        proof {
            lemma_quote_end(s@, i + 1 as int);
        }
        let mut j: usize = i + 1;
        while j < n && s.get_char(j) != '\''
            invariant
                i + 1 <= j <= n,
                n == s@.len(),
                quote_end(s@, i + 1 as int) == quote_end(s@, j as int),
            decreases n - j,
        {
            j += 1;
        }
        if j == n {
            ReadOutcome::Fail(LexError::UnterminatedText)
        } else {
            let t = s.substring_char(i + 1, j).to_owned();
            ReadOutcome::Token(TokenValue::Text(t), j + 1)
        }
    }
}

impl OperandReader {
    /// Reads a comparison operator starting at `i`, if there is one.
    ///
    /// A `=`, `!` or `#` without a following `=` matches nothing, as in the
    /// grammar; `<` and `>` match on their own.
    pub fn read(s: &str, i: usize) -> (r: ReadOutcome)
        requires
            i < s@.len(),
        ensures
            ({
                let c = s@[i as int];
                &&& (c == '=' || c == '!' || c == '#') ==> (if i + 1 < s@.len() && s@[i + 1]
                    == '=' {
                    r == ReadOutcome::Token(
                        TokenValue::Operand(
                            if c == '=' {
                                Operand::Eq
                            } else if c == '!' {
                                Operand::Neq
                            } else {
                                Operand::Rx
                            },
                        ),
                        (i + 2) as usize,
                    )
                } else {
                    r == ReadOutcome::NoMatch
                })
                &&& (c == '<' || c == '>') ==> ({
                    let two = i + 1 < s@.len() && s@[i + 1] == '=';
                    r == ReadOutcome::Token(
                        TokenValue::Operand(
                            if c == '<' {
                                if two {
                                    Operand::LtE
                                } else {
                                    Operand::Lt
                                }
                            } else {
                                if two {
                                    Operand::GtE
                                } else {
                                    Operand::Gt
                                }
                            },
                        ),
                        if two {
                            (i + 2) as usize
                        } else {
                            (i + 1) as usize
                        },
                    )
                })
                &&& !(c == '=' || c == '!' || c == '#' || c == '<' || c == '>') ==> r
                    == ReadOutcome::NoMatch
            }),
    {
        let n = s.unicode_len();
        let c = s.get_char(i);
        if c == '=' || c == '!' || c == '#' {
            if i + 1 < n && s.get_char(i + 1) == '=' {
                let op = if c == '=' {
                    Operand::Eq
                } else if c == '!' {
                    Operand::Neq
                } else {
                    Operand::Rx
                };
                ReadOutcome::Token(TokenValue::Operand(op), i + 2)
            } else {
                ReadOutcome::NoMatch
            }
        } else if c == '<' || c == '>' {
            let two = i + 1 < n && s.get_char(i + 1) == '=';
            let op = if c == '<' {
                if two {
                    Operand::LtE
                } else {
                    Operand::Lt
                }
            } else {
                if two {
                    Operand::GtE
                } else {
                    Operand::Gt
                }
            };
            ReadOutcome::Token(TokenValue::Operand(op), if two { i + 2 } else { i + 1 })
        } else {
            ReadOutcome::NoMatch
        }
    }
}

impl OperatorReader {
    /// Reads a connective operator starting at `i`, if there is one; a lone
    /// `&` or `|` matches nothing.
    pub fn read(s: &str, i: usize) -> (r: ReadOutcome)
        requires
            i < s@.len(),
        ensures
            ({
                let c = s@[i as int];
                &&& (c == '&' || c == '|') ==> (if i + 1 < s@.len() && s@[i + 1] == c {
                    r == ReadOutcome::Token(
                        TokenValue::Operator(
                            if c == '&' {
                                Operator::And
                            } else {
                                Operator::Or
                            },
                        ),
                        (i + 2) as usize,
                    )
                } else {
                    r == ReadOutcome::NoMatch
                })
                &&& !(c == '&' || c == '|') ==> r == ReadOutcome::NoMatch
            }),
    {
        let n = s.unicode_len();
        let c = s.get_char(i);
        if c == '&' || c == '|' {
            if i + 1 < n && s.get_char(i + 1) == c {
                let op = if c == '&' {
                    Operator::And
                } else {
                    Operator::Or
                };
                ReadOutcome::Token(TokenValue::Operator(op), i + 2)
            } else {
                ReadOutcome::NoMatch
            }
        } else {
            ReadOutcome::NoMatch
        }
    }
}

impl IdentifierReader {
    /// Reads the word starting at `i`, if a letter starts one.
    pub fn read(s: &str, i: usize) -> (r: ReadOutcome)
        requires
            i < s@.len(),
        ensures
            !is_letter(s@[i as int]) ==> r == ReadOutcome::NoMatch,
            is_letter(s@[i as int]) ==> (r matches ReadOutcome::Token(tok, j) && tok@
                == ident_token(s@, i as int, ident_run_end(s@, i + 1)) && j == ident_run_end(
                s@,
                i + 1,
            ) && i < j <= s@.len()),
    {
        let n = s.unicode_len();
        if !letter_char(s.get_char(i)) {
            return ReadOutcome::NoMatch;
        }
        proof {
            lemma_ident_run_end(s@, i + 1 as int);
        }
        let mut j: usize = i + 1;
        while j < n && ident_char(s.get_char(j))
            invariant
                i + 1 <= j <= n,
                n == s@.len(),
                ident_run_end(s@, i + 1 as int) == ident_run_end(s@, j as int),
            decreases n - j,
        {
            j += 1;
        }
        let word = s.substring_char(i, j).to_owned();
        let tok = if word == String::from_str("true") {
            TokenValue::Bool(true)
        } else if word == String::from_str("false") {
            TokenValue::Bool(false)
        } else {
            TokenValue::Identifier(word)
        };
        ReadOutcome::Token(tok, j)
    }
}

impl Clone for TokenValue {
    /// The copy has the same model as the original.
    fn clone(&self) -> (r: Self)
        ensures
            r@ == self@,
        decreases *self,
    {
        match self {
            TokenValue::Number(n) => TokenValue::Number(*n),
            TokenValue::Float(s) => TokenValue::Float(crate::query::clone_string(s)),
            TokenValue::Text(s) => TokenValue::Text(crate::query::clone_string(s)),
            TokenValue::Bool(b) => TokenValue::Bool(*b),
            TokenValue::Operand(o) => TokenValue::Operand(*o),
            TokenValue::Operator(o) => TokenValue::Operator(*o),
            TokenValue::Identifier(s) => TokenValue::Identifier(crate::query::clone_string(s)),
            TokenValue::Grouped(ts) => {
                let mut out: Vec<TokenValue> = Vec::new();
                let mut i: usize = 0;
                while i < ts.len()
                    invariant
                        *self == TokenValue::Grouped(*ts),
                        i <= ts.len(),
                        out@.len() == i,
                        forall|j: int|
                            0 <= j < i ==> token_view(#[trigger] out@[j]) == token_view(ts@[j]),
                    decreases ts.len() - i,
                {
                    proof {
                        broadcast use vstd::std_specs::vec::axiom_vec_index_decreases;

                        assert(decreases_to!(*self => self->Grouped_0));
                        assert(self->Grouped_0 == *ts);
                        assert(decreases_to!(*ts => ts@[i as int]));
                    }
                    out.push(ts[i].clone());
                    i += 1;
                }
                let r = TokenValue::Grouped(out);
                proof {
                    assert(token_view(r)->Grouped_0 =~= token_view(*self)->Grouped_0);
                }
                r
            },
        }
    }
}

// ---------------------------------------------------------------------------
// The executable lexer passes.

/// The models of a stack of open groups, element by element.
pub open spec fn stack_views(s: Seq<Vec<TokenValue>>) -> Seq<Seq<TokenV>> {
    Seq::new(s.len(), |i: int| token_views(s[i]@))
}

impl GroupedReader {
    /// Folds one flat token into the stack of open groups, per
    /// [`nest_step`].
    pub fn read(stack: &mut Vec<Vec<TokenValue>>, t: &FlatTok) -> (r: Result<(), LexError>)
        requires
            old(stack)@.len() >= 1,
        ensures
            match nest_step(stack_views(old(stack)@), t@) {
                Ok(st) => r is Ok && stack_views(final(stack)@) == st && final(stack)@.len() >= 1,
                Err(e) => r == Err::<(), LexError>(e),
            },
    {
        let ghost pre = stack_views(old(stack)@);
        match t {
            FlatTok::Tok(tv) => {
                let mut top = stack.pop().unwrap();
                top.push(tv.clone());
                stack.push(top);
                proof {
                    assert(token_views(top@) =~= pre.last().push(token_view(*tv)));
                    assert(stack_views(stack@) =~= pre.update(
                        pre.len() - 1,
                        pre.last().push(token_view(*tv)),
                    ));
                }
                Ok(())
            },
            FlatTok::Open => {
                stack.push(Vec::new());
                proof {
                    assert(token_views(Seq::<TokenValue>::empty()) =~= Seq::<TokenV>::empty());
                    assert(stack_views(stack@) =~= pre.push(Seq::empty()));
                }
                Ok(())
            },
            FlatTok::Close => {
                if stack.len() >= 2 {
                    let g = stack.pop().unwrap();
                    let mut top = stack.pop().unwrap();
                    let grouped = TokenValue::Grouped(g);
                    proof {
                        assert(token_view(grouped)->Grouped_0 =~= pre.last());
                    }
                    top.push(grouped);
                    stack.push(top);
                    proof {
                        let shorter = pre.drop_last();
                        assert(token_views(top@) =~= shorter.last().push(
                            TokenV::Grouped(pre.last()),
                        ));
                        assert(stack_views(stack@) =~= shorter.update(
                            shorter.len() - 1,
                            shorter.last().push(TokenV::Grouped(pre.last())),
                        ));
                    }
                    Ok(())
                } else {
                    Err(LexError::UnexpectedChar)
                }
            },
        }
    }
}

/// Prepends already-read flat tokens to the outcome of the rest of the
/// input.
pub open spec fn prepend_flat(p: Seq<FlatTokV>, r: Result<Seq<FlatTokV>, LexError>) -> Result<
    Seq<FlatTokV>,
    LexError,
> {
    match r {
        Ok(ts) => Ok(p + ts),
        Err(e) => Err(e),
    }
}

pub proof fn lemma_prepend_assoc(a: Seq<FlatTokV>, b: Seq<FlatTokV>, r: Result<Seq<FlatTokV>, LexError>)
    ensures
        prepend_flat(a, prepend_flat(b, r)) == prepend_flat(a + b, r),
{
    match r {
        Ok(ts) => {
            assert(a + (b + ts) =~= (a + b) + ts);
        },
        Err(_) => {},
    }
}

/// Skipping over separators does not change what the flat pass yields.
pub proof fn lemma_flat_skip_spaces(s: Seq<char>, i: int, j: int)
    requires
        0 <= i <= j <= s.len(),
        forall|k: int| i <= k < j ==> is_space(#[trigger] s[k]),
    ensures
        flat_lex_from(s, i) == flat_lex_from(s, j),
    decreases j - i,
{
    if i < j {
        lemma_flat_skip_spaces(s, i + 1, j);
    }
}

/// The flat pass: applies the readers at each position, in priority order.
fn flat_pass(s: &str) -> (r: Result<Vec<FlatTok>, LexError>)
    ensures
        match flat_lex_from(s@, 0) {
            Ok(fl) => r matches Ok(v) && flat_views(v@) == fl,
            Err(e) => r == Err::<Vec<FlatTok>, LexError>(e),
        },
{
    let n = s.unicode_len();
    let mut out: Vec<FlatTok> = Vec::new();
    let mut i: usize = 0;
    while i < n
        invariant
            0 <= i <= n,
            n == s@.len(),
            flat_lex_from(s@, 0) == prepend_flat(flat_views(out@), flat_lex_from(s@, i as int)),
        decreases n - i,
    {
        let ghost done = flat_views(out@);
        let ghost ii = i as int;
        match WhitespaceReader::read(s, i) {
            ReadOutcome::Skip(j) => {
                proof {
                    lemma_flat_skip_spaces(s@, ii, j as int);
                }
                i = j;
                continue ;
            },
            _ => {},
        }
        match NumberReader::read(s, i) {
            ReadOutcome::Token(tok, j) => {
                proof {
                    lemma_prepend_assoc(
                        done,
                        seq![FlatTokV::Tok(tok@)],
                        flat_lex_from(s@, j as int),
                    );
                }
                out.push(FlatTok::Tok(tok));
                proof {
                    assert(flat_views(out@) =~= done + seq![FlatTokV::Tok(
                        token_view(out@.last()->Tok_0),
                    )]);
                }
                i = j;
                continue ;
            },
            ReadOutcome::Fail(e) => {
                return Err(e);
            },
            _ => {},
        }
        match StringReader::read(s, i) {
            ReadOutcome::Token(tok, j) => {
                proof {
                    lemma_prepend_assoc(
                        done,
                        seq![FlatTokV::Tok(tok@)],
                        flat_lex_from(s@, j as int),
                    );
                }
                out.push(FlatTok::Tok(tok));
                proof {
                    assert(flat_views(out@) =~= done + seq![FlatTokV::Tok(
                        token_view(out@.last()->Tok_0),
                    )]);
                }
                i = j;
                continue ;
            },
            ReadOutcome::Fail(e) => {
                return Err(e);
            },
            _ => {},
        }
        match OperandReader::read(s, i) {
            ReadOutcome::Token(tok, j) => {
                proof {
                    lemma_prepend_assoc(
                        done,
                        seq![FlatTokV::Tok(tok@)],
                        flat_lex_from(s@, j as int),
                    );
                }
                out.push(FlatTok::Tok(tok));
                proof {
                    assert(flat_views(out@) =~= done + seq![FlatTokV::Tok(
                        token_view(out@.last()->Tok_0),
                    )]);
                }
                i = j;
                continue ;
            },
            _ => {},
        }
        match OperatorReader::read(s, i) {
            ReadOutcome::Token(tok, j) => {
                proof {
                    lemma_prepend_assoc(
                        done,
                        seq![FlatTokV::Tok(tok@)],
                        flat_lex_from(s@, j as int),
                    );
                }
                out.push(FlatTok::Tok(tok));
                proof {
                    assert(flat_views(out@) =~= done + seq![FlatTokV::Tok(
                        token_view(out@.last()->Tok_0),
                    )]);
                }
                i = j;
                continue ;
            },
            _ => {},
        }
        match IdentifierReader::read(s, i) {
            ReadOutcome::Token(tok, j) => {
                proof {
                    lemma_prepend_assoc(
                        done,
                        seq![FlatTokV::Tok(tok@)],
                        flat_lex_from(s@, j as int),
                    );
                }
                out.push(FlatTok::Tok(tok));
                proof {
                    assert(flat_views(out@) =~= done + seq![FlatTokV::Tok(
                        token_view(out@.last()->Tok_0),
                    )]);
                }
                i = j;
                continue ;
            },
            _ => {},
        }
        let c = s.get_char(i);
        if c == '(' {
            proof {
                lemma_prepend_assoc(done, seq![FlatTokV::Open], flat_lex_from(s@, ii + 1));
            }
            out.push(FlatTok::Open);
            proof {
                assert(flat_views(out@) =~= done + seq![FlatTokV::Open]);
            }
            i = i + 1;
        } else if c == ')' {
            proof {
                lemma_prepend_assoc(done, seq![FlatTokV::Close], flat_lex_from(s@, ii + 1));
            }
            out.push(FlatTok::Close);
            proof {
                assert(flat_views(out@) =~= done + seq![FlatTokV::Close]);
            }
            i = i + 1;
        } else {
            return Err(LexError::UnexpectedChar);
        }
    }
    proof {
        assert(flat_views(out@) + Seq::<FlatTokV>::empty() =~= flat_views(out@));
    }
    Ok(out)
}

pub proof fn lemma_nest_run_concat(a: Seq<FlatTokV>, b: Seq<FlatTokV>, st: Seq<Seq<TokenV>>)
    ensures
        nest_run(a + b, st) == (match nest_run(a, st) {
            Ok(st2) => nest_run(b, st2),
            Err(e) => Err(e),
        }),
    decreases a.len(),
{
    if a.len() == 0 {
        assert(a + b =~= b);
    } else {
        assert((a + b)[0] == a[0]);
        assert((a + b).drop_first() =~= a.drop_first() + b);
        match nest_step(st, a[0]) {
            Ok(st2) => {
                lemma_nest_run_concat(a.drop_first(), b, st2);
            },
            Err(_) => {},
        }
    }
}

/// The grouping pass over the flat stream.
fn nest_pass(flat: &Vec<FlatTok>) -> (r: Result<Vec<TokenValue>, LexError>)
    ensures
        match nest_all(flat_views(flat@)) {
            Ok(ts) => r matches Ok(v) && token_views(v@) == ts,
            Err(e) => r == Err::<Vec<TokenValue>, LexError>(e),
        },
{
    let ghost full = flat_views(flat@);
    let ghost init = seq![Seq::<TokenV>::empty()];
    let mut stack: Vec<Vec<TokenValue>> = Vec::new();
    stack.push(Vec::new());
    proof {
        assert(token_views(Seq::<TokenValue>::empty()) =~= Seq::<TokenV>::empty());
        assert(stack_views(stack@) =~= init);
        assert(full.subrange(0, 0) =~= Seq::<FlatTokV>::empty());
    }
    let mut i: usize = 0;
    while i < flat.len()
        invariant
            0 <= i <= flat@.len(),
            full == flat_views(flat@),
            init == seq![Seq::<TokenV>::empty()],
            stack@.len() >= 1,
            nest_run(full.subrange(0, i as int), init) == Ok::<_, LexError>(stack_views(stack@)),
        decreases flat@.len() - i,
    {
        let ghost pre = full.subrange(0, i as int);
        let ghost st_pre = stack_views(stack@);
        proof {
            assert(full.subrange(0, i + 1 as int) =~= pre + seq![full[i as int]]);
            lemma_nest_run_concat(pre, seq![full[i as int]], init);
            assert(seq![full[i as int]].drop_first() =~= Seq::<FlatTokV>::empty());
            assert(full.subrange(i as int, full.len() as int)[0] == full[i as int]);
        }
        match GroupedReader::read(&mut stack, &flat[i]) {
            Ok(()) => {
                proof {
                    let x = full[i as int];
                    assert(seq![x][0] == x);
                    match nest_step(st_pre, x) {
                        Ok(st2) => {
                            assert(nest_run(seq![x].drop_first(), st2) == Ok::<_, LexError>(st2));
                            assert(nest_run(seq![x], st_pre) == Ok::<_, LexError>(st2));
                        },
                        Err(_) => {
                            assert(false);
                        },
                    }
                    assert(nest_run(full.subrange(0, i + 1 as int), init) == Ok::<_, LexError>(
                        stack_views(stack@),
                    ));
                }
            },
            Err(e) => {
                proof {
                    assert(full =~= pre + full.subrange(i as int, full.len() as int));
                    lemma_nest_run_concat(pre, full.subrange(i as int, full.len() as int), init);
                }
                return Err(e);
            },
        }
        i += 1;
    }
    proof {
        assert(full.subrange(0, full.len() as int) =~= full);
    }
    if stack.len() == 1 {
        let ghost st = stack_views(stack@);
        let top = match stack.pop() {
            Some(t) => t,
            None => {
                proof {
                    assert(false);
                }
                Vec::new()
            },
        };
        proof {
            assert(token_views(top@) == st[0]);
        }
        Ok(top)
    } else {
        Err(LexError::UnterminatedGroup)
    }
}

// ---------------------------------------------------------------------------
// The executable parser.

/// The model of a parse outcome.
pub open spec fn parse_res_view(r: Result<Query, ParseError>) -> Result<QueryV, ParseError> {
    match r {
        Ok(q) => Ok(q@),
        Err(e) => Err(e),
    }
}

proof fn lemma_suffix_step(tv: Seq<TokenV>, i: int)
    requires
        0 <= i < tv.len(),
    ensures
        tv.subrange(i, tv.len() as int)[0] == tv[i],
        tv.subrange(i, tv.len() as int).drop_first() =~= tv.subrange(i + 1, tv.len() as int),
        tokens_size(tv.subrange(i, tv.len() as int)) == token_size(tv[i]) + tokens_size(
            tv.subrange(i + 1, tv.len() as int),
        ),
        tokens_size(tv.subrange(i, tv.len() as int)) >= 1,
{
    assert(tv.subrange(i, tv.len() as int).drop_first() =~= tv.subrange(i + 1, tv.len() as int));
    lemma_tokens_size_step(tv.subrange(i, tv.len() as int));
}

/// The recursive-descent parser over the tokens from position `i` on, per
/// [`parse_spec`].
fn parse_at(tokens: &Vec<TokenValue>, i: usize, acc: Query) -> (r: Result<Query, ParseError>)
    requires
        i <= tokens@.len(),
    ensures
        parse_res_view(r) == parse_spec(
            token_views(tokens@).subrange(i as int, tokens@.len() as int),
            acc@,
        ),
    decreases tokens_size(token_views(tokens@).subrange(i as int, tokens@.len() as int)),
{
    let ghost tv = token_views(tokens@);
    let ghost suffix = tv.subrange(i as int, tv.len() as int);
    if i == tokens.len() {
        proof {
            assert(suffix.len() == 0);
        }
        return Ok(acc);
    }
    proof {
        lemma_suffix_step(tv, i as int);
    }
    let ghost rest = suffix.drop_first();
    match &tokens[i] {
        TokenValue::Grouped(g) => {
            let ghost gv = suffix[0]->Grouped_0;
            proof {
                assert(gv =~= token_views(g@));
                assert(token_views(g@).subrange(0, g@.len() as int) =~= token_views(g@));
                assert(tokens_size(gv) < token_size(suffix[0]));
            }
            let q = match parse_at(g, 0, Query::Empty) {
                Ok(q) => q,
                Err(e) => {
                    return Err(e);
                },
            };
            parse_at(tokens, i + 1, q)
        },
        TokenValue::Operator(op) => {
            if i + 1 == tokens.len() {
                proof {
                    assert(rest.len() == 0);
                }
                return Err(ParseError::DanglingConnective);
            }
            let r = match parse_at(tokens, i + 1, Query::Empty) {
                Ok(r) => r,
                Err(e) => {
                    return Err(e);
                },
            };
            match op {
                Operator::And => Ok(
                    Query::And { left: Box::new(acc), right: Box::new(r) },
                ),
                Operator::Or => Ok(Query::Or { left: Box::new(acc), right: Box::new(r) }),
            }
        },
        TokenValue::Identifier(f) => {
            let rem = tokens.len() - i;
            if rem < 3 {
                proof {
                    assert(rest.len() < 2);
                }
                return Err(ParseError::IncompleteComparison);
            }
            proof {
                lemma_suffix_step(tv, i + 1 as int);
                lemma_suffix_step(tv, i + 2 as int);
                assert(rest[0] == tv[i + 1 as int]);
                assert(rest[1] == tv[i + 2 as int]);
                assert(rest.drop_first() =~= tv.subrange(i + 2 as int, tv.len() as int));
                assert(rest.drop_first().drop_first() =~= tv.subrange(
                    i + 3 as int,
                    tv.len() as int,
                ));
            }
            match &tokens[i + 1] {
                TokenValue::Operand(op) => {
                    let v: Value = match &tokens[i + 2] {
                        TokenValue::Number(n) => Value::Number(*n),
                        TokenValue::Float(t) => Value::Float(crate::query::clone_string(t)),
                        TokenValue::Text(s) => Value::Text(crate::query::clone_string(s)),
                        TokenValue::Bool(b) => Value::Bool(*b),
                        _ => {
                            return Err(ParseError::ExpectedLiteral);
                        },
                    };
                    let field = crate::query::clone_string(f);
                    let leaf = match op {
                        Operand::Eq => Query::Eq { field, value: v },
                        Operand::Neq => Query::Neq { field, value: v },
                        Operand::Gt => Query::Gt { field, value: v },
                        Operand::GtE => Query::GtE { field, value: v },
                        Operand::Lt => Query::Lt { field, value: v },
                        Operand::LtE => Query::LtE { field, value: v },
                        Operand::Rx => Query::Rx { field, value: v },
                    };
                    proof {
                        assert(leaf@ == comparison(*op, f@, literal_value(rest[1])->Some_0));
                    }
                    parse_at(tokens, i + 3, leaf)
                },
                _ => Err(ParseError::ExpectedOperator),
            }
        },
        _ => {
            proof {
                assert(!(suffix[0] is Grouped) && !(suffix[0] is Operator) && !(suffix[0]
                    is Identifier));
            }
            Ok(Query::Empty)
        },
    }
}

// ---------------------------------------------------------------------------
// Well-formedness of parsed predicates.

/// Every float token inside the token tree carries well-formed decimal
/// text.
pub open spec fn token_floats_valid(t: TokenV) -> bool
    decreases t,
{
    match t {
        TokenV::Float(txt) => crate::query::valid_float_text(txt),
        TokenV::Grouped(ts) => forall|i: int|
            0 <= i < ts.len() ==> token_floats_valid(#[trigger] ts[i]),
        _ => true,
    }
}

pub open spec fn tokens_floats_valid(ts: Seq<TokenV>) -> bool {
    forall|i: int| 0 <= i < ts.len() ==> token_floats_valid(#[trigger] ts[i])
}

pub open spec fn flat_floats_valid(f: FlatTokV) -> bool {
    match f {
        FlatTokV::Tok(t) => token_floats_valid(t),
        _ => true,
    }
}

pub open spec fn stack_floats_valid(st: Seq<Seq<TokenV>>) -> bool {
    forall|i: int| 0 <= i < st.len() ==> tokens_floats_valid(#[trigger] st[i])
}

/// Every float token the flat pass emits carries well-formed decimal text:
/// the lexer only builds a float from a digit run with one decimal point.
proof fn lemma_flat_floats_valid(s: Seq<char>, i: int)
    requires
        0 <= i,
    ensures
        match flat_lex_from(s, i) {
            Ok(fl) => forall|j: int| 0 <= j < fl.len() ==> flat_floats_valid(#[trigger] fl[j]),
            Err(_) => true,
        },
    decreases s.len() - i,
{
    if i >= s.len() {
        return ;
    }
    if is_space(s[i]) {
        lemma_flat_floats_valid(s, i + 1);
    } else if is_digit(s[i]) {
        let j = number_run_end(s, i);
        lemma_number_run_end(s, i);
        assert(j > i);
        lemma_flat_floats_valid(s, j);
        match number_token(s, i, j) {
            Ok(t) => {
                let text = s.subrange(i, j);
                if t is Float {
                    assert(text[0] == s[i]);
                    assert(crate::query::valid_float_text(text));
                }
                match flat_lex_from(s, j) {
                    Ok(rest) => {
                        let fl = seq![FlatTokV::Tok(t)] + rest;
                        assert forall|k: int| 0 <= k < fl.len() implies flat_floats_valid(
                            #[trigger] fl[k],
                        ) by {
                            if k > 0 {
                                assert(fl[k] == rest[k - 1]);
                            }
                        }
                    },
                    Err(_) => {},
                }
            },
            Err(_) => {},
        }
    } else if s[i] == '\'' {
        let j = quote_end(s, i + 1);
        lemma_quote_end(s, i + 1);
        if j < s.len() {
            lemma_flat_floats_valid(s, j + 1);
            match flat_lex_from(s, j + 1) {
                Ok(rest) => {
                    let fl = seq![FlatTokV::Tok(TokenV::Text(s.subrange(i + 1, j)))] + rest;
                    assert forall|k: int| 0 <= k < fl.len() implies flat_floats_valid(
                        #[trigger] fl[k],
                    ) by {
                        if k > 0 {
                            assert(fl[k] == rest[k - 1]);
                        }
                    }
                },
                Err(_) => {},
            }
        }
    } else if s[i] == '=' || s[i] == '!' || s[i] == '#' {
        if i + 1 < s.len() && s[i + 1] == '=' {
            lemma_flat_floats_valid(s, i + 2);
            lemma_flat_step_valid(s, i + 2);
        }
    } else if s[i] == '<' || s[i] == '>' {
        let two = i + 1 < s.len() && s[i + 1] == '=';
        let j = if two {
            i + 2
        } else {
            i + 1
        };
        lemma_flat_floats_valid(s, j);
        lemma_flat_step_valid(s, j);
    } else if s[i] == '&' || s[i] == '|' {
        if i + 1 < s.len() && s[i + 1] == s[i] {
            lemma_flat_floats_valid(s, i + 2);
            lemma_flat_step_valid(s, i + 2);
        }
    } else if is_letter(s[i]) {
        let j = ident_run_end(s, i + 1);
        lemma_ident_run_end(s, i + 1);
        lemma_flat_floats_valid(s, j);
        lemma_flat_step_valid(s, j);
    } else if s[i] == '(' || s[i] == ')' {
        lemma_flat_floats_valid(s, i + 1);
        lemma_flat_step_valid(s, i + 1);
    }
}

/// One flat token other than a float, prepended to a valid rest, stays
/// valid.
proof fn lemma_flat_step_valid(s: Seq<char>, j: int)
    requires
        match flat_lex_from(s, j) {
            Ok(rest) => forall|k: int| 0 <= k < rest.len() ==> flat_floats_valid(
                #[trigger] rest[k],
            ),
            Err(_) => true,
        },
    ensures
        forall|x: FlatTokV|
            flat_floats_valid(x) ==> (match flat_lex_from(s, j) {
                Ok(rest) => forall|k: int|
                    0 <= k < (seq![x] + rest).len() ==> flat_floats_valid(
                        #[trigger] (seq![x] + rest)[k],
                    ),
                Err(_) => true,
            }),
{
    match flat_lex_from(s, j) {
        Ok(rest) => {
            assert forall|x: FlatTokV| flat_floats_valid(x) implies (forall|k: int|
                0 <= k < (seq![x] + rest).len() ==> flat_floats_valid(
                    #[trigger] (seq![x] + rest)[k],
                )) by {
                let fl = seq![x] + rest;
                assert forall|k: int| 0 <= k < fl.len() implies flat_floats_valid(
                    #[trigger] fl[k],
                ) by {
                    if k > 0 {
                        assert(fl[k] == rest[k - 1]);
                    }
                }
            }
        },
        Err(_) => {},
    }
}

/// The grouping pass preserves float-text well-formedness.
proof fn lemma_nest_floats_valid(flat: Seq<FlatTokV>, st: Seq<Seq<TokenV>>)
    requires
        st.len() >= 1,
        forall|j: int| 0 <= j < flat.len() ==> flat_floats_valid(#[trigger] flat[j]),
        stack_floats_valid(st),
    ensures
        match nest_run(flat, st) {
            Ok(st2) => stack_floats_valid(st2),
            Err(_) => true,
        },
    decreases flat.len(),
{
    if flat.len() == 0 {
        return ;
    }
    match nest_step(st, flat[0]) {
        Ok(st2) => {
            assert(stack_floats_valid(st2)) by {
                match flat[0] {
                    FlatTokV::Tok(tv) => {
                        assert(st.last() == st[st.len() - 1]);
                        assert(tokens_floats_valid(st.last()));
                        let top = st.last().push(tv);
                        assert forall|k: int| 0 <= k < top.len() implies token_floats_valid(
                            #[trigger] top[k],
                        ) by {
                            if k < top.len() - 1 {
                                assert(top[k] == st.last()[k]);
                            }
                        }
                        assert forall|i2: int| 0 <= i2 < st2.len() implies tokens_floats_valid(
                            #[trigger] st2[i2],
                        ) by {
                            if i2 < st2.len() - 1 {
                                assert(st2[i2] == st[i2]);
                            }
                        }
                    },
                    FlatTokV::Open => {
                        assert forall|i2: int| 0 <= i2 < st2.len() implies tokens_floats_valid(
                            #[trigger] st2[i2],
                        ) by {
                            if i2 < st2.len() - 1 {
                                assert(st2[i2] == st[i2]);
                            }
                        }
                    },
                    FlatTokV::Close => {
                        let shorter = st.drop_last();
                        assert(st.last() == st[st.len() - 1]);
                        assert(tokens_floats_valid(st.last()));
                        assert(shorter.last() == st[st.len() - 2]);
                        assert(tokens_floats_valid(shorter.last()));
                        let grouped = TokenV::Grouped(st.last());
                        assert(token_floats_valid(grouped));
                        let top = shorter.last().push(grouped);
                        assert forall|k: int| 0 <= k < top.len() implies token_floats_valid(
                            #[trigger] top[k],
                        ) by {
                            if k < top.len() - 1 {
                                assert(top[k] == shorter.last()[k]);
                            }
                        }
                        assert forall|i2: int| 0 <= i2 < st2.len() implies tokens_floats_valid(
                            #[trigger] st2[i2],
                        ) by {
                            if i2 < st2.len() - 1 {
                                assert(st2[i2] == shorter[i2]);
                                assert(st2[i2] == st[i2]);
                            }
                        }
                    },
                }
            }
            assert(st2.len() >= 1) by {
                match flat[0] {
                    FlatTokV::Close => {},
                    _ => {},
                }
            }
            lemma_nest_floats_valid(flat.drop_first(), st2);
        },
        Err(_) => {},
    }
}

/// The parser preserves float-text well-formedness.
proof fn lemma_parse_floats_valid(ts: Seq<TokenV>, acc: QueryV)
    requires
        tokens_floats_valid(ts),
        crate::query::query_floats_valid(acc),
    ensures
        match parse_spec(ts, acc) {
            Ok(q) => crate::query::query_floats_valid(q),
            Err(_) => true,
        },
    decreases tokens_size(ts),
{
    if ts.len() == 0 {
        return ;
    }
    lemma_tokens_size_step(ts);
    let rest = ts.drop_first();
    assert(tokens_floats_valid(rest)) by {
        assert forall|k: int| 0 <= k < rest.len() implies token_floats_valid(
            #[trigger] rest[k],
        ) by {
            assert(rest[k] == ts[k + 1]);
        }
    }
    match ts[0] {
        TokenV::Grouped(g) => {
            assert(tokens_floats_valid(g));
            assert(tokens_size(g) < token_size(ts[0]));
            lemma_parse_floats_valid(g, QueryV::Empty);
            match parse_spec(g, QueryV::Empty) {
                Ok(q) => {
                    lemma_parse_floats_valid(rest, q);
                },
                Err(_) => {},
            }
        },
        TokenV::Operator(_) => {
            if rest.len() > 0 {
                lemma_parse_floats_valid(rest, QueryV::Empty);
            }
        },
        TokenV::Identifier(field) => {
            if rest.len() >= 2 {
                match rest[0] {
                    TokenV::Operand(op) => {
                        match literal_value(rest[1]) {
                            Some(v) => {
                                assert(token_floats_valid(rest[1]));
                                assert(crate::query::value_floats_valid(v));
                                let leaf = comparison(op, field, v);
                                assert(crate::query::query_floats_valid(leaf));
                                lemma_tokens_size_step(rest);
                                lemma_tokens_size_step(rest.drop_first());
                                assert(tokens_floats_valid(rest.drop_first().drop_first())) by {
                                    let r2 = rest.drop_first().drop_first();
                                    assert forall|k: int|
                                        0 <= k < r2.len() implies token_floats_valid(
                                        #[trigger] r2[k],
                                    ) by {
                                        assert(r2[k] == rest[k + 2]);
                                    }
                                }
                                lemma_parse_floats_valid(
                                    rest.drop_first().drop_first(),
                                    leaf,
                                );
                            },
                            _ => {},
                        }
                    },
                    _ => {},
                }
            }
        },
        _ => {},
    }
}

/// A parsed predicate is well-formed: every float literal it carries is the
/// decimal text the lexer read, so it meets the document compiler's
/// precondition.
pub proof fn lemma_from_str_floats_valid(s: Seq<char>, q: QueryV)
    requires
        from_str_spec(s) == Ok::<QueryV, QueryError>(q),
    ensures
        crate::query::query_floats_valid(q),
{
    lemma_flat_floats_valid(s, 0);
    match flat_lex_from(s, 0) {
        Ok(fl) => {
            let init = seq![Seq::<TokenV>::empty()];
            assert(stack_floats_valid(init)) by {
                assert(tokens_floats_valid(init[0]));
            }
            lemma_nest_floats_valid(fl, init);
            match nest_run(fl, init) {
                Ok(st) => {
                    if st.len() == 1 {
                        lemma_parse_floats_valid(st[0], QueryV::Empty);
                    }
                },
                Err(_) => {},
            }
        },
        Err(_) => {},
    }
}

/// Parses the textual query grammar into a predicate: the lexer's two
/// passes, then the parser from `Empty`; the outcome is exactly
/// [`from_str_spec`] of the input.
pub fn from_str(s: &str) -> (r: Result<Query, QueryError>)
    ensures
        match r {
            Ok(q) => from_str_spec(s@) == Ok::<QueryV, QueryError>(q@),
            Err(e) => from_str_spec(s@) == Err::<QueryV, QueryError>(e),
        },
{
    let flat = match flat_pass(s) {
        Ok(f) => f,
        Err(e) => {
            return Err(QueryError::Lex(e));
        },
    };
    let toks = match nest_pass(&flat) {
        Ok(t) => t,
        Err(e) => {
            return Err(QueryError::Lex(e));
        },
    };
    proof {
        assert(token_views(toks@).subrange(0, toks@.len() as int) =~= token_views(toks@));
    }
    match parse_at(&toks, 0, Query::Empty) {
        Ok(q) => Ok(q),
        Err(e) => Err(QueryError::Parse(e)),
    }
}

} // verus!
