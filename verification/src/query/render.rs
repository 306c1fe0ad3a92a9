//! Rendering a predicate back to the textual grammar, and the round-trip
//! law: re-parsing a rendered predicate yields the predicate again.

use vstd::prelude::*;
use vstd::string::StringExecFns;
use crate::query::parse::{
    comparison, digits_val, flat_lex_from, from_str_spec, ident_run_end, ident_token,
    is_ident_char, is_letter, is_number_char, is_space, lemma_flat_skip_spaces,
    lemma_prepend_assoc, lex_spec, literal_value, nest_all, nest_run, number_token, parse_spec,
    prepend_flat, FlatTokV, LexError, Operand, Operator, QueryError, TokenV,
};
use crate::query::{
    dec_str, digit_char, dot_count, is_digit, leaf_field, leaf_value, valid_float_text, Query,
    QueryV, Value, ValueV,
};

verus! {

/// A field name the grammar can carry: an identifier that is not a boolean
/// literal.
pub open spec fn renderable_field(f: Seq<char>) -> bool {
    &&& f.len() > 0
    &&& is_letter(f[0])
    &&& forall|i: int| 0 < i < f.len() ==> is_ident_char(#[trigger] f[i])
    &&& f != ("true")@
    &&& f != ("false")@
}

/// A literal the grammar can carry: a non-negative integer, a well-formed
/// float text, a text without quote characters, or a boolean.
pub open spec fn renderable_value(v: ValueV) -> bool {
    match v {
        ValueV::Number(n) => n >= 0,
        ValueV::Float(t) => valid_float_text(t),
        ValueV::Text(s) => forall|i: int| 0 <= i < s.len() ==> #[trigger] s[i] != '\'',
        ValueV::Bool(_) => true,
        _ => false,
    }
}

/// A predicate the grammar can carry: connectives over comparison leaves of
/// the grammar's seven operators, with renderable fields and literals.
pub open spec fn renderable(q: QueryV) -> bool
    decreases q,
{
    match q {
        QueryV::And { left, right } => renderable(*left) && renderable(*right),
        QueryV::Or { left, right } => renderable(*left) && renderable(*right),
        QueryV::Empty => false,
        QueryV::In { .. } => false,
        QueryV::Contains { .. } => false,
        _ => renderable_field(leaf_field(q)) && renderable_value(leaf_value(q)),
    }
}

/// The source text of a literal.
pub open spec fn lit_text(v: ValueV) -> Seq<char> {
    match v {
        ValueV::Number(n) => dec_str(n as nat),
        ValueV::Float(t) => t,
        ValueV::Text(s) => seq!['\''] + s + seq!['\''],
        ValueV::Bool(b) => if b {
            ("true")@
        } else {
            ("false")@
        },
        _ => Seq::empty(),
    }
}

/// The source text of a leaf's comparison operator.
pub open spec fn op_src(q: QueryV) -> Seq<char> {
    match q {
        QueryV::Eq { .. } => ("==")@,
        QueryV::Neq { .. } => ("!=")@,
        QueryV::Gt { .. } => (">")@,
        QueryV::GtE { .. } => (">=")@,
        QueryV::Lt { .. } => ("<")@,
        QueryV::LtE { .. } => ("<=")@,
        QueryV::Rx { .. } => ("#=")@,
        _ => Seq::empty(),
    }
}

/// The textual-grammar rendering of a predicate: a leaf is its field, its
/// operator and its literal, space-separated; a connective renders its left
/// operand parenthesized, so that re-parsing rebuilds the same tree.
pub open spec fn render_spec(q: QueryV) -> Seq<char>
    decreases q,
{
    match q {
        QueryV::And { left, right } => seq!['('] + render_spec(*left) + (") && ")@ + render_spec(
            *right,
        ),
        QueryV::Or { left, right } => seq!['('] + render_spec(*left) + (") || ")@ + render_spec(
            *right,
        ),
        _ => leaf_field(q) + seq![' '] + op_src(q) + seq![' '] + lit_text(leaf_value(q)),
    }
}

/// The token that a rendered literal lexes back to.
pub open spec fn lit_token(v: ValueV) -> TokenV {
    match v {
        ValueV::Number(n) => TokenV::Number(n),
        ValueV::Float(t) => TokenV::Float(t),
        ValueV::Text(s) => TokenV::Text(s),
        ValueV::Bool(b) => TokenV::Bool(b),
        _ => TokenV::Bool(false),
    }
}

/// The comparison-operator token of a leaf.
pub open spec fn op_token(q: QueryV) -> Operand {
    match q {
        QueryV::Eq { .. } => Operand::Eq,
        QueryV::Neq { .. } => Operand::Neq,
        QueryV::Gt { .. } => Operand::Gt,
        QueryV::GtE { .. } => Operand::GtE,
        QueryV::Lt { .. } => Operand::Lt,
        QueryV::LtE { .. } => Operand::LtE,
        QueryV::Rx { .. } => Operand::Rx,
        _ => Operand::Eq,
    }
}

/// The nested token stream a rendered predicate lexes back to.
pub open spec fn render_tokens(q: QueryV) -> Seq<TokenV>
    decreases q,
{
    match q {
        QueryV::And { left, right } => seq![
            TokenV::Grouped(render_tokens(*left)),
            TokenV::Operator(Operator::And),
        ] + render_tokens(*right),
        QueryV::Or { left, right } => seq![
            TokenV::Grouped(render_tokens(*left)),
            TokenV::Operator(Operator::Or),
        ] + render_tokens(*right),
        _ => seq![
            TokenV::Identifier(leaf_field(q)),
            TokenV::Operand(op_token(q)),
            lit_token(leaf_value(q)),
        ],
    }
}

/// The flat token stream a rendered predicate lexes to, before grouping.
pub open spec fn render_flat(q: QueryV) -> Seq<FlatTokV>
    decreases q,
{
    match q {
        QueryV::And { left, right } => seq![FlatTokV::Open] + render_flat(*left) + seq![
            FlatTokV::Close,
            FlatTokV::Tok(TokenV::Operator(Operator::And)),
        ] + render_flat(*right),
        QueryV::Or { left, right } => seq![FlatTokV::Open] + render_flat(*left) + seq![
            FlatTokV::Close,
            FlatTokV::Tok(TokenV::Operator(Operator::Or)),
        ] + render_flat(*right),
        _ => seq![
            FlatTokV::Tok(TokenV::Identifier(leaf_field(q))),
            FlatTokV::Tok(TokenV::Operand(op_token(q))),
            FlatTokV::Tok(lit_token(leaf_value(q))),
        ],
    }
}

/// Appends to the top of the group stack what one simple token folds in.
proof fn lemma_nest_tok(t: TokenV, rest: Seq<FlatTokV>, stack: Seq<Seq<TokenV>>)
    requires
        stack.len() >= 1,
    ensures
        nest_run(seq![FlatTokV::Tok(t)] + rest, stack) == nest_run(
            rest,
            stack.update(stack.len() - 1, stack.last().push(t)),
        ),
{
    let whole = seq![FlatTokV::Tok(t)] + rest;
    assert(whole[0] == FlatTokV::Tok(t));
    assert(whole.drop_first() =~= rest);
}

/// Opens a fresh group on the stack.
proof fn lemma_nest_open(rest: Seq<FlatTokV>, stack: Seq<Seq<TokenV>>)
    requires
        stack.len() >= 1,
    ensures
        nest_run(seq![FlatTokV::Open] + rest, stack) == nest_run(rest, stack.push(Seq::empty())),
{
    let whole = seq![FlatTokV::Open] + rest;
    assert(whole[0] == FlatTokV::Open);
    assert(whole.drop_first() =~= rest);
}

/// Closes the innermost group into a `Grouped` token on the one below.
proof fn lemma_nest_close(rest: Seq<FlatTokV>, stack: Seq<Seq<TokenV>>)
    requires
        stack.len() >= 2,
    ensures
        nest_run(seq![FlatTokV::Close] + rest, stack) == nest_run(
            rest,
            stack.drop_last().update(
                stack.len() - 2,
                stack.drop_last().last().push(TokenV::Grouped(stack.last())),
            ),
        ),
{
    let whole = seq![FlatTokV::Close] + rest;
    assert(whole[0] == FlatTokV::Close);
    assert(whole.drop_first() =~= rest);
}

/// Folding the flat stream of a rendered predicate appends its nested
/// tokens to the top of the group stack.
pub proof fn lemma_nest_render(q: QueryV, rest: Seq<FlatTokV>, stack: Seq<Seq<TokenV>>)
    requires
        renderable(q),
        stack.len() >= 1,
    ensures
        nest_run(render_flat(q) + rest, stack) == nest_run(
            rest,
            stack.update(stack.len() - 1, stack.last() + render_tokens(q)),
        ),
    decreases q,
{
    match q {
        QueryV::And { left, right } => {
            let op = Operator::And;
            let close_tok = seq![FlatTokV::Close, FlatTokV::Tok(TokenV::Operator(op))];
            let tail1 = render_flat(*left) + (close_tok + (render_flat(*right) + rest));
            assert(render_flat(q) + rest =~= seq![FlatTokV::Open] + tail1);
            lemma_nest_open(tail1, stack);
            let st1 = stack.push(Seq::empty());
            lemma_nest_render(*left, close_tok + (render_flat(*right) + rest), st1);
            let st2 = st1.update(st1.len() - 1, st1.last() + render_tokens(*left));
            assert(st2 =~~= stack.push(render_tokens(*left)));
            assert(close_tok + (render_flat(*right) + rest) =~= seq![FlatTokV::Close] + (seq![
                FlatTokV::Tok(TokenV::Operator(op)),
            ] + (render_flat(*right) + rest)));
            lemma_nest_close(
                seq![FlatTokV::Tok(TokenV::Operator(op))] + (render_flat(*right) + rest),
                stack.push(render_tokens(*left)),
            );
            let st3 = stack.update(
                stack.len() - 1,
                stack.last().push(TokenV::Grouped(render_tokens(*left))),
            );
            assert(stack.push(render_tokens(*left)).drop_last().update(
                stack.len() - 1,
                stack.push(render_tokens(*left)).drop_last().last().push(
                    TokenV::Grouped(render_tokens(*left)),
                ),
            ) =~~= st3);
            lemma_nest_tok(TokenV::Operator(op), render_flat(*right) + rest, st3);
            let st4 = st3.update(st3.len() - 1, st3.last().push(TokenV::Operator(op)));
            lemma_nest_render(*right, rest, st4);
            assert(st4.update(st4.len() - 1, st4.last() + render_tokens(*right)) =~~= stack.update(
                stack.len() - 1,
                stack.last() + render_tokens(q),
            ));
        },
        QueryV::Or { left, right } => {
            let op = Operator::Or;
            let close_tok = seq![FlatTokV::Close, FlatTokV::Tok(TokenV::Operator(op))];
            let tail1 = render_flat(*left) + (close_tok + (render_flat(*right) + rest));
            assert(render_flat(q) + rest =~= seq![FlatTokV::Open] + tail1);
            lemma_nest_open(tail1, stack);
            let st1 = stack.push(Seq::empty());
            lemma_nest_render(*left, close_tok + (render_flat(*right) + rest), st1);
            let st2 = st1.update(st1.len() - 1, st1.last() + render_tokens(*left));
            assert(st2 =~~= stack.push(render_tokens(*left)));
            assert(close_tok + (render_flat(*right) + rest) =~= seq![FlatTokV::Close] + (seq![
                FlatTokV::Tok(TokenV::Operator(op)),
            ] + (render_flat(*right) + rest)));
            lemma_nest_close(
                seq![FlatTokV::Tok(TokenV::Operator(op))] + (render_flat(*right) + rest),
                stack.push(render_tokens(*left)),
            );
            let st3 = stack.update(
                stack.len() - 1,
                stack.last().push(TokenV::Grouped(render_tokens(*left))),
            );
            assert(stack.push(render_tokens(*left)).drop_last().update(
                stack.len() - 1,
                stack.push(render_tokens(*left)).drop_last().last().push(
                    TokenV::Grouped(render_tokens(*left)),
                ),
            ) =~~= st3);
            lemma_nest_tok(TokenV::Operator(op), render_flat(*right) + rest, st3);
            let st4 = st3.update(st3.len() - 1, st3.last().push(TokenV::Operator(op)));
            lemma_nest_render(*right, rest, st4);
            assert(st4.update(st4.len() - 1, st4.last() + render_tokens(*right)) =~~= stack.update(
                stack.len() - 1,
                stack.last() + render_tokens(q),
            ));
        },
        _ => {
            let t1 = TokenV::Identifier(leaf_field(q));
            let t2 = TokenV::Operand(op_token(q));
            let t3 = lit_token(leaf_value(q));
            let st1 = stack.update(stack.len() - 1, stack.last().push(t1));
            assert(render_flat(q) + rest =~= seq![FlatTokV::Tok(t1)] + (seq![FlatTokV::Tok(t2)]
                + (seq![FlatTokV::Tok(t3)] + rest)));
            lemma_nest_tok(t1, seq![FlatTokV::Tok(t2)] + (seq![FlatTokV::Tok(t3)] + rest), stack);
            lemma_nest_tok(t2, seq![FlatTokV::Tok(t3)] + rest, st1);
            let st2 = st1.update(st1.len() - 1, st1.last().push(t2));
            lemma_nest_tok(t3, rest, st2);
            assert(st2.update(st2.len() - 1, st2.last().push(t3)) =~~= stack.update(
                stack.len() - 1,
                stack.last() + render_tokens(q),
            ));
        },
    }
}

proof fn lemma_ident_run_end_exact(s: Seq<char>, i: int, j: int)
    requires
        0 <= i <= j <= s.len(),
        forall|k: int| i <= k < j ==> is_ident_char(#[trigger] s[k]),
        j == s.len() || !is_ident_char(s[j]),
    ensures
        ident_run_end(s, i) == j,
    decreases j - i,
{
    if i < j {
        lemma_ident_run_end_exact(s, i + 1, j);
    }
}

proof fn lemma_number_run_end_exact(s: Seq<char>, i: int, j: int)
    requires
        0 <= i <= j <= s.len(),
        forall|k: int| i <= k < j ==> is_number_char(#[trigger] s[k]),
        j == s.len() || !is_number_char(s[j]),
    ensures
        crate::query::parse::number_run_end(s, i) == j,
    decreases j - i,
{
    if i < j {
        lemma_number_run_end_exact(s, i + 1, j);
    }
}

proof fn lemma_quote_end_exact(s: Seq<char>, i: int, j: int)
    requires
        0 <= i <= j < s.len(),
        forall|k: int| i <= k < j ==> #[trigger] s[k] != '\'',
        s[j] == '\'',
    ensures
        crate::query::parse::quote_end(s, i) == j,
    decreases j - i,
{
    if i < j {
        lemma_quote_end_exact(s, i + 1, j);
    }
}

/// The decimal rendering of `n` is a run of digits, free of decimal points,
/// that reads back as `n`.
proof fn lemma_dec_str_digits(n: nat)
    ensures
        dec_str(n).len() >= 1,
        forall|k: int| 0 <= k < dec_str(n).len() ==> is_digit(#[trigger] dec_str(n)[k]),
        dot_count(dec_str(n)) == 0,
        crate::query::parse::digits_val(dec_str(n)) == n,
    decreases n,
{
    if n < 10 {
        let t = dec_str(n);
        assert(t =~= seq![digit_char(n)]);
        assert(t.drop_last() =~= Seq::<char>::empty());
        assert(is_digit(digit_char(n)));
        assert(digit_char(n) as int - '0' as int == n);
        assert(digits_val(Seq::<char>::empty()) == 0);
        assert(digits_val(t.drop_last()) == 0);
        assert(digits_val(t) == digits_val(t.drop_last()) * 10 + (t.last() as int - '0' as int));
        assert(dot_count(Seq::<char>::empty()) == 0);
        assert(dot_count(t) == 0);
    } else {
        lemma_dec_str_digits(n / 10);
        let t = dec_str(n);
        assert(t == dec_str(n / 10).push(digit_char(n % 10)));
        assert(t.drop_last() =~= dec_str(n / 10));
        assert(t.last() == digit_char(n % 10));
        assert(is_digit(digit_char(n % 10)));
        assert(digit_char(n % 10) as int - '0' as int == n % 10);
        assert(digits_val(t) == digits_val(t.drop_last()) * 10 + (t.last() as int - '0' as int));
        assert(digits_val(t.drop_last()) == n / 10);
        assert((n / 10) * 10 + n % 10 == n) by (nonlinear_arith);
        assert(dot_count(t) == dot_count(t.drop_last()));
        assert(forall|k: int| 0 <= k < t.len() ==> is_digit(#[trigger] t[k]));
    }
}

/// The reader outcome at the head of an identifier word.
proof fn lemma_flat_at_ident(s: Seq<char>, i: int, j: int)
    requires
        0 <= i < j <= s.len(),
        is_letter(s[i]),
        forall|k: int| i < k < j ==> is_ident_char(#[trigger] s[k]),
        j == s.len() || !is_ident_char(s[j]),
    ensures
        flat_lex_from(s, i) == prepend_flat(
            seq![FlatTokV::Tok(ident_token(s, i, j))],
            flat_lex_from(s, j),
        ),
{
    lemma_ident_run_end_exact(s, i + 1, j);
    assert(!is_space(s[i]) && !is_digit(s[i]) && s[i] != '\'');
    match flat_lex_from(s, j) {
        Ok(_) => {},
        Err(_) => {},
    }
}

/// The reader outcome at the head of a numeric run that lexes cleanly.
proof fn lemma_flat_at_number(s: Seq<char>, i: int, j: int, t: TokenV)
    requires
        0 <= i < j <= s.len(),
        is_digit(s[i]),
        forall|k: int| i < k < j ==> is_number_char(#[trigger] s[k]),
        j == s.len() || !is_number_char(s[j]),
        crate::query::parse::number_token(s, i, j) == Ok::<
            TokenV,
            crate::query::parse::LexError,
        >(t),
    ensures
        flat_lex_from(s, i) == prepend_flat(seq![FlatTokV::Tok(t)], flat_lex_from(s, j)),
{
    lemma_number_run_end_exact(s, i + 1, j);
    assert(crate::query::parse::number_run_end(s, i) == j);
    assert(!is_space(s[i]));
    match flat_lex_from(s, j) {
        Ok(_) => {},
        Err(_) => {},
    }
}

/// The reader outcome at the head of a quoted text literal.
proof fn lemma_flat_at_text(s: Seq<char>, i: int, j: int)
    requires
        0 <= i < j < s.len(),
        s[i] == '\'',
        forall|k: int| i < k < j ==> #[trigger] s[k] != '\'',
        s[j] == '\'',
    ensures
        flat_lex_from(s, i) == prepend_flat(
            seq![FlatTokV::Tok(TokenV::Text(s.subrange(i + 1, j)))],
            flat_lex_from(s, j + 1),
        ),
{
    lemma_quote_end_exact(s, i + 1, j);
    assert(!is_space(s[i]) && !is_digit(s[i]));
    match flat_lex_from(s, j + 1) {
        Ok(_) => {},
        Err(_) => {},
    }
}

/// A position at which every token ends: the input's end, a separator or a
/// closing parenthesis.
pub open spec fn boundary_ok(s: Seq<char>, j: int) -> bool {
    j == s.len() || s[j] == ' ' || s[j] == ')'
}

/// The flat pass reads a rendered predicate embedded in a larger input as
/// exactly its flat token stream: the lexer half of the grammar round trip,
/// before grouping.
#[verifier::rlimit(100)]
pub proof fn lemma_flat_render(s: Seq<char>, i: int, q: QueryV)
    requires
        renderable(q),
        0 <= i,
        i + render_spec(q).len() <= s.len(),
        s.subrange(i, i + render_spec(q).len() as int) == render_spec(q),
        boundary_ok(s, i + render_spec(q).len() as int),
    ensures
        flat_lex_from(s, i) == prepend_flat(
            render_flat(q),
            flat_lex_from(s, i + render_spec(q).len() as int),
        ),
    decreases q, 1int,
{
    let r = render_spec(q);
    let end = i + r.len() as int;
    assert forall|k: int| 0 <= k < r.len() implies s[i + k] == r[k] by {
        assert(s.subrange(i, end)[k] == s[i + k]);
    }
    match q {
        QueryV::And { left, right } => {
            lemma_flat_render_connective(s, i, q, *left, *right, true);
        },
        QueryV::Or { left, right } => {
            lemma_flat_render_connective(s, i, q, *left, *right, false);
        },
        _ => {
            reveal_strlit("==");
            reveal_strlit("!=");
            reveal_strlit(">");
            reveal_strlit(">=");
            reveal_strlit("<");
            reveal_strlit("<=");
            reveal_strlit("#=");
            reveal_strlit("true");
            reveal_strlit("false");
            let f = leaf_field(q);
            let op = op_src(q);
            let lit = lit_text(leaf_value(q));
            let p1 = f + seq![' '];
            let p2 = p1 + op;
            let p3 = p2 + seq![' '];
            assert(r == p3 + lit);
            let fe = i + f.len() as int;
            let os = fe + 1;
            let oe = os + op.len() as int;
            let ls = oe + 1;
            assert(r.len() == f.len() + 1 + op.len() + 1 + lit.len());
            assert(end == ls + lit.len());
            assert forall|k: int| 0 <= k < f.len() implies s[i + k] == f[k] by {
                assert(r[k] == f[k]);
            }
            assert(s[fe] == ' ') by {
                assert(r[fe - i] == ' ');
            }
            assert forall|m: int| 0 <= m < op.len() implies s[os + m] == op[m] by {
                assert(r[os - i + m] == op[m]);
            }
            assert(s[oe] == ' ') by {
                assert(r[oe - i] == ' ');
            }
            assert forall|m: int| 0 <= m < lit.len() implies s[ls + m] == lit[m] by {
                assert(r[ls - i + m] == lit[m]);
            }
            assert forall|k: int| i <= k < fe implies #[trigger] s[k] == f[k - i] by {
                assert(s[i + (k - i)] == f[k - i]);
            }
            assert forall|k: int| os <= k < oe implies #[trigger] s[k] == op[k - os] by {
                assert(s[os + (k - os)] == op[k - os]);
            }
            assert forall|k: int| ls <= k < end implies #[trigger] s[k] == lit[k - ls] by {
                assert(s[ls + (k - ls)] == lit[k - ls]);
            }
            // The field lexes as one identifier token.
            assert(forall|k: int| i < k < fe ==> is_ident_char(#[trigger] s[k]));
            lemma_flat_at_ident(s, i, fe);
            assert(s.subrange(i, fe) =~= f);
            assert(ident_token(s, i, fe) == TokenV::Identifier(f));
            lemma_flat_skip_spaces(s, fe, os);
            // The operator lexes as one comparison-operator token.
            assert(oe < s.len());
            assert(flat_lex_from(s, os) == prepend_flat(
                seq![FlatTokV::Tok(TokenV::Operand(op_token(q)))],
                flat_lex_from(s, oe),
            )) by {
                assert(s[os] == op[0]);
                if op.len() == 2 {
                    assert(s[os + 1] == op[1]);
                }
                assert(!is_space(s[os]) && !is_digit(s[os]) && !is_letter(s[os]));
                match flat_lex_from(s, oe) {
                    Ok(_) => {},
                    Err(_) => {},
                }
            }
            lemma_flat_skip_spaces(s, oe, ls);
            // The literal lexes as one literal token.
            let lt = lit_token(leaf_value(q));
            assert(flat_lex_from(s, ls) == prepend_flat(
                seq![FlatTokV::Tok(lt)],
                flat_lex_from(s, end),
            )) by {
                match leaf_value(q) {
                    ValueV::Number(n) => {
                        lemma_dec_str_digits(n as nat);
                        assert(s.subrange(ls, end) =~= lit);
                        assert(dot_count(s.subrange(ls, end)) == 0);
                        assert(digits_val(s.subrange(ls, end)) == n);
                        assert(number_token(s, ls, end) == Ok::<TokenV, LexError>(
                            TokenV::Number(n),
                        ));
                        lemma_flat_at_number(s, ls, end, TokenV::Number(n));
                    },
                    ValueV::Float(t) => {
                        assert(s.subrange(ls, end) =~= t);
                        assert(s.subrange(ls, end) == t);
                        assert(number_token(s, ls, end) == Ok::<TokenV, LexError>(TokenV::Float(t)));
                        assert(forall|k: int| ls < k < end ==> is_number_char(#[trigger] s[k]));
                        assert(!is_number_char(' ') && !is_number_char(')'));
                        lemma_flat_at_number(s, ls, end, TokenV::Float(t));
                    },
                    ValueV::Text(txt) => {
                        let j = ls + 1 + txt.len() as int;
                        assert(j == end - 1);
                        assert(s[ls] == lit[0] && lit[0] == '\'');
                        assert forall|k: int| ls < k < j implies #[trigger] s[k] != '\'' by {
                            assert(lit[k - ls] == txt[k - ls - 1]);
                        }
                        assert(s[j] == lit[lit.len() - 1] && lit[lit.len() - 1] == '\'');
                        lemma_flat_at_text(s, ls, j);
                        assert(s.subrange(ls + 1, j) =~= txt);
                    },
                    ValueV::Bool(b) => {
                        assert(is_letter(s[ls]));
                        assert(forall|k: int| ls < k < end ==> is_ident_char(#[trigger] s[k]));
                        assert(!is_ident_char(' ') && !is_ident_char(')'));
                        lemma_flat_at_ident(s, ls, end);
                        assert(s.subrange(ls, end) =~= lit);
                        if b {
                            assert(ident_token(s, ls, end) == TokenV::Bool(true));
                        } else {
                            assert(s.subrange(ls, end) != ("true")@);
                            assert(ident_token(s, ls, end) == TokenV::Bool(false));
                        }
                    },
                    _ => {
                        assert(false);
                    },
                }
            }
            // Chain the three tokens.
            lemma_prepend_assoc(
                seq![FlatTokV::Tok(TokenV::Operand(op_token(q)))],
                seq![FlatTokV::Tok(lt)],
                flat_lex_from(s, end),
            );
            lemma_prepend_assoc(
                seq![FlatTokV::Tok(TokenV::Identifier(f))],
                seq![FlatTokV::Tok(TokenV::Operand(op_token(q)))] + seq![FlatTokV::Tok(lt)],
                flat_lex_from(s, end),
            );
            assert(seq![FlatTokV::Tok(TokenV::Identifier(f))] + (seq![
                FlatTokV::Tok(TokenV::Operand(op_token(q))),
            ] + seq![FlatTokV::Tok(lt)]) =~= render_flat(q));
        },
    }
}

/// The connective case of [`lemma_flat_render`].
#[verifier::rlimit(100)]
proof fn lemma_flat_render_connective(
    s: Seq<char>,
    i: int,
    q: QueryV,
    left: QueryV,
    right: QueryV,
    is_and: bool,
)
    requires
        renderable(left),
        renderable(right),
        is_and ==> q == (QueryV::And { left: Box::new(left), right: Box::new(right) }),
        !is_and ==> q == (QueryV::Or { left: Box::new(left), right: Box::new(right) }),
        0 <= i,
        i + render_spec(q).len() <= s.len(),
        s.subrange(i, i + render_spec(q).len() as int) == render_spec(q),
        boundary_ok(s, i + render_spec(q).len() as int),
        decreases_to!(q => left),
        decreases_to!(q => right),
    ensures
        flat_lex_from(s, i) == prepend_flat(
            render_flat(q),
            flat_lex_from(s, i + render_spec(q).len() as int),
        ),
    decreases q, 0int,
{
    reveal_strlit(") && ");
    reveal_strlit(") || ");
    let r = render_spec(q);
    let end = i + r.len() as int;
    assert forall|k: int| 0 <= k < r.len() implies s[i + k] == r[k] by {
        assert(s.subrange(i, end)[k] == s[i + k]);
    }
    let sep = if is_and {
        (") && ")@
    } else {
        (") || ")@
    };
    let rl = render_spec(left);
    let rr = render_spec(right);
    assert(r == seq!['('] + rl + sep + rr);
    assert(sep.len() == 5);
    let lstart = i + 1;
    let lend = lstart + rl.len() as int;
    let rstart = lend + 5;
    assert(r.len() == 1 + rl.len() + 5 + rr.len());
    assert(end == rstart + rr.len());
    let p1 = seq!['('] + rl;
    let p2 = p1 + sep;
    assert(r == p2 + rr);
    assert(s[i] == '(') by {
        assert(r[0] == '(');
    }
    assert forall|m: int| 0 <= m < rl.len() implies s[lstart + m] == rl[m] by {
        assert(r[1 + m] == rl[m]);
    }
    assert forall|d: int| 0 <= d < 5 implies s[lend + d] == sep[d] by {
        assert(r[lend - i + d] == sep[d]);
    }
    assert forall|m: int| 0 <= m < rr.len() implies s[rstart + m] == rr[m] by {
        assert(r[rstart - i + m] == rr[m]);
    }
    let op_tok = if is_and {
        TokenV::Operator(Operator::And)
    } else {
        TokenV::Operator(Operator::Or)
    };
    // The opening parenthesis.
    assert(flat_lex_from(s, i) == prepend_flat(seq![FlatTokV::Open], flat_lex_from(s, lstart)))
        by {
        assert(!is_space(s[i]) && !is_digit(s[i]) && !is_letter(s[i]));
        match flat_lex_from(s, lstart) {
            Ok(_) => {},
            Err(_) => {},
        }
    }
    // The left operand, ended by the closing parenthesis.
    assert(s.subrange(lstart, lend) =~= rl);
    assert(s[lend] == ')') by {
        assert(s[lend + 0] == sep[0]);
    }
    lemma_flat_render(s, lstart, left);
    // The closing parenthesis.
    assert(flat_lex_from(s, lend) == prepend_flat(
        seq![FlatTokV::Close],
        flat_lex_from(s, lend + 1),
    )) by {
        assert(!is_space(s[lend]) && !is_digit(s[lend]) && !is_letter(s[lend]));
        match flat_lex_from(s, lend + 1) {
            Ok(_) => {},
            Err(_) => {},
        }
    }
    // The separator, the connective and the second separator.
    assert(s[lend + 1] == ' ' && s[lend + 4] == ' ') by {
        assert(s[lend + 1] == sep[1]);
        assert(s[lend + 4] == sep[4]);
    }
    assert(s[lend + 2] == (if is_and { '&' } else { '|' }) && s[lend + 3] == s[lend + 2]) by {
        assert(s[lend + 2] == sep[2]);
        assert(s[lend + 3] == sep[3]);
    }
    lemma_flat_skip_spaces(s, lend + 1, lend + 2);
    assert(flat_lex_from(s, lend + 2) == prepend_flat(
        seq![FlatTokV::Tok(op_tok)],
        flat_lex_from(s, lend + 4),
    )) by {
        assert(!is_space(s[lend + 2]) && !is_digit(s[lend + 2]) && !is_letter(s[lend + 2]));
        match flat_lex_from(s, lend + 4) {
            Ok(_) => {},
            Err(_) => {},
        }
    }
    lemma_flat_skip_spaces(s, lend + 4, rstart);
    // The right operand, ended by this rendering's own boundary.
    assert(s.subrange(rstart, end) =~= rr);
    lemma_flat_render(s, rstart, right);
    // Chain the pieces.
    lemma_prepend_assoc(seq![FlatTokV::Tok(op_tok)], render_flat(right), flat_lex_from(s, end));
    lemma_prepend_assoc(
        seq![FlatTokV::Close],
        seq![FlatTokV::Tok(op_tok)] + render_flat(right),
        flat_lex_from(s, end),
    );
    lemma_prepend_assoc(
        render_flat(left),
        seq![FlatTokV::Close] + (seq![FlatTokV::Tok(op_tok)] + render_flat(right)),
        flat_lex_from(s, end),
    );
    lemma_prepend_assoc(
        seq![FlatTokV::Open],
        render_flat(left) + (seq![FlatTokV::Close] + (seq![FlatTokV::Tok(op_tok)] + render_flat(
            right,
        ))),
        flat_lex_from(s, end),
    );
    assert(seq![FlatTokV::Open] + (render_flat(left) + (seq![FlatTokV::Close] + (seq![
        FlatTokV::Tok(op_tok),
    ] + render_flat(right)))) =~= render_flat(q));
}

/// Re-parsing the token stream of a rendered predicate yields the predicate:
/// the parser half of the grammar round trip.
pub proof fn lemma_parse_render(q: QueryV)
    requires
        renderable(q),
    ensures
        parse_spec(render_tokens(q), QueryV::Empty) == Ok::<QueryV, crate::query::parse::ParseError>(
            q,
        ),
    decreases q,
{
    let ts = render_tokens(q);
    match q {
        QueryV::And { left, right } => {
            lemma_parse_render(*left);
            lemma_parse_render(*right);
            assert(ts[0] == TokenV::Grouped(render_tokens(*left)));
            let rest = ts.drop_first();
            assert(rest[0] == TokenV::Operator(Operator::And));
            assert(rest.drop_first() =~= render_tokens(*right));
            assert(render_tokens(*right).len() > 0);
            assert(parse_spec(rest, *left) == Ok::<QueryV, crate::query::parse::ParseError>(
                QueryV::And { left: Box::new(*left), right: Box::new(*right) },
            ));
            assert(parse_spec(ts, QueryV::Empty) == parse_spec(rest, *left));
            assert(q == (QueryV::And { left: Box::new(*left), right: Box::new(*right) }));
        },
        QueryV::Or { left, right } => {
            lemma_parse_render(*left);
            lemma_parse_render(*right);
            assert(ts[0] == TokenV::Grouped(render_tokens(*left)));
            let rest = ts.drop_first();
            assert(rest[0] == TokenV::Operator(Operator::Or));
            assert(rest.drop_first() =~= render_tokens(*right));
            assert(render_tokens(*right).len() > 0);
            assert(parse_spec(rest, *left) == Ok::<QueryV, crate::query::parse::ParseError>(
                QueryV::Or { left: Box::new(*left), right: Box::new(*right) },
            ));
            assert(parse_spec(ts, QueryV::Empty) == parse_spec(rest, *left));
            assert(q == (QueryV::Or { left: Box::new(*left), right: Box::new(*right) }));
        },
        _ => {
            let rest = ts.drop_first();
            assert(rest[0] == TokenV::Operand(op_token(q)));
            assert(rest[1] == lit_token(leaf_value(q)));
            assert(literal_value(lit_token(leaf_value(q))) == Some(leaf_value(q)));
            assert(comparison(op_token(q), leaf_field(q), leaf_value(q)) == q);
            assert(rest.drop_first().drop_first() =~= Seq::<TokenV>::empty());
            assert(parse_spec(rest.drop_first().drop_first(), q) == Ok::<
                QueryV,
                crate::query::parse::ParseError,
            >(q));
        },
    }
}

/// The grammar round trip: rendering a renderable predicate to the textual
/// grammar and parsing the text back yields a predicate equal to the
/// original.
pub proof fn lemma_render_round_trip(q: QueryV)
    requires
        renderable(q),
    ensures
        from_str_spec(render_spec(q)) == Ok::<QueryV, QueryError>(q),
{
    let s = render_spec(q);
    // The flat pass reads the text as the predicate's flat token stream.
    assert(s.subrange(0, s.len() as int) =~= s);
    assert(boundary_ok(s, s.len() as int));
    lemma_flat_render(s, 0, q);
    assert(flat_lex_from(s, s.len() as int) == Ok::<Seq<FlatTokV>, LexError>(Seq::empty()));
    assert(render_flat(q) + Seq::<FlatTokV>::empty() =~= render_flat(q));
    assert(flat_lex_from(s, 0) == Ok::<Seq<FlatTokV>, LexError>(render_flat(q)));
    // The grouping pass folds it into the nested token stream.
    let init = seq![Seq::<TokenV>::empty()];
    lemma_nest_render(q, Seq::empty(), init);
    let folded = init.update(0, init.last() + render_tokens(q));
    assert(nest_run(Seq::<FlatTokV>::empty(), folded) == Ok::<Seq<Seq<TokenV>>, LexError>(folded));
    assert(nest_run(render_flat(q), init) == Ok::<Seq<Seq<TokenV>>, LexError>(folded));
    assert(folded.len() == 1);
    assert(folded[0] =~= render_tokens(q));
    assert(nest_all(render_flat(q)) == Ok::<Seq<TokenV>, LexError>(render_tokens(q)));
    assert(lex_spec(s) == Ok::<Seq<TokenV>, LexError>(render_tokens(q)));
    // The parser rebuilds the predicate.
    lemma_parse_render(q);
}

impl Query {
    /// Renders the predicate to the textual grammar; parsing the result
    /// back yields an equal predicate (see [`lemma_render_round_trip`]).
    pub fn to_text(&self) -> (r: String)
        requires
            renderable(self@),
        ensures
            r@ == render_spec(self@),
        decreases *self,
    {
        let mut out = String::new();
        match self {
            Query::And { left, right } => {
                out.append("(");
                let l = (&**left).to_text();
                out.append(l.as_str());
                out.append(") && ");
                let r2 = (&**right).to_text();
                out.append(r2.as_str());
                proof {
                    reveal_strlit("(");
                    assert(out@ =~= render_spec(self@));
                }
            },
            Query::Or { left, right } => {
                out.append("(");
                let l = (&**left).to_text();
                out.append(l.as_str());
                out.append(") || ");
                let r2 = (&**right).to_text();
                out.append(r2.as_str());
                proof {
                    reveal_strlit("(");
                    assert(out@ =~= render_spec(self@));
                }
            },
            Query::Eq { field, value } => {
                out = leaf_text(field, "==", value);
            },
            Query::Neq { field, value } => {
                out = leaf_text(field, "!=", value);
            },
            Query::Gt { field, value } => {
                out = leaf_text(field, ">", value);
            },
            Query::GtE { field, value } => {
                out = leaf_text(field, ">=", value);
            },
            Query::Lt { field, value } => {
                out = leaf_text(field, "<", value);
            },
            Query::LtE { field, value } => {
                out = leaf_text(field, "<=", value);
            },
            Query::Rx { field, value } => {
                out = leaf_text(field, "#=", value);
            },
            Query::In { .. } => {
                proof {
                    assert(false);
                }
            },
            Query::Contains { .. } => {
                proof {
                    assert(false);
                }
            },
            Query::Empty => {
                proof {
                    assert(false);
                }
            },
        }
        proof {
            assert(out@ =~= render_spec(self@));
        }
        out
    }
}

/// Builds the source text of one comparison leaf.
fn leaf_text(field: &String, op: &str, value: &Value) -> (r: String)
    requires
        renderable_value(value@),
    ensures
        r@ == field@ + seq![' '] + op@ + seq![' '] + lit_text(value@),
{
    let mut out = crate::query::clone_string(field);
    out.append(" ");
    out.append(op);
    out.append(" ");
    match value {
        Value::Number(n) => {
            crate::postgres::push_dec(&mut out, *n as u64);
        },
        Value::Float(t) => {
            out.append(t.as_str());
        },
        Value::Text(s) => {
            out.append("'");
            out.append(s.as_str());
            out.append("'");
        },
        Value::Bool(b) => {
            if *b {
                out.append("true");
            } else {
                out.append("false");
            }
        },
        _ => {
            proof {
                assert(false);
            }
        },
    }
    proof {
        reveal_strlit(" ");
        reveal_strlit("'");
        assert(out@ =~= field@ + seq![' '] + op@ + seq![' '] + lit_text(value@));
    }
    out
}

} // verus!
