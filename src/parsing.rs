use vstd::prelude::*;

use crate::node::{
    has_no_parentheses, is_product_op, is_sum_op, kind_of, lemma_products_hold_no_bare_sums,
    no_sum_under_product, parse, parse_expr, parse_expr_tail, parse_mul, parse_mul_tail,
    parse_primary, Node, ParseError,
};
use crate::token::{lex, lex_from, LexError, State, TokenKind};

verus! {

pub open spec fn is_op_token(x: TokenKind) -> bool {
    is_sum_op(x) || is_product_op(x)
}

/// A token after which an operand must follow.
pub open spec fn opens(x: TokenKind) -> bool {
    x == TokenKind::OpenParentheses || is_op_token(x)
}

/// A token that ends an operand.
pub open spec fn closes(x: TokenKind) -> bool {
    x is Number || x == TokenKind::CloseParentheses
}

/// The token at `i` fits what comes before it: an operand (number or `(`)
/// first or after `(` or an operator, an operator or `)` after an operand.
pub open spec fn tok_ok(t: Seq<TokenKind>, i: int) -> bool {
    if i == 0 || opens(t[i - 1]) {
        t[i] is Number || t[i] == TokenKind::OpenParentheses
    } else {
        is_op_token(t[i]) || t[i] == TokenKind::CloseParentheses
    }
}

/// Open parentheses minus closing ones among the first `k` tokens.
pub open spec fn tdepth(t: Seq<TokenKind>, k: int) -> int
    decreases k,
{
    if k <= 0 || k > t.len() {
        0
    } else {
        tdepth(t, k - 1) + if t[k - 1] == TokenKind::OpenParentheses {
            1int
        } else if t[k - 1] == TokenKind::CloseParentheses {
            -1int
        } else {
            0int
        }
    }
}

/// Operands and operators alternate, the sequence ends with an operand, and
/// parentheses are balanced.
pub open spec fn grammatical(t: Seq<TokenKind>) -> bool {
    &&& forall|i: int| 0 <= i < t.len() ==> #[trigger] tok_ok(t, i)
    &&& forall|k: int| 0 <= k <= t.len() ==> #[trigger] tdepth(t, k) >= 0
    &&& tdepth(t, t.len() as int) == 0
    &&& t.len() > 0 ==> closes(t.last())
}

pub open spec fn operand_at(t: Seq<TokenKind>, p: int) -> bool {
    0 <= p < t.len() && (t[p] is Number || t[p] == TokenKind::OpenParentheses)
}

pub open spec fn operator_at(t: Seq<TokenKind>, p: int) -> bool {
    0 <= p <= t.len() && (p == t.len() || is_op_token(t[p]) || t[p] == TokenKind::CloseParentheses)
}

proof fn lemma_after_opener(t: Seq<TokenKind>, p: int)
    requires
        grammatical(t),
        0 <= p < t.len(),
        opens(t[p]),
    ensures
        operand_at(t, p + 1),
{
    assert(tok_ok(t, p + 1));
}

proof fn lemma_after_closer(t: Seq<TokenKind>, p: int)
    requires
        grammatical(t),
        0 <= p < t.len(),
        closes(t[p]),
    ensures
        operator_at(t, p + 1),
{
    if p + 1 < t.len() {
        assert(tok_ok(t, p + 1));
    }
}

proof fn lemma_primary_ok(t: Seq<TokenKind>, p: int)
    requires
        grammatical(t),
        operand_at(t, p),
    ensures
        parse_primary(t, p) is Ok,
        p < parse_primary(t, p)->Ok_0.1 <= t.len(),
        operator_at(t, parse_primary(t, p)->Ok_0.1),
        tdepth(t, parse_primary(t, p)->Ok_0.1) == tdepth(t, p),
    decreases t.len() - p, 0int,
{
    if t[p] is Number {
        lemma_after_closer(t, p);
    } else {
        lemma_after_opener(t, p);
        lemma_expr_ok(t, p + 1);
        let q = parse_expr(t, p + 1)->Ok_0.1;
        assert(tdepth(t, p) >= 0);
        assert(q < t.len());
        assert(t[q] == TokenKind::CloseParentheses);
        lemma_after_closer(t, q);
    }
}

proof fn lemma_mul_tail_ok(t: Seq<TokenKind>, p: int, lhs: Node)
    requires
        grammatical(t),
        operator_at(t, p),
    ensures
        parse_mul_tail(t, p, lhs) is Ok,
        p <= parse_mul_tail(t, p, lhs)->Ok_0.1 <= t.len(),
        operator_at(t, parse_mul_tail(t, p, lhs)->Ok_0.1),
        !(parse_mul_tail(t, p, lhs)->Ok_0.1 < t.len() && is_product_op(t[parse_mul_tail(t, p, lhs)->Ok_0.1])),
        tdepth(t, parse_mul_tail(t, p, lhs)->Ok_0.1) == tdepth(t, p),
    decreases t.len() - p, 3int,
{
    if p < t.len() && is_product_op(t[p]) {
        lemma_after_opener(t, p);
        lemma_primary_ok(t, p + 1);
        let (rhs, q) = parse_primary(t, p + 1)->Ok_0;
        lemma_mul_tail_ok(t, q, Node::branch(kind_of(t[p]), lhs, rhs));
    }
}

proof fn lemma_mul_ok(t: Seq<TokenKind>, p: int)
    requires
        grammatical(t),
        operand_at(t, p),
    ensures
        parse_mul(t, p) is Ok,
        p < parse_mul(t, p)->Ok_0.1 <= t.len(),
        operator_at(t, parse_mul(t, p)->Ok_0.1),
        !(parse_mul(t, p)->Ok_0.1 < t.len() && is_product_op(t[parse_mul(t, p)->Ok_0.1])),
        tdepth(t, parse_mul(t, p)->Ok_0.1) == tdepth(t, p),
    decreases t.len() - p, 1int,
{
    lemma_primary_ok(t, p);
    let (lhs, q) = parse_primary(t, p)->Ok_0;
    lemma_mul_tail_ok(t, q, lhs);
}

proof fn lemma_expr_tail_ok(t: Seq<TokenKind>, p: int, lhs: Node)
    requires
        grammatical(t),
        operator_at(t, p),
        !(p < t.len() && is_product_op(t[p])),
    ensures
        parse_expr_tail(t, p, lhs) is Ok,
        p <= parse_expr_tail(t, p, lhs)->Ok_0.1 <= t.len(),
        parse_expr_tail(t, p, lhs)->Ok_0.1 == t.len() || t[parse_expr_tail(t, p, lhs)->Ok_0.1]
            == TokenKind::CloseParentheses,
        tdepth(t, parse_expr_tail(t, p, lhs)->Ok_0.1) == tdepth(t, p),
    decreases t.len() - p, 4int,
{
    if p < t.len() && is_sum_op(t[p]) {
        lemma_after_opener(t, p);
        lemma_mul_ok(t, p + 1);
        let (rhs, q) = parse_mul(t, p + 1)->Ok_0;
        lemma_expr_tail_ok(t, q, Node::branch(kind_of(t[p]), lhs, rhs));
    }
}

proof fn lemma_expr_ok(t: Seq<TokenKind>, p: int)
    requires
        grammatical(t),
        operand_at(t, p),
    ensures
        parse_expr(t, p) is Ok,
        p < parse_expr(t, p)->Ok_0.1 <= t.len(),
        parse_expr(t, p)->Ok_0.1 == t.len() || t[parse_expr(t, p)->Ok_0.1] == TokenKind::CloseParentheses,
        tdepth(t, parse_expr(t, p)->Ok_0.1) == tdepth(t, p),
    decreases t.len() - p, 2int,
{
    lemma_mul_ok(t, p);
    let (lhs, q) = parse_mul(t, p)->Ok_0;
    lemma_expr_tail_ok(t, q, lhs);
}

/// Every non-empty grammatical token sequence parses.
pub proof fn lemma_grammatical_parses(t: Seq<TokenKind>)
    requires
        grammatical(t),
        t.len() > 0,
    ensures
        parse(t) is Ok,
{
    assert(tok_ok(t, 0));
    lemma_expr_ok(t, 0);
    let q = parse_expr(t, 0)->Ok_0.1;
    if q < t.len() {
        assert(tdepth(t, q + 1) >= 0);
    }
}

/// The tokens emitted so far agree with the lexer state and counter.
pub open spec fn lex_progress(toks: Seq<TokenKind>, state: State, nest: int) -> bool {
    &&& forall|i: int| 0 <= i < toks.len() ==> #[trigger] tok_ok(toks, i)
    &&& forall|k: int| 0 <= k <= toks.len() ==> #[trigger] tdepth(toks, k) >= 0
    &&& nest == tdepth(toks, toks.len() as int)
    &&& state == State::Start ==> toks.len() == 0
    &&& state == State::ExpectOperand ==> toks.len() > 0 && opens(toks.last())
    &&& state == State::ExpectOperator ==> toks.len() > 0 && closes(toks.last())
    &&& state != State::End
}

proof fn lemma_tdepth_push(t: Seq<TokenKind>, x: TokenKind, k: int)
    requires
        0 <= k <= t.len(),
    ensures
        tdepth(t.push(x), k) == tdepth(t, k),
    decreases k,
{
    if k > 0 {
        lemma_tdepth_push(t, x, k - 1);
    }
}

proof fn lemma_progress_push(toks: Seq<TokenKind>, state: State, nest: int, x: TokenKind, state2: State, nest2: int)
    requires
        lex_progress(toks, state, nest),
        tok_ok(toks.push(x), toks.len() as int),
        nest2 == nest + if x == TokenKind::OpenParentheses {
            1int
        } else if x == TokenKind::CloseParentheses {
            -1int
        } else {
            0int
        },
        nest2 >= 0,
        state2 == State::ExpectOperand ==> opens(x),
        state2 == State::ExpectOperator ==> closes(x),
        state2 == State::ExpectOperand || state2 == State::ExpectOperator,
    ensures
        lex_progress(toks.push(x), state2, nest2),
{
    let t2 = toks.push(x);
    assert forall|i: int| 0 <= i < t2.len() implies #[trigger] tok_ok(t2, i) by {
        if i < toks.len() {
            assert(tok_ok(toks, i));
            assert(t2[i] == toks[i]);
            if i > 0 {
                assert(t2[i - 1] == toks[i - 1]);
            }
        }
    }
    assert forall|k: int| 0 <= k <= t2.len() implies #[trigger] tdepth(t2, k) >= 0 by {
        if k <= toks.len() {
            lemma_tdepth_push(toks, x, k);
            assert(tdepth(toks, k) >= 0);
        } else {
            lemma_tdepth_push(toks, x, toks.len() as int);
        }
    }
    lemma_tdepth_push(toks, x, toks.len() as int);
}

proof fn lemma_lex_from_grammatical(s: Seq<char>, i: int, state: State, nest: int, toks: Seq<TokenKind>)
    requires
        0 <= i,
        lex_progress(toks, state, nest),
        lex_from(s, i, state, nest, toks) is Ok,
    ensures
        grammatical(lex_from(s, i, state, nest, toks)->Ok_0),
    decreases s.len() - i,
{
    if i >= s.len() {
        if toks.len() > 0 {
            assert(closes(toks.last()));
        }
    } else {
        let c = s[i];
        if c == ' ' {
            lemma_lex_from_grammatical(s, i + 1, state, nest, toks);
        } else if c == '(' {
            let x = TokenKind::OpenParentheses;
            lemma_progress_push(toks, state, nest, x, State::ExpectOperand, nest + 1);
            lemma_lex_from_grammatical(s, i + 1, State::ExpectOperand, nest + 1, toks.push(x));
        } else if c == ')' {
            let x = TokenKind::CloseParentheses;
            lemma_progress_push(toks, state, nest, x, State::ExpectOperator, nest - 1);
            lemma_lex_from_grammatical(s, i + 1, State::ExpectOperator, nest - 1, toks.push(x));
        } else if crate::token::is_operator(c) {
            let x = crate::token::operator_token(c);
            lemma_progress_push(toks, state, nest, x, State::ExpectOperand, nest);
            lemma_lex_from_grammatical(s, i + 1, State::ExpectOperand, nest, toks.push(x));
        } else if crate::token::is_digit(c) {
            let e = crate::token::digit_run_end(s, i);
            crate::token::lemma_digit_run_end_bounds(s, i + 1);
            let v = crate::token::digits_value(s.subrange(i, e));
            let x = TokenKind::Number(v as u32);
            lemma_progress_push(toks, state, nest, x, State::ExpectOperator, nest);
            lemma_lex_from_grammatical(s, e, State::ExpectOperator, nest, toks.push(x));
        }
    }
}

/// The lexer emits only grammatical token sequences.
pub proof fn lemma_lexed_tokens_are_grammatical(s: Seq<char>)
    requires
        lex(s) is Ok,
    ensures
        grammatical(lex(s)->Ok_0),
{
    lemma_lex_from_grammatical(s, 0, State::Start, 0, Seq::empty());
}

/// Every text that lexes to at least one token parses: the parser rejects
/// only the empty token sequence among those the lexer produces.
pub proof fn lemma_lexed_text_parses(s: Seq<char>)
    requires
        lex(s) is Ok,
        lex(s)->Ok_0.len() > 0,
    ensures
        parse(lex(s)->Ok_0) is Ok,
{
    lemma_lexed_tokens_are_grammatical(s);
    lemma_grammatical_parses(lex(s)->Ok_0);
}

/// Text that lexes to tokens without parentheses parses, and in its tree
/// no `*` or `/` node has a `+` or `-` node as an operand.
pub proof fn lemma_flat_text_respects_precedence(s: Seq<char>)
    requires
        lex(s) is Ok,
        lex(s)->Ok_0.len() > 0,
        has_no_parentheses(lex(s)->Ok_0),
    ensures
        parse(lex(s)->Ok_0) is Ok,
        no_sum_under_product(parse(lex(s)->Ok_0)->Ok_0),
{
    lemma_lexed_text_parses(s);
    lemma_products_hold_no_bare_sums(lex(s)->Ok_0);
}

} // verus!
