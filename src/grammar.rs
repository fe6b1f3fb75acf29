use vstd::prelude::*;

use crate::token::{
    digit_run_end, digits_value, is_digit, is_operator, last_sig, lex, lex_from, lemma_digit_run_end_bounds,
    LexError, State, MAX_NUMBER,
};

verus! {

pub open spec fn is_accepted(c: char) -> bool {
    is_digit(c) || is_operator(c) || c == '(' || c == ')' || c == ' '
}

/// A character that closes an operand: the next one must be an operator or `)`.
pub open spec fn ends_operand(c: char) -> bool {
    is_digit(c) || c == ')'
}

/// A character after which an operand must follow.
pub open spec fn opens_operand(c: char) -> bool {
    c == '(' || is_operator(c)
}

/// Open parentheses minus closing ones among the first `i` characters.
pub open spec fn depth(s: Seq<char>, i: int) -> int
    decreases i,
{
    if i <= 0 || i > s.len() {
        0
    } else {
        depth(s, i - 1) + if s[i - 1] == '(' {
            1int
        } else if s[i - 1] == ')' {
            -1int
        } else {
            0int
        }
    }
}

/// Every prefix closes no more parentheses than it opens, and the whole
/// text closes all it opens.
pub open spec fn balanced(s: Seq<char>) -> bool {
    &&& forall|i: int| 0 <= i <= s.len() ==> #[trigger] depth(s, i) >= 0
    &&& depth(s, s.len() as int) == 0
}

pub open spec fn is_run_start(s: Seq<char>, i: int) -> bool {
    is_digit(s[i]) && (i == 0 || !is_digit(s[i - 1]))
}

pub open spec fn is_symbol(c: char) -> bool {
    is_operator(c) || c == '(' || c == ')'
}

/// Digit runs plus operator and parenthesis characters among the first `i`.
pub open spec fn token_count(s: Seq<char>, i: int) -> int
    decreases i,
{
    if i <= 0 || i > s.len() {
        0
    } else {
        token_count(s, i - 1) + if is_run_start(s, i - 1) || is_symbol(s[i - 1]) {
            1int
        } else {
            0int
        }
    }
}

/// The non-space character at `i` stands where the grammar lets it: an
/// operand (digit run or `(`) first or after `(` or an operator, an
/// operator or `)` after an operand; no digit run split by spaces.
pub open spec fn well_placed(s: Seq<char>, i: int) -> bool {
    let j = last_sig(s, i);
    let c = s[i];
    if is_digit(c) {
        j == -1 || opens_operand(s[j]) || (is_digit(s[j]) && j == i - 1)
    } else if c == '(' {
        j == -1 || opens_operand(s[j])
    } else if c == ')' || is_operator(c) {
        j != -1 && ends_operand(s[j])
    } else {
        true
    }
}

/// What is asked of the character at `i`: accepted, well placed, a number
/// starting there fits, and no prefix closes a parenthesis it did not open.
pub open spec fn char_ok(s: Seq<char>, i: int) -> bool {
    &&& is_accepted(s[i])
    &&& s[i] != ' ' ==> well_placed(s, i)
    &&& is_run_start(s, i) ==> digits_value(s.subrange(i, digit_run_end(s, i))) <= MAX_NUMBER
    &&& depth(s, i + 1) >= 0
}

/// A text in the accepted characters with operands and operators
/// alternating, starting and ending with an operand, numbers in range, and
/// no `)` without its `(` (whether all `(` are closed is not asked).
pub open spec fn well_formed_text(s: Seq<char>) -> bool {
    &&& forall|i: int| 0 <= i < s.len() ==> #[trigger] char_ok(s, i)
    &&& last_sig(s, s.len() as int) == -1 || ends_operand(s[last_sig(s, s.len() as int)])
}

/// The lexer state that the characters before `i` lead to.
pub open spec fn state_at(s: Seq<char>, i: int) -> State {
    let j = last_sig(s, i);
    if j == -1 {
        State::Start
    } else if ends_operand(s[j]) {
        State::ExpectOperator
    } else {
        State::ExpectOperand
    }
}

/// `i` does not split a run of digits.
pub open spec fn boundary(s: Seq<char>, i: int) -> bool {
    i == 0 || i >= s.len() || !(is_digit(s[i - 1]) && is_digit(s[i]))
}

proof fn lemma_last_sig_range(s: Seq<char>, i: int)
    ensures
        last_sig(s, i) == -1 || (0 <= last_sig(s, i) < i && last_sig(s, i) < s.len() && s[last_sig(s, i)] != ' '),
    decreases i,
{
    if 0 < i <= s.len() && s[i - 1] == ' ' {
        lemma_last_sig_range(s, i - 1);
    }
}

/// Inside a run of digits that starts at `i`: only digits, depth and the
/// count do not move, and the last non-space character is the one before.
proof fn lemma_digit_run(s: Seq<char>, i: int, k: int)
    requires
        0 <= i < k <= digit_run_end(s, i),
        i < s.len(),
        is_digit(s[i]),
    ensures
        k <= s.len(),
        is_digit(s[k - 1]),
        depth(s, k) == depth(s, i),
        token_count(s, k) == token_count(s, i + 1),
        last_sig(s, k) == k - 1,
        k < digit_run_end(s, i) ==> k < s.len() && is_digit(s[k]),
        k == digit_run_end(s, i) ==> k == s.len() || !is_digit(s[k]),
    decreases k - i,
{
    lemma_digit_run_end_bounds(s, i);
    if k == i + 1 {
        lemma_run_end_shift(s, i, k);
    } else {
        lemma_digit_run(s, i, k - 1);
        lemma_run_end_shift(s, i, k);
    }
}

/// The run that starts at `i` ends where the run from any inner `k` ends.
proof fn lemma_run_end_shift(s: Seq<char>, i: int, k: int)
    requires
        0 <= i < k <= digit_run_end(s, i),
        is_digit(s[i]),
        i < s.len(),
    ensures
        digit_run_end(s, k) == digit_run_end(s, i),
        forall|m: int| i <= m < k ==> #[trigger] is_digit(s[m]),
        k <= s.len(),
        k < digit_run_end(s, i) ==> k < s.len() && is_digit(s[k]),
        k == digit_run_end(s, i) ==> k == s.len() || !is_digit(s[k]),
    decreases k - i,
{
    lemma_digit_run_end_bounds(s, i);
    if k > i + 1 {
        lemma_run_end_shift(s, i, k - 1);
        lemma_digit_run_end_bounds(s, k - 1);
    }
    lemma_digit_run_end_bounds(s, k);
    if k < s.len() && is_digit(s[k]) {
        lemma_digit_run_end_bounds(s, k + 1);
    }
}

proof fn lemma_lex_from_well_formed(s: Seq<char>, i: int, toks: Seq<crate::token::TokenKind>)
    requires
        well_formed_text(s),
        0 <= i <= s.len(),
        boundary(s, i),
    ensures
        depth(s, s.len() as int) == 0 ==> lex_from(s, i, state_at(s, i), depth(s, i), toks) is Ok
            && lex_from(s, i, state_at(s, i), depth(s, i), toks)->Ok_0.len() == toks.len() + token_count(
            s,
            s.len() as int,
        ) - token_count(s, i),
        depth(s, s.len() as int) != 0 ==> lex_from(s, i, state_at(s, i), depth(s, i), toks) == Err::<
            Seq<crate::token::TokenKind>,
            LexError,
        >(LexError::ParenthesisImbalance(s.len() as usize)),
    decreases s.len() - i,
{
    lemma_last_sig_range(s, i);
    if i < s.len() {
        let c = s[i];
        assert(char_ok(s, i));
        if c == ' ' {
            lemma_lex_from_well_formed(s, i + 1, toks);
        } else if c == '(' || c == ')' || is_operator(c) {
            let t2 = toks.push(
                if c == '(' {
                    crate::token::TokenKind::OpenParentheses
                } else if c == ')' {
                    crate::token::TokenKind::CloseParentheses
                } else {
                    crate::token::operator_token(c)
                },
            );
            lemma_lex_from_well_formed(s, i + 1, t2);
        } else {
            assert(is_digit(c));
            let e = digit_run_end(s, i);
            lemma_digit_run_end_bounds(s, i + 1);
            lemma_digit_run(s, i, e);
            assert(is_run_start(s, i));
            let v = digits_value(s.subrange(i, e));
            lemma_lex_from_well_formed(s, e, toks.push(crate::token::TokenKind::Number(v as u32)));
        }
    }
}

/// Every text with balanced parentheses, operands and operators alternating
/// from an operand to an operand, and only accepted characters, lexes; it
/// gives one token per digit run and per operator or parenthesis character.
pub proof fn lemma_well_formed_text_lexes(s: Seq<char>)
    requires
        well_formed_text(s),
        depth(s, s.len() as int) == 0,
    ensures
        lex(s) is Ok,
        lex(s)->Ok_0.len() == token_count(s, s.len() as int),
{
    lemma_lex_from_well_formed(s, 0, Seq::empty());
    assert(state_at(s, 0) == State::Start);
}

/// Where all else is in order, a `(` left open at the end is the one error,
/// reported at the end of the text: such a text lexes exactly when the
/// nesting depth ends at zero.
pub proof fn lemma_unclosed_parenthesis_rejected(s: Seq<char>)
    requires
        well_formed_text(s),
    ensures
        lex(s) is Ok <==> depth(s, s.len() as int) == 0,
        depth(s, s.len() as int) != 0 ==> lex(s) == Err::<Seq<crate::token::TokenKind>, LexError>(
            LexError::ParenthesisImbalance(s.len() as usize),
        ),
{
    lemma_lex_from_well_formed(s, 0, Seq::empty());
    assert(state_at(s, 0) == State::Start);
}

proof fn lemma_lex_from_ok_balanced(
    s: Seq<char>,
    i: int,
    state: State,
    nest: int,
    toks: Seq<crate::token::TokenKind>,
)
    requires
        0 <= i <= s.len(),
        nest == depth(s, i),
        forall|k: int| 0 <= k <= i ==> #[trigger] depth(s, k) >= 0,
        lex_from(s, i, state, nest, toks) is Ok,
    ensures
        balanced(s),
    decreases s.len() - i,
{
    if i < s.len() {
        let c = s[i];
        if c == ' ' || c == '(' || c == ')' || is_operator(c) {
            let st2 = if c == ' ' {
                state
            } else if c == '(' || is_operator(c) {
                State::ExpectOperand
            } else {
                State::ExpectOperator
            };
            let t2 = if c == ' ' {
                toks
            } else if c == '(' {
                toks.push(crate::token::TokenKind::OpenParentheses)
            } else if c == ')' {
                toks.push(crate::token::TokenKind::CloseParentheses)
            } else {
                toks.push(crate::token::operator_token(c))
            };
            assert(depth(s, i + 1) >= 0);
            assert forall|k: int| 0 <= k <= i + 1 implies #[trigger] depth(s, k) >= 0 by {
                if k <= i {
                    assert(depth(s, k) >= 0);
                }
            }
            lemma_lex_from_ok_balanced(s, i + 1, st2, depth(s, i + 1), t2);
        } else if is_digit(c) {
            let e = digit_run_end(s, i);
            lemma_digit_run_end_bounds(s, i + 1);
            let v = digits_value(s.subrange(i, e));
            assert forall|k: int| 0 <= k <= e implies #[trigger] depth(s, k) >= 0 by {
                if k <= i {
                    assert(depth(s, k) >= 0);
                } else {
                    lemma_digit_run(s, i, k);
                }
            }
            lemma_digit_run(s, i, e);
            lemma_lex_from_ok_balanced(
                s,
                e,
                State::ExpectOperator,
                nest,
                toks.push(crate::token::TokenKind::Number(v as u32)),
            );
        }
    }
}

/// Whatever lexes has balanced parentheses: the nesting depth never goes
/// below zero and is zero at the end.
pub proof fn lemma_lexed_text_is_balanced(s: Seq<char>)
    requires
        lex(s) is Ok,
    ensures
        balanced(s),
{
    lemma_lex_from_ok_balanced(s, 0, State::Start, 0, Seq::empty());
}

} // verus!
