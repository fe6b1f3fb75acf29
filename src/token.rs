use vstd::prelude::*;

use crate::grammar::{
    balanced, depth, lemma_lexed_text_is_balanced, lemma_unclosed_parenthesis_rejected,
    lemma_well_formed_text_lexes, token_count, well_formed_text,
};

verus! {

/// Largest literal accepted: the range of the 32-bit signed immediate that
/// the emitted `push` instruction takes.
pub const MAX_NUMBER: u32 = 2147483647;

/// One classified unit of the expression text.
#[derive(Clone, Copy, Debug, PartialEq, Eq, Structural)]
pub enum TokenKind {
    Add,
    Sub,
    Mul,
    Div,
    OpenParentheses,
    CloseParentheses,
    Number(u32),
}

/// Position in the token grammar, threaded through the lexer.
#[derive(Clone, Copy, Debug, PartialEq, Eq, Structural)]
pub enum State {
    /// Nothing has been read yet.
    Start,
    /// The next token must be a number or `(`.
    ExpectOperand,
    /// The next token must be an operator or `)`.
    ExpectOperator,
    /// Past the last token; admits what `ExpectOperator` admits.
    End,
}

/// Why the expression text was rejected; each carries the column (character
/// index) of the offending place.
#[derive(Clone, Copy, Debug, PartialEq, Eq, Structural)]
pub enum LexError {
    /// A character outside digits, `+ - * / ( )` and space.
    UnrecognizedCharacter(usize),
    /// An operator where a number or `(` was expected, or as the last
    /// non-space character.
    OperatorPosition(usize),
    /// A `(` where an operator or `)` was expected.
    OpenParenPosition(usize),
    /// A `)` where a number or `(` was expected.
    CloseParenPosition(usize),
    /// A number right after a number or `)` (digits split by spaces included).
    NumberPosition(usize),
    /// A number above `MAX_NUMBER`; the column is its first digit.
    NumberTooLarge(usize),
    /// The input ends right after `(` (column: the end). Input that ends
    /// right after an operator is an `OperatorPosition` at that operator.
    UnexpectedEnd(usize),
    /// A `)` with no open `(` before it, or `(` left open at the end.
    ParenthesisImbalance(usize),
}

pub open spec fn is_digit(c: char) -> bool {
    '0' <= c && c <= '9'
}

pub open spec fn is_operator(c: char) -> bool {
    c == '+' || c == '-' || c == '*' || c == '/'
}

pub open spec fn digit_value(c: char) -> nat {
    (c as int - '0' as int) as nat
}

/// Decimal value of a sequence of digits.
pub open spec fn digits_value(d: Seq<char>) -> nat
    decreases d.len(),
{
    if d.len() == 0 {
        0
    } else {
        10 * digits_value(d.drop_last()) + digit_value(d.last())
    }
}

/// End of the maximal run of digits that starts at `i`.
pub open spec fn digit_run_end(s: Seq<char>, i: int) -> int
    decreases s.len() - i,
{
    if 0 <= i < s.len() && is_digit(s[i]) {
        digit_run_end(s, i + 1)
    } else {
        i
    }
}

pub open spec fn operator_token(c: char) -> TokenKind {
    if c == '+' {
        TokenKind::Add
    } else if c == '-' {
        TokenKind::Sub
    } else if c == '*' {
        TokenKind::Mul
    } else {
        TokenKind::Div
    }
}

pub open spec fn accepts_operand(state: State) -> bool {
    state == State::Start || state == State::ExpectOperand
}

pub open spec fn accepts_operator(state: State) -> bool {
    state == State::ExpectOperator || state == State::End
}

/// Index of the last non-space character before `i`, or -1 when there is none.
pub open spec fn last_sig(s: Seq<char>, i: int) -> int
    decreases i,
{
    if i <= 0 || i > s.len() {
        -1
    } else if s[i - 1] != ' ' {
        i - 1
    } else {
        last_sig(s, i - 1)
    }
}

/// The lexer's state machine, from column `i` on, with `toks` emitted so far.
pub open spec fn lex_from(
    s: Seq<char>,
    i: int,
    state: State,
    nest: int,
    toks: Seq<TokenKind>,
) -> Result<Seq<TokenKind>, LexError>
    decreases s.len() - i,
{
    if i < 0 || i >= s.len() {
        if state == State::ExpectOperand {
            let j = last_sig(s, s.len() as int);
            if 0 <= j < s.len() && is_operator(s[j]) {
                Err(LexError::OperatorPosition(j as usize))
            } else {
                Err(LexError::UnexpectedEnd(s.len() as usize))
            }
        } else if nest != 0 {
            Err(LexError::ParenthesisImbalance(s.len() as usize))
        } else {
            Ok(toks)
        }
    } else {
        let c = s[i];
        if c == ' ' {
            lex_from(s, i + 1, state, nest, toks)
        } else if c == '(' {
            if accepts_operand(state) {
                lex_from(s, i + 1, State::ExpectOperand, nest + 1, toks.push(TokenKind::OpenParentheses))
            } else {
                Err(LexError::OpenParenPosition(i as usize))
            }
        } else if c == ')' {
            if !accepts_operator(state) {
                Err(LexError::CloseParenPosition(i as usize))
            } else if nest <= 0 {
                Err(LexError::ParenthesisImbalance(i as usize))
            } else {
                lex_from(s, i + 1, State::ExpectOperator, nest - 1, toks.push(TokenKind::CloseParentheses))
            }
        } else if is_operator(c) {
            if state == State::ExpectOperator {
                lex_from(s, i + 1, State::ExpectOperand, nest, toks.push(operator_token(c)))
            } else {
                Err(LexError::OperatorPosition(i as usize))
            }
        } else if is_digit(c) {
            if !accepts_operand(state) {
                Err(LexError::NumberPosition(i as usize))
            } else {
                let e = digit_run_end(s, i);
                proof {
                    lemma_digit_run_end_bounds(s, i + 1);
                }
                let v = digits_value(s.subrange(i, e));
                if v > MAX_NUMBER {
                    Err(LexError::NumberTooLarge(i as usize))
                } else {
                    lex_from(s, e, State::ExpectOperator, nest, toks.push(TokenKind::Number(v as u32)))
                }
            }
        } else {
            Err(LexError::UnrecognizedCharacter(i as usize))
        }
    }
}

/// The token sequence of an expression text, or the first lexical error.
pub open spec fn lex(s: Seq<char>) -> Result<Seq<TokenKind>, LexError> {
    lex_from(s, 0, State::Start, 0, Seq::empty())
}

/// Copies the characters of `s` into a vector, in order.
pub(crate) fn chars_of(s: &str) -> (r: Vec<char>)
    ensures
        r@ == s@,
{
    let mut r: Vec<char> = Vec::new();
    for c in it: s.chars()
        invariant
            r@ == it.seq().take(it.index() as int),
    {
        r.push(c);
    }
    r
}

/// A run of digits ends at or after its start, within the text.
pub proof fn lemma_digit_run_end_bounds(s: Seq<char>, i: int)
    requires
        0 <= i <= s.len(),
    ensures
        i <= digit_run_end(s, i) <= s.len(),
    decreases s.len() - i,
{
    if i < s.len() && is_digit(s[i]) {
        lemma_digit_run_end_bounds(s, i + 1);
    }
}

/// The token sequence produced by one lexing pass: owned, in order, never
/// changed after construction.
#[derive(Debug)]
pub struct TokenLinkedList {
    tokens: Vec<TokenKind>,
}

impl View for TokenLinkedList {
    type V = Seq<TokenKind>;

    closed spec fn view(&self) -> Seq<TokenKind> {
        self.tokens@
    }
}

impl TokenLinkedList {
    /// Lexes an expression text into its tokens.
    pub fn new(s: String) -> (r: Result<TokenLinkedList, LexError>)
        ensures
            lex(s@) == (match r {
                Ok(t) => Ok(t@),
                Err(e) => Err(e),
            }),
            r is Ok ==> balanced(s@),
            well_formed_text(s@) ==> (r is Ok <==> depth(s@, s@.len() as int) == 0),
            well_formed_text(s@) && depth(s@, s@.len() as int) != 0 ==> r == Err::<TokenLinkedList, LexError>(
                LexError::ParenthesisImbalance(s@.len() as usize),
            ),
            well_formed_text(s@) && depth(s@, s@.len() as int) == 0 ==> r is Ok && r->Ok_0@.len()
                == token_count(s@, s@.len() as int),
    {
        let chars = chars_of(s.as_str());
        let r = Self::tokenize(&chars);
        proof {
            if r is Ok {
                lemma_lexed_text_is_balanced(s@);
            }
            if well_formed_text(s@) {
                lemma_unclosed_parenthesis_rejected(s@);
                if depth(s@, s@.len() as int) == 0 {
                    lemma_well_formed_text_lexes(s@);
                }
            }
        }
        r
    }

    /// The state machine over the characters `s`.
    fn tokenize(s: &Vec<char>) -> (r: Result<TokenLinkedList, LexError>)
        ensures
            lex(s@) == (match r {
                Ok(t) => Ok(t@),
                Err(e) => Err(e),
            }),
    {
        let n = s.len();
        let mut i: usize = 0;
        let mut state = State::Start;
        let mut nest: usize = 0;
        let mut tokens: Vec<TokenKind> = Vec::new();
        let mut opener: usize = 0;
        while i < n
            invariant
                n == s@.len(),
                i <= n,
                nest <= i,
                state == State::ExpectOperand ==> opener < i && last_sig(s@, i as int) == opener
                    && (s@[opener as int] == '(' || is_operator(s@[opener as int])),
                lex_from(s@, i as int, state, nest as int, tokens@) == lex(s@),
            decreases n - i,
        {
            let c = s[i];
            if c == ' ' {
                i = i + 1;
            } else if c == '(' {
                if state == State::Start || state == State::ExpectOperand {
                    tokens.push(TokenKind::OpenParentheses);
                    state = State::ExpectOperand;
                    opener = i;
                    nest = nest + 1;
                    i = i + 1;
                } else {
                    return Err(LexError::OpenParenPosition(i));
                }
            } else if c == ')' {
                if !(state == State::ExpectOperator || state == State::End) {
                    return Err(LexError::CloseParenPosition(i));
                } else if nest == 0 {
                    return Err(LexError::ParenthesisImbalance(i));
                } else {
                    tokens.push(TokenKind::CloseParentheses);
                    state = State::ExpectOperator;
                    nest = nest - 1;
                    i = i + 1;
                }
            } else if c == '+' || c == '-' || c == '*' || c == '/' {
                if state == State::ExpectOperator {
                    let t = if c == '+' {
                        TokenKind::Add
                    } else if c == '-' {
                        TokenKind::Sub
                    } else if c == '*' {
                        TokenKind::Mul
                    } else {
                        TokenKind::Div
                    };
                    tokens.push(t);
                    state = State::ExpectOperand;
                    opener = i;
                    i = i + 1;
                } else {
                    return Err(LexError::OperatorPosition(i));
                }
            } else if '0' <= c && c <= '9' {
                if !(state == State::Start || state == State::ExpectOperand) {
                    return Err(LexError::NumberPosition(i));
                }
                let start = i;
                let mut value: u64 = 0;
                let mut j: usize = i;
                while j < n && '0' <= s[j] && s[j] <= '9'
                    invariant
                        n == s@.len(),
                        start <= j <= n,
                        digit_run_end(s@, start as int) == digit_run_end(s@, j as int),
                        digits_value(s@.subrange(start as int, j as int)) <= MAX_NUMBER
                            ==> value == digits_value(s@.subrange(start as int, j as int)),
                        digits_value(s@.subrange(start as int, j as int)) > MAX_NUMBER
                            ==> value > MAX_NUMBER,
                    decreases n - j,
                {
                    let d = s[j];
                    assert(s@.subrange(start as int, j + 1).drop_last() == s@.subrange(start as int, j as int));
                    if value <= MAX_NUMBER as u64 {
                        value = value * 10 + (d as u64 - '0' as u64);
                    }
                    j = j + 1;
                }
                if value > MAX_NUMBER as u64 {
                    return Err(LexError::NumberTooLarge(start));
                }
                tokens.push(TokenKind::Number(value as u32));
                state = State::ExpectOperator;
                i = j;
            } else {
                return Err(LexError::UnrecognizedCharacter(i));
            }
        }
        if state == State::ExpectOperand {
            if s[opener] == '(' {
                Err(LexError::UnexpectedEnd(n))
            } else {
                Err(LexError::OperatorPosition(opener))
            }
        } else if nest != 0 {
            Err(LexError::ParenthesisImbalance(n))
        } else {
            Ok(TokenLinkedList { tokens })
        }
    }

    /// A token sequence holding `tokens`, in order.
    pub fn from_vec(tokens: Vec<TokenKind>) -> (r: TokenLinkedList)
        ensures
            r@ == tokens@,
    {
        TokenLinkedList { tokens }
    }

    /// Number of tokens.
    pub fn len(&self) -> (r: usize)
        ensures
            r == self@.len(),
    {
        self.tokens.len()
    }

    /// The token at `i`.
    pub fn get(&self, i: usize) -> (r: TokenKind)
        requires
            i < self@.len(),
        ensures
            r == self@[i as int],
    {
        self.tokens[i]
    }

    /// A cursor at the first token.
    pub fn iter(&self) -> (r: TokenLinkedListIterator<'_>)
        ensures
            r.wf(),
            r.tokens() == self@,
            r.pos() == 0,
    {
        TokenLinkedListIterator { list: self, pos: 0 }
    }

    /// The tokens, in order.
    pub fn to_vec(&self) -> (r: Vec<TokenKind>)
        ensures
            r@ == self@,
    {
        self.tokens.clone()
    }
}

/// A read-only cursor over a token sequence: peek at the current token,
/// advance past it; it never moves back.
pub struct TokenLinkedListIterator<'a> {
    list: &'a TokenLinkedList,
    pos: usize,
}

impl<'a> TokenLinkedListIterator<'a> {
    /// The whole sequence the cursor walks.
    pub closed spec fn tokens(&self) -> Seq<TokenKind> {
        self.list@
    }

    /// Index of the current token.
    pub closed spec fn pos(&self) -> int {
        self.pos as int
    }

    pub open spec fn wf(&self) -> bool {
        0 <= self.pos() <= self.tokens().len()
    }

    /// The current token, if any is left.
    pub fn peek(&self) -> (r: Option<TokenKind>)
        requires
            self.wf(),
        ensures
            r == (if self.pos() < self.tokens().len() {
                Some(self.tokens()[self.pos()])
            } else {
                None
            }),
    {
        if self.pos < self.list.len() {
            Some(self.list.get(self.pos))
        } else {
            None
        }
    }

    /// Moves past the current token.
    pub fn advance(&mut self)
        requires
            old(self).wf(),
            old(self).pos() < old(self).tokens().len(),
        ensures
            final(self).wf(),
            final(self).tokens() == old(self).tokens(),
            final(self).pos() == old(self).pos() + 1,
    {
        let n = self.list.len();
        assert(self.pos < n);
        self.pos = self.pos + 1;
    }

    /// The current token, moving past it; `None` once the sequence is exhausted.
    pub fn next(&mut self) -> (r: Option<TokenKind>)
        requires
            old(self).wf(),
        ensures
            final(self).wf(),
            final(self).tokens() == old(self).tokens(),
            r == (if old(self).pos() < old(self).tokens().len() {
                Some(old(self).tokens()[old(self).pos()])
            } else {
                None
            }),
            final(self).pos() == (if old(self).pos() < old(self).tokens().len() {
                old(self).pos() + 1
            } else {
                old(self).pos()
            }),
    {
        let r = self.peek();
        if r.is_some() {
            self.advance();
        }
        r
    }

    /// Index of the current token.
    pub fn position(&self) -> (r: usize)
        ensures
            r == self.pos(),
    {
        self.pos
    }
}

} // verus!
