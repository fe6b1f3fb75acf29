use vstd::prelude::*;

use crate::codegen::{append_decimal, decimal, emit, lines_view, listing, program};
use crate::machine::{initial_state, lemma_program_computes_value, run, value};
use crate::node::{lemma_parse_wf, parse, Node, ParseError};
use crate::parsing::lemma_lexed_text_parses;
use crate::token::{chars_of, last_sig, lex, LexError, TokenKind, TokenLinkedList};
use vstd::string::*;

verus! {

/// The first error of the pipeline.
#[derive(Clone, Copy, Debug, PartialEq, Eq, Structural)]
pub enum CompileError {
    Lex(LexError),
    Parse(ParseError),
}

/// The assembly text of an expression, or the first error met.
pub open spec fn compiled(s: Seq<char>) -> Result<Seq<Seq<char>>, CompileError> {
    match lex(s) {
        Err(e) => Err(CompileError::Lex(e)),
        Ok(t) => match parse(t) {
            Err(e) => Err(CompileError::Parse(e)),
            Ok(n) => Ok(listing(n)),
        },
    }
}

/// Translates an expression into assembly lines: lexes, parses, emits.
pub fn compile(s: String) -> (r: Result<Vec<String>, CompileError>)
    ensures
        compiled(s@) == (match r {
            Ok(lines) => Ok(lines_view(lines@)),
            Err(e) => Err(e),
        }),
        r matches Err(CompileError::Parse(_)) ==> lex(s@) == Ok::<Seq<TokenKind>, LexError>(Seq::empty()),
{
    proof {
        if lex(s@) is Ok && lex(s@)->Ok_0.len() > 0 {
            lemma_lexed_text_parses(s@);
        }
        if lex(s@) is Ok && lex(s@)->Ok_0.len() == 0 {
            assert(lex(s@)->Ok_0 == Seq::<TokenKind>::empty());
        }
    }
    let tokens = match TokenLinkedList::new(s) {
        Ok(t) => t,
        Err(e) => return Err(CompileError::Lex(e)),
    };
    let node = match Node::expr(&tokens) {
        Ok(n) => n,
        Err(e) => return Err(CompileError::Parse(e)),
    };
    Ok(emit(&node))
}

/// For every expression that lexes to at least one token (it then parses),
/// the emitted text lists the routine generated from its tree, and running that routine on the
/// reference machine gives the tree's arithmetic value, faulting exactly
/// where the arithmetic does (a zero divisor, a 64-bit overflow).
pub proof fn lemma_compiled_expression_computes_its_value(s: Seq<char>)
    requires
        lex(s) is Ok,
        lex(s)->Ok_0.len() > 0,
    ensures
        parse(lex(s)->Ok_0) is Ok,
        compiled(s) == Ok::<Seq<Seq<char>>, CompileError>(listing(parse(lex(s)->Ok_0)->Ok_0)),
        run(program(parse(lex(s)->Ok_0)->Ok_0), initial_state()) == value(parse(lex(s)->Ok_0)->Ok_0),
{
    lemma_lexed_text_parses(s);
    lemma_parse_wf(lex(s)->Ok_0);
    lemma_program_computes_value(parse(lex(s)->Ok_0)->Ok_0);
}

/// The text of a token as written in an expression.
pub open spec fn token_text(t: TokenKind) -> Seq<char> {
    match t {
        TokenKind::Add => "+"@,
        TokenKind::Sub => "-"@,
        TokenKind::Mul => "*"@,
        TokenKind::Div => "/"@,
        TokenKind::OpenParentheses => "("@,
        TokenKind::CloseParentheses => ")"@,
        TokenKind::Number(v) => decimal(v as nat),
    }
}

/// What an error says.
pub open spec fn message(e: CompileError) -> Seq<char> {
    match e {
        CompileError::Lex(LexError::UnrecognizedCharacter(_)) => "unrecognized character"@,
        CompileError::Lex(LexError::OperatorPosition(_)) => "operator in invalid position"@,
        CompileError::Lex(LexError::OpenParenPosition(_)) => "parenthesis in invalid position"@,
        CompileError::Lex(LexError::CloseParenPosition(_)) => "closing parenthesis in invalid position"@,
        CompileError::Lex(LexError::NumberPosition(_)) => "number in invalid position"@,
        CompileError::Lex(LexError::NumberTooLarge(_)) => "number too large"@,
        CompileError::Lex(LexError::UnexpectedEnd(_)) => "expression ends before an operand"@,
        CompileError::Lex(LexError::ParenthesisImbalance(_)) => "unbalanced parentheses"@,
        CompileError::Parse(ParseError::UnexpectedToken(t, k)) => "unexpected token "@ + token_text(t)
            + " at token "@ + decimal(k as nat),
        CompileError::Parse(ParseError::UnexpectedEndOfInput) => "unexpected end of input"@,
    }
}

/// The column a lexical error points at.
pub open spec fn column(e: LexError) -> nat {
    match e {
        LexError::UnrecognizedCharacter(c) => c as nat,
        LexError::OperatorPosition(c) => c as nat,
        LexError::OpenParenPosition(c) => c as nat,
        LexError::CloseParenPosition(c) => c as nat,
        LexError::NumberPosition(c) => c as nat,
        LexError::NumberTooLarge(c) => c as nat,
        LexError::UnexpectedEnd(c) => c as nat,
        LexError::ParenthesisImbalance(c) => c as nat,
    }
}

/// An operator error at the last non-space character of `s`.
pub open spec fn ends_with_operator(s: Seq<char>, e: CompileError) -> bool {
    e matches CompileError::Lex(LexError::OperatorPosition(c)) && c == last_sig(s, s.len() as int)
}

/// What the diagnostic says of an error in `s`.
pub open spec fn explanation(s: Seq<char>, e: CompileError) -> Seq<char> {
    if ends_with_operator(s, e) {
        "expression ends with an operator"@
    } else {
        message(e)
    }
}

/// The diagnostic for an error in expression `s`: the expression, a caret
/// under the offending column (lexical errors), then what went wrong.
pub open spec fn diagnostic_lines(s: Seq<char>, e: CompileError) -> Seq<Seq<char>> {
    match e {
        CompileError::Lex(l) => seq![s, Seq::new(column(l), |i: int| ' ').push('^'), explanation(s, e)],
        CompileError::Parse(_) => seq![s, explanation(s, e)],
    }
}

fn token_string(t: TokenKind) -> (r: String)
    ensures
        r@ == token_text(t),
{
    match t {
        TokenKind::Add => String::from_str("+"),
        TokenKind::Sub => String::from_str("-"),
        TokenKind::Mul => String::from_str("*"),
        TokenKind::Div => String::from_str("/"),
        TokenKind::OpenParentheses => String::from_str("("),
        TokenKind::CloseParentheses => String::from_str(")"),
        TokenKind::Number(v) => {
            let mut s = String::new();
            append_decimal(&mut s, v as u64);
            s
        },
    }
}

impl CompileError {
    /// What this error says.
    pub fn message(&self) -> (r: String)
        ensures
            r@ == message(*self),
    {
        match *self {
            CompileError::Lex(LexError::UnrecognizedCharacter(_)) => String::from_str("unrecognized character"),
            CompileError::Lex(LexError::OperatorPosition(_)) => String::from_str("operator in invalid position"),
            CompileError::Lex(LexError::OpenParenPosition(_)) => String::from_str(
                "parenthesis in invalid position",
            ),
            CompileError::Lex(LexError::CloseParenPosition(_)) => String::from_str(
                "closing parenthesis in invalid position",
            ),
            CompileError::Lex(LexError::NumberPosition(_)) => String::from_str("number in invalid position"),
            CompileError::Lex(LexError::NumberTooLarge(_)) => String::from_str("number too large"),
            CompileError::Lex(LexError::UnexpectedEnd(_)) => String::from_str("expression ends before an operand"),
            CompileError::Lex(LexError::ParenthesisImbalance(_)) => String::from_str("unbalanced parentheses"),
            CompileError::Parse(ParseError::UnexpectedToken(t, k)) => {
                let mut s = String::from_str("unexpected token ");
                let tt = token_string(t);
                s.append(tt.as_str());
                s.append(" at token ");
                append_decimal(&mut s, k as u64);
                s
            },
            CompileError::Parse(ParseError::UnexpectedEndOfInput) => String::from_str("unexpected end of input"),
        }
    }

    /// The diagnostic lines for this error in expression `s`.
    pub fn diagnostic(&self, s: &str) -> (r: Vec<String>)
        ensures
            lines_view(r@) == diagnostic_lines(s@, *self),
    {
        let mut lines: Vec<String> = Vec::new();
        lines.push(String::from_str(s));
        match *self {
            CompileError::Lex(l) => {
                let col = match l {
                    LexError::UnrecognizedCharacter(c) => c,
                    LexError::OperatorPosition(c) => c,
                    LexError::OpenParenPosition(c) => c,
                    LexError::CloseParenPosition(c) => c,
                    LexError::NumberPosition(c) => c,
                    LexError::NumberTooLarge(c) => c,
                    LexError::UnexpectedEnd(c) => c,
                    LexError::ParenthesisImbalance(c) => c,
                };
                let mut caret = String::new();
                let mut i: usize = 0;
                while i < col
                    invariant
                        i <= col,
                        caret@ == Seq::new(i as nat, |j: int| ' '),
                    decreases col - i,
                {
                    proof {
                        reveal_strlit(" ");
                    }
                    caret.append(" ");
                    assert(caret@ =~= Seq::new((i + 1) as nat, |j: int| ' '));
                    i = i + 1;
                }
                proof {
                    reveal_strlit("^");
                }
                caret.append("^");
                assert(caret@ =~= Seq::new(column(l), |j: int| ' ').push('^'));
                lines.push(caret);
            },
            CompileError::Parse(_) => {},
        }
        let chars = chars_of(s);
        let mut k: usize = chars.len();
        while k > 0 && chars[k - 1] == ' '
            invariant
                k <= chars@.len(),
                chars@ == s@,
                last_sig(s@, s@.len() as int) == last_sig(s@, k as int),
            decreases k,
        {
            k = k - 1;
        }
        let at_last = match *self {
            CompileError::Lex(LexError::OperatorPosition(c)) => k > 0 && c == k - 1,
            _ => false,
        };
        let m = if at_last {
            String::from_str("expression ends with an operator")
        } else {
            self.message()
        };
        lines.push(m);
        assert(lines_view(lines@) =~= diagnostic_lines(s@, *self)) by {
            assert(lines_view(lines@)[0] == s@);
        }
        lines
    }
}

} // verus!
