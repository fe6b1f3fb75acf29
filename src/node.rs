use vstd::prelude::*;

use crate::parsing::{grammatical, lemma_grammatical_parses};
use crate::token::{TokenKind, TokenLinkedList, TokenLinkedListIterator};

verus! {

/// What a tree node is: one of the four binary operators, or a number leaf.
#[derive(Clone, Copy, Debug, PartialEq, Eq, Structural)]
pub enum NodeKind {
    Add,
    Sub,
    Mul,
    Div,
    Number(u32),
}

/// A node of the expression tree. An operator node owns both of its
/// children; a number node has none (see `wf`).
#[derive(Debug, PartialEq, Eq)]
pub struct Node {
    pub node_kind: NodeKind,
    pub lhs: Option<Box<Node>>,
    pub rhs: Option<Box<Node>>,
}

/// Why a token sequence is not an expression.
#[derive(Clone, Copy, Debug, PartialEq, Eq, Structural)]
pub enum ParseError {
    /// This token, at this index, cannot stand here.
    UnexpectedToken(TokenKind, usize),
    /// The tokens ran out where a term was still expected.
    UnexpectedEndOfInput,
}

impl Node {
    /// Operator nodes have two well-formed children, number leaves none.
    pub open spec fn wf(&self) -> bool
        decreases self,
    {
        match self.node_kind {
            NodeKind::Number(_) => self.lhs is None && self.rhs is None,
            _ => match (self.lhs, self.rhs) {
                (Some(l), Some(r)) => l.wf() && r.wf(),
                _ => false,
            },
        }
    }

    pub open spec fn leaf(v: u32) -> Node {
        Node { node_kind: NodeKind::Number(v), lhs: None, rhs: None }
    }

    pub open spec fn branch(k: NodeKind, l: Node, r: Node) -> Node {
        Node { node_kind: k, lhs: Some(Box::new(l)), rhs: Some(Box::new(r)) }
    }
}

pub open spec fn is_operator_kind(k: NodeKind) -> bool {
    !(k is Number)
}

/// The node kind of a binary operator token.
pub open spec fn kind_of(t: TokenKind) -> NodeKind {
    match t {
        TokenKind::Add => NodeKind::Add,
        TokenKind::Sub => NodeKind::Sub,
        TokenKind::Mul => NodeKind::Mul,
        _ => NodeKind::Div,
    }
}

pub open spec fn is_sum_op(t: TokenKind) -> bool {
    t == TokenKind::Add || t == TokenKind::Sub
}

pub open spec fn is_product_op(t: TokenKind) -> bool {
    t == TokenKind::Mul || t == TokenKind::Div
}

/// `primary := NUMBER | '(' expr ')'`, at index `p`; on success the tree and
/// the index after it.
pub open spec fn parse_primary(t: Seq<TokenKind>, p: int) -> Result<(Node, int), ParseError>
    decreases t.len() - p, 0int,
{
    if p < 0 || p >= t.len() {
        Err(ParseError::UnexpectedEndOfInput)
    } else {
        match t[p] {
            TokenKind::Number(v) => Ok((Node::leaf(v), p + 1)),
            TokenKind::OpenParentheses => match parse_expr(t, p + 1) {
                Ok((e, q)) => if q < t.len() && t[q] == TokenKind::CloseParentheses {
                    Ok((e, q + 1))
                } else if 0 <= q < t.len() {
                    Err(ParseError::UnexpectedToken(t[q], q as usize))
                } else {
                    Err(ParseError::UnexpectedEndOfInput)
                },
                Err(e) => Err(e),
            },
            other => Err(ParseError::UnexpectedToken(other, p as usize)),
        }
    }
}

/// The `(('*' | '/') primary)*` loop from index `p`, folding onto `lhs`.
pub open spec fn parse_mul_tail(t: Seq<TokenKind>, p: int, lhs: Node) -> Result<(Node, int), ParseError>
    decreases t.len() - p, 3int,
{
    if 0 <= p < t.len() && is_product_op(t[p]) {
        match parse_primary(t, p + 1) {
            Ok((rhs, q)) => if p < q <= t.len() {
                parse_mul_tail(t, q, Node::branch(kind_of(t[p]), lhs, rhs))
            } else {
                Err(ParseError::UnexpectedEndOfInput)
            },
            Err(e) => Err(e),
        }
    } else {
        Ok((lhs, p))
    }
}

/// `mul := primary (('*' | '/') primary)*`, at index `p`.
pub open spec fn parse_mul(t: Seq<TokenKind>, p: int) -> Result<(Node, int), ParseError>
    decreases t.len() - p, 1int,
{
    match parse_primary(t, p) {
        Ok((lhs, q)) => if p < q <= t.len() {
            parse_mul_tail(t, q, lhs)
        } else {
            Err(ParseError::UnexpectedEndOfInput)
        },
        Err(e) => Err(e),
    }
}

/// The `(('+' | '-') mul)*` loop from index `p`, folding onto `lhs`.
pub open spec fn parse_expr_tail(t: Seq<TokenKind>, p: int, lhs: Node) -> Result<(Node, int), ParseError>
    decreases t.len() - p, 4int,
{
    if 0 <= p < t.len() && is_sum_op(t[p]) {
        match parse_mul(t, p + 1) {
            Ok((rhs, q)) => if p < q <= t.len() {
                parse_expr_tail(t, q, Node::branch(kind_of(t[p]), lhs, rhs))
            } else {
                Err(ParseError::UnexpectedEndOfInput)
            },
            Err(e) => Err(e),
        }
    } else {
        Ok((lhs, p))
    }
}

/// `expr := mul (('+' | '-') mul)*`, at index `p`.
pub open spec fn parse_expr(t: Seq<TokenKind>, p: int) -> Result<(Node, int), ParseError>
    decreases t.len() - p, 2int,
{
    match parse_mul(t, p) {
        Ok((lhs, q)) => if p < q <= t.len() {
            parse_expr_tail(t, q, lhs)
        } else {
            Err(ParseError::UnexpectedEndOfInput)
        },
        Err(e) => Err(e),
    }
}

/// The tree of a whole token sequence: one `expr` that uses every token.
pub open spec fn parse(t: Seq<TokenKind>) -> Result<Node, ParseError> {
    match parse_expr(t, 0) {
        Ok((n, q)) => if 0 <= q < t.len() {
            Err(ParseError::UnexpectedToken(t[q], q as usize))
        } else {
            Ok(n)
        },
        Err(e) => Err(e),
    }
}

/// `r` and the cursor's final index `pos` are what the spec result `s` says.
pub open spec fn parsed_as(s: Result<(Node, int), ParseError>, r: Result<Node, ParseError>, pos: int) -> bool {
    match s {
        Ok((n, q)) => r == Ok::<Node, ParseError>(n) && pos == q,
        Err(e) => r == Err::<Node, ParseError>(e),
    }
}

impl Node {
    fn new(node_kind: NodeKind, lhs: Option<Box<Node>>, rhs: Option<Box<Node>>) -> (r: Node)
        ensures
            r == (Node { node_kind, lhs, rhs }),
    {
        Node { node_kind, lhs, rhs }
    }

    /// A number leaf.
    pub fn number(v: u32) -> (r: Node)
        ensures
            r == Node::leaf(v),
            r.wf(),
    {
        Node::new(NodeKind::Number(v), None, None)
    }

    /// An operator node over two subtrees.
    pub fn binary(kind: NodeKind, lhs: Node, rhs: Node) -> (r: Node)
        requires
            is_operator_kind(kind),
        ensures
            r == Node::branch(kind, lhs, rhs),
            lhs.wf() && rhs.wf() ==> r.wf(),
    {
        Node::new(kind, Some(Box::new(lhs)), Some(Box::new(rhs)))
    }

    /// Parses a whole token sequence into one expression tree.
    pub fn expr(t: &TokenLinkedList) -> (r: Result<Node, ParseError>)
        ensures
            r == parse(t@),
            r is Ok ==> r->Ok_0.wf(),
            grammatical(t@) && t@.len() > 0 ==> r is Ok,
            has_no_parentheses(t@) && r is Ok ==> no_sum_under_product(r->Ok_0),
    {
        proof {
            if has_no_parentheses(t@) {
                lemma_products_hold_no_bare_sums(t@);
            }
            if grammatical(t@) && t@.len() > 0 {
                lemma_grammatical_parses(t@);
            }
        }
        let mut it = t.iter();
        let r = Node::expr_at(&mut it);
        match r {
            Ok(n) => match it.peek() {
                Some(tk) => Err(ParseError::UnexpectedToken(tk, it.position())),
                None => Ok(n),
            },
            Err(e) => Err(e),
        }
    }

    fn expr_at(it: &mut TokenLinkedListIterator) -> (r: Result<Node, ParseError>)
        requires
            old(it).wf(),
        ensures
            final(it).wf(),
            final(it).tokens() == old(it).tokens(),
            parsed_as(parse_expr(old(it).tokens(), old(it).pos()), r, final(it).pos()),
            r is Ok ==> r->Ok_0.wf() && final(it).pos() > old(it).pos(),
        decreases old(it).tokens().len() - old(it).pos(), 2int,
    {
        let ghost t = it.tokens();
        let ghost p0 = it.pos();
        let first = Node::mul(it);
        let mut lhs = match first {
            Ok(n) => n,
            Err(e) => return Err(e),
        };
        let ghost p1 = it.pos();
        let ghost lhs1 = lhs;
        loop
            invariant
                it.wf(),
                it.tokens() == t,
                t == old(it).tokens(),
                p0 == old(it).pos(),
                p0 < p1 <= it.pos(),
                lhs.wf(),
                parse_expr(t, p0) == parse_expr_tail(t, p1, lhs1),
                parse_expr_tail(t, p1, lhs1) == parse_expr_tail(t, it.pos(), lhs),
            decreases t.len() - it.pos(),
        {
            let kind = match it.peek() {
                Some(TokenKind::Add) => NodeKind::Add,
                Some(TokenKind::Sub) => NodeKind::Sub,
                _ => return Ok(lhs),
            };
            let ghost p = it.pos();
            it.advance();
            let rhs = match Node::mul(it) {
                Ok(n) => n,
                Err(e) => return Err(e),
            };
            lhs = Node::binary(kind, lhs, rhs);
            assert(kind == kind_of(t[p]));
        }
    }

    fn mul(it: &mut TokenLinkedListIterator) -> (r: Result<Node, ParseError>)
        requires
            old(it).wf(),
        ensures
            final(it).wf(),
            final(it).tokens() == old(it).tokens(),
            parsed_as(parse_mul(old(it).tokens(), old(it).pos()), r, final(it).pos()),
            r is Ok ==> r->Ok_0.wf() && final(it).pos() > old(it).pos(),
        decreases old(it).tokens().len() - old(it).pos(), 1int,
    {
        let ghost t = it.tokens();
        let ghost p0 = it.pos();
        let first = Node::primary(it);
        let mut lhs = match first {
            Ok(n) => n,
            Err(e) => return Err(e),
        };
        let ghost p1 = it.pos();
        let ghost lhs1 = lhs;
        loop
            invariant
                it.wf(),
                it.tokens() == t,
                t == old(it).tokens(),
                p0 == old(it).pos(),
                p0 < p1 <= it.pos(),
                lhs.wf(),
                parse_mul(t, p0) == parse_mul_tail(t, p1, lhs1),
                parse_mul_tail(t, p1, lhs1) == parse_mul_tail(t, it.pos(), lhs),
            decreases t.len() - it.pos(),
        {
            let kind = match it.peek() {
                Some(TokenKind::Mul) => NodeKind::Mul,
                Some(TokenKind::Div) => NodeKind::Div,
                _ => return Ok(lhs),
            };
            let ghost p = it.pos();
            it.advance();
            let rhs = match Node::primary(it) {
                Ok(n) => n,
                Err(e) => return Err(e),
            };
            lhs = Node::binary(kind, lhs, rhs);
            assert(kind == kind_of(t[p]));
        }
    }

    fn primary(it: &mut TokenLinkedListIterator) -> (r: Result<Node, ParseError>)
        requires
            old(it).wf(),
        ensures
            final(it).wf(),
            final(it).tokens() == old(it).tokens(),
            parsed_as(parse_primary(old(it).tokens(), old(it).pos()), r, final(it).pos()),
            r is Ok ==> r->Ok_0.wf() && final(it).pos() > old(it).pos(),
        decreases old(it).tokens().len() - old(it).pos(), 0int,
    {
        let at = it.position();
        match it.next() {
            Some(TokenKind::Number(v)) => Ok(Node::number(v)),
            Some(TokenKind::OpenParentheses) => {
                let inner = match Node::expr_at(it) {
                    Ok(n) => n,
                    Err(e) => return Err(e),
                };
                let close_at = it.position();
                match it.next() {
                    Some(TokenKind::CloseParentheses) => Ok(inner),
                    Some(tk) => Err(ParseError::UnexpectedToken(tk, close_at)),
                    None => Err(ParseError::UnexpectedEndOfInput),
                }
            },
            Some(tk) => Err(ParseError::UnexpectedToken(tk, at)),
            None => Err(ParseError::UnexpectedEndOfInput),
        }
    }
}

proof fn lemma_primary_wf(t: Seq<TokenKind>, p: int)
    ensures
        parse_primary(t, p) is Ok ==> parse_primary(t, p)->Ok_0.0.wf(),
    decreases t.len() - p, 0int,
{
    if 0 <= p < t.len() && t[p] == TokenKind::OpenParentheses {
        lemma_expr_wf(t, p + 1);
    }
}

proof fn lemma_mul_tail_wf(t: Seq<TokenKind>, p: int, lhs: Node)
    requires
        lhs.wf(),
    ensures
        parse_mul_tail(t, p, lhs) is Ok ==> parse_mul_tail(t, p, lhs)->Ok_0.0.wf(),
    decreases t.len() - p, 3int,
{
    if 0 <= p < t.len() && is_product_op(t[p]) {
        lemma_primary_wf(t, p + 1);
        match parse_primary(t, p + 1) {
            Ok((rhs, q)) => if p < q <= t.len() {
                lemma_mul_tail_wf(t, q, Node::branch(kind_of(t[p]), lhs, rhs));
            },
            Err(e) => {},
        }
    }
}

proof fn lemma_mul_wf(t: Seq<TokenKind>, p: int)
    ensures
        parse_mul(t, p) is Ok ==> parse_mul(t, p)->Ok_0.0.wf(),
    decreases t.len() - p, 1int,
{
    lemma_primary_wf(t, p);
    match parse_primary(t, p) {
        Ok((lhs, q)) => if p < q <= t.len() {
            lemma_mul_tail_wf(t, q, lhs);
        },
        Err(e) => {},
    }
}

proof fn lemma_expr_tail_wf(t: Seq<TokenKind>, p: int, lhs: Node)
    requires
        lhs.wf(),
    ensures
        parse_expr_tail(t, p, lhs) is Ok ==> parse_expr_tail(t, p, lhs)->Ok_0.0.wf(),
    decreases t.len() - p, 4int,
{
    if 0 <= p < t.len() && is_sum_op(t[p]) {
        lemma_mul_wf(t, p + 1);
        match parse_mul(t, p + 1) {
            Ok((rhs, q)) => if p < q <= t.len() {
                lemma_expr_tail_wf(t, q, Node::branch(kind_of(t[p]), lhs, rhs));
            },
            Err(e) => {},
        }
    }
}

proof fn lemma_expr_wf(t: Seq<TokenKind>, p: int)
    ensures
        parse_expr(t, p) is Ok ==> parse_expr(t, p)->Ok_0.0.wf(),
    decreases t.len() - p, 2int,
{
    lemma_mul_wf(t, p);
    match parse_mul(t, p) {
        Ok((lhs, q)) => if p < q <= t.len() {
            lemma_expr_tail_wf(t, q, lhs);
        },
        Err(e) => {},
    }
}

/// Every tree the parser produces is well formed.
pub proof fn lemma_parse_wf(t: Seq<TokenKind>)
    ensures
        parse(t) is Ok ==> parse(t)->Ok_0.wf(),
{
    lemma_expr_wf(t, 0);
}

/// The tokens `first op1 n1 op2 n2 ...` of a chain of numbers joined by
/// the operators in `rest`.
pub open spec fn chain_tokens(first: u32, rest: Seq<(TokenKind, u32)>) -> Seq<TokenKind>
    decreases rest.len(),
{
    if rest.len() == 0 {
        seq![TokenKind::Number(first)]
    } else {
        chain_tokens(first, rest.drop_last()).push(rest.last().0).push(TokenKind::Number(rest.last().1))
    }
}

/// The chain folded from the left: each operator takes everything before it
/// as its left operand.
pub open spec fn left_fold(first: u32, rest: Seq<(TokenKind, u32)>) -> Node
    decreases rest.len(),
{
    if rest.len() == 0 {
        Node::leaf(first)
    } else {
        Node::branch(kind_of(rest.last().0), left_fold(first, rest.drop_last()), Node::leaf(rest.last().1))
    }
}

proof fn lemma_chain_tokens_layout(first: u32, rest: Seq<(TokenKind, u32)>)
    ensures
        chain_tokens(first, rest).len() == 2 * rest.len() + 1,
        chain_tokens(first, rest)[0] == TokenKind::Number(first),
        forall|j: int|
            0 <= j < rest.len() ==> chain_tokens(first, rest)[2 * j + 1] == rest[j].0
                && chain_tokens(first, rest)[2 * j + 2] == TokenKind::Number(rest[j].1),
    decreases rest.len(),
{
    if rest.len() > 0 {
        let r0 = rest.drop_last();
        lemma_chain_tokens_layout(first, r0);
        let t0 = chain_tokens(first, r0);
        let t = chain_tokens(first, rest);
        assert(t == t0.push(rest.last().0).push(TokenKind::Number(rest.last().1)));
        assert forall|j: int| 0 <= j < rest.len() implies t[2 * j + 1] == rest[j].0 && t[2 * j + 2]
            == TokenKind::Number(rest[j].1) by {
            if j < r0.len() {
                assert(r0[j] == rest[j]);
                assert(t[2 * j + 1] == t0[2 * j + 1]);
                assert(t[2 * j + 2] == t0[2 * j + 2]);
            }
        }
    }
}

/// `more` cannot continue a chain of `+`/`-`: it is empty or starts with
/// neither a sum nor a product operator.
pub open spec fn ends_sum_chain(more: Seq<TokenKind>) -> bool {
    more.len() == 0 || !(is_sum_op(more[0]) || is_product_op(more[0]))
}

/// `more` cannot continue a chain of `*`/`/`.
pub open spec fn ends_product_chain(more: Seq<TokenKind>) -> bool {
    more.len() == 0 || !is_product_op(more[0])
}

proof fn lemma_sum_tail_folds(first: u32, rest: Seq<(TokenKind, u32)>, more: Seq<TokenKind>, k: int)
    requires
        0 <= k <= rest.len(),
        forall|j: int| 0 <= j < rest.len() ==> is_sum_op(#[trigger] rest[j].0),
        ends_sum_chain(more),
    ensures
        parse_expr_tail(chain_tokens(first, rest) + more, 2 * k + 1, left_fold(first, rest.take(k)))
            == Ok::<(Node, int), ParseError>((left_fold(first, rest), 2 * rest.len() as int + 1)),
    decreases rest.len() - k,
{
    let c = chain_tokens(first, rest);
    let t = c + more;
    lemma_chain_tokens_layout(first, rest);
    if k == rest.len() {
        assert(rest.take(k) == rest);
        if more.len() > 0 {
            assert(t[c.len() as int] == more[0]);
        }
    } else {
        let p = 2 * k + 1;
        let op = rest[k].0;
        assert(t[p] == c[p]);
        assert(t[p] == op && is_sum_op(op));
        assert(t[p + 1] == c[p + 1]);
        assert(t[p + 1] == TokenKind::Number(rest[k].1));
        assert(parse_primary(t, p + 1) == Ok::<(Node, int), ParseError>((Node::leaf(rest[k].1), p + 2)));
        if p + 2 < c.len() {
            assert(t[p + 2] == c[p + 2]);
            assert(t[p + 2] == rest[k + 1].0);
        } else if more.len() > 0 {
            assert(t[p + 2] == more[0]);
        }
        assert(parse_mul_tail(t, p + 2, Node::leaf(rest[k].1)) == Ok::<(Node, int), ParseError>(
            (Node::leaf(rest[k].1), p + 2),
        ));
        assert(parse_mul(t, p + 1) == Ok::<(Node, int), ParseError>((Node::leaf(rest[k].1), p + 2)));
        assert(rest.take(k + 1).drop_last() == rest.take(k));
        lemma_sum_tail_folds(first, rest, more, k + 1);
    }
}

proof fn lemma_product_tail_folds(first: u32, rest: Seq<(TokenKind, u32)>, more: Seq<TokenKind>, k: int)
    requires
        0 <= k <= rest.len(),
        forall|j: int| 0 <= j < rest.len() ==> is_product_op(#[trigger] rest[j].0),
        ends_product_chain(more),
    ensures
        parse_mul_tail(chain_tokens(first, rest) + more, 2 * k + 1, left_fold(first, rest.take(k)))
            == Ok::<(Node, int), ParseError>((left_fold(first, rest), 2 * rest.len() as int + 1)),
    decreases rest.len() - k,
{
    let c = chain_tokens(first, rest);
    let t = c + more;
    lemma_chain_tokens_layout(first, rest);
    if k == rest.len() {
        assert(rest.take(k) == rest);
        if more.len() > 0 {
            assert(t[c.len() as int] == more[0]);
        }
    } else {
        let p = 2 * k + 1;
        let op = rest[k].0;
        assert(t[p] == c[p]);
        assert(t[p] == op && is_product_op(op));
        assert(t[p + 1] == c[p + 1]);
        assert(t[p + 1] == TokenKind::Number(rest[k].1));
        assert(parse_primary(t, p + 1) == Ok::<(Node, int), ParseError>((Node::leaf(rest[k].1), p + 2)));
        assert(rest.take(k + 1).drop_last() == rest.take(k));
        lemma_product_tail_folds(first, rest, more, k + 1);
    }
}

/// `*` and `/` associate to the left: a chain of numbers joined only by them,
/// followed by tokens that cannot continue it, is one `mul` that folds the
/// chain from the left and consumes exactly the chain's tokens.
pub proof fn lemma_product_chain_is_left_nested(first: u32, rest: Seq<(TokenKind, u32)>, more: Seq<TokenKind>)
    requires
        forall|j: int| 0 <= j < rest.len() ==> is_product_op(#[trigger] rest[j].0),
        ends_product_chain(more),
    ensures
        parse_mul(chain_tokens(first, rest) + more, 0) == Ok::<(Node, int), ParseError>(
            (left_fold(first, rest), chain_tokens(first, rest).len() as int),
        ),
{
    let c = chain_tokens(first, rest);
    let t = c + more;
    lemma_chain_tokens_layout(first, rest);
    assert(t[0] == c[0]);
    assert(rest.take(0) == Seq::<(TokenKind, u32)>::empty());
    assert(parse_primary(t, 0) == Ok::<(Node, int), ParseError>((Node::leaf(first), 1)));
    lemma_product_tail_folds(first, rest, more, 0);
}

/// `+` and `-` associate to the left: a chain of numbers joined only by them,
/// followed by tokens that cannot continue it, is one `expr` that folds the
/// chain from the left and consumes exactly the chain's tokens.
pub proof fn lemma_sum_chain_is_left_nested(first: u32, rest: Seq<(TokenKind, u32)>, more: Seq<TokenKind>)
    requires
        forall|j: int| 0 <= j < rest.len() ==> is_sum_op(#[trigger] rest[j].0),
        ends_sum_chain(more),
    ensures
        parse_expr(chain_tokens(first, rest) + more, 0) == Ok::<(Node, int), ParseError>(
            (left_fold(first, rest), chain_tokens(first, rest).len() as int),
        ),
{
    let c = chain_tokens(first, rest);
    let t = c + more;
    lemma_chain_tokens_layout(first, rest);
    assert(t[0] == c[0]);
    assert(rest.take(0) == Seq::<(TokenKind, u32)>::empty());
    assert(parse_primary(t, 0) == Ok::<(Node, int), ParseError>((Node::leaf(first), 1)));
    if rest.len() > 0 {
        assert(t[1] == c[1]);
        assert(t[1] == rest[0].0);
    } else if more.len() > 0 {
        assert(t[1] == more[0]);
    }
    assert(parse_mul_tail(t, 1, Node::leaf(first)) == Ok::<(Node, int), ParseError>((Node::leaf(first), 1)));
    lemma_sum_tail_folds(first, rest, more, 0);
}

/// Operators of equal precedence associate to the left: a whole token
/// sequence that is a chain of numbers joined only by `+`/`-`, or only by
/// `*`/`/`, parses to the left fold, each earlier part being the left child.
pub proof fn lemma_same_precedence_chain_is_left_nested(first: u32, rest: Seq<(TokenKind, u32)>)
    requires
        (forall|j: int| 0 <= j < rest.len() ==> is_sum_op(#[trigger] rest[j].0)) || (forall|j: int|
            0 <= j < rest.len() ==> is_product_op(#[trigger] rest[j].0)),
    ensures
        parse(chain_tokens(first, rest)) == Ok::<Node, ParseError>(left_fold(first, rest)),
{
    let t = chain_tokens(first, rest);
    let none = Seq::<TokenKind>::empty();
    assert(t + none == t);
    if forall|j: int| 0 <= j < rest.len() ==> is_sum_op(#[trigger] rest[j].0) {
        lemma_sum_chain_is_left_nested(first, rest, none);
    } else {
        lemma_product_chain_is_left_nested(first, rest, none);
        lemma_chain_tokens_layout(first, rest);
        assert(parse_expr_tail(t, t.len() as int, left_fold(first, rest)) == Ok::<(Node, int), ParseError>(
            (left_fold(first, rest), t.len() as int),
        ));
    }
}

pub open spec fn is_sum_kind(k: NodeKind) -> bool {
    k == NodeKind::Add || k == NodeKind::Sub
}

pub open spec fn is_product_kind(k: NodeKind) -> bool {
    k == NodeKind::Mul || k == NodeKind::Div
}

/// No `*` or `/` node has a `+` or `-` node as a child, anywhere in the tree.
pub open spec fn no_sum_under_product(n: Node) -> bool
    decreases n,
{
    match (n.lhs, n.rhs) {
        (Some(l), Some(r)) => (is_product_kind(n.node_kind) ==> !is_sum_kind(l.node_kind) && !is_sum_kind(
            r.node_kind,
        )) && no_sum_under_product(*l) && no_sum_under_product(*r),
        _ => true,
    }
}

/// Numbers combined by `*` and `/` only.
pub open spec fn product_tree(n: Node) -> bool
    decreases n,
{
    match n.node_kind {
        NodeKind::Number(_) => n.lhs is None && n.rhs is None,
        k => is_product_kind(k) && match (n.lhs, n.rhs) {
            (Some(l), Some(r)) => product_tree(*l) && product_tree(*r),
            _ => false,
        },
    }
}

/// Product trees combined by `+` and `-`, each right operand a product tree.
pub open spec fn sum_tree(n: Node) -> bool
    decreases n,
{
    product_tree(n) || (is_sum_kind(n.node_kind) && match (n.lhs, n.rhs) {
        (Some(l), Some(r)) => sum_tree(*l) && product_tree(*r),
        _ => false,
    })
}

pub open spec fn has_no_parentheses(t: Seq<TokenKind>) -> bool {
    forall|i: int| 0 <= i < t.len() ==> #[trigger] t[i] != TokenKind::OpenParentheses
}

proof fn lemma_product_tree_shape(n: Node)
    requires
        product_tree(n),
    ensures
        !is_sum_kind(n.node_kind),
        no_sum_under_product(n),
    decreases n,
{
    match (n.lhs, n.rhs) {
        (Some(l), Some(r)) => {
            if !(n.node_kind is Number) {
                lemma_product_tree_shape(*l);
                lemma_product_tree_shape(*r);
            }
        },
        _ => {},
    }
}

proof fn lemma_sum_tree_shape(n: Node)
    requires
        sum_tree(n),
    ensures
        no_sum_under_product(n),
    decreases n,
{
    if product_tree(n) {
        lemma_product_tree_shape(n);
    } else {
        match (n.lhs, n.rhs) {
            (Some(l), Some(r)) => {
                lemma_sum_tree_shape(*l);
                lemma_product_tree_shape(*r);
            },
            _ => {},
        }
    }
}

proof fn lemma_flat_mul_tail(t: Seq<TokenKind>, p: int, lhs: Node)
    requires
        has_no_parentheses(t),
        product_tree(lhs),
    ensures
        parse_mul_tail(t, p, lhs) is Ok ==> product_tree(parse_mul_tail(t, p, lhs)->Ok_0.0),
    decreases t.len() - p,
{
    if 0 <= p < t.len() && is_product_op(t[p]) {
        if p + 1 < t.len() {
            assert(t[p + 1] != TokenKind::OpenParentheses);
        }
        match parse_primary(t, p + 1) {
            Ok((rhs, q)) => if p < q <= t.len() {
                assert(product_tree(rhs));
                assert(product_tree(Node::branch(kind_of(t[p]), lhs, rhs)));
                lemma_flat_mul_tail(t, q, Node::branch(kind_of(t[p]), lhs, rhs));
            },
            Err(e) => {},
        }
    }
}

proof fn lemma_flat_mul(t: Seq<TokenKind>, p: int)
    requires
        has_no_parentheses(t),
    ensures
        parse_mul(t, p) is Ok ==> product_tree(parse_mul(t, p)->Ok_0.0),
{
    if 0 <= p < t.len() {
        assert(t[p] != TokenKind::OpenParentheses);
    }
    match parse_primary(t, p) {
        Ok((lhs, q)) => if p < q <= t.len() {
            lemma_flat_mul_tail(t, q, lhs);
        },
        Err(e) => {},
    }
}

proof fn lemma_flat_expr_tail(t: Seq<TokenKind>, p: int, lhs: Node)
    requires
        has_no_parentheses(t),
        sum_tree(lhs),
    ensures
        parse_expr_tail(t, p, lhs) is Ok ==> sum_tree(parse_expr_tail(t, p, lhs)->Ok_0.0),
    decreases t.len() - p,
{
    if 0 <= p < t.len() && is_sum_op(t[p]) {
        lemma_flat_mul(t, p + 1);
        match parse_mul(t, p + 1) {
            Ok((rhs, q)) => if p < q <= t.len() {
                let n = Node::branch(kind_of(t[p]), lhs, rhs);
                assert(sum_tree(n));
                lemma_flat_expr_tail(t, q, n);
            },
            Err(e) => {},
        }
    }
}

/// Multiplication and division bind tighter than addition and subtraction:
/// in the tree of a token sequence without parentheses, no `*` or `/` node
/// has a `+` or `-` node as an operand.
pub proof fn lemma_products_hold_no_bare_sums(t: Seq<TokenKind>)
    requires
        has_no_parentheses(t),
    ensures
        parse(t) is Ok ==> no_sum_under_product(parse(t)->Ok_0),
{
    lemma_flat_mul(t, 0);
    match parse_mul(t, 0) {
        Ok((lhs, q)) => if 0 < q <= t.len() {
            lemma_flat_expr_tail(t, q, lhs);
            match parse_expr_tail(t, q, lhs) {
                Ok((n, r)) => lemma_sum_tree_shape(n),
                Err(e) => {},
            }
        },
        Err(e) => {},
    }
}

} // verus!
