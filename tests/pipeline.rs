use expr_compiler::codegen::{emit, generate, Instr};
use expr_compiler::compiler::{compile, CompileError};
use expr_compiler::machine::{execute, Fault};
use expr_compiler::node::{Node, NodeKind, ParseError};
use expr_compiler::token::{LexError, TokenKind, TokenLinkedList};

fn tokens(s: &str) -> Result<Vec<TokenKind>, LexError> {
    TokenLinkedList::new(s.to_string()).map(|t| t.to_vec())
}

fn tree(s: &str) -> Node {
    let t = TokenLinkedList::new(s.to_string()).expect("lexes");
    Node::expr(&t).expect("parses")
}

fn evaluate(s: &str) -> Result<i64, Fault> {
    execute(&generate(&tree(s)))
}

fn num(v: u32) -> Node {
    Node::number(v)
}

fn bin(k: NodeKind, l: Node, r: Node) -> Node {
    Node::binary(k, l, r)
}

#[test]
fn one_plus_two_minus_three_tokens() {
    assert_eq!(
        tokens("1+2-3"),
        Ok(vec![
            TokenKind::Number(1),
            TokenKind::Add,
            TokenKind::Number(2),
            TokenKind::Sub,
            TokenKind::Number(3)
        ])
    );
}

#[test]
fn one_plus_two_minus_three_tree_and_value() {
    assert_eq!(tree("1+2-3"), bin(NodeKind::Sub, bin(NodeKind::Add, num(1), num(2)), num(3)));
    assert_eq!(evaluate("1+2-3"), Ok(0));
}

#[test]
fn product_with_group() {
    assert_eq!(tree("2*(3+4)"), bin(NodeKind::Mul, num(2), bin(NodeKind::Add, num(3), num(4))));
    assert_eq!(evaluate("2*(3+4)"), Ok(14));
}

#[test]
fn double_plus_is_operator_position() {
    assert_eq!(tokens("1++2"), Err(LexError::OperatorPosition(2)));
}

#[test]
fn unclosed_parenthesis_is_imbalance() {
    assert_eq!(tokens("(1+2"), Err(LexError::ParenthesisImbalance(4)));
    assert_eq!(tokens("((1)"), Err(LexError::ParenthesisImbalance(4)));
}

#[test]
fn stray_closing_parenthesis_is_imbalance() {
    assert_eq!(tokens("(1))"), Err(LexError::ParenthesisImbalance(3)));
}

#[test]
fn empty_expression_has_no_primary() {
    assert_eq!(tokens(""), Ok(vec![]));
    let t = TokenLinkedList::new(String::new()).unwrap();
    assert_eq!(Node::expr(&t), Err(ParseError::UnexpectedEndOfInput));
    assert_eq!(compile(String::new()), Err(CompileError::Parse(ParseError::UnexpectedEndOfInput)));
    assert_eq!(tokens("   "), Ok(vec![]));
}

#[test]
fn division_by_zero_compiles_and_faults_when_run() {
    assert_eq!(tree("10/0"), bin(NodeKind::Div, num(10), num(0)));
    let code = generate(&tree("10/0"));
    assert!(code.contains(&Instr::Cqo));
    assert!(code.contains(&Instr::Idiv));
    assert_eq!(execute(&code), Err(Fault::DivideByZero));
}

#[test]
fn multiplication_binds_tighter() {
    assert_eq!(tree("2+3*4"), bin(NodeKind::Add, num(2), bin(NodeKind::Mul, num(3), num(4))));
    assert_eq!(evaluate("2+3*4"), Ok(14));
    assert_eq!(tree("2*3+4"), bin(NodeKind::Add, bin(NodeKind::Mul, num(2), num(3)), num(4)));
}

#[test]
fn same_precedence_nests_left() {
    assert_eq!(tree("1-2-3"), bin(NodeKind::Sub, bin(NodeKind::Sub, num(1), num(2)), num(3)));
    assert_eq!(evaluate("1-2-3"), Ok(-4));
    assert_eq!(tree("8/4/2"), bin(NodeKind::Div, bin(NodeKind::Div, num(8), num(4)), num(2)));
    assert_eq!(evaluate("8/4/2"), Ok(1));
}

#[test]
fn token_count_is_runs_plus_symbols() {
    let t = tokens("12 + (3*45)").unwrap();
    assert_eq!(t.len(), 7);
    assert_eq!(t[0], TokenKind::Number(12));
    assert_eq!(t[6], TokenKind::CloseParentheses);
}

#[test]
fn evaluation_follows_the_tree() {
    assert_eq!(evaluate("(1+2)*(3+4)-5"), Ok(16));
    assert_eq!(evaluate("7/2"), Ok(3));
    assert_eq!(evaluate("1-7/2"), Ok(-2));
    assert_eq!(evaluate("(1-8)/2"), Ok(-3));
    assert_eq!(evaluate(" 42 "), Ok(42));
}

#[test]
fn overflow_is_reported_by_the_reference_machine() {
    assert_eq!(evaluate("2147483647*2147483647*2147483647"), Err(Fault::Overflow));
}

#[test]
fn each_lexical_error() {
    assert_eq!(tokens("1+a"), Err(LexError::UnrecognizedCharacter(2)));
    assert_eq!(tokens("+1"), Err(LexError::OperatorPosition(0)));
    assert_eq!(tokens("1(2)"), Err(LexError::OpenParenPosition(1)));
    assert_eq!(tokens("()"), Err(LexError::CloseParenPosition(1)));
    assert_eq!(tokens("1 2"), Err(LexError::NumberPosition(2)));
    assert_eq!(tokens("(1)2"), Err(LexError::NumberPosition(3)));
    assert_eq!(tokens("1+2147483648"), Err(LexError::NumberTooLarge(2)));
    assert_eq!(tokens("1+"), Err(LexError::OperatorPosition(1)));
    assert_eq!(tokens("1 + 2 *  "), Err(LexError::OperatorPosition(6)));
    assert_eq!(tokens("1*("), Err(LexError::UnexpectedEnd(3)));
}

#[test]
fn largest_number_is_accepted() {
    assert_eq!(tokens("2147483647"), Ok(vec![TokenKind::Number(2147483647)]));
    assert_eq!(evaluate("2147483647"), Ok(2147483647));
}

#[test]
fn parser_rejects_misplaced_tokens() {
    let t = TokenLinkedList::from_vec(vec![TokenKind::Number(1), TokenKind::Number(2)]);
    assert_eq!(Node::expr(&t), Err(ParseError::UnexpectedToken(TokenKind::Number(2), 1)));
    let t = TokenLinkedList::from_vec(vec![TokenKind::Add]);
    assert_eq!(Node::expr(&t), Err(ParseError::UnexpectedToken(TokenKind::Add, 0)));
    let t = TokenLinkedList::from_vec(vec![TokenKind::OpenParentheses, TokenKind::Number(1)]);
    assert_eq!(Node::expr(&t), Err(ParseError::UnexpectedEndOfInput));
    let t = TokenLinkedList::from_vec(vec![
        TokenKind::OpenParentheses,
        TokenKind::Number(1),
        TokenKind::Number(2),
    ]);
    assert_eq!(Node::expr(&t), Err(ParseError::UnexpectedToken(TokenKind::Number(2), 2)));
}

#[test]
fn cursor_walks_forward() {
    let t = TokenLinkedList::new("3*4".to_string()).unwrap();
    let mut it = t.iter();
    assert_eq!(it.peek(), Some(TokenKind::Number(3)));
    assert_eq!(it.next(), Some(TokenKind::Number(3)));
    assert_eq!(it.position(), 1);
    assert_eq!(it.next(), Some(TokenKind::Mul));
    it.advance();
    assert_eq!(it.next(), None);
    assert_eq!(it.position(), 3);
}

#[test]
fn listing_of_a_sum() {
    let lines = emit(&tree("1+20"));
    assert_eq!(
        lines,
        vec![
            ".intel_syntax noprefix",
            ".globl main",
            "main:",
            "  push 1",
            "  push 20",
            "  pop rdi",
            "  pop rax",
            "  add rax, rdi",
            "  push rax",
            "  pop rax",
            "  ret",
        ]
    );
}

#[test]
fn listing_of_a_division() {
    let lines = compile("9/3".to_string()).unwrap();
    assert_eq!(&lines[5..9], &["  pop rdi", "  pop rax", "  cqo", "  idiv rdi"]);
    let lines = compile("6*7-2".to_string()).unwrap();
    assert!(lines.contains(&"  imul rax, rdi".to_string()));
    assert!(lines.contains(&"  sub rax, rdi".to_string()));
}

#[test]
fn instruction_text() {
    assert_eq!(Instr::Push(2147483647).text(), "  push 2147483647");
    assert_eq!(Instr::Push(0).text(), "  push 0");
    assert_eq!(Instr::Ret.text(), "  ret");
}

#[test]
fn diagnostic_points_at_the_column() {
    let e = compile("1++2".to_string()).unwrap_err();
    assert_eq!(e, CompileError::Lex(LexError::OperatorPosition(2)));
    assert_eq!(e.diagnostic("1++2"), vec!["1++2", "  ^", "operator in invalid position"]);
    let e = compile("1+2- ".to_string()).unwrap_err();
    assert_eq!(e, CompileError::Lex(LexError::OperatorPosition(3)));
    assert_eq!(e.diagnostic("1+2- "), vec!["1+2- ", "   ^", "expression ends with an operator"]);
    let e = compile("1*(".to_string()).unwrap_err();
    assert_eq!(e.diagnostic("1*("), vec!["1*(", "   ^", "expression ends before an operand"]);
    let e = compile("(1+2".to_string()).unwrap_err();
    assert_eq!(e.diagnostic("(1+2"), vec!["(1+2", "    ^", "unbalanced parentheses"]);
    let e = CompileError::Parse(ParseError::UnexpectedToken(TokenKind::Number(12), 3));
    assert_eq!(e.message(), "unexpected token 12 at token 3");
    let e = CompileError::Parse(ParseError::UnexpectedEndOfInput);
    assert_eq!(e.diagnostic(""), vec!["", "unexpected end of input"]);
}

#[test]
fn nested_groups_parse() {
    assert_eq!(tree("((7))"), num(7));
    assert_eq!(evaluate("((1+2)*((3)))/(4-1)"), Ok(3));
}

#[test]
fn product_operands_are_never_bare_sums() {
    assert_eq!(
        tree("1+2*3-4/2"),
        bin(
            NodeKind::Sub,
            bin(NodeKind::Add, num(1), bin(NodeKind::Mul, num(2), num(3))),
            bin(NodeKind::Div, num(4), num(2))
        )
    );
    assert_eq!(evaluate("1+2*3-4/2"), Ok(5));
}
