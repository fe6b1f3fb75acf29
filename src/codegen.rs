use vstd::prelude::*;

use crate::node::{Node, NodeKind};
use vstd::string::*;

verus! {

/// One instruction of the emitted x86-64 code. Values live on the machine
/// stack; `rax` is the accumulator, `rdi` the second operand.
#[derive(Clone, Copy, Debug, PartialEq, Eq, Structural)]
pub enum Instr {
    /// `push v`
    Push(u32),
    /// `pop rdi`
    PopRdi,
    /// `pop rax`
    PopRax,
    /// `add rax, rdi`
    Add,
    /// `sub rax, rdi`
    Sub,
    /// `imul rax, rdi`
    Imul,
    /// `cqo`: sign-extends `rax` into `rdx` for the division that follows.
    Cqo,
    /// `idiv rdi`: signed division of `rdx:rax` by `rdi`; faults on a zero divisor.
    Idiv,
    /// `push rax`
    PushRax,
    /// `ret`
    Ret,
}

/// The instructions that combine `rax` and `rdi` into `rax` for an operator.
pub open spec fn op_code(k: NodeKind) -> Seq<Instr> {
    match k {
        NodeKind::Add => seq![Instr::Add],
        NodeKind::Sub => seq![Instr::Sub],
        NodeKind::Mul => seq![Instr::Imul],
        _ => seq![Instr::Cqo, Instr::Idiv],
    }
}

/// Post-order stack code for a tree: it leaves the tree's value pushed.
pub open spec fn gen(n: Node) -> Seq<Instr>
    decreases n,
{
    match n.node_kind {
        NodeKind::Number(v) => seq![Instr::Push(v)],
        k => match (n.lhs, n.rhs) {
            (Some(l), Some(r)) => gen(*l) + gen(*r) + seq![Instr::PopRdi, Instr::PopRax] + op_code(k)
                + seq![Instr::PushRax],
            _ => Seq::empty(),
        },
    }
}

/// The body of the entry routine: the tree's code, then its value returned in `rax`.
pub open spec fn program(n: Node) -> Seq<Instr> {
    gen(n) + seq![Instr::PopRax, Instr::Ret]
}

fn gen_into(n: &Node, out: &mut Vec<Instr>)
    requires
        n.wf(),
    ensures
        final(out)@ == old(out)@ + gen(*n),
    decreases n,
{
    match n.node_kind {
        NodeKind::Number(v) => {
            out.push(Instr::Push(v));
        },
        k => match (&n.lhs, &n.rhs) {
            (Some(l), Some(r)) => {
                let ghost before = out@;
                gen_into(l, out);
                gen_into(r, out);
                out.push(Instr::PopRdi);
                out.push(Instr::PopRax);
                match k {
                    NodeKind::Add => out.push(Instr::Add),
                    NodeKind::Sub => out.push(Instr::Sub),
                    NodeKind::Mul => out.push(Instr::Imul),
                    _ => {
                        out.push(Instr::Cqo);
                        out.push(Instr::Idiv);
                    },
                }
                out.push(Instr::PushRax);
                assert(out@ == before + gen(*n));
            },
            _ => {},
        },
    }
}

/// The instructions of the entry routine for a tree.
pub fn generate(n: &Node) -> (r: Vec<Instr>)
    requires
        n.wf(),
    ensures
        r@ == program(*n),
{
    let mut out: Vec<Instr> = Vec::new();
    gen_into(n, &mut out);
    out.push(Instr::PopRax);
    out.push(Instr::Ret);
    out
}

pub open spec fn digit_char(d: int) -> char {
    if d == 0 {
        '0'
    } else if d == 1 {
        '1'
    } else if d == 2 {
        '2'
    } else if d == 3 {
        '3'
    } else if d == 4 {
        '4'
    } else if d == 5 {
        '5'
    } else if d == 6 {
        '6'
    } else if d == 7 {
        '7'
    } else if d == 8 {
        '8'
    } else {
        '9'
    }
}

/// Decimal digits of `n`, most significant first, without leading zeros.
pub open spec fn decimal(n: nat) -> Seq<char>
    decreases n,
{
    if n < 10 {
        seq![digit_char(n as int)]
    } else {
        decimal(n / 10).push(digit_char((n % 10) as int))
    }
}

fn digit_str(d: u64) -> (r: &'static str)
    requires
        d < 10,
    ensures
        r@ == seq![digit_char(d as int)],
{
    proof {
        reveal_strlit("0");
        reveal_strlit("1");
        reveal_strlit("2");
        reveal_strlit("3");
        reveal_strlit("4");
        reveal_strlit("5");
        reveal_strlit("6");
        reveal_strlit("7");
        reveal_strlit("8");
        reveal_strlit("9");
    }
    match d {
        0 => "0",
        1 => "1",
        2 => "2",
        3 => "3",
        4 => "4",
        5 => "5",
        6 => "6",
        7 => "7",
        8 => "8",
        _ => "9",
    }
}

/// Appends the decimal digits of `n` to `s`.
pub fn append_decimal(s: &mut String, n: u64)
    ensures
        final(s)@ == old(s)@ + decimal(n as nat),
    decreases n,
{
    if n >= 10 {
        append_decimal(s, n / 10);
    }
    s.append(digit_str(n % 10));
    assert(final(s)@ == old(s)@ + decimal(n as nat));
}

/// The assembly line of an instruction.
pub open spec fn instr_text(i: Instr) -> Seq<char> {
    match i {
        Instr::Push(v) => "  push "@ + decimal(v as nat),
        Instr::PopRdi => "  pop rdi"@,
        Instr::PopRax => "  pop rax"@,
        Instr::Add => "  add rax, rdi"@,
        Instr::Sub => "  sub rax, rdi"@,
        Instr::Imul => "  imul rax, rdi"@,
        Instr::Cqo => "  cqo"@,
        Instr::Idiv => "  idiv rdi"@,
        Instr::PushRax => "  push rax"@,
        Instr::Ret => "  ret"@,
    }
}

/// The fixed lines before the entry routine's code.
pub open spec fn prologue() -> Seq<Seq<char>> {
    seq![".intel_syntax noprefix"@, ".globl main"@, "main:"@]
}

/// The whole assembly text of a tree, one line per element.
pub open spec fn listing(n: Node) -> Seq<Seq<char>> {
    prologue() + program(n).map_values(|i: Instr| instr_text(i))
}

/// The characters of each line.
pub open spec fn lines_view(lines: Seq<String>) -> Seq<Seq<char>> {
    lines.map_values(|l: String| l@)
}

impl Instr {
    /// The assembly line of this instruction.
    pub fn text(&self) -> (r: String)
        ensures
            r@ == instr_text(*self),
    {
        match *self {
            Instr::Push(v) => {
                let mut s = String::from_str("  push ");
                append_decimal(&mut s, v as u64);
                s
            },
            Instr::PopRdi => String::from_str("  pop rdi"),
            Instr::PopRax => String::from_str("  pop rax"),
            Instr::Add => String::from_str("  add rax, rdi"),
            Instr::Sub => String::from_str("  sub rax, rdi"),
            Instr::Imul => String::from_str("  imul rax, rdi"),
            Instr::Cqo => String::from_str("  cqo"),
            Instr::Idiv => String::from_str("  idiv rdi"),
            Instr::PushRax => String::from_str("  push rax"),
            Instr::Ret => String::from_str("  ret"),
        }
    }
}

/// The assembly text of a tree: the prologue, then one line per instruction.
pub fn emit(n: &Node) -> (r: Vec<String>)
    requires
        n.wf(),
    ensures
        lines_view(r@) == listing(*n),
{
    let code = generate(n);
    let mut lines: Vec<String> = Vec::new();
    lines.push(String::from_str(".intel_syntax noprefix"));
    lines.push(String::from_str(".globl main"));
    lines.push(String::from_str("main:"));
    let ghost code_text = code@.map_values(|i: Instr| instr_text(i));
    assert(lines_view(lines@) == prologue());
    let mut k: usize = 0;
    while k < code.len()
        invariant
            k <= code@.len(),
            code@ == program(*n),
            code_text == code@.map_values(|i: Instr| instr_text(i)),
            lines_view(lines@) == prologue() + code_text.take(k as int),
        decreases code@.len() - k,
    {
        let line = code[k].text();
        let ghost before = lines@;
        lines.push(line);
        assert(code_text.take(k + 1) == code_text.take(k as int).push(instr_text(code@[k as int])));
        assert(lines_view(lines@) == lines_view(before).push(line@));
        k = k + 1;
    }
    assert(code_text.take(k as int) == code_text);
    lines
}

} // verus!
