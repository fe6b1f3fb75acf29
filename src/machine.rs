use vstd::prelude::*;

use crate::codegen::{gen, op_code, program, Instr};
use crate::node::{Node, NodeKind};

verus! {

/// How a run of the emitted code goes wrong. The reference machine computes
/// on 64-bit signed values and stops where a result leaves that range.
#[derive(Clone, Copy, Debug, PartialEq, Eq, Structural)]
pub enum Fault {
    /// `idiv` with a zero divisor: the target traps.
    DivideByZero,
    /// A result outside the 64-bit signed range.
    Overflow,
    /// A `pop` from an empty stack.
    StackUnderflow,
    /// The code ran out without a `ret`.
    MissingReturn,
}

/// State of the reference machine: the stack (top last) and the two registers.
pub struct MachineState {
    pub stack: Seq<int>,
    pub rax: int,
    pub rdi: int,
}

pub open spec fn initial_state() -> MachineState {
    MachineState { stack: Seq::empty(), rax: 0, rdi: 0 }
}

pub open spec fn fits_i64(x: int) -> bool {
    i64::MIN <= x <= i64::MAX
}

/// Signed division rounding toward zero, as `idiv` does.
pub open spec fn trunc_div(x: int, d: int) -> int
    recommends
        d != 0,
{
    if x == 0 {
        0
    } else if x > 0 && d > 0 {
        x / d
    } else if x < 0 && d < 0 {
        (x * -1) / (d * -1)
    } else if x < 0 {
        ((x * -1) / d) * -1
    } else {
        (x / (d * -1)) * -1
    }
}

/// The checked result of one operator on two values.
pub open spec fn apply(k: NodeKind, a: int, b: int) -> Result<int, Fault> {
    let v = match k {
        NodeKind::Add => a + b,
        NodeKind::Sub => a - b,
        NodeKind::Mul => a * b,
        _ => if b == 0 {
            0
        } else {
            trunc_div(a, b)
        },
    };
    if k == NodeKind::Div && b == 0 {
        Err(Fault::DivideByZero)
    } else if !fits_i64(v) {
        Err(Fault::Overflow)
    } else {
        Ok(v)
    }
}

/// The arithmetic value of a tree, left operand first; the first fault met
/// otherwise.
pub open spec fn value(n: Node) -> Result<int, Fault>
    decreases n,
{
    match n.node_kind {
        NodeKind::Number(v) => Ok(v as int),
        k => match (n.lhs, n.rhs) {
            (Some(l), Some(r)) => match value(*l) {
                Ok(a) => match value(*r) {
                    Ok(b) => apply(k, a, b),
                    Err(f) => Err(f),
                },
                Err(f) => Err(f),
            },
            _ => Err(Fault::StackUnderflow),
        },
    }
}

/// One instruction other than `ret`.
pub open spec fn step(i: Instr, m: MachineState) -> Result<MachineState, Fault> {
    match i {
        Instr::Push(v) => Ok(MachineState { stack: m.stack.push(v as int), ..m }),
        Instr::PopRdi => if m.stack.len() == 0 {
            Err(Fault::StackUnderflow)
        } else {
            Ok(MachineState { stack: m.stack.drop_last(), rdi: m.stack.last(), ..m })
        },
        Instr::PopRax => if m.stack.len() == 0 {
            Err(Fault::StackUnderflow)
        } else {
            Ok(MachineState { stack: m.stack.drop_last(), rax: m.stack.last(), ..m })
        },
        Instr::Add => match apply(NodeKind::Add, m.rax, m.rdi) {
            Ok(v) => Ok(MachineState { rax: v, ..m }),
            Err(f) => Err(f),
        },
        Instr::Sub => match apply(NodeKind::Sub, m.rax, m.rdi) {
            Ok(v) => Ok(MachineState { rax: v, ..m }),
            Err(f) => Err(f),
        },
        Instr::Imul => match apply(NodeKind::Mul, m.rax, m.rdi) {
            Ok(v) => Ok(MachineState { rax: v, ..m }),
            Err(f) => Err(f),
        },
        Instr::Idiv => match apply(NodeKind::Div, m.rax, m.rdi) {
            Ok(v) => Ok(MachineState { rax: v, ..m }),
            Err(f) => Err(f),
        },
        Instr::PushRax => Ok(MachineState { stack: m.stack.push(m.rax), ..m }),
        _ => Ok(m),
    }
}

/// Runs straight-line code (no `ret` expected) from state `m`.
pub open spec fn exec_seq(code: Seq<Instr>, m: MachineState) -> Result<MachineState, Fault>
    decreases code.len(),
{
    if code.len() == 0 {
        Ok(m)
    } else {
        match step(code[0], m) {
            Ok(m2) => exec_seq(code.drop_first(), m2),
            Err(f) => Err(f),
        }
    }
}

/// Runs a routine from state `m` to its first `ret`; the result is `rax` there.
pub open spec fn run(code: Seq<Instr>, m: MachineState) -> Result<int, Fault>
    decreases code.len(),
{
    if code.len() == 0 {
        Err(Fault::MissingReturn)
    } else if code[0] == Instr::Ret {
        Ok(m.rax)
    } else {
        match step(code[0], m) {
            Ok(m2) => run(code.drop_first(), m2),
            Err(f) => Err(f),
        }
    }
}

pub open spec fn has_no_ret(code: Seq<Instr>) -> bool {
    forall|i: int| 0 <= i < code.len() ==> code[i] != Instr::Ret
}

/// Running `a` then `b` is running `a + b`.
pub proof fn lemma_exec_seq_append(a: Seq<Instr>, b: Seq<Instr>, m: MachineState)
    ensures
        exec_seq(a + b, m) == (match exec_seq(a, m) {
            Ok(m1) => exec_seq(b, m1),
            Err(f) => Err(f),
        }),
    decreases a.len(),
{
    if a.len() == 0 {
        assert(a + b == b);
    } else {
        assert((a + b).drop_first() == a.drop_first() + b);
        match step(a[0], m) {
            Ok(m2) => lemma_exec_seq_append(a.drop_first(), b, m2),
            Err(f) => {},
        }
    }
}

/// A routine that starts with straight-line code `a` runs `a`, then the rest.
pub proof fn lemma_run_append(a: Seq<Instr>, b: Seq<Instr>, m: MachineState)
    requires
        has_no_ret(a),
    ensures
        run(a + b, m) == (match exec_seq(a, m) {
            Ok(m1) => run(b, m1),
            Err(f) => Err(f),
        }),
    decreases a.len(),
{
    if a.len() == 0 {
        assert(a + b == b);
    } else {
        assert((a + b).drop_first() == a.drop_first() + b);
        assert((a + b)[0] == a[0]);
        assert(has_no_ret(a.drop_first())) by {
            assert forall|i: int| 0 <= i < a.drop_first().len() implies a.drop_first()[i] != Instr::Ret by {
                assert(a.drop_first()[i] == a[i + 1]);
            }
        }
        match step(a[0], m) {
            Ok(m2) => lemma_run_append(a.drop_first(), b, m2),
            Err(f) => {},
        }
    }
}

/// The code of a tree holds no `ret`.
pub proof fn lemma_gen_has_no_ret(n: Node)
    requires
        n.wf(),
    ensures
        has_no_ret(gen(n)),
    decreases n,
{
    match n.node_kind {
        NodeKind::Number(v) => {},
        k => match (n.lhs, n.rhs) {
            (Some(l), Some(r)) => {
                lemma_gen_has_no_ret(*l);
                lemma_gen_has_no_ret(*r);
                let tail = seq![Instr::PopRdi, Instr::PopRax] + op_code(k) + seq![Instr::PushRax];
                assert(gen(n) == gen(*l) + gen(*r) + tail);
                assert(has_no_ret(tail));
            },
            _ => {},
        },
    }
}

/// The code of a tree, from any state, pushes the tree's value on the stack
/// and leaves the rest of the stack as it was; it faults as the value does.
pub proof fn lemma_gen_pushes_value(n: Node, m: MachineState)
    requires
        n.wf(),
    ensures
        (match value(n) {
            Ok(v) => exec_seq(gen(n), m) is Ok && exec_seq(gen(n), m)->Ok_0.stack == m.stack.push(v),
            Err(f) => exec_seq(gen(n), m) == Err::<MachineState, Fault>(f),
        }),
    decreases n,
{
    match n.node_kind {
        NodeKind::Number(v) => {
            assert(exec_seq(seq![Instr::Push(v)].drop_first(), step(Instr::Push(v), m)->Ok_0)
                == Ok::<MachineState, Fault>(step(Instr::Push(v), m)->Ok_0));
        },
        k => match (n.lhs, n.rhs) {
            (Some(l), Some(r)) => {
                let tail = seq![Instr::PopRdi, Instr::PopRax] + op_code(k) + seq![Instr::PushRax];
                assert(gen(n) == gen(*l) + gen(*r) + tail);
                lemma_exec_seq_append(gen(*l) + gen(*r), tail, m);
                lemma_exec_seq_append(gen(*l), gen(*r), m);
                lemma_gen_pushes_value(*l, m);
                match value(*l) {
                    Ok(a) => {
                        let m1 = exec_seq(gen(*l), m)->Ok_0;
                        lemma_gen_pushes_value(*r, m1);
                        match value(*r) {
                            Ok(b) => {
                                let m2 = exec_seq(gen(*r), m1)->Ok_0;
                                assert(m2.stack == m.stack.push(a).push(b));
                                lemma_tail_applies(k, m2, m.stack, a, b);
                            },
                            Err(f) => {},
                        }
                    },
                    Err(f) => {},
                }
            },
            _ => {},
        },
    }
}

/// The pops, the operator and the push combine the two values on top.
proof fn lemma_tail_applies(k: NodeKind, m: MachineState, s: Seq<int>, a: int, b: int)
    requires
        !(k is Number),
        m.stack == s.push(a).push(b),
    ensures
        (match apply(k, a, b) {
            Ok(v) => exec_seq(seq![Instr::PopRdi, Instr::PopRax] + op_code(k) + seq![Instr::PushRax], m) is Ok
                && exec_seq(seq![Instr::PopRdi, Instr::PopRax] + op_code(k) + seq![Instr::PushRax], m)->Ok_0.stack
                == s.push(v),
            Err(f) => exec_seq(seq![Instr::PopRdi, Instr::PopRax] + op_code(k) + seq![Instr::PushRax], m)
                == Err::<MachineState, Fault>(f),
        }),
{
    let pops = seq![Instr::PopRdi, Instr::PopRax];
    let push = seq![Instr::PushRax];
    lemma_exec_seq_append(pops + op_code(k), push, m);
    lemma_exec_seq_append(pops, op_code(k), m);
    reveal_with_fuel(exec_seq, 3);
    assert(s.push(a).push(b).drop_last() == s.push(a));
    assert(s.push(a).drop_last() == s);
    let m1 = MachineState { stack: s, rax: a, rdi: b };
    assert(exec_seq(pops, m) == Ok::<MachineState, Fault>(m1));
    match apply(k, a, b) {
        Ok(v) => {
            let m2 = MachineState { stack: s, rax: v, rdi: b };
            assert(exec_seq(op_code(k), m1) == Ok::<MachineState, Fault>(m2));
            assert(exec_seq(push, m2) == Ok::<MachineState, Fault>(MachineState { stack: s.push(v), ..m2 }));
        },
        Err(f) => {
            assert(exec_seq(op_code(k), m1) == Err::<MachineState, Fault>(f));
        },
    }
}

/// Running the emitted routine of a well-formed tree gives the tree's
/// arithmetic value, and faults exactly where evaluating the tree does.
pub proof fn lemma_program_computes_value(n: Node)
    requires
        n.wf(),
    ensures
        run(program(n), initial_state()) == value(n),
{
    let m = initial_state();
    let tail = seq![Instr::PopRax, Instr::Ret];
    lemma_gen_has_no_ret(n);
    lemma_run_append(gen(n), tail, m);
    lemma_gen_pushes_value(n, m);
    match value(n) {
        Ok(v) => {
            let m1 = exec_seq(gen(n), m)->Ok_0;
            assert(m1.stack.drop_last() == m.stack);
            reveal_with_fuel(run, 3);
            assert(tail.drop_first() == seq![Instr::Ret]);
        },
        Err(f) => {},
    }
}

/// The reference machine's state as seen by `run`.
pub open spec fn state_of(stack: Seq<i64>, rax: i64, rdi: i64) -> MachineState {
    MachineState { stack: stack.map_values(|x: i64| x as int), rax: rax as int, rdi: rdi as int }
}

/// One operator on `rax` and `rdi`, checked.
fn apply_exec(i: Instr, rax: i64, rdi: i64) -> (r: Result<i64, Fault>)
    requires
        i == Instr::Add || i == Instr::Sub || i == Instr::Imul || i == Instr::Idiv,
    ensures
        (match step(i, state_of(Seq::empty(), rax, rdi)) {
            Ok(m) => r == Ok::<i64, Fault>(m.rax as i64) && fits_i64(m.rax),
            Err(f) => r == Err::<i64, Fault>(f),
        }),
{
    let v = match i {
        Instr::Add => rax.checked_add(rdi),
        Instr::Sub => rax.checked_sub(rdi),
        Instr::Imul => rax.checked_mul(rdi),
        _ => {
            if rdi == 0 {
                return Err(Fault::DivideByZero);
            }
            rax.checked_div(rdi)
        },
    };
    match v {
        Some(x) => Ok(x),
        None => Err(Fault::Overflow),
    }
}

/// Runs emitted code on the reference machine, from an empty stack to the
/// first `ret`, and returns `rax` there.
pub fn execute(code: &Vec<Instr>) -> (r: Result<i64, Fault>)
    ensures
        (match run(code@, initial_state()) {
            Ok(v) => r == Ok::<i64, Fault>(v as i64) && fits_i64(v),
            Err(f) => r == Err::<i64, Fault>(f),
        }),
{
    let mut stack: Vec<i64> = Vec::new();
    let mut rax: i64 = 0;
    let mut rdi: i64 = 0;
    let mut i: usize = 0;
    assert(state_of(stack@, rax, rdi).stack =~= Seq::<int>::empty());
    assert(code@.subrange(0, code@.len() as int) == code@);
    while i < code.len()
        invariant
            i <= code@.len(),
            run(code@, initial_state()) == run(code@.subrange(i as int, code@.len() as int), state_of(stack@, rax, rdi)),
        decreases code@.len() - i,
    {
        let ghost rest = code@.subrange(i as int, code@.len() as int);
        let ghost m = state_of(stack@, rax, rdi);
        assert(rest[0] == code@[i as int]);
        assert(rest.drop_first() == code@.subrange(i + 1, code@.len() as int));
        match code[i] {
            Instr::Ret => {
                return Ok(rax);
            },
            Instr::Push(v) => {
                stack.push(v as i64);
                assert(state_of(stack@, rax, rdi).stack == m.stack.push(v as int));
            },
            Instr::PopRdi => match stack.pop() {
                Some(x) => {
                    rdi = x;
                    assert(state_of(stack@, rax, rdi).stack == m.stack.drop_last());
                },
                None => {
                    return Err(Fault::StackUnderflow);
                },
            },
            Instr::PopRax => match stack.pop() {
                Some(x) => {
                    rax = x;
                    assert(state_of(stack@, rax, rdi).stack == m.stack.drop_last());
                },
                None => {
                    return Err(Fault::StackUnderflow);
                },
            },
            Instr::PushRax => {
                stack.push(rax);
                assert(state_of(stack@, rax, rdi).stack == m.stack.push(rax as int));
            },
            Instr::Cqo => {},
            op => match apply_exec(op, rax, rdi) {
                Ok(x) => {
                    rax = x;
                },
                Err(f) => {
                    return Err(f);
                },
            },
        }
        i = i + 1;
    }
    Err(Fault::MissingReturn)
}

} // verus!
