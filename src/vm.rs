use vstd::prelude::*;

use crate::compiler::{encodes, instr_ok, instr_size, Instr};
use crate::get::{be_at, be_bytes, data_at, lemma_be_round_trip, GetByte, GetData};
use crate::lexer::byte_at;
use crate::opcode::{operator_for, operator_of, END, LDI, LDR};
use crate::state::{
    admits, admits_all, apply_spec, binary_spec, exacts, failure_done, Approx, Fault, Stack, State,
    VMError, VMResult,
};
use crate::value::{Operator, RealUnit, Value};

verus! {

/// The outcome of one instruction.
pub enum Next {
    /// Go on at this program counter with this stack.
    Go(nat, Seq<Approx>),
    /// The program ended.
    Halt,
    Fail(VMError),
}

/// One instruction of `prog` at `pc`, on a stack `a` of capacity `cap`.
pub open spec fn step_spec(prog: Seq<u8>, pc: nat, a: Seq<Approx>, cap: nat) -> Next {
    match byte_at(prog, pc) {
        None => Next::Fail(VMError::OpcodeFetch),
        Some(opcode) => if opcode == END {
            Next::Halt
        } else if opcode == LDI || opcode == LDR {
            match data_at(prog, pc + 1) {
                None => Next::Fail(VMError::OpcodeFetch),
                Some(w) => if a.len() < cap {
                    Next::Go(
                        pc + 9,
                        a.push(
                            Approx::Exact(
                                if opcode == LDI {
                                    Value::Integer(w as i64)
                                } else {
                                    Value::Real(w)
                                },
                            ),
                        ),
                    )
                } else {
                    Next::Fail(VMError::StackOverflow)
                },
            }
        } else {
            match operator_of(opcode) {
                Some(op) => match apply_spec(op, a) {
                    Ok(a2) => Next::Go(pc + 1, a2),
                    Err(e) => Next::Fail(e),
                },
                None => Next::Fail(VMError::UnknownInstruction),
            }
        },
    }
}

/// What running `prog` from `pc` with the stack `a` gives: the value popped after
/// `END`, or the first error.
pub open spec fn run_spec(prog: Seq<u8>, pc: nat, a: Seq<Approx>, cap: nat) -> VMResult<Approx>
    decreases prog.len() - pc,
{
    match step_spec(prog, pc, a, cap) {
        Next::Go(pc2, a2) => if pc < pc2 <= prog.len() {
            run_spec(prog, pc2, a2, cap)
        } else {
            Err(VMError::OpcodeFetch)
        },
        Next::Halt => if a.len() > 0 {
            Ok(a.last())
        } else {
            Err(VMError::StackUnderflow)
        },
        Next::Fail(e) => Err(e),
    }
}

/// Where running `prog` from `pc` with the stack `a` stops: the program counter of
/// the `END` or of the failing instruction, and the stack just before it.
pub open spec fn run_end(prog: Seq<u8>, pc: nat, a: Seq<Approx>, cap: nat) -> (nat, Seq<Approx>)
    decreases prog.len() - pc,
{
    match step_spec(prog, pc, a, cap) {
        Next::Go(pc2, a2) => if pc < pc2 <= prog.len() {
            run_end(prog, pc2, a2, cap)
        } else {
            (pc, a)
        },
        _ => (pc, a),
    }
}

/// The operator of the instruction at `pc`, if it is one.
pub open spec fn operator_at(prog: Seq<u8>, pc: nat) -> Option<Operator> {
    match byte_at(prog, pc) {
        Some(opcode) => operator_of(opcode),
        None => None,
    }
}

/// Whether `f` records the operator at the stopping point `end` and the two values
/// on top of the stack there.
pub open spec fn fault_fits(prog: Seq<u8>, end: (nat, Seq<Approx>), f: Fault) -> bool {
    let a = end.1;
    &&& operator_at(prog, end.0) == Some(f.operator)
    &&& a.len() >= 2
    &&& admits(a[a.len() - 2], f.left)
    &&& admits(a[a.len() - 1], f.right)
}

/// What a failed instruction leaves: a failed operator pops its operands as
/// `failure_done` says; any other failure changes neither the stack nor the message.
pub open spec fn step_failed<S: Stack, U: RealUnit>(
    prog: Seq<u8>,
    before: State<S, U>,
    after: State<S, U>,
) -> bool {
    match operator_at(prog, before.program_counter as nat) {
        Some(op) => failure_done(op, before, after),
        None => after.values() == before.values() && after.message == before.message,
    }
}

/// Whether `a` says no more than `b`: each entry is the same, or `b` holds a value
/// that `a` describes.
pub open spec fn coarser(a: Seq<Approx>, b: Seq<Approx>) -> bool {
    a.len() == b.len() && forall|i: int|
        0 <= i < a.len() ==> #[trigger] a[i] == b[i] || (b[i] is Exact && admits(
            a[i],
            b[i]->Exact_0,
        ))
}

proof fn lemma_coarser_admits(a: Seq<Approx>, b: Seq<Approx>, w: Seq<Value>)
    requires
        coarser(a, b),
        admits_all(b, w),
    ensures
        admits_all(a, w),
{
    assert forall|i: int| 0 <= i < a.len() implies admits(#[trigger] a[i], w[i]) by {
        assert(admits(b[i], w[i]));
    }
}

proof fn lemma_admits_coarser(a: Seq<Approx>, vs: Seq<Value>)
    requires
        admits_all(a, vs),
    ensures
        coarser(a, exacts(vs)),
{
    assert forall|i: int| 0 <= i < a.len() implies #[trigger] a[i] == exacts(vs)[i] || (
    exacts(vs)[i] is Exact && admits(a[i], exacts(vs)[i]->Exact_0)) by {
        assert(admits(a[i], vs[i]));
    }
}

pub open spec fn coarser_one(x: Approx, y: Approx) -> bool {
    x == y || (y is Exact && admits(x, y->Exact_0))
}

/// An operator gives the same outcome on operands described more coarsely.
proof fn lemma_binary_coarser(op: Operator, l: Approx, r: Approx, bl: Approx, br: Approx)
    requires
        coarser_one(l, bl),
        coarser_one(r, br),
    ensures
        binary_spec(op, l, r) == binary_spec(op, bl, br),
{
}

/// One step on a coarser stack goes where the step on the finer one goes.
proof fn lemma_step_coarser(prog: Seq<u8>, pc: nat, a: Seq<Approx>, b: Seq<Approx>, cap: nat)
    requires
        coarser(a, b),
    ensures
        match (step_spec(prog, pc, a, cap), step_spec(prog, pc, b, cap)) {
            (Next::Go(pc_a, a2), Next::Go(pc_b, b2)) => pc_a == pc_b && coarser(a2, b2) && pc < pc_a
                <= prog.len(),
            (Next::Halt, Next::Halt) => true,
            (Next::Fail(e1), Next::Fail(e2)) => e1 == e2,
            _ => false,
        },
{
    if let Some(opcode) = byte_at(prog, pc) {
        if opcode == LDI || opcode == LDR {
            if let Some(w) = data_at(prog, pc + 1) {
                if a.len() < cap {
                    let x = Approx::Exact(
                        if opcode == LDI {
                            Value::Integer(w as i64)
                        } else {
                            Value::Real(w)
                        },
                    );
                    assert forall|i: int| 0 <= i < a.len() + 1 implies #[trigger] a.push(x)[i]
                        == b.push(x)[i] || (b.push(x)[i] is Exact && admits(
                        a.push(x)[i],
                        b.push(x)[i]->Exact_0,
                    )) by {
                        if i < a.len() {
                            assert(a[i] == b[i] || (b[i] is Exact && admits(a[i], b[i]->Exact_0)));
                        }
                    }
                }
            }
        } else if opcode != END {
            if let Some(op) = operator_of(opcode) {
                if a.len() >= 2 {
                    let n = a.len() as int;
                    assert(a[n - 2] == b[n - 2] || (b[n - 2] is Exact && admits(
                        a[n - 2],
                        b[n - 2]->Exact_0,
                    )));
                    assert(a[n - 1] == b[n - 1] || (b[n - 1] is Exact && admits(
                        a[n - 1],
                        b[n - 1]->Exact_0,
                    )));
                    lemma_binary_coarser(op, a[n - 2], a[n - 1], b[n - 2], b[n - 1]);
                    if let Ok(x) = binary_spec(op, a[n - 2], a[n - 1]) {
                        let a2 = a.drop_last().drop_last().push(x);
                        let b2 = b.drop_last().drop_last().push(x);
                        assert forall|i: int| 0 <= i < a2.len() implies #[trigger] a2[i] == b2[i]
                            || (b2[i] is Exact && admits(a2[i], b2[i]->Exact_0)) by {
                            if i < a2.len() - 1 {
                                assert(a[i] == b[i] || (b[i] is Exact && admits(
                                    a[i],
                                    b[i]->Exact_0,
                                )));
                            }
                        }
                    }
                }
            }
        }
    }
}

/// Running from a coarser stack ends as running from the finer one does.
proof fn lemma_run_coarser(prog: Seq<u8>, pc: nat, a: Seq<Approx>, b: Seq<Approx>, cap: nat)
    requires
        coarser(a, b),
    ensures
        match (run_spec(prog, pc, a, cap), run_spec(prog, pc, b, cap)) {
            (Ok(x), Ok(y)) => coarser_one(x, y),
            (Err(e1), Err(e2)) => e1 == e2,
            _ => false,
        },
    decreases prog.len() - pc,
{
    lemma_step_coarser(prog, pc, a, b, cap);
    match (step_spec(prog, pc, a, cap), step_spec(prog, pc, b, cap)) {
        (Next::Go(pc_a, a2), Next::Go(pc_b, b2)) => {
            lemma_run_coarser(prog, pc_a, a2, b2, cap);
        },
        (Next::Halt, Next::Halt) => {
            if a.len() > 0 {
                assert(a[a.len() - 1] == b[b.len() - 1] || (b[b.len() - 1] is Exact && admits(
                    a[a.len() - 1],
                    b[b.len() - 1]->Exact_0,
                )));
            }
        },
        _ => {},
    }
}


/// What running the instructions `code` with the stack `a` gives. A real literal is
/// only known to load some real.
pub open spec fn exec_code(code: Seq<Instr>, a: Seq<Approx>, cap: nat) -> VMResult<Approx>
    decreases code.len(),
{
    if code.len() == 0 {
        Err(VMError::OpcodeFetch)
    } else {
        match code[0] {
            Instr::LoadInteger(v) => if a.len() < cap {
                exec_code(code.drop_first(), a.push(Approx::Exact(Value::Integer(v))), cap)
            } else {
                Err(VMError::StackOverflow)
            },
            Instr::LoadReal(_) => if a.len() < cap {
                exec_code(code.drop_first(), a.push(Approx::AnyReal), cap)
            } else {
                Err(VMError::StackOverflow)
            },
            Instr::Operation(opcode) => match operator_of(opcode) {
                Some(op) => match apply_spec(op, a) {
                    Ok(a2) => exec_code(code.drop_first(), a2, cap),
                    Err(e) => Err(e),
                },
                None => Err(VMError::UnknownInstruction),
            },
            Instr::End => if a.len() > 0 {
                Ok(a.last())
            } else {
                Err(VMError::StackUnderflow)
            },
        }
    }
}

/// The stack that running `code` from `a` holds when it reaches `END`, or where it
/// fails.
pub open spec fn exec_end(code: Seq<Instr>, a: Seq<Approx>, cap: nat) -> Seq<Approx>
    decreases code.len(),
{
    if code.len() == 0 {
        a
    } else {
        match code[0] {
            Instr::LoadInteger(v) => if a.len() < cap {
                exec_end(code.drop_first(), a.push(Approx::Exact(Value::Integer(v))), cap)
            } else {
                a
            },
            Instr::LoadReal(_) => if a.len() < cap {
                exec_end(code.drop_first(), a.push(Approx::AnyReal), cap)
            } else {
                a
            },
            Instr::Operation(opcode) => match operator_of(opcode) {
                Some(op) => match apply_spec(op, a) {
                    Ok(a2) => exec_end(code.drop_first(), a2, cap),
                    Err(_) => a,
                },
                None => a,
            },
            Instr::End => a,
        }
    }
}

proof fn lemma_be_at_same(b1: Seq<u8>, a1: nat, b2: Seq<u8>, a2: nat, k: nat)
    requires
        forall|j: int| a1 <= j < a1 + k ==> #[trigger] b1[j] == b2[a2 + (j - a1)],
    ensures
        be_at(b1, a1, k) == be_at(b2, a2, k),
    decreases k,
{
    if k > 0 {
        lemma_be_at_same(b1, a1, b2, a2, (k - 1) as nat);
        assert(b1[a1 + k - 1] == b2[a2 + (k - 1)]);
    }
}

/// Running the bytes of an encoded program ends as running its instructions does.
pub proof fn lemma_run_encoded(
    prog: Seq<u8>,
    pc: nat,
    code: Seq<Instr>,
    a: Seq<Approx>,
    b: Seq<Approx>,
    cap: nat,
)
    requires
        pc <= prog.len(),
        encodes(prog.skip(pc as int), code),
        coarser(a, b),
    ensures
        match (exec_code(code, a, cap), run_spec(prog, pc, b, cap)) {
            (Ok(x), Ok(y)) => coarser_one(x, y),
            (Err(e1), Err(e2)) => e1 == e2,
            _ => false,
        },
        exec_code(code, a, cap) is Ok ==> exec_end(code, a, cap).len() == run_end(
            prog,
            pc,
            b,
            cap,
        ).1.len(),
    decreases code.len(),
{
    let rest = prog.skip(pc as int);
    if code.len() == 0 {
        assert(byte_at(prog, pc) is None);
    } else {
        let n = instr_size(code[0]);
        let head = rest.take(n as int);
        assert(instr_ok(head, code[0]));
        assert(rest.skip(n as int) =~= prog.skip((pc + n) as int));
        assert(prog[pc as int] == head[0]);
        match code[0] {
            Instr::LoadInteger(v) => {
                let w = v as u64;
                assert forall|j: int| pc + 1 <= j < pc + 1 + 8 implies #[trigger] prog[j] == be_bytes(
                    w,
                )[0 + (j - (pc + 1))] by {
                    assert(prog[j] == head[j - pc]);
                }
                lemma_be_at_same(prog, pc + 1, be_bytes(w), 0, 8);
                lemma_be_round_trip(w);
                assert((v as u64) as i64 == v) by (bit_vector);
                if b.len() < cap {
                    let x = Approx::Exact(Value::Integer(v));
                    lemma_coarser_push(a, b, x, x);
                    lemma_run_encoded(prog, pc + 9, code.drop_first(), a.push(x), b.push(x), cap);
                }
            },
            Instr::LoadReal(_) => {
                assert(head.len() == 9);
                if b.len() < cap {
                    let w = data_at(prog, pc + 1)->Some_0;
                    lemma_coarser_push(a, b, Approx::AnyReal, Approx::Exact(Value::Real(w)));
                    lemma_run_encoded(
                        prog,
                        pc + 9,
                        code.drop_first(),
                        a.push(Approx::AnyReal),
                        b.push(Approx::Exact(Value::Real(w))),
                        cap,
                    );
                }
            },
            Instr::Operation(opcode) => {
                let op = operator_of(opcode)->Some_0;
                lemma_step_coarser(prog, pc, a, b, cap);
                if let Ok(a2) = apply_spec(op, a) {
                    if let Next::Go(_, b2) = step_spec(prog, pc, b, cap) {
                        lemma_run_encoded(prog, pc + 1, code.drop_first(), a2, b2, cap);
                    }
                }
            },
            Instr::End => {
                lemma_step_coarser(prog, pc, a, b, cap);
                if a.len() > 0 {
                    assert(coarser_one(a[a.len() - 1], b[b.len() - 1]));
                }
            },
        }
    }
}

proof fn lemma_coarser_push(a: Seq<Approx>, b: Seq<Approx>, x: Approx, y: Approx)
    requires
        coarser(a, b),
        coarser_one(x, y),
    ensures
        coarser(a.push(x), b.push(y)),
{
    assert forall|i: int| 0 <= i < a.len() + 1 implies #[trigger] a.push(x)[i] == b.push(y)[i] || (
    b.push(y)[i] is Exact && admits(a.push(x)[i], b.push(y)[i]->Exact_0)) by {
        if i < a.len() {
            assert(a[i] == b[i] || (b[i] is Exact && admits(a[i], b[i]->Exact_0)));
        }
    }
}

proof fn lemma_exacts_admitted(vs: Seq<Value>)
    ensures
        admits_all(exacts(vs), vs),
{
}

/// Executes the instruction at the program counter: `Ok(true)` to go on,
/// `Ok(false)` at `END`.
fn step<S: Stack, G: GetByte, U: RealUnit>(state: &mut State<S, U>, program: &G) -> (r: VMResult<
    bool,
>)
    requires
        old(state).valid(),
        program.bytes().len() <= usize::MAX,
    ensures
        final(state).valid(),
        final(state).capacity() == old(state).capacity(),
        match step_spec(
            program.bytes(),
            old(state).program_counter as nat,
            exacts(old(state).values()),
            old(state).capacity(),
        ) {
            Next::Go(pc, a) => r == Ok::<bool, VMError>(true) && final(state).program_counter == pc
                && admits_all(a, final(state).values()) && final(state).message == old(
                state,
            ).message,
            Next::Halt => r == Ok::<bool, VMError>(false) && final(state).values() == old(
                state,
            ).values() && final(state).program_counter == old(state).program_counter
                && final(state).message == old(state).message,
            Next::Fail(e) => r == Err::<bool, VMError>(e) && final(state).program_counter == old(
                state,
            ).program_counter && step_failed(program.bytes(), *old(state), *final(state)),
        },
{
    let ghost vs = state.values();
    let pc = state.program_counter;
    let opcode = match program.get_byte(pc) {
        Some(b) => b,
        None => return Err(VMError::OpcodeFetch),
    };
    if opcode == END {
        return Ok(false);
    }
    if opcode == LDI || opcode == LDR {
        let word = match program.get_data(pc + 1) {
            Some(w) => w,
            None => return Err(VMError::OpcodeFetch),
        };
        let value = if opcode == LDI {
            Value::Integer(word as i64)
        } else {
            Value::Real(word)
        };
        if let Err(e) = state.push(value) {
            return Err(e);
        }
        state.program_counter = pc + 9;
        proof {
            lemma_exacts_admitted(state.values());
            assert(exacts(vs).push(Approx::Exact(value)) =~= exacts(state.values()));
        }
        return Ok(true);
    }
    match operator_for(opcode) {
        Some(op) => state.single(op),
        None => Err(VMError::UnknownInstruction),
    }
}

/// Runs the program from the program counter until `END`, then pops the result.
///
/// The result is what `run_spec` gives, up to the bits of reals that the real unit
/// computed. The machine stops where `run_end` says, and after a success holds the
/// values below the result.
pub fn run<S: Stack, G: GetByte, U: RealUnit>(state: &mut State<S, U>, program: &G) -> (r:
    VMResult<Value>)
    requires
        old(state).valid(),
        program.bytes().len() <= usize::MAX,
    ensures
        final(state).valid(),
        match run_spec(
            program.bytes(),
            old(state).program_counter as nat,
            exacts(old(state).values()),
            old(state).capacity(),
) {
            Ok(a) => r is Ok && admits(a, r->Ok_0) && admits_all(
                run_end(
                    program.bytes(),
                    old(state).program_counter as nat,
                    exacts(old(state).values()),
                    old(state).capacity(),
                ).1.drop_last(),
                final(state).values(),
            ) && final(state).message == old(state).message,
            Err(e) => r == Err::<Value, VMError>(e) && if e == VMError::BinaryOperator || e
                == VMError::DividingByZero {
                final(state).message matches Some(f) && fault_fits(
                    program.bytes(),
                    run_end(
                        program.bytes(),
                        old(state).program_counter as nat,
                        exacts(old(state).values()),
                        old(state).capacity(),
                    ),
                    f,
                )
            } else {
                final(state).message == old(state).message
            },
        },
        final(state).program_counter == run_end(
            program.bytes(),
            old(state).program_counter as nat,
            exacts(old(state).values()),
            old(state).capacity(),
        ).0,
{
    let ghost prog = program.bytes();
    let ghost cap = state.capacity();
    let ghost target = run_spec(prog, state.program_counter as nat, exacts(state.values()), cap);
    let ghost end = run_end(prog, state.program_counter as nat, exacts(state.values()), cap);
    let ghost message = state.message;
    let ghost mut a = exacts(state.values());
    proof {
        lemma_exacts_admitted(state.values());
    }
    loop
        invariant
            state.valid(),
            run_end(prog, state.program_counter as nat, a, cap) == end,
            end == run_end(
                program.bytes(),
                old(state).program_counter as nat,
                exacts(old(state).values()),
                old(state).capacity(),
            ),
            state.message == message,
            message == old(state).message,
            state.capacity() == cap,
            prog == program.bytes(),
            prog.len() <= usize::MAX,
            admits_all(a, state.values()),
            run_spec(prog, state.program_counter as nat, a, cap) == target,
            target == run_spec(
                program.bytes(),
                old(state).program_counter as nat,
                exacts(old(state).values()),
                old(state).capacity(),
            ),
        ensures
            step_spec(prog, state.program_counter as nat, a, cap) is Halt,
        decreases prog.len() - state.program_counter,
    {
        let ghost vs = state.values();
        let ghost pc0 = state.program_counter as nat;
        proof {
            lemma_admits_coarser(a, vs);
            lemma_step_coarser(prog, pc0, a, exacts(vs), cap);
        }
        match step(state, program) {
            Ok(true) => {
                proof {
                    if let (Next::Go(_, a2), Next::Go(_, b2)) = (
                        step_spec(prog, pc0, a, cap),
                        step_spec(prog, pc0, exacts(vs), cap),
                    ) {
                        lemma_coarser_admits(a2, b2, state.values());
                        a = a2;
                    }
                }
            },
            Ok(false) => break,
            Err(e) => {
                proof {
                    if e == VMError::BinaryOperator || e == VMError::DividingByZero {
                        assert(vs.len() >= 2);
                    }
                }
                return Err(e);
            },
        }
    }
    let ghost vs = state.values();
    let r = state.pop();
    proof {
        if vs.len() > 0 {
            assert forall|i: int| 0 <= i < a.drop_last().len() implies admits(
                #[trigger] a.drop_last()[i],
                state.values()[i],
            ) by {
                assert(admits(a[i], vs[i]));
            }
            assert(admits(a[a.len() - 1], vs[vs.len() - 1]));
        }
    }
    r
}

} // verus!
