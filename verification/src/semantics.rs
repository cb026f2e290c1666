use vstd::prelude::*;
use crate::bytecode::{Op, op_size, seq_size, lemma_seq_size_elem, lemma_seq_size_skip};

verus! {

/// Adds `v` (mod 256) to cell `i`.
pub open spec fn add_cell(tape: Seq<u8>, i: usize, v: u8) -> Seq<u8> {
    tape.update(i as int, tape[i as int].wrapping_add(v))
}

/// Adds each pair's value to the cell at the pair's offset from `p`, in order.
pub open spec fn apply_pairs(tape: Seq<u8>, p: usize, vals: Seq<(usize, u8)>) -> Seq<u8>
    decreases vals.len(),
{
    if vals.len() == 0 {
        tape
    } else {
        apply_pairs(add_cell(tape, p.wrapping_add(vals[0].0), vals[0].1), p, vals.skip(1))
    }
}

/// Every offset of `vals` from `p` falls on the tape.
pub open spec fn pairs_fit(len: nat, p: usize, vals: Seq<(usize, u8)>) -> bool {
    forall|k: int| 0 <= k < vals.len() ==> p.wrapping_add(#[trigger] vals[k].0) < len
}

/// What a program works on: the tape, the pointer, the bytes still to be
/// read and the characters written so far.
pub struct State {
    pub tape: Seq<u8>,
    pub pointer: usize,
    pub input: Seq<u8>,
    pub output: Seq<char>,
}

/// How running a program ends: normally, by touching a cell beyond the tape
/// (with what was written until then), or by running out of fuel.
pub enum Outcome {
    Done(State),
    Fault(Seq<char>),
    OutOfFuel,
}

/// Runs one instruction other than a loop. Reading past the end of the input
/// reads 0.
pub open spec fn prim(op: Op, st: State) -> Outcome {
    let p = st.pointer;
    let fits = p < st.tape.len();
    match op {
        Op::Memory(v) => if fits {
            Outcome::Done(State { tape: add_cell(st.tape, p, v), ..st })
        } else {
            Outcome::Fault(st.output)
        },
        Op::Pointer(o) => Outcome::Done(State { pointer: p.wrapping_add(o), ..st }),
        Op::OffsetAdd(o, v) => if p.wrapping_add(o) < st.tape.len() {
            Outcome::Done(State { tape: add_cell(st.tape, p.wrapping_add(o), v), ..st })
        } else {
            Outcome::Fault(st.output)
        },
        Op::Spread(v, vals) => if fits && pairs_fit(st.tape.len(), p, vals) {
            Outcome::Done(State { tape: apply_pairs(add_cell(st.tape, p, v), p, vals), ..st })
        } else {
            Outcome::Fault(st.output)
        },
        Op::ClearCell => if fits {
            Outcome::Done(State { tape: st.tape.update(p as int, 0), ..st })
        } else {
            Outcome::Fault(st.output)
        },
        Op::Input => if fits {
            if st.input.len() > 0 {
                Outcome::Done(State { tape: st.tape.update(p as int, st.input[0]), input: st.input.skip(1), ..st })
            } else {
                Outcome::Done(State { tape: st.tape.update(p as int, 0), ..st })
            }
        } else {
            Outcome::Fault(st.output)
        },
        Op::Output => if fits {
            Outcome::Done(State { output: st.output.push(st.tape[p as int] as char), ..st })
        } else {
            Outcome::Fault(st.output)
        },
        Op::Loop(_) => Outcome::Done(st),
    }
}

/// Runs `ops` from `st`. `fuel` bounds how often any loop may go round, and
/// so the depth of the computation: a program that stops does so for some fuel.
pub open spec fn run(ops: Seq<Op>, st: State, fuel: nat) -> Outcome
    decreases fuel, seq_size(ops), 1int,
{
    if ops.len() == 0 {
        Outcome::Done(st)
    } else {
        proof {
            lemma_seq_size_elem(ops, 0);
            lemma_seq_size_skip(ops, 1);
        }
        match run_op(ops[0], st, fuel) {
            Outcome::Done(st2) => run(ops.skip(1), st2, fuel),
            other => other,
        }
    }
}

/// Runs one instruction from `st`.
pub open spec fn run_op(op: Op, st: State, fuel: nat) -> Outcome
    decreases fuel, op_size(op), 0int,
{
    match op {
        Op::Loop(body) => if st.pointer >= st.tape.len() {
            Outcome::Fault(st.output)
        } else if st.tape[st.pointer as int] == 0 {
            Outcome::Done(st)
        } else if fuel == 0 {
            Outcome::OutOfFuel
        } else {
            match run(body, st, (fuel - 1) as nat) {
                Outcome::Done(st2) => run_op(op, st2, (fuel - 1) as nat),
                other => other,
            }
        },
        _ => prim(op, st),
    }
}

/// Goes on with `ops` after `o` when `o` ended normally.
pub open spec fn then_run(o: Outcome, ops: Seq<Op>, fuel: nat) -> Outcome {
    match o {
        Outcome::Done(st) => run(ops, st, fuel),
        other => other,
    }
}

pub proof fn lemma_run_cons(x: Op, t: Seq<Op>, st: State, fuel: nat)
    ensures
        run(seq![x] + t, st, fuel) == then_run(run_op(x, st, fuel), t, fuel),
{
    let u = seq![x] + t;
    assert(u[0] == x);
    assert(u.skip(1) =~= t);
}

pub proof fn lemma_run_unfold(ops: Seq<Op>, st: State, fuel: nat)
    requires
        ops.len() > 0,
    ensures
        run(ops, st, fuel) == then_run(run_op(ops[0], st, fuel), ops.skip(1), fuel),
{
}

pub proof fn lemma_run_append(a: Seq<Op>, b: Seq<Op>, st: State, fuel: nat)
    ensures
        run(a + b, st, fuel) == then_run(run(a, st, fuel), b, fuel),
    decreases a.len(),
{
    if a.len() == 0 {
        assert(a + b =~= b);
    } else {
        let u = a + b;
        assert(u[0] == a[0]);
        assert(u.skip(1) =~= a.skip(1) + b);
        match run_op(a[0], st, fuel) {
            Outcome::Done(st2) => {
                lemma_run_append(a.skip(1), b, st2, fuel);
            },
            _ => {},
        }
    }
}

// ---------------------------------------------------------------------------
// Fuel
// ---------------------------------------------------------------------------

/// More fuel does not change how a run that ended with less fuel ends.
pub proof fn lemma_run_fuel_mono(ops: Seq<Op>, st: State, f1: nat, f2: nat)
    requires
        f1 <= f2,
        !(run(ops, st, f1) is OutOfFuel),
    ensures
        run(ops, st, f2) == run(ops, st, f1),
    decreases f1, seq_size(ops), 1int,
{
    if ops.len() > 0 {
        lemma_seq_size_elem(ops, 0);
        lemma_seq_size_skip(ops, 1);
        lemma_run_op_fuel_mono(ops[0], st, f1, f2);
        if let Outcome::Done(st2) = run_op(ops[0], st, f1) {
            lemma_run_fuel_mono(ops.skip(1), st2, f1, f2);
        }
    }
}

pub proof fn lemma_run_op_fuel_mono(op: Op, st: State, f1: nat, f2: nat)
    requires
        f1 <= f2,
        !(run_op(op, st, f1) is OutOfFuel),
    ensures
        run_op(op, st, f2) == run_op(op, st, f1),
    decreases f1, op_size(op), 0int,
{
    if let Op::Loop(body) = op {
        if st.pointer < st.tape.len() && st.tape[st.pointer as int] != 0 {
            lemma_run_fuel_mono(body, st, (f1 - 1) as nat, (f2 - 1) as nat);
            if let Outcome::Done(st2) = run(body, st, (f1 - 1) as nat) {
                lemma_run_op_fuel_mono(op, st2, (f1 - 1) as nat, (f2 - 1) as nat);
            }
        }
    }
}

pub proof fn lemma_apply_pairs_len(tape: Seq<u8>, p: usize, vals: Seq<(usize, u8)>)
    requires
        pairs_fit(tape.len(), p, vals),
    ensures
        apply_pairs(tape, p, vals).len() == tape.len(),
    decreases vals.len(),
{
    if vals.len() > 0 {
        let t2 = add_cell(tape, p.wrapping_add(vals[0].0), vals[0].1);
        assert(p.wrapping_add(vals[0].0) < tape.len());
        assert(t2.len() == tape.len());
        assert forall|k: int| 0 <= k < vals.skip(1).len() implies p.wrapping_add(
            #[trigger] vals.skip(1)[k].0,
        ) < t2.len() by {
            assert(vals.skip(1)[k] == vals[k + 1]);
        }
        lemma_apply_pairs_len(t2, p, vals.skip(1));
    }
}

} // verus!
