use vstd::prelude::*;
use crate::bytecode::{Op, op_size, seq_size, lemma_seq_size_elem, lemma_seq_size_skip};
use crate::semantics::{State, Outcome, run, run_op, lemma_run_unfold, lemma_run_cons, lemma_run_append, lemma_run_fuel_mono};
use crate::interpreter::{Machine, Action, machine_step, block_at};

verus! {

/// One round of a driver of the interpreter: a step without a byte, and when
/// the step waits for one, the same step again with the next byte of `input`,
/// or 0 once `input` is used up.
pub open spec fn drive_step(prog: Seq<Op>, m: Machine, input: Seq<u8>) -> (Machine, Seq<u8>, Action) {
    let first = machine_step(prog, m, None);
    if first.1 == Action::NeedInput {
        let b: u8 = if input.len() > 0 { input[0] } else { 0 };
        let second = machine_step(prog, m, Some(b));
        (second.0, if input.len() > 0 { input.skip(1) } else { input }, second.1)
    } else {
        (first.0, input, first.1)
    }
}

/// The machine and the unread input after `n` rounds.
pub open spec fn drive(prog: Seq<Op>, m: Machine, input: Seq<u8>, n: nat) -> (Machine, Seq<u8>)
    decreases n,
{
    if n == 0 {
        (m, input)
    } else {
        let r = drive_step(prog, m, input);
        drive(prog, r.0, r.1, (n - 1) as nat)
    }
}

/// The state a machine and its unread input stand for.
pub open spec fn state_of(m: Machine, input: Seq<u8>) -> State {
    State { tape: m.tape, pointer: m.pointer, input, output: m.output }
}

/// A machine holding `st` at position `frames`.
pub open spec fn machine_of(st: State, frames: Seq<usize>) -> Machine {
    Machine { tape: st.tape, pointer: st.pointer, output: st.output, frames }
}

/// The interpreter started on the first instruction of a program from `st`.
pub open spec fn start_machine(st: State) -> Machine {
    machine_of(st, seq![0usize])
}

/// After `n` rounds the machine has ended as `o` says: in the state of a
/// normal end, at position `frames`; or, on a fault, with the output of the
/// fault and about to report it.
pub open spec fn reaches(prog: Seq<Op>, m: Machine, input: Seq<u8>, n: nat, o: Outcome, frames: Seq<usize>) -> bool {
    match o {
        Outcome::Done(end) => drive(prog, m, input, n) == (machine_of(end, frames), end.input),
        Outcome::Fault(out) => {
            let r = drive(prog, m, input, n);
            &&& r.0.output == out
            &&& drive_step(prog, r.0, r.1).2 == Action::OutOfBounds
        },
        Outcome::OutOfFuel => true,
    }
}

/// Every block of `s`, its own and every loop body, has a length that a
/// `usize` holds; true of every `ByteCodeObject`.
pub open spec fn block_lengths_fit(s: Seq<Op>) -> bool
    decreases seq_size(s), 1int,
{
    s.len() <= usize::MAX && loop_lengths_fit(s)
}

/// Every loop body in `s`, at any depth, has a length that a `usize` holds.
pub open spec fn loop_lengths_fit(s: Seq<Op>) -> bool
    decreases seq_size(s), 0int,
{
    if s.len() == 0 {
        true
    } else {
        proof {
            lemma_seq_size_elem(s, 0);
            lemma_seq_size_skip(s, 1);
        }
        (match s[0] {
            Op::Loop(body) => block_lengths_fit(body),
            _ => true,
        }) && loop_lengths_fit(s.skip(1))
    }
}

pub proof fn lemma_loop_lengths_fit_elem(s: Seq<Op>, i: int)
    requires
        loop_lengths_fit(s),
        0 <= i < s.len(),
    ensures
        s[i] is Loop ==> block_lengths_fit(s[i]->Loop_0),
    decreases s.len(),
{
    if i > 0 {
        lemma_loop_lengths_fit_elem(s.skip(1), i - 1);
    }
}

pub proof fn lemma_drive_small(prog: Seq<Op>, m: Machine, input: Seq<u8>)
    ensures
        drive(prog, m, input, 0) == (m, input),
        drive(prog, m, input, 1) == (drive_step(prog, m, input).0, drive_step(prog, m, input).1),
{
    let r = drive_step(prog, m, input);
    assert(drive(prog, r.0, r.1, 0) == (r.0, r.1));
}

/// `m` stands in `block`, the block its frames lead to, at a position no
/// further than the block's end.
pub open spec fn stands_in(prog: Seq<Op>, m: Machine, block: Seq<Op>) -> bool {
    &&& block_lengths_fit(block)
    &&& m.frames.len() > 0
    &&& block_at(prog, m.frames.take(m.frames.len() - 1)) == Some(block)
    &&& m.frames.last() <= block.len()
}

pub proof fn lemma_drive_add(prog: Seq<Op>, m: Machine, input: Seq<u8>, a: nat, b: nat)
    ensures
        drive(prog, m, input, a + b) == drive(prog, drive(prog, m, input, a).0, drive(prog, m, input, a).1, b),
    decreases a,
{
    if a > 0 {
        let r = drive_step(prog, m, input);
        lemma_drive_add(prog, r.0, r.1, (a - 1) as nat, b);
        assert((a + b - 1) as nat == (a - 1) as nat + b);
    }
}

/// Running the instruction the machine stands on, by the semantics, is what
/// the machine does in some number of rounds.
proof fn lemma_op_sim(prog: Seq<Op>, m: Machine, block: Seq<Op>, input: Seq<u8>, f: nat) -> (n: nat)
    requires
        stands_in(prog, m, block),
        m.frames.last() < block.len(),
    ensures
        reaches(
            prog,
            m,
            input,
            n,
            run_op(block[m.frames.last() as int], state_of(m, input), f),
            m.frames.update(m.frames.len() - 1, (m.frames.last() + 1) as usize),
        ),
    decreases f, op_size(block[m.frames.last() as int]), 0int,
{
    let d = m.frames.len() - 1;
    let idx = m.frames[d];
    let op = block[idx as int];
    let st = state_of(m, input);
    let next = m.frames.update(d, (idx + 1) as usize);
    assert(machine_step(prog, m, None) == crate::interpreter::run_instruction(op, m, None));
    lemma_drive_small(prog, m, input);
    lemma_loop_lengths_fit_elem(block, idx as int);
    match op {
        Op::Loop(body) => {
            if st.pointer >= st.tape.len() {
                0
            } else if st.tape[st.pointer as int] == 0 {
                1
            } else if f == 0 {
                0
            } else {
                let g = (f - 1) as nat;
                let m1 = Machine { frames: m.frames.push(0), ..m };
                assert(drive_step(prog, m, input) == (m1, input, Action::Continue));
                assert(drive(prog, m, input, 1) == (m1, input));
                assert(m1.frames.take(d + 1) =~= m.frames);
                assert(m.frames.drop_last() =~= m.frames.take(d));
                assert(block_at(prog, m1.frames.take(d + 1)) == Some(body));
                lemma_seq_size_elem(block, idx as int);
                assert(body.skip(0) =~= body);
                let n1 = lemma_seq_sim(prog, m1, body, input, g);
                lemma_drive_add(prog, m, input, 1, n1);
                match run(body, st, g) {
                    Outcome::Done(s2) => {
                        let m2 = machine_of(s2, m1.frames.update(d + 1, body.len() as usize));
                        assert(m2.frames.take(d + 1) =~= m.frames);
                        let m3 = machine_of(s2, m.frames);
                        assert(m2.frames.drop_last() =~= m1.frames.take(d + 1));
                        assert(machine_step(prog, m2, None) == (m3, Action::Continue));
                        lemma_drive_small(prog, m2, s2.input);
                        assert(drive(prog, m2, s2.input, 1) == (m3, s2.input));
                        lemma_drive_add(prog, m, input, 1 + n1, 1);
                        assert(stands_in(prog, m3, block));
                        assert(state_of(m3, s2.input) == s2);
                        let n2 = lemma_op_sim(prog, m3, block, s2.input, g);
                        lemma_drive_add(prog, m, input, 1 + n1 + 1, n2);
                        1 + n1 + 1 + n2
                    },
                    _ => 1 + n1,
                }
            }
        },
        Op::Input => {
            if st.pointer < st.tape.len() {
                1
            } else {
                0
            }
        },
        _ => {
            match run_op(op, st, f) {
                Outcome::Done(_) => 1,
                _ => 0,
            }
        },
    }
}

/// Running the rest of the block the machine stands in, by the semantics, is
/// what the machine does in some number of rounds.
proof fn lemma_seq_sim(prog: Seq<Op>, m: Machine, block: Seq<Op>, input: Seq<u8>, f: nat) -> (n: nat)
    requires
        stands_in(prog, m, block),
    ensures
        reaches(
            prog,
            m,
            input,
            n,
            run(block.skip(m.frames.last() as int), state_of(m, input), f),
            m.frames.update(m.frames.len() - 1, block.len() as usize),
        ),
    decreases f, seq_size(block.skip(m.frames.last() as int)), 1int,
{
    let d = m.frames.len() - 1;
    let idx = m.frames[d];
    let st = state_of(m, input);
    let rest = block.skip(idx as int);
    lemma_drive_small(prog, m, input);
    if idx == block.len() {
        assert(rest.len() == 0);
        assert(m.frames.update(d, block.len() as usize) =~= m.frames);
        0
    } else {
        lemma_seq_size_elem(rest, 0);
        lemma_seq_size_skip(rest, 1);
        assert(rest[0] == block[idx as int]);
        assert(rest.skip(1) =~= block.skip(idx + 1));
        lemma_run_unfold(rest, st, f);
        let n1 = lemma_op_sim(prog, m, block, input, f);
        match run_op(block[idx as int], st, f) {
            Outcome::Done(s2) => {
                let m2 = machine_of(s2, m.frames.update(d, (idx + 1) as usize));
                assert(m2.frames.take(d) =~= m.frames.take(d));
                assert(state_of(m2, s2.input) == s2);
                assert(m2.frames.last() == idx + 1);
                let n2 = lemma_seq_sim(prog, m2, block, s2.input, f);
                assert(m2.frames.update(d, block.len() as usize) =~= m.frames.update(d, block.len() as usize));
                lemma_drive_add(prog, m, input, n1, n2);
                n1 + n2
            },
            _ => n1,
        }
    }
}

/// The interpreter runs a program as the semantics says: where running
/// `prog` from `st` ends normally, driving the interpreter from `st`, with
/// the bytes of `st.input` for its reads, comes in some number of rounds to
/// that end, past the last instruction, with the input read as far; where it
/// faults, the interpreter comes to report `OutOfBounds` with the same output.
pub proof fn law_interpreter_follows_semantics(prog: Seq<Op>, st: State, f: nat) -> (n: nat)
    requires
        block_lengths_fit(prog),
    ensures
        reaches(prog, start_machine(st), st.input, n, run(prog, st, f), seq![prog.len() as usize]),
        run(prog, st, f) is Done ==> drive_step(
            prog,
            drive(prog, start_machine(st), st.input, n).0,
            drive(prog, start_machine(st), st.input, n).1,
        ).2 == Action::Halted,
{
    let m = start_machine(st);
    assert(m.frames.take(0) =~= Seq::<usize>::empty());
    assert(prog.skip(0) =~= prog);
    assert(state_of(m, st.input) == st);
    let n = lemma_seq_sim(prog, m, prog, st.input, f);
    assert(m.frames.update(0, prog.len() as usize) =~= seq![prog.len() as usize]);
    if let Outcome::Done(end) = run(prog, st, f) {
        let me = machine_of(end, seq![prog.len() as usize]);
        assert(me.frames.take(0) =~= Seq::<usize>::empty());
        assert(machine_step(prog, me, None) == (me, Action::Halted));
    }
    n
}

} // verus!

verus! {

/// Every program the library builds meets `block_lengths_fit`.
pub proof fn lemma_object_lengths_fit(b: &crate::bytecode::ByteCodeObject)
    ensures
        block_lengths_fit(b@),
    decreases *b, b@.len() + 1,
{
    b.lemma_view();
    assert(b.instructions@.len() == b.instructions.len());
    lemma_object_loops_fit(b, 0);
    assert(b@.skip(0) =~= b@);
}

proof fn lemma_object_loops_fit(b: &crate::bytecode::ByteCodeObject, k: int)
    requires
        0 <= k <= b@.len(),
    ensures
        loop_lengths_fit(b@.skip(k)),
    decreases *b, b@.len() - k,
{
    b.lemma_view();
    let s = b@;
    if k < s.len() {
        lemma_object_loops_fit(b, k + 1);
        assert(s.skip(k).skip(1) =~= s.skip(k + 1));
        assert(s.skip(k)[0] == s[k]);
        assert(s[k] == b.instructions@[k]@);
        if let crate::bytecode::Instruction::Loop(inner) = &b.instructions@[k] {
            assert(decreases_to!(b.instructions => b.instructions@));
            lemma_object_lengths_fit(inner);
        }
    } else {
        assert(s.skip(k).len() == 0);
    }
}

} // verus!

verus! {

// ---------------------------------------------------------------------------
// From the machine back to the semantics
// ---------------------------------------------------------------------------

/// What is left to run when the machine is at position `frames`: the rest
/// of the innermost block, then, for each enclosing block, the rest of it
/// from the loop being run, which tests its cell again.
pub open spec fn continuation(prog: Seq<Op>, frames: Seq<usize>) -> Seq<Op>
    decreases frames.len(),
{
    if frames.len() == 0 {
        seq![]
    } else {
        let d = frames.len() - 1;
        match block_at(prog, frames.take(d)) {
            Some(b) => b.skip(frames[d] as int) + continuation(prog, frames.take(d)),
            None => seq![],
        }
    }
}

/// Every frame leads into `prog`, no further than its block's end.
pub open spec fn well_placed(prog: Seq<Op>, frames: Seq<usize>) -> bool
    decreases frames.len(),
{
    &&& frames.len() > 0
    &&& match block_at(prog, frames.take(frames.len() - 1)) {
        Some(b) => frames[frames.len() - 1] <= b.len(),
        None => false,
    }
    &&& frames.len() > 1 ==> well_placed(prog, frames.take(frames.len() - 1))
}

proof fn lemma_block_at_prefix(prog: Seq<Op>, frames: Seq<usize>)
    requires
        frames.len() > 0,
        block_at(prog, frames) is Some,
    ensures
        block_at(prog, frames.drop_last()) is Some,
        frames.last() < block_at(prog, frames.drop_last())->0.len(),
        block_at(prog, frames.drop_last())->0[frames.last() as int] is Loop,
        block_at(prog, frames) == Some(block_at(prog, frames.drop_last())->0[frames.last() as int]->Loop_0),
{
}

/// Once the driver sees the end or a fault, the machine stays as it is.
proof fn lemma_stuck(prog: Seq<Op>, m: Machine, input: Seq<u8>, n: nat)
    requires
        drive_step(prog, m, input).2 == Action::Halted || drive_step(prog, m, input).2 == Action::OutOfBounds,
    ensures
        drive(prog, m, input, n).0 == m,
        drive_step(prog, m, drive(prog, m, input, n).1).2 == drive_step(prog, m, input).2,
        drive_step(prog, m, input).2 == Action::Halted ==> drive(prog, m, input, n).1 == input,
    decreases n,
{
    if n > 0 {
        let r = drive_step(prog, m, input);
        assert(r.0 == m);
        if r.2 == Action::OutOfBounds && machine_step(prog, m, None).1 == Action::NeedInput {
            let b2: u8 = if r.1.len() > 0 { r.1[0] } else { 0 };
            let b1: u8 = if input.len() > 0 { input[0] } else { 0 };
            assert(machine_step(prog, m, Some(b2)).1 == machine_step(prog, m, Some(b1)).1);
        }
        lemma_stuck(prog, m, r.1, (n - 1) as nat);
    }
}

/// Entering a loop: its body, then the loop again, then the rest, is the
/// loop then the rest with one more unit of fuel.
proof fn lemma_enter(body: Seq<Op>, x: Seq<Op>, st: State, f: nat)
    requires
        st.pointer < st.tape.len(),
        st.tape[st.pointer as int] != 0,
        !(run(body + (seq![Op::Loop(body)] + x), st, f) is OutOfFuel),
    ensures
        run(seq![Op::Loop(body)] + x, st, f + 1) == run(body + (seq![Op::Loop(body)] + x), st, f),
{
    let l = Op::Loop(body);
    lemma_run_append(body, seq![l] + x, st, f);
    lemma_run_cons(l, x, st, f + 1);
    if let Outcome::Done(s2) = run(body, st, f) {
        lemma_run_cons(l, x, s2, f);
        if let Outcome::Done(s3) = run_op(l, s2, f) {
            lemma_run_fuel_mono(x, s3, f, f + 1);
        }
    }
}

/// What the driver ends with after `n` rounds, the semantics gives for what
/// was left to run, with some fuel.
proof fn lemma_block_at_fits(prog: Seq<Op>, path: Seq<usize>)
    requires
        block_lengths_fit(prog),
        block_at(prog, path) is Some,
    ensures
        block_lengths_fit(block_at(prog, path)->0),
    decreases path.len(),
{
    if path.len() > 0 {
        lemma_block_at_prefix(prog, path);
        lemma_block_at_fits(prog, path.drop_last());
        lemma_loop_lengths_fit_elem(block_at(prog, path.drop_last())->0, path.last() as int);
    }
}

#[verifier::spinoff_prover]
#[verifier::rlimit(40)]
proof fn lemma_back(prog: Seq<Op>, m: Machine, input: Seq<u8>, n: nat) -> (f: nat)
    requires
        block_lengths_fit(prog),
        well_placed(prog, m.frames),
    ensures
        drive_step(prog, drive(prog, m, input, n).0, drive(prog, m, input, n).1).2 == Action::Halted
            ==> run(continuation(prog, m.frames), state_of(m, input), f) == Outcome::Done(
            state_of(drive(prog, m, input, n).0, drive(prog, m, input, n).1),
        ),
        drive_step(prog, drive(prog, m, input, n).0, drive(prog, m, input, n).1).2 == Action::OutOfBounds
            ==> run(continuation(prog, m.frames), state_of(m, input), f) == Outcome::Fault(
            drive(prog, m, input, n).0.output,
        ),
    decreases n,
{
    let d = m.frames.len() - 1;
    let idx = m.frames[d];
    let b = block_at(prog, m.frames.take(d))->0;
    let st = state_of(m, input);
    let c = continuation(prog, m.frames);
    let outer = continuation(prog, m.frames.take(d));
    assert(m.frames.drop_last() =~= m.frames.take(d));
    assert(c == b.skip(idx as int) + outer);
    lemma_block_at_fits(prog, m.frames.take(d));
    let r = drive_step(prog, m, input);
    if r.2 == Action::Halted || r.2 == Action::OutOfBounds {
        lemma_stuck(prog, m, input, n);
        if r.2 == Action::Halted {
            assert(idx >= b.len() && d == 0);
            assert(m.frames.take(0) =~= Seq::<usize>::empty());
            assert(b.skip(idx as int).len() == 0);
            assert(c =~= Seq::<Op>::empty());
        } else {
            assert(idx < b.len());
            let op = b[idx as int];
            assert(b.skip(idx as int) =~= seq![op] + b.skip(idx + 1));
            assert(c =~= seq![op] + (b.skip(idx + 1) + outer));
            lemma_run_cons(op, b.skip(idx + 1) + outer, st, 0);
        }
        0
    } else if n == 0 {
        0
    } else {
        lemma_drive_small(prog, m, input);
        let m1 = r.0;
        let i1 = r.1;
        if idx < b.len() {
            let op = b[idx as int];
            let rest = b.skip(idx + 1) + outer;
            assert(b.skip(idx as int) =~= seq![op] + b.skip(idx + 1));
            assert(c =~= seq![op] + rest);
            lemma_run_cons(op, rest, st, 0);
            if op is Loop && m.tape[m.pointer as int] != 0 && m.pointer < m.tape.len() {
                let body = op->Loop_0;
                assert(m1 == Machine { frames: m.frames.push(0), ..m });
                assert(m1.frames.take(d + 1) =~= m.frames);
                assert(m1.frames.drop_last() =~= m.frames);
                assert(block_at(prog, m1.frames.take(d + 1)) == Some(body));
                assert(well_placed(prog, m1.frames));
                assert(continuation(prog, m1.frames) == body.skip(0) + c);
                assert(body.skip(0) =~= body);
                let f1 = lemma_back(prog, m1, i1, (n - 1) as nat);
                assert(state_of(m1, i1) == st);
                let fin = drive(prog, m1, i1, (n - 1) as nat);
                let a = drive_step(prog, fin.0, fin.1).2;
                if a == Action::Halted || a == Action::OutOfBounds {
                    lemma_enter(body, rest, st, f1);
                }
                f1 + 1
            } else {
                let next = m.frames.update(d, (idx + 1) as usize);
                assert(m1.frames == next);
                assert(next.take(d) =~= m.frames.take(d));
                assert(next.drop_last() =~= m.frames.take(d));
                assert(well_placed(prog, next));
                assert(continuation(prog, next) == b.skip(idx + 1) + outer);
                let f1 = lemma_back(prog, m1, i1, (n - 1) as nat);
                assert(run_op(op, st, f1 + 1) == Outcome::Done(state_of(m1, i1)));
                let fin = drive(prog, m1, i1, (n - 1) as nat);
                let a = drive_step(prog, fin.0, fin.1).2;
                if a == Action::Halted || a == Action::OutOfBounds {
                    lemma_run_cons(op, rest, st, f1 + 1);
                    lemma_run_fuel_mono(rest, state_of(m1, i1), f1, f1 + 1);
                }
                f1 + 1
            }
        } else {
            assert(d > 0);
            assert(m1 == Machine { frames: m.frames.take(d), ..m });
            assert(i1 == input);
            assert(b.skip(idx as int).len() == 0);
            assert(c =~= outer);
            lemma_back(prog, m1, i1, (n - 1) as nat)
        }
    }
}

/// The semantics says what the interpreter does: where driving the
/// interpreter from `st`, with the bytes of `st.input` for its reads, comes
/// in `n` rounds to report the end, running `prog` from `st` ends, with some
/// fuel, in the state the interpreter ends in; where it comes to report
/// `OutOfBounds`, the run faults with the interpreter's output.
pub proof fn law_semantics_follows_interpreter(prog: Seq<Op>, st: State, n: nat) -> (f: nat)
    requires
        block_lengths_fit(prog),
    ensures
        drive_step(prog, drive(prog, start_machine(st), st.input, n).0, drive(prog, start_machine(st), st.input, n).1).2
            == Action::Halted ==> run(prog, st, f) == Outcome::Done(
            state_of(drive(prog, start_machine(st), st.input, n).0, drive(prog, start_machine(st), st.input, n).1),
        ),
        drive_step(prog, drive(prog, start_machine(st), st.input, n).0, drive(prog, start_machine(st), st.input, n).1).2
            == Action::OutOfBounds ==> run(prog, st, f) == Outcome::Fault(
            drive(prog, start_machine(st), st.input, n).0.output,
        ),
{
    let m = start_machine(st);
    assert(m.frames.take(0) =~= Seq::<usize>::empty());
    assert(well_placed(prog, m.frames));
    assert(prog.skip(0) =~= prog);
    assert(m.frames.take(0) =~= Seq::<usize>::empty());
    assert(continuation(prog, Seq::<usize>::empty()) == Seq::<Op>::empty());
    assert(block_at(prog, m.frames.take(0)) == Some(prog));
    assert(continuation(prog, m.frames) == prog.skip(0) + Seq::<Op>::empty());
    assert(continuation(prog, m.frames) =~= prog);
    assert(state_of(m, st.input) == st);
    lemma_back(prog, m, st.input, n)
}

} // verus!

verus! {

/// What the interpreter does with a program it also does with the optimised
/// program: where driving the interpreter on `s` from `st` comes in `n`
/// rounds to its end, driving it on the optimised program comes, in some
/// number of rounds, to the same end (state, output and input read), unless
/// it reports `OutOfBounds` first. For the programs and starts
/// `law_optimized_agrees` speaks of: no `Spread` in the program, and no run
/// from `st` of the program that reaches the removal of dead offset additions
/// runs an offset addition of 0 at a nonzero offset.
pub proof fn law_optimized_interprets_alike(s: Seq<Op>, st: State, n: nat) -> (n2: nat)
    requires
        crate::laws::no_spreads(s),
        forall|f: nat| #[trigger] crate::laws::run_avoids_moving_zero_adds(crate::laws::before_dead_offset_adds(s), st, f),
        block_lengths_fit(s),
        block_lengths_fit(crate::optimize::optimized(s)),
    ensures
        drive_step(s, drive(s, start_machine(st), st.input, n).0, drive(s, start_machine(st), st.input, n).1).2
            == Action::Halted ==> {
            let o = crate::optimize::optimized(s);
            let r = drive(o, start_machine(st), st.input, n2);
            let a = drive_step(o, r.0, r.1).2;
            ||| a == Action::OutOfBounds
            ||| a == Action::Halted && state_of(r.0, r.1) == state_of(
                drive(s, start_machine(st), st.input, n).0,
                drive(s, start_machine(st), st.input, n).1,
            )
        },
{
    let o = crate::optimize::optimized(s);
    let f = law_semantics_follows_interpreter(s, st, n);
    assert(crate::laws::run_avoids_moving_zero_adds(crate::laws::before_dead_offset_adds(s), st, f));
    crate::laws::law_optimized_agrees(s, st, f);
    let n2 = law_interpreter_follows_semantics(o, st, f);
    if let Outcome::Done(end) = run(o, st, f) {
        let me = machine_of(end, seq![o.len() as usize]);
        assert(state_of(me, end.input) == end);
    }
    n2
}

} // verus!

verus! {

// ---------------------------------------------------------------------------
// What a run does to the tape and the output
// ---------------------------------------------------------------------------

/// The characters written in `n` rounds of the driver, in order.
pub open spec fn written(prog: Seq<Op>, m: Machine, input: Seq<u8>, n: nat) -> Seq<char>
    decreases n,
{
    if n == 0 {
        seq![]
    } else {
        let r = drive_step(prog, m, input);
        let here = match r.2 {
            Action::Output(b) => seq![b as char],
            _ => Seq::<char>::empty(),
        };
        here + written(prog, r.0, r.1, (n - 1) as nat)
    }
}

proof fn lemma_step_effects(prog: Seq<Op>, m: Machine, inp: Option<u8>)
    ensures
        machine_step(prog, m, inp).0.tape.len() == m.tape.len(),
        machine_step(prog, m, inp).1 is Output ==> {
            &&& m.pointer < m.tape.len()
            &&& machine_step(prog, m, inp).1 == Action::Output(m.tape[m.pointer as int])
            &&& machine_step(prog, m, inp).0.output == m.output.push(m.tape[m.pointer as int] as char)
        },
        !(machine_step(prog, m, inp).1 is Output) ==> machine_step(prog, m, inp).0.output == m.output,
{
    if m.frames.len() > 0 {
        let d = m.frames.len() - 1;
        if let Some(block) = block_at(prog, m.frames.take(d)) {
            let idx = m.frames[d];
            if idx < block.len() {
                if let Op::Spread(v, vals) = block[idx as int] {
                    if m.pointer < m.tape.len() && crate::semantics::pairs_fit(m.tape.len(), m.pointer, vals) {
                        crate::semantics::lemma_apply_pairs_len(
                            crate::semantics::add_cell(m.tape, m.pointer, v),
                            m.pointer,
                            vals,
                        );
                    }
                }
            }
        }
    }
}

/// One round of the driver keeps the tape's length; it writes one character,
/// the current cell's, exactly when it reports `Output` of that cell's byte,
/// and otherwise writes nothing.
pub proof fn law_round_writes_current_cell(prog: Seq<Op>, m: Machine, input: Seq<u8>)
    ensures
        drive_step(prog, m, input).0.tape.len() == m.tape.len(),
        drive_step(prog, m, input).2 is Output ==> {
            &&& m.pointer < m.tape.len()
            &&& drive_step(prog, m, input).2 == Action::Output(m.tape[m.pointer as int])
            &&& drive_step(prog, m, input).0.output == m.output.push(m.tape[m.pointer as int] as char)
        },
        !(drive_step(prog, m, input).2 is Output) ==> drive_step(prog, m, input).0.output == m.output,
{
    lemma_step_effects(prog, m, None);
    let b: u8 = if input.len() > 0 { input[0] } else { 0 };
    lemma_step_effects(prog, m, Some(b));
}

/// Over any number of rounds the tape keeps its length, and the output only
/// grows: what was written before, followed by the characters the rounds
/// report, in order.
pub proof fn law_run_keeps_tape_and_extends_output(prog: Seq<Op>, m: Machine, input: Seq<u8>, n: nat)
    ensures
        drive(prog, m, input, n).0.tape.len() == m.tape.len(),
        drive(prog, m, input, n).0.output == m.output + written(prog, m, input, n),
    decreases n,
{
    if n == 0 {
        assert(m.output + Seq::<char>::empty() =~= m.output);
    } else {
        let r = drive_step(prog, m, input);
        law_round_writes_current_cell(prog, m, input);
        law_run_keeps_tape_and_extends_output(prog, r.0, r.1, (n - 1) as nat);
        let rest = written(prog, r.0, r.1, (n - 1) as nat);
        if let Action::Output(c) = r.2 {
            assert(m.output.push(c as char) + rest =~= m.output + (seq![c as char] + rest));
        } else {
            assert(Seq::<char>::empty() + rest =~= rest);
        }
    }
}

} // verus!
