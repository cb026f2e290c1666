use vstd::prelude::*;
use crate::bytecode::{Op, op_size, seq_size, lemma_seq_size_elem, lemma_seq_size_skip};
use crate::semantics::{State, Outcome, run, run_op, lemma_run_fuel_mono, lemma_run_op_fuel_mono, lemma_run_cons, lemma_run_unfold, lemma_run_append, add_cell, apply_pairs, pairs_fit};
use crate::optimize::{grouped_adds, merged_adds, grouped_pointers, merged_pointers, without_dead_pointers, without_dead_memory, without_dead_offset_adds, with_offset_adds, offset_adds_from, cleared_cells, with_spreads, spread_tail, first_memory, offset_pairs, lemma_spread_tail_bound, optimized};

verus! {

// ---------------------------------------------------------------------------
// Relations between programs
// ---------------------------------------------------------------------------

/// `a` and `b` end the same way from every state, with every fuel.
pub open spec fn same_runs(a: Seq<Op>, b: Seq<Op>) -> bool {
    forall|st: State, f: nat| #[trigger] run(a, st, f) == run(b, st, f)
}

/// Wherever `a` does not touch a cell beyond the tape, `b` ends as `a` does.
pub open spec fn agrees_unless_fault(a: Seq<Op>, b: Seq<Op>) -> bool {
    forall|st: State, f: nat| !(#[trigger] run(a, st, f) is Fault) ==> run(b, st, f) == run(a, st, f)
}

pub proof fn lemma_loop_same(b1: Seq<Op>, b2: Seq<Op>, st: State, f: nat)
    requires
        same_runs(b1, b2),
    ensures
        run_op(Op::Loop(b1), st, f) == run_op(Op::Loop(b2), st, f),
    decreases f,
{
    if st.pointer < st.tape.len() && st.tape[st.pointer as int] != 0 && f > 0 {
        assert(run(b1, st, (f - 1) as nat) == run(b2, st, (f - 1) as nat));
        if let Outcome::Done(st2) = run(b1, st, (f - 1) as nat) {
            lemma_loop_same(b1, b2, st2, (f - 1) as nat);
        }
    }
}

pub proof fn lemma_loop_agrees(b1: Seq<Op>, b2: Seq<Op>, st: State, f: nat)
    requires
        agrees_unless_fault(b1, b2),
        !(run_op(Op::Loop(b1), st, f) is Fault),
    ensures
        run_op(Op::Loop(b2), st, f) == run_op(Op::Loop(b1), st, f),
    decreases f,
{
    if st.pointer < st.tape.len() && st.tape[st.pointer as int] != 0 && f > 0 {
        assert(!(run(b1, st, (f - 1) as nat) is Fault));
        if let Outcome::Done(st2) = run(b1, st, (f - 1) as nat) {
            lemma_loop_agrees(b1, b2, st2, (f - 1) as nat);
        }
    }
}

/// Equal heads and tails that run the same way run the same way.
pub proof fn lemma_cons_same(x: Op, y: Op, a: Seq<Op>, b: Seq<Op>)
    requires
        forall|st: State, f: nat| #[trigger] run_op(x, st, f) == run_op(y, st, f),
        same_runs(a, b),
    ensures
        same_runs(seq![x] + a, seq![y] + b),
{
    assert forall|st: State, f: nat| #[trigger] run(seq![x] + a, st, f) == run(seq![y] + b, st, f) by {
        lemma_run_cons(x, a, st, f);
        lemma_run_cons(y, b, st, f);
        assert(run_op(x, st, f) == run_op(y, st, f));
        if let Outcome::Done(st2) = run_op(x, st, f) {
            assert(run(a, st2, f) == run(b, st2, f));
        }
    }
}

pub proof fn lemma_same_refl(a: Seq<Op>)
    ensures
        same_runs(a, a),
{
}

pub proof fn lemma_same_trans(a: Seq<Op>, b: Seq<Op>, c: Seq<Op>)
    requires
        same_runs(a, b),
        same_runs(b, c),
    ensures
        same_runs(a, c),
{
    assert forall|st: State, f: nat| #[trigger] run(a, st, f) == run(c, st, f) by {
        assert(run(a, st, f) == run(b, st, f));
        assert(run(b, st, f) == run(c, st, f));
    }
}

pub proof fn lemma_head_tail(s: Seq<Op>)
    requires
        s.len() > 0,
    ensures
        seq![s[0]] + s.skip(1) == s,
{
    assert(seq![s[0]] + s.skip(1) =~= s);
}

// ---------------------------------------------------------------------------
// Grouping
// ---------------------------------------------------------------------------

/// Two additions to the current cell are one addition of their sum.
proof fn lemma_two_adds(v: u8, w: u8, t: Seq<Op>)
    ensures
        same_runs(seq![Op::Memory(v), Op::Memory(w)] + t, seq![Op::Memory(v.wrapping_add(w))] + t),
{
    let a = seq![Op::Memory(v), Op::Memory(w)] + t;
    let b = seq![Op::Memory(v.wrapping_add(w))] + t;
    assert forall|st: State, f: nat| #[trigger] run(a, st, f) == run(b, st, f) by {
        let u = a;
        assert(u =~= seq![Op::Memory(v)] + (seq![Op::Memory(w)] + t));
        lemma_run_cons(Op::Memory(v), seq![Op::Memory(w)] + t, st, f);
        lemma_run_cons(Op::Memory(v.wrapping_add(w)), t, st, f);
        let p = st.pointer;
        if p < st.tape.len() {
            let st1 = State { tape: add_cell(st.tape, p, v), ..st };
            lemma_run_cons(Op::Memory(w), t, st1, f);
            let x = st.tape[p as int];
            assert(x.wrapping_add(v).wrapping_add(w) == x.wrapping_add(v.wrapping_add(w)));
            assert(add_cell(st1.tape, p, w) =~= add_cell(st.tape, p, v.wrapping_add(w)));
        }
    }
}

/// Two moves are one move by their sum.
proof fn lemma_two_moves(v: usize, w: usize, t: Seq<Op>)
    ensures
        same_runs(seq![Op::Pointer(v), Op::Pointer(w)] + t, seq![Op::Pointer(v.wrapping_add(w))] + t),
{
    let a = seq![Op::Pointer(v), Op::Pointer(w)] + t;
    let b = seq![Op::Pointer(v.wrapping_add(w))] + t;
    assert forall|st: State, f: nat| #[trigger] run(a, st, f) == run(b, st, f) by {
        let u = a;
        assert(u =~= seq![Op::Pointer(v)] + (seq![Op::Pointer(w)] + t));
        lemma_run_cons(Op::Pointer(v), seq![Op::Pointer(w)] + t, st, f);
        lemma_run_cons(Op::Pointer(v.wrapping_add(w)), t, st, f);
        let st1 = State { pointer: st.pointer.wrapping_add(v), ..st };
        lemma_run_cons(Op::Pointer(w), t, st1, f);
        assert(st.pointer.wrapping_add(v).wrapping_add(w) == st.pointer.wrapping_add(v.wrapping_add(w)));
    }
}

proof fn lemma_grouped_adds_runs(s: Seq<Op>)
    ensures
        same_runs(grouped_adds(s), s),
    decreases seq_size(s), 1int,
{
    if s.len() > 0 {
        lemma_seq_size_elem(s, 0);
        lemma_seq_size_skip(s, 1);
        lemma_head_tail(s);
        match s[0] {
            Op::Loop(body) => {
                lemma_grouped_adds_runs(body);
                lemma_grouped_adds_runs(s.skip(1));
                assert forall|st: State, f: nat| #[trigger] run_op(Op::Loop(grouped_adds(body)), st, f) == run_op(s[0], st, f) by {
                    lemma_loop_same(grouped_adds(body), body, st, f);
                }
                lemma_cons_same(Op::Loop(grouped_adds(body)), s[0], grouped_adds(s.skip(1)), s.skip(1));
            },
            Op::Memory(v) => {
                lemma_merged_adds_runs(v, s.skip(1));
            },
            _ => {
                lemma_grouped_adds_runs(s.skip(1));
                lemma_cons_same(s[0], s[0], grouped_adds(s.skip(1)), s.skip(1));
            },
        }
    }
}

proof fn lemma_merged_adds_runs(v: u8, rest: Seq<Op>)
    ensures
        same_runs(merged_adds(v, rest), seq![Op::Memory(v)] + rest),
    decreases seq_size(rest), 2int,
{
    if rest.len() > 0 && rest[0] is Memory {
        let w = rest[0]->Memory_0;
        lemma_seq_size_skip(rest, 1);
        lemma_merged_adds_runs(v.wrapping_add(w), rest.skip(1));
        lemma_two_adds(v, w, rest.skip(1));
        assert(seq![Op::Memory(v), Op::Memory(w)] + rest.skip(1) =~= seq![Op::Memory(v)] + rest);
        lemma_same_trans(
            merged_adds(v, rest),
            seq![Op::Memory(v.wrapping_add(w))] + rest.skip(1),
            seq![Op::Memory(v)] + rest,
        );
    } else {
        lemma_grouped_adds_runs(rest);
        lemma_cons_same(Op::Memory(v), Op::Memory(v), grouped_adds(rest), rest);
    }
}

proof fn lemma_grouped_pointers_runs(s: Seq<Op>)
    ensures
        same_runs(grouped_pointers(s), s),
    decreases seq_size(s), 1int,
{
    if s.len() > 0 {
        lemma_seq_size_elem(s, 0);
        lemma_seq_size_skip(s, 1);
        lemma_head_tail(s);
        match s[0] {
            Op::Loop(body) => {
                lemma_grouped_pointers_runs(body);
                lemma_grouped_pointers_runs(s.skip(1));
                assert forall|st: State, f: nat| #[trigger] run_op(Op::Loop(grouped_pointers(body)), st, f) == run_op(s[0], st, f) by {
                    lemma_loop_same(grouped_pointers(body), body, st, f);
                }
                lemma_cons_same(Op::Loop(grouped_pointers(body)), s[0], grouped_pointers(s.skip(1)), s.skip(1));
            },
            Op::Pointer(v) => {
                lemma_merged_pointers_runs(v, s.skip(1));
            },
            _ => {
                lemma_grouped_pointers_runs(s.skip(1));
                lemma_cons_same(s[0], s[0], grouped_pointers(s.skip(1)), s.skip(1));
            },
        }
    }
}

proof fn lemma_merged_pointers_runs(v: usize, rest: Seq<Op>)
    ensures
        same_runs(merged_pointers(v, rest), seq![Op::Pointer(v)] + rest),
    decreases seq_size(rest), 2int,
{
    if rest.len() > 0 && rest[0] is Pointer {
        let w = rest[0]->Pointer_0;
        lemma_seq_size_skip(rest, 1);
        lemma_merged_pointers_runs(v.wrapping_add(w), rest.skip(1));
        lemma_two_moves(v, w, rest.skip(1));
        assert(seq![Op::Pointer(v), Op::Pointer(w)] + rest.skip(1) =~= seq![Op::Pointer(v)] + rest);
        lemma_same_trans(
            merged_pointers(v, rest),
            seq![Op::Pointer(v.wrapping_add(w))] + rest.skip(1),
            seq![Op::Pointer(v)] + rest,
        );
    } else {
        lemma_grouped_pointers_runs(rest);
        lemma_cons_same(Op::Pointer(v), Op::Pointer(v), grouped_pointers(rest), rest);
    }
}

/// Grouping runs of additions changes nothing in how any program runs.
pub proof fn law_grouped_adds_runs_alike(s: Seq<Op>)
    ensures
        same_runs(grouped_adds(s), s),
{
    lemma_grouped_adds_runs(s);
}

/// Grouping runs of moves changes nothing in how any program runs.
pub proof fn law_grouped_pointers_runs_alike(s: Seq<Op>)
    ensures
        same_runs(grouped_pointers(s), s),
{
    lemma_grouped_pointers_runs(s);
}

} // verus!

verus! {

pub proof fn lemma_cons_agrees(x: Op, y: Op, a: Seq<Op>, b: Seq<Op>)
    requires
        forall|st: State, f: nat| !(#[trigger] run_op(x, st, f) is Fault) ==> run_op(y, st, f) == run_op(x, st, f),
        agrees_unless_fault(a, b),
    ensures
        agrees_unless_fault(seq![x] + a, seq![y] + b),
{
    assert forall|st: State, f: nat| !(#[trigger] run(seq![x] + a, st, f) is Fault) implies run(seq![y] + b, st, f) == run(seq![x] + a, st, f) by {
        lemma_run_cons(x, a, st, f);
        lemma_run_cons(y, b, st, f);
        assert(!(run_op(x, st, f) is Fault));
        if let Outcome::Done(st2) = run_op(x, st, f) {
            assert(!(run(a, st2, f) is Fault));
        }
    }
}

/// An instruction that, where it does not fault, does nothing, may be dropped.
pub proof fn lemma_drop_agrees(x: Op, a: Seq<Op>, b: Seq<Op>)
    requires
        forall|st: State, f: nat| !(#[trigger] run_op(x, st, f) is Fault) ==> run_op(x, st, f) == Outcome::Done(st),
        agrees_unless_fault(a, b),
    ensures
        agrees_unless_fault(seq![x] + a, b),
{
    assert forall|st: State, f: nat| !(#[trigger] run(seq![x] + a, st, f) is Fault) implies run(b, st, f) == run(seq![x] + a, st, f) by {
        lemma_run_cons(x, a, st, f);
        assert(!(run_op(x, st, f) is Fault));
        assert(!(run(a, st, f) is Fault));
    }
}

pub proof fn lemma_drop_same(x: Op, a: Seq<Op>, b: Seq<Op>)
    requires
        forall|st: State, f: nat| #[trigger] run_op(x, st, f) == Outcome::Done(st),
        same_runs(a, b),
    ensures
        same_runs(seq![x] + a, b),
{
    assert forall|st: State, f: nat| #[trigger] run(seq![x] + a, st, f) == run(b, st, f) by {
        lemma_run_cons(x, a, st, f);
        assert(run_op(x, st, f) == Outcome::Done(st));
        assert(run(a, st, f) == run(b, st, f));
    }
}

} // verus!

verus! {

proof fn lemma_dead_pointers_runs(s: Seq<Op>)
    ensures
        same_runs(without_dead_pointers(s), s),
    decreases seq_size(s),
{
    if s.len() > 0 {
        lemma_seq_size_elem(s, 0);
        lemma_seq_size_skip(s, 1);
        lemma_head_tail(s);
        lemma_dead_pointers_runs(s.skip(1));
        let rest = without_dead_pointers(s.skip(1));
        match s[0] {
            Op::Loop(body) => {
                lemma_dead_pointers_runs(body);
                assert forall|st: State, f: nat| #[trigger] run_op(Op::Loop(without_dead_pointers(body)), st, f) == run_op(s[0], st, f) by {
                    lemma_loop_same(without_dead_pointers(body), body, st, f);
                }
                lemma_cons_same(Op::Loop(without_dead_pointers(body)), s[0], rest, s.skip(1));
            },
            Op::Pointer(v) => {
                if v == 0 {
                    assert(Seq::<Op>::empty() + rest =~= rest);
                    assert forall|st: State, f: nat| #[trigger] run_op(s[0], st, f) == Outcome::Done(st) by {
                        assert(st.pointer.wrapping_add(0) == st.pointer);
                    }
                    lemma_same_refl(s.skip(1));
                    lemma_drop_same(s[0], s.skip(1), s.skip(1));
                    lemma_same_trans(rest, s.skip(1), s);
                } else {
                    lemma_cons_same(s[0], s[0], rest, s.skip(1));
                }
            },
            _ => {
                lemma_cons_same(s[0], s[0], rest, s.skip(1));
            },
        }
    }
}

/// Removing moves by 0 changes nothing in how any program runs.
pub proof fn law_dead_pointers_runs_alike(s: Seq<Op>)
    ensures
        same_runs(without_dead_pointers(s), s),
{
    lemma_dead_pointers_runs(s);
}

proof fn lemma_dead_memory_runs(s: Seq<Op>)
    ensures
        agrees_unless_fault(s, without_dead_memory(s)),
    decreases seq_size(s),
{
    if s.len() > 0 {
        lemma_seq_size_elem(s, 0);
        lemma_seq_size_skip(s, 1);
        lemma_head_tail(s);
        lemma_dead_memory_runs(s.skip(1));
        let rest = without_dead_memory(s.skip(1));
        match s[0] {
            Op::Loop(body) => {
                lemma_dead_memory_runs(body);
                assert forall|st: State, f: nat| !(#[trigger] run_op(s[0], st, f) is Fault) implies run_op(Op::Loop(without_dead_memory(body)), st, f) == run_op(s[0], st, f) by {
                    lemma_loop_agrees(body, without_dead_memory(body), st, f);
                }
                lemma_cons_agrees(s[0], Op::Loop(without_dead_memory(body)), s.skip(1), rest);
            },
            Op::Memory(v) => {
                if v == 0 {
                    assert(Seq::<Op>::empty() + rest =~= rest);
                    assert forall|st: State, f: nat| !(#[trigger] run_op(s[0], st, f) is Fault) implies run_op(s[0], st, f) == Outcome::Done(st) by {
                        if st.pointer < st.tape.len() {
                            assert(add_cell(st.tape, st.pointer, 0) =~= st.tape);
                        }
                    }
                    lemma_drop_agrees(s[0], s.skip(1), rest);
                } else {
                    lemma_cons_agrees(s[0], s[0], s.skip(1), rest);
                }
            },
            _ => {
                lemma_cons_agrees(s[0], s[0], s.skip(1), rest);
            },
        }
    }
}

/// Removing additions of 0 changes nothing in how a program runs, except
/// where the program touches a cell beyond the tape: such an addition does,
/// when the pointer is beyond the tape, and so the program faults where the
/// rewritten one need not.
pub proof fn law_dead_memory_agrees(s: Seq<Op>)
    ensures
        agrees_unless_fault(s, without_dead_memory(s)),
{
    lemma_dead_memory_runs(s);
}

/// No `OffsetAdd` adds 0 at an offset other than 0, at any depth.
pub open spec fn no_moving_zero_adds(s: Seq<Op>) -> bool
    decreases seq_size(s),
{
    if s.len() == 0 {
        true
    } else {
        proof {
            lemma_seq_size_elem(s, 0);
            lemma_seq_size_skip(s, 1);
        }
        (match s[0] {
            Op::Loop(body) => no_moving_zero_adds(body),
            Op::OffsetAdd(o, v) => !(v == 0 && o != 0),
            _ => true,
        }) && no_moving_zero_adds(s.skip(1))
    }
}

/// Running `ops` from `st` with `fuel` runs no `OffsetAdd` that adds 0 at
/// an offset other than 0.
pub open spec fn run_avoids_moving_zero_adds(ops: Seq<Op>, st: State, fuel: nat) -> bool
    decreases fuel, seq_size(ops), 1int,
{
    if ops.len() == 0 {
        true
    } else {
        proof {
            lemma_seq_size_elem(ops, 0);
            lemma_seq_size_skip(ops, 1);
        }
        op_avoids_moving_zero_adds(ops[0], st, fuel) && match run_op(ops[0], st, fuel) {
            Outcome::Done(st2) => run_avoids_moving_zero_adds(ops.skip(1), st2, fuel),
            _ => true,
        }
    }
}

/// Running `op` from `st` with `fuel` runs no `OffsetAdd` that adds 0 at an
/// offset other than 0.
pub open spec fn op_avoids_moving_zero_adds(op: Op, st: State, fuel: nat) -> bool
    decreases fuel, op_size(op), 0int,
{
    match op {
        Op::OffsetAdd(o, v) => !(v == 0 && o != 0),
        Op::Loop(body) => if st.pointer < st.tape.len() && st.tape[st.pointer as int] != 0 && fuel > 0 {
            run_avoids_moving_zero_adds(body, st, (fuel - 1) as nat) && match run(body, st, (fuel - 1) as nat) {
                Outcome::Done(st2) => op_avoids_moving_zero_adds(op, st2, (fuel - 1) as nat),
                _ => true,
            }
        } else {
            true
        },
        _ => true,
    }
}

/// Wherever a run of `a` neither faults nor runs an `OffsetAdd` that adds 0
/// at a nonzero offset, `b` ends as `a` does.
pub open spec fn agrees_on_clean_runs(a: Seq<Op>, b: Seq<Op>) -> bool {
    forall|st: State, f: nat|
        run_avoids_moving_zero_adds(a, st, f) && !(#[trigger] run(a, st, f) is Fault) ==> run(b, st, f) == run(a, st, f)
}

proof fn lemma_avoids_cons(x: Op, t: Seq<Op>, st: State, f: nat)
    ensures
        run_avoids_moving_zero_adds(seq![x] + t, st, f) == (op_avoids_moving_zero_adds(x, st, f) && match run_op(x, st, f) {
            Outcome::Done(st2) => run_avoids_moving_zero_adds(t, st2, f),
            _ => true,
        }),
{
    let u = seq![x] + t;
    assert(u[0] == x);
    assert(u.skip(1) =~= t);
}

proof fn lemma_cons_clean(x: Op, y: Op, a: Seq<Op>, b: Seq<Op>)
    requires
        forall|st: State, f: nat|
            op_avoids_moving_zero_adds(x, st, f) && !(#[trigger] run_op(x, st, f) is Fault) ==> run_op(y, st, f) == run_op(x, st, f),
        agrees_on_clean_runs(a, b),
    ensures
        agrees_on_clean_runs(seq![x] + a, seq![y] + b),
{
    assert forall|st: State, f: nat|
        run_avoids_moving_zero_adds(seq![x] + a, st, f) && !(#[trigger] run(seq![x] + a, st, f) is Fault) implies run(seq![y] + b, st, f) == run(seq![x] + a, st, f) by {
        lemma_run_cons(x, a, st, f);
        lemma_run_cons(y, b, st, f);
        lemma_avoids_cons(x, a, st, f);
        assert(!(run_op(x, st, f) is Fault));
        if let Outcome::Done(st2) = run_op(x, st, f) {
            assert(!(run(a, st2, f) is Fault));
        }
    }
}

proof fn lemma_drop_clean(x: Op, a: Seq<Op>, b: Seq<Op>)
    requires
        forall|st: State, f: nat| !(#[trigger] run_op(x, st, f) is Fault) ==> run_op(x, st, f) == Outcome::Done(st),
        agrees_on_clean_runs(a, b),
    ensures
        agrees_on_clean_runs(seq![x] + a, b),
{
    assert forall|st: State, f: nat|
        run_avoids_moving_zero_adds(seq![x] + a, st, f) && !(#[trigger] run(seq![x] + a, st, f) is Fault) implies run(b, st, f) == run(seq![x] + a, st, f) by {
        lemma_run_cons(x, a, st, f);
        lemma_avoids_cons(x, a, st, f);
        assert(!(run_op(x, st, f) is Fault));
        assert(!(run(a, st, f) is Fault));
    }
}

proof fn lemma_loop_clean(b1: Seq<Op>, b2: Seq<Op>, st: State, f: nat)
    requires
        agrees_on_clean_runs(b1, b2),
        op_avoids_moving_zero_adds(Op::Loop(b1), st, f),
        !(run_op(Op::Loop(b1), st, f) is Fault),
    ensures
        run_op(Op::Loop(b2), st, f) == run_op(Op::Loop(b1), st, f),
    decreases f,
{
    if st.pointer < st.tape.len() && st.tape[st.pointer as int] != 0 && f > 0 {
        assert(!(run(b1, st, (f - 1) as nat) is Fault));
        if let Outcome::Done(st2) = run(b1, st, (f - 1) as nat) {
            lemma_loop_clean(b1, b2, st2, (f - 1) as nat);
        }
    }
}

proof fn lemma_dead_offset_adds_runs(s: Seq<Op>)
    ensures
        agrees_on_clean_runs(s, without_dead_offset_adds(s)),
    decreases seq_size(s),
{
    if s.len() > 0 {
        lemma_seq_size_elem(s, 0);
        lemma_seq_size_skip(s, 1);
        lemma_head_tail(s);
        lemma_dead_offset_adds_runs(s.skip(1));
        let rest = without_dead_offset_adds(s.skip(1));
        match s[0] {
            Op::Loop(body) => {
                lemma_dead_offset_adds_runs(body);
                assert forall|st: State, f: nat|
                    op_avoids_moving_zero_adds(s[0], st, f) && !(#[trigger] run_op(s[0], st, f) is Fault) implies run_op(Op::Loop(without_dead_offset_adds(body)), st, f) == run_op(s[0], st, f) by {
                    lemma_loop_clean(body, without_dead_offset_adds(body), st, f);
                }
                lemma_cons_clean(s[0], Op::Loop(without_dead_offset_adds(body)), s.skip(1), rest);
            },
            Op::OffsetAdd(o, v) => {
                if o == 0 && v == 0 {
                    assert(Seq::<Op>::empty() + rest =~= rest);
                    assert forall|st: State, f: nat| !(#[trigger] run_op(s[0], st, f) is Fault) implies run_op(s[0], st, f) == Outcome::Done(st) by {
                        assert(st.pointer.wrapping_add(0) == st.pointer);
                        if st.pointer < st.tape.len() {
                            assert(add_cell(st.tape, st.pointer, 0) =~= st.tape);
                        }
                    }
                    lemma_drop_clean(s[0], s.skip(1), rest);
                } else if v == 0 {
                    lemma_cons_clean(s[0], Op::Pointer(o), s.skip(1), rest);
                } else if o == 0 {
                    assert forall|st: State, f: nat|
                        op_avoids_moving_zero_adds(s[0], st, f) && !(#[trigger] run_op(s[0], st, f) is Fault) implies run_op(Op::Memory(v), st, f) == run_op(s[0], st, f) by {
                        assert(st.pointer.wrapping_add(0) == st.pointer);
                    }
                    lemma_cons_clean(s[0], Op::Memory(v), s.skip(1), rest);
                } else {
                    lemma_cons_clean(s[0], s[0], s.skip(1), rest);
                }
            },
            _ => {
                lemma_cons_clean(s[0], s[0], s.skip(1), rest);
            },
        }
    }
}

/// Removing dead offset additions changes nothing in how a program runs,
/// on every run that neither faults nor runs an `OffsetAdd` adding 0 at a
/// nonzero offset: the pass turns such an instruction into a move, and drops
/// an `OffsetAdd(0, 0)`, which faults when the pointer is beyond the tape.
pub proof fn law_dead_offset_adds_agrees(s: Seq<Op>)
    ensures
        agrees_on_clean_runs(s, without_dead_offset_adds(s)),
{
    lemma_dead_offset_adds_runs(s);
}

/// A program with no `OffsetAdd` adding 0 at a nonzero offset runs none.
pub proof fn lemma_no_moving_zero_adds_runs(s: Seq<Op>, st: State, f: nat)
    requires
        no_moving_zero_adds(s),
    ensures
        run_avoids_moving_zero_adds(s, st, f),
    decreases f, seq_size(s), 1int,
{
    if s.len() > 0 {
        lemma_seq_size_elem(s, 0);
        lemma_seq_size_skip(s, 1);
        lemma_no_moving_zero_adds_op(s[0], st, f);
        if let Outcome::Done(st2) = run_op(s[0], st, f) {
            lemma_no_moving_zero_adds_runs(s.skip(1), st2, f);
        }
    }
}

proof fn lemma_no_moving_zero_adds_op(op: Op, st: State, f: nat)
    requires
        match op {
            Op::Loop(body) => no_moving_zero_adds(body),
            Op::OffsetAdd(o, v) => !(v == 0 && o != 0),
            _ => true,
        },
    ensures
        op_avoids_moving_zero_adds(op, st, f),
    decreases f, op_size(op), 0int,
{
    if let Op::Loop(body) = op {
        if st.pointer < st.tape.len() && st.tape[st.pointer as int] != 0 && f > 0 {
            lemma_no_moving_zero_adds_runs(body, st, (f - 1) as nat);
            if let Outcome::Done(st2) = run(body, st, (f - 1) as nat) {
                lemma_no_moving_zero_adds_op(op, st2, (f - 1) as nat);
            }
        }
    }
}

/// A move and an addition are an offset addition and the same move.
proof fn lemma_move_add(off: usize, v: u8, t: Seq<Op>)
    ensures
        same_runs(seq![Op::OffsetAdd(off, v), Op::Pointer(off)] + t, seq![Op::Pointer(off), Op::Memory(v)] + t),
{
    let a = seq![Op::OffsetAdd(off, v), Op::Pointer(off)] + t;
    let b = seq![Op::Pointer(off), Op::Memory(v)] + t;
    assert forall|st: State, f: nat| #[trigger] run(a, st, f) == run(b, st, f) by {
        assert(a =~= seq![Op::OffsetAdd(off, v)] + (seq![Op::Pointer(off)] + t));
        assert(b =~= seq![Op::Pointer(off)] + (seq![Op::Memory(v)] + t));
        lemma_run_cons(Op::OffsetAdd(off, v), seq![Op::Pointer(off)] + t, st, f);
        lemma_run_cons(Op::Pointer(off), seq![Op::Memory(v)] + t, st, f);
        let q = st.pointer.wrapping_add(off);
        let st1 = State { pointer: q, ..st };
        lemma_run_cons(Op::Memory(v), t, st1, f);
        if q < st.tape.len() {
            let st2 = State { tape: add_cell(st.tape, q, v), ..st };
            lemma_run_cons(Op::Pointer(off), t, st2, f);
        }
    }
}

proof fn lemma_offset_adds_runs(s: Seq<Op>)
    ensures
        same_runs(with_offset_adds(s), s),
    decreases seq_size(s), 1int,
{
    if s.len() > 0 {
        lemma_seq_size_skip(s, 1);
        lemma_head_tail(s);
        lemma_offset_adds_from_runs(s[0], s.skip(1));
    }
}

proof fn lemma_offset_adds_from_runs(cur: Op, rest: Seq<Op>)
    ensures
        same_runs(offset_adds_from(cur, rest), seq![cur] + rest),
    decreases op_size(cur) + seq_size(rest), 0int,
{
    if rest.len() > 0 {
        lemma_seq_size_elem(rest, 0);
        lemma_seq_size_skip(rest, 1);
        lemma_head_tail(rest);
    }
    match cur {
        Op::Loop(body) => {
            lemma_offset_adds_runs(body);
            assert forall|st: State, f: nat| #[trigger] run_op(Op::Loop(with_offset_adds(body)), st, f) == run_op(cur, st, f) by {
                lemma_loop_same(with_offset_adds(body), body, st, f);
            }
            if rest.len() == 0 {
                assert(seq![Op::Loop(with_offset_adds(body))] + Seq::<Op>::empty() =~= seq![Op::Loop(with_offset_adds(body))]);
                lemma_cons_same(Op::Loop(with_offset_adds(body)), cur, Seq::<Op>::empty(), rest);
            } else {
                lemma_offset_adds_from_runs(rest[0], rest.skip(1));
                lemma_cons_same(Op::Loop(with_offset_adds(body)), cur, offset_adds_from(rest[0], rest.skip(1)), rest);
            }
        },
        Op::Pointer(off) => {
            if rest.len() == 0 {
                lemma_same_refl(seq![cur] + rest);
                assert(seq![cur] + rest =~= seq![cur]);
            } else {
                match rest[0] {
                    Op::Pointer(off2) => {
                        lemma_offset_adds_from_runs(Op::Pointer(off.wrapping_add(off2)), rest.skip(1));
                        lemma_two_moves(off, off2, rest.skip(1));
                        assert(seq![Op::Pointer(off), Op::Pointer(off2)] + rest.skip(1) =~= seq![cur] + rest);
                        lemma_same_trans(
                            offset_adds_from(cur, rest),
                            seq![Op::Pointer(off.wrapping_add(off2))] + rest.skip(1),
                            seq![cur] + rest,
                        );
                    },
                    Op::Memory(v) => {
                        lemma_offset_adds_from_runs(Op::Pointer(off), rest.skip(1));
                        lemma_cons_same(Op::OffsetAdd(off, v), Op::OffsetAdd(off, v), offset_adds_from(Op::Pointer(off), rest.skip(1)), seq![Op::Pointer(off)] + rest.skip(1));
                        assert(seq![Op::OffsetAdd(off, v)] + (seq![Op::Pointer(off)] + rest.skip(1)) =~= seq![Op::OffsetAdd(off, v), Op::Pointer(off)] + rest.skip(1));
                        lemma_move_add(off, v, rest.skip(1));
                        assert(seq![Op::Pointer(off), Op::Memory(v)] + rest.skip(1) =~= seq![cur] + rest);
                        lemma_same_trans(
                            offset_adds_from(cur, rest),
                            seq![Op::OffsetAdd(off, v), Op::Pointer(off)] + rest.skip(1),
                            seq![cur] + rest,
                        );
                    },
                    _ => {
                        lemma_offset_adds_from_runs(rest[0], rest.skip(1));
                        lemma_cons_same(cur, cur, offset_adds_from(rest[0], rest.skip(1)), rest);
                    },
                }
            }
        },
        _ => {
            if rest.len() == 0 {
                lemma_same_refl(seq![cur] + rest);
                assert(seq![cur] + rest =~= seq![cur]);
            } else {
                lemma_offset_adds_from_runs(rest[0], rest.skip(1));
                lemma_cons_same(cur, cur, offset_adds_from(rest[0], rest.skip(1)), rest);
            }
        },
    }
}

/// Turning a move and an addition into an offset addition changes nothing in
/// how any program runs.
pub proof fn law_offset_adds_runs_alike(s: Seq<Op>)
    ensures
        same_runs(with_offset_adds(s), s),
{
    lemma_offset_adds_runs(s);
}

} // verus!

verus! {

// ---------------------------------------------------------------------------
// Clearing loops
// ---------------------------------------------------------------------------

/// `b` ends as `a` does wherever `a` ends within its fuel, and `a` ends as
/// `b` does, with 256 more fuel, wherever `b` ends within its fuel: the two
/// end in the same ways and loop for ever from the same states.
pub open spec fn same_ends(a: Seq<Op>, b: Seq<Op>) -> bool {
    &&& forall|st: State, f: nat| !(#[trigger] run(a, st, f) is OutOfFuel) ==> run(b, st, f) == run(a, st, f)
    &&& forall|st: State, f: nat| !(#[trigger] run(b, st, f) is OutOfFuel) ==> run(a, st, f + 256) == run(b, st, f)
}

pub open spec fn op_same_ends(x: Op, y: Op) -> bool {
    &&& forall|st: State, f: nat| !(#[trigger] run_op(x, st, f) is OutOfFuel) ==> run_op(y, st, f) == run_op(x, st, f)
    &&& forall|st: State, f: nat| !(#[trigger] run_op(y, st, f) is OutOfFuel) ==> run_op(x, st, f + 256) == run_op(y, st, f)
}

proof fn lemma_cons_same_ends(x: Op, y: Op, a: Seq<Op>, b: Seq<Op>)
    requires
        op_same_ends(x, y),
        same_ends(a, b),
    ensures
        same_ends(seq![x] + a, seq![y] + b),
{
    assert forall|st: State, f: nat| !(#[trigger] run(seq![x] + a, st, f) is OutOfFuel) implies run(seq![y] + b, st, f) == run(seq![x] + a, st, f) by {
        lemma_run_cons(x, a, st, f);
        lemma_run_cons(y, b, st, f);
        assert(!(run_op(x, st, f) is OutOfFuel));
        if let Outcome::Done(st2) = run_op(x, st, f) {
            assert(!(run(a, st2, f) is OutOfFuel));
        }
    }
    assert forall|st: State, f: nat| !(#[trigger] run(seq![y] + b, st, f) is OutOfFuel) implies run(seq![x] + a, st, f + 256) == run(seq![y] + b, st, f) by {
        lemma_run_cons(x, a, st, f + 256);
        lemma_run_cons(y, b, st, f);
        assert(!(run_op(y, st, f) is OutOfFuel));
        if let Outcome::Done(st2) = run_op(y, st, f) {
            assert(!(run(b, st2, f) is OutOfFuel));
        }
    }
}

proof fn lemma_loop_same_ends_a(b1: Seq<Op>, b2: Seq<Op>, st: State, f: nat)
    requires
        same_ends(b1, b2),
        !(run_op(Op::Loop(b1), st, f) is OutOfFuel),
    ensures
        run_op(Op::Loop(b2), st, f) == run_op(Op::Loop(b1), st, f),
    decreases f,
{
    if st.pointer < st.tape.len() && st.tape[st.pointer as int] != 0 && f > 0 {
        assert(!(run(b1, st, (f - 1) as nat) is OutOfFuel));
        if let Outcome::Done(st2) = run(b1, st, (f - 1) as nat) {
            lemma_loop_same_ends_a(b1, b2, st2, (f - 1) as nat);
        }
    }
}

proof fn lemma_loop_same_ends_b(b1: Seq<Op>, b2: Seq<Op>, st: State, f: nat)
    requires
        same_ends(b1, b2),
        !(run_op(Op::Loop(b2), st, f) is OutOfFuel),
    ensures
        run_op(Op::Loop(b1), st, f + 256) == run_op(Op::Loop(b2), st, f),
    decreases f,
{
    if st.pointer < st.tape.len() && st.tape[st.pointer as int] != 0 {
        assert(f > 0);
        let g = (f - 1) as nat;
        assert(!(run(b2, st, g) is OutOfFuel));
        assert(run(b1, st, g + 256) == run(b2, st, g));
        assert((f + 256 - 1) as nat == g + 256);
        if let Outcome::Done(st2) = run(b2, st, g) {
            lemma_loop_same_ends_b(b1, b2, st2, g);
        }
    }
}

proof fn lemma_loop_same_ends(b1: Seq<Op>, b2: Seq<Op>)
    requires
        same_ends(b1, b2),
    ensures
        op_same_ends(Op::Loop(b1), Op::Loop(b2)),
{
    assert forall|st: State, f: nat| !(#[trigger] run_op(Op::Loop(b1), st, f) is OutOfFuel) implies run_op(Op::Loop(b2), st, f) == run_op(Op::Loop(b1), st, f) by {
        lemma_loop_same_ends_a(b1, b2, st, f);
    }
    assert forall|st: State, f: nat| !(#[trigger] run_op(Op::Loop(b2), st, f) is OutOfFuel) implies run_op(Op::Loop(b1), st, f + 256) == run_op(Op::Loop(b2), st, f) by {
        lemma_loop_same_ends_b(b1, b2, st, f);
    }
}

proof fn lemma_op_same_ends_refl(x: Op)
    ensures
        op_same_ends(x, x),
{
    assert forall|st: State, f: nat| !(#[trigger] run_op(x, st, f) is OutOfFuel) implies run_op(x, st, f + 256) == run_op(x, st, f) by {
        lemma_run_op_fuel_mono(x, st, f, f + 256);
    }
}

/// `[-]` counts its cell down to 0, one round per unit.
proof fn lemma_count_down(st: State, f: nat)
    requires
        st.pointer < st.tape.len(),
    ensures
        run_op(Op::Loop(seq![Op::Memory(255)]), st, f) == if st.tape[st.pointer as int] <= f {
            Outcome::Done(State { tape: st.tape.update(st.pointer as int, 0), ..st })
        } else {
            Outcome::OutOfFuel
        },
    decreases f,
{
    let p = st.pointer;
    let body = seq![Op::Memory(255)];
    if st.tape[p as int] == 0 {
        assert(st.tape.update(p as int, 0) =~= st.tape);
    } else if f > 0 {
        let g = (f - 1) as nat;
        let st1 = State { tape: add_cell(st.tape, p, 255), ..st };
        assert(body.skip(1) =~= Seq::<Op>::empty());
        assert(body[0] == Op::Memory(255));
        lemma_run_unfold(body, st, g);
        assert(run_op(Op::Memory(255), st, g) == Outcome::Done(st1));
        assert(run(Seq::<Op>::empty(), st1, g) == Outcome::Done(st1));
        assert(run(body, st, g) == Outcome::Done(st1));
        lemma_count_down(st1, g);
        assert(st1.tape.update(p as int, 0) =~= st.tape.update(p as int, 0));
    }
}

proof fn lemma_clear_same_ends()
    ensures
        op_same_ends(Op::Loop(seq![Op::Memory(255)]), Op::ClearCell),
{
    assert forall|st: State, f: nat| !(#[trigger] run_op(Op::Loop(seq![Op::Memory(255)]), st, f) is OutOfFuel) implies run_op(Op::ClearCell, st, f) == run_op(Op::Loop(seq![Op::Memory(255)]), st, f) by {
        if st.pointer < st.tape.len() {
            lemma_count_down(st, f);
        }
    }
    assert forall|st: State, f: nat| !(#[trigger] run_op(Op::ClearCell, st, f) is OutOfFuel) implies run_op(Op::Loop(seq![Op::Memory(255)]), st, f + 256) == run_op(Op::ClearCell, st, f) by {
        if st.pointer < st.tape.len() {
            lemma_count_down(st, f + 256);
        }
    }
}

proof fn lemma_cleared_cells_runs(s: Seq<Op>)
    ensures
        same_ends(s, cleared_cells(s)),
    decreases seq_size(s),
{
    if s.len() == 0 {
        assert forall|st: State, f: nat| !(#[trigger] run(s, st, f) is OutOfFuel) implies run(s, st, f + 256) == run(s, st, f) by {}
    } else {
        lemma_seq_size_elem(s, 0);
        lemma_seq_size_skip(s, 1);
        lemma_head_tail(s);
        lemma_cleared_cells_runs(s.skip(1));
        let rest = cleared_cells(s.skip(1));
        match s[0] {
            Op::Loop(body) => {
                if body.len() == 1 && body[0] is Memory {
                    if body[0] == Op::Memory(255) {
                        assert(body =~= seq![Op::Memory(255)]);
                        lemma_clear_same_ends();
                        lemma_cons_same_ends(s[0], Op::ClearCell, s.skip(1), rest);
                    } else {
                        lemma_op_same_ends_refl(s[0]);
                        lemma_cons_same_ends(s[0], s[0], s.skip(1), rest);
                    }
                } else {
                    lemma_cleared_cells_runs(body);
                    lemma_loop_same_ends(body, cleared_cells(body));
                    lemma_cons_same_ends(s[0], Op::Loop(cleared_cells(body)), s.skip(1), rest);
                }
            },
            _ => {
                lemma_op_same_ends_refl(s[0]);
                lemma_cons_same_ends(s[0], s[0], s.skip(1), rest);
            },
        }
    }
}

/// Turning `[-]` into `ClearCell` changes neither how a program ends nor
/// from which states it runs for ever; the rewritten program needs no more
/// fuel, and the program itself at most 256 more than the rewritten one.
pub proof fn law_cleared_cells_same_ends(s: Seq<Op>)
    ensures
        same_ends(s, cleared_cells(s)),
{
    lemma_cleared_cells_runs(s);
}

} // verus!

verus! {

// ---------------------------------------------------------------------------
// Spreads
// ---------------------------------------------------------------------------

/// No `Spread` instruction, at any depth.
pub open spec fn no_spreads(s: Seq<Op>) -> bool
    decreases seq_size(s),
{
    if s.len() == 0 {
        true
    } else {
        proof {
            lemma_seq_size_elem(s, 0);
            lemma_seq_size_skip(s, 1);
        }
        (match s[0] {
            Op::Loop(body) => no_spreads(body),
            Op::Spread(_, _) => false,
            _ => true,
        }) && no_spreads(s.skip(1))
    }
}

proof fn lemma_no_spreads_skip(s: Seq<Op>, k: int)
    requires
        no_spreads(s),
        0 <= k <= s.len(),
    ensures
        no_spreads(s.skip(k)),
    decreases k,
{
    if k == 0 {
        assert(s.skip(0) =~= s);
    } else {
        lemma_no_spreads_skip(s.skip(1), k - 1);
        assert(s.skip(1).skip(k - 1) =~= s.skip(k));
    }
}

/// `r` holds `Memory` and `OffsetAdd` instructions only, with at most one
/// `Memory`, and none unless `memory_allowed`.
pub open spec fn adds_only(r: Seq<Op>, memory_allowed: bool) -> bool
    decreases r.len(),
{
    if r.len() == 0 {
        true
    } else {
        match r[0] {
            Op::Memory(_) => memory_allowed && adds_only(r.skip(1), false),
            Op::OffsetAdd(_, _) => adds_only(r.skip(1), memory_allowed),
            _ => false,
        }
    }
}

proof fn lemma_spread_tail_adds_only(t: Seq<Op>, seen: bool)
    ensures
        adds_only(t.take(spread_tail(t, seen) as int), !seen),
    decreases t.len(),
{
    lemma_spread_tail_bound(t, seen);
    let n = spread_tail(t, seen) as int;
    if t.len() == 0 || n == 0 {
        assert(t.take(n).len() == 0);
    } else {
        let seen2 = if t[0] is Memory { true } else { seen };
        lemma_spread_tail_adds_only(t.skip(1), seen2);
        let u = t.take(n);
        assert(u[0] == t[0]);
        assert(u.skip(1) =~= t.skip(1).take(n - 1));
    }
}

proof fn lemma_no_memory(r: Seq<Op>)
    requires
        adds_only(r, false),
    ensures
        first_memory(r) == 0,
    decreases r.len(),
{
    if r.len() > 0 {
        lemma_no_memory(r.skip(1));
    }
}

proof fn lemma_add_cells_commute(t: Seq<u8>, i: usize, a: u8, j: usize, b: u8)
    requires
        i < t.len(),
        j < t.len(),
    ensures
        add_cell(add_cell(t, i, a), j, b) == add_cell(add_cell(t, j, b), i, a),
{
    if i == j {
        let x = t[i as int];
        assert(x.wrapping_add(a).wrapping_add(b) == x.wrapping_add(b).wrapping_add(a));
    }
    assert(add_cell(add_cell(t, i, a), j, b) =~= add_cell(add_cell(t, j, b), i, a));
}

/// A stretch of additions runs as the one `Spread` that gathers them, where
/// that `Spread` touches no cell beyond the tape.
proof fn lemma_stretch_runs(r: Seq<Op>, allowed: bool, st: State, f: nat)
    requires
        adds_only(r, allowed),
        st.pointer < st.tape.len(),
        pairs_fit(st.tape.len(), st.pointer, offset_pairs(r)),
    ensures
        run(r, st, f) == Outcome::Done(State {
            tape: apply_pairs(add_cell(st.tape, st.pointer, first_memory(r)), st.pointer, offset_pairs(r)),
            ..st
        }),
    decreases r.len(),
{
    let p = st.pointer;
    if r.len() == 0 {
        assert(add_cell(st.tape, p, 0) =~= st.tape);
    } else {
        lemma_run_unfold(r, st, f);
        match r[0] {
            Op::Memory(v) => {
                let st1 = State { tape: add_cell(st.tape, p, v), ..st };
                lemma_no_memory(r.skip(1));
                lemma_stretch_runs(r.skip(1), false, st1, f);
                assert(add_cell(st1.tape, p, 0) =~= st1.tape);
            },
            Op::OffsetAdd(o, v) => {
                let pairs = offset_pairs(r);
                let rest_pairs = offset_pairs(r.skip(1));
                assert(pairs[0] == (o, v));
                assert(pairs.skip(1) =~= rest_pairs);
                let q = p.wrapping_add(o);
                assert(q < st.tape.len());
                let st1 = State { tape: add_cell(st.tape, q, v), ..st };
                assert forall|k: int| 0 <= k < rest_pairs.len() implies p.wrapping_add(#[trigger] rest_pairs[k].0) < st1.tape.len() by {
                    assert(rest_pairs[k] == pairs[k + 1]);
                }
                lemma_stretch_runs(r.skip(1), allowed, st1, f);
                let m = first_memory(r);
                lemma_add_cells_commute(st.tape, p, m, q, v);
            },
            _ => {},
        }
    }
}

proof fn lemma_spreads_runs(s: Seq<Op>)
    requires
        no_spreads(s),
    ensures
        agrees_unless_fault(with_spreads(s), s),
    decreases seq_size(s),
{
    if s.len() > 0 {
        lemma_seq_size_elem(s, 0);
        lemma_seq_size_skip(s, 1);
        lemma_head_tail(s);
        lemma_no_spreads_skip(s, 1);
        lemma_spreads_runs(s.skip(1));
        match s[0] {
            Op::Loop(body) => {
                lemma_spreads_runs(body);
                assert forall|st: State, f: nat| !(#[trigger] run_op(Op::Loop(with_spreads(body)), st, f) is Fault) implies run_op(s[0], st, f) == run_op(Op::Loop(with_spreads(body)), st, f) by {
                    lemma_loop_agrees(with_spreads(body), body, st, f);
                }
                lemma_cons_agrees(Op::Loop(with_spreads(body)), s[0], with_spreads(s.skip(1)), s.skip(1));
            },
            Op::Memory(_) | Op::OffsetAdd(_, _) => {
                let seen = s[0] is Memory;
                let t = s.skip(1);
                let n = spread_tail(t, seen) as int;
                lemma_spread_tail_bound(t, seen);
                if n == 0 {
                    lemma_cons_agrees(s[0], s[0], with_spreads(s.skip(1)), s.skip(1));
                } else {
                    let r = s.take(n + 1);
                    let rest = s.skip(n + 1);
                    let sp = Op::Spread(first_memory(r), offset_pairs(r));
                    lemma_seq_size_skip(s, n + 1);
                    lemma_no_spreads_skip(s, n + 1);
                    lemma_spreads_runs(rest);
                    lemma_spread_tail_adds_only(t, seen);
                    assert(r[0] == s[0]);
                    assert(r.skip(1) =~= t.take(n));
                    assert(adds_only(r, true));
                    assert(r + rest =~= s);
                    assert(with_spreads(s) == seq![sp] + with_spreads(rest));
                    assert forall|st: State, f: nat| !(#[trigger] run(with_spreads(s), st, f) is Fault) implies run(s, st, f) == run(with_spreads(s), st, f) by {
                        lemma_run_cons(sp, with_spreads(rest), st, f);
                        lemma_run_append(r, rest, st, f);
                        if let Outcome::Done(st2) = run_op(sp, st, f) {
                            lemma_stretch_runs(r, true, st, f);
                            assert(!(run(with_spreads(rest), st2, f) is Fault));
                        }
                    }
                }
            },
            _ => {
                lemma_cons_agrees(s[0], s[0], with_spreads(s.skip(1)), s.skip(1));
            },
        }
    }
}

/// Gathering stretches of additions into `Spread`s changes nothing in how a
/// program without `Spread`s runs, wherever the rewritten program touches no
/// cell beyond the tape. (A `Spread` touches the current cell even when its
/// stretch did not, and so may fault where the stretch would not.)
pub proof fn law_spreads_agree(s: Seq<Op>)
    requires
        no_spreads(s),
    ensures
        agrees_unless_fault(with_spreads(s), s),
{
    lemma_spreads_runs(s);
}

} // verus!

verus! {

// ---------------------------------------------------------------------------
// The whole optimiser
// ---------------------------------------------------------------------------

proof fn lemma_no_spreads_cons(x: Op, t: Seq<Op>)
    ensures
        no_spreads(seq![x] + t) == ((match x {
            Op::Loop(body) => no_spreads(body),
            Op::Spread(_, _) => false,
            _ => true,
        }) && no_spreads(t)),
{
    let u = seq![x] + t;
    assert(u[0] == x);
    assert(u.skip(1) =~= t);
}

proof fn lemma_no_spreads_grouped_adds(s: Seq<Op>)
    requires
        no_spreads(s),
    ensures
        no_spreads(grouped_adds(s)),
    decreases seq_size(s), 1int,
{
    if s.len() > 0 {
        lemma_seq_size_elem(s, 0);
        lemma_seq_size_skip(s, 1);
        match s[0] {
            Op::Loop(body) => {
                lemma_no_spreads_grouped_adds(body);
                lemma_no_spreads_grouped_adds(s.skip(1));
                lemma_no_spreads_cons(Op::Loop(grouped_adds(body)), grouped_adds(s.skip(1)));
            },
            Op::Memory(v) => {
                lemma_no_spreads_merged_adds(v, s.skip(1));
            },
            _ => {
                lemma_no_spreads_grouped_adds(s.skip(1));
                lemma_no_spreads_cons(s[0], grouped_adds(s.skip(1)));
            },
        }
    }
}

proof fn lemma_no_spreads_merged_adds(v: u8, rest: Seq<Op>)
    requires
        no_spreads(rest),
    ensures
        no_spreads(merged_adds(v, rest)),
    decreases seq_size(rest), 2int,
{
    if rest.len() > 0 && rest[0] is Memory {
        lemma_seq_size_skip(rest, 1);
        lemma_no_spreads_merged_adds(v.wrapping_add(rest[0]->Memory_0), rest.skip(1));
    } else {
        lemma_no_spreads_grouped_adds(rest);
        lemma_no_spreads_cons(Op::Memory(v), grouped_adds(rest));
    }
}

proof fn lemma_no_spreads_grouped_pointers(s: Seq<Op>)
    requires
        no_spreads(s),
    ensures
        no_spreads(grouped_pointers(s)),
    decreases seq_size(s), 1int,
{
    if s.len() > 0 {
        lemma_seq_size_elem(s, 0);
        lemma_seq_size_skip(s, 1);
        match s[0] {
            Op::Loop(body) => {
                lemma_no_spreads_grouped_pointers(body);
                lemma_no_spreads_grouped_pointers(s.skip(1));
                lemma_no_spreads_cons(Op::Loop(grouped_pointers(body)), grouped_pointers(s.skip(1)));
            },
            Op::Pointer(v) => {
                lemma_no_spreads_merged_pointers(v, s.skip(1));
            },
            _ => {
                lemma_no_spreads_grouped_pointers(s.skip(1));
                lemma_no_spreads_cons(s[0], grouped_pointers(s.skip(1)));
            },
        }
    }
}

proof fn lemma_no_spreads_merged_pointers(v: usize, rest: Seq<Op>)
    requires
        no_spreads(rest),
    ensures
        no_spreads(merged_pointers(v, rest)),
    decreases seq_size(rest), 2int,
{
    if rest.len() > 0 && rest[0] is Pointer {
        lemma_seq_size_skip(rest, 1);
        lemma_no_spreads_merged_pointers(v.wrapping_add(rest[0]->Pointer_0), rest.skip(1));
    } else {
        lemma_no_spreads_grouped_pointers(rest);
        lemma_no_spreads_cons(Op::Pointer(v), grouped_pointers(rest));
    }
}

proof fn lemma_no_spreads_cleared(s: Seq<Op>)
    requires
        no_spreads(s),
    ensures
        no_spreads(cleared_cells(s)),
    decreases seq_size(s),
{
    if s.len() > 0 {
        lemma_seq_size_elem(s, 0);
        lemma_seq_size_skip(s, 1);
        lemma_no_spreads_cleared(s.skip(1));
        if let Op::Loop(body) = s[0] {
            lemma_no_spreads_cleared(body);
        }
        let head = match s[0] {
            Op::Loop(body) => if body.len() == 1 && body[0] is Memory {
                if body[0] == Op::Memory(255) {
                    Op::ClearCell
                } else {
                    s[0]
                }
            } else {
                Op::Loop(cleared_cells(body))
            },
            _ => s[0],
        };
        lemma_no_spreads_cons(head, cleared_cells(s.skip(1)));
    }
}

proof fn lemma_no_spreads_offset_adds(s: Seq<Op>)
    requires
        no_spreads(s),
    ensures
        no_spreads(with_offset_adds(s)),
    decreases seq_size(s), 1int,
{
    if s.len() > 0 {
        lemma_seq_size_skip(s, 1);
        lemma_no_spreads_offset_adds_from(s[0], s.skip(1));
    }
}

proof fn lemma_no_spreads_offset_adds_from(cur: Op, rest: Seq<Op>)
    requires
        !(cur is Spread),
        cur is Loop ==> no_spreads(cur->Loop_0),
        no_spreads(rest),
    ensures
        no_spreads(offset_adds_from(cur, rest)),
    decreases op_size(cur) + seq_size(rest), 0int,
{
    if rest.len() > 0 {
        lemma_seq_size_elem(rest, 0);
        lemma_seq_size_skip(rest, 1);
    }
    match cur {
        Op::Loop(body) => {
            lemma_no_spreads_offset_adds(body);
            if rest.len() == 0 {
                lemma_no_spreads_cons(Op::Loop(with_offset_adds(body)), Seq::<Op>::empty());
                assert(seq![Op::Loop(with_offset_adds(body))] + Seq::<Op>::empty() =~= seq![Op::Loop(with_offset_adds(body))]);
            } else {
                lemma_no_spreads_offset_adds_from(rest[0], rest.skip(1));
                lemma_no_spreads_cons(Op::Loop(with_offset_adds(body)), offset_adds_from(rest[0], rest.skip(1)));
            }
        },
        Op::Pointer(off) => {
            if rest.len() == 0 {
                lemma_no_spreads_cons(cur, Seq::<Op>::empty());
                assert(seq![cur] + Seq::<Op>::empty() =~= seq![cur]);
            } else {
                match rest[0] {
                    Op::Pointer(off2) => {
                        lemma_no_spreads_offset_adds_from(Op::Pointer(off.wrapping_add(off2)), rest.skip(1));
                    },
                    Op::Memory(v) => {
                        lemma_no_spreads_offset_adds_from(Op::Pointer(off), rest.skip(1));
                        lemma_no_spreads_cons(Op::OffsetAdd(off, v), offset_adds_from(Op::Pointer(off), rest.skip(1)));
                    },
                    _ => {
                        lemma_no_spreads_offset_adds_from(rest[0], rest.skip(1));
                        lemma_no_spreads_cons(cur, offset_adds_from(rest[0], rest.skip(1)));
                    },
                }
            }
        },
        _ => {
            if rest.len() == 0 {
                lemma_no_spreads_cons(cur, Seq::<Op>::empty());
                assert(seq![cur] + Seq::<Op>::empty() =~= seq![cur]);
            } else {
                lemma_no_spreads_offset_adds_from(rest[0], rest.skip(1));
                lemma_no_spreads_cons(cur, offset_adds_from(rest[0], rest.skip(1)));
            }
        },
    }
}

proof fn lemma_no_spreads_dead(s: Seq<Op>)
    requires
        no_spreads(s),
    ensures
        no_spreads(without_dead_memory(s)),
        no_spreads(without_dead_pointers(s)),
        no_spreads(without_dead_offset_adds(s)),
    decreases seq_size(s),
{
    if s.len() > 0 {
        lemma_seq_size_elem(s, 0);
        lemma_seq_size_skip(s, 1);
        lemma_no_spreads_dead(s.skip(1));
        if let Op::Loop(body) = s[0] {
            lemma_no_spreads_dead(body);
        }
        let a = without_dead_memory(s.skip(1));
        let b = without_dead_pointers(s.skip(1));
        let c = without_dead_offset_adds(s.skip(1));
        assert(Seq::<Op>::empty() + a =~= a);
        assert(Seq::<Op>::empty() + b =~= b);
        assert(Seq::<Op>::empty() + c =~= c);
        match s[0] {
            Op::Loop(body) => {
                lemma_no_spreads_cons(Op::Loop(without_dead_memory(body)), a);
                lemma_no_spreads_cons(Op::Loop(without_dead_pointers(body)), b);
                lemma_no_spreads_cons(Op::Loop(without_dead_offset_adds(body)), c);
            },
            Op::OffsetAdd(o, v) => {
                lemma_no_spreads_cons(s[0], a);
                lemma_no_spreads_cons(s[0], b);
                lemma_no_spreads_cons(s[0], c);
                lemma_no_spreads_cons(Op::Pointer(o), c);
                lemma_no_spreads_cons(Op::Memory(v), c);
            },
            _ => {
                lemma_no_spreads_cons(s[0], a);
                lemma_no_spreads_cons(s[0], b);
                lemma_no_spreads_cons(s[0], c);
            },
        }
    }
}

/// The program that `optimize` hands to its removal of dead offset additions.
pub open spec fn before_dead_offset_adds(s: Seq<Op>) -> Seq<Op> {
    without_dead_pointers(without_dead_memory(with_offset_adds(cleared_cells(grouped_pointers(grouped_adds(s))))))
}

/// The optimiser keeps what a program does. Where the program ends normally
/// and the optimised program touches no cell beyond the tape, the optimised
/// program ends as it does, with the same fuel. Where the optimised program
/// ends normally and the program touches no cell beyond the tape, the program
/// ends as it does, with 256 more fuel. This holds of programs without
/// `Spread`s, on every run in which the program that reaches the removal of
/// dead offset additions runs no offset addition of 0 at a nonzero offset,
/// which that pass would turn into a move.
pub proof fn law_optimized_agrees(s: Seq<Op>, st: State, f: nat)
    requires
        no_spreads(s),
    ensures
        run(s, st, f) is Done && !(run(optimized(s), st, f) is Fault) && run_avoids_moving_zero_adds(
            before_dead_offset_adds(s),
            st,
            f,
        ) ==> run(optimized(s), st, f) == run(s, st, f),
        run(optimized(s), st, f) is Done && !(run(s, st, f + 256) is Fault) && run_avoids_moving_zero_adds(
            before_dead_offset_adds(s),
            st,
            f,
        ) ==> run(s, st, f + 256) == run(optimized(s), st, f),
{
    let s1 = grouped_adds(s);
    let s2 = grouped_pointers(s1);
    let s3 = cleared_cells(s2);
    let s4 = with_offset_adds(s3);
    let s5 = without_dead_memory(s4);
    let s6 = without_dead_pointers(s5);
    let s7 = without_dead_offset_adds(s6);
    let s8 = with_spreads(s7);
    assert(s8 == optimized(s));
    lemma_grouped_adds_runs(s);
    lemma_grouped_pointers_runs(s1);
    lemma_cleared_cells_runs(s2);
    lemma_offset_adds_runs(s3);
    lemma_dead_memory_runs(s4);
    lemma_dead_pointers_runs(s5);
    lemma_dead_offset_adds_runs(s6);
    lemma_no_spreads_grouped_adds(s);
    lemma_no_spreads_grouped_pointers(s1);
    lemma_no_spreads_cleared(s2);
    lemma_no_spreads_offset_adds(s3);
    lemma_no_spreads_dead(s4);
    lemma_no_spreads_dead(s5);
    lemma_no_spreads_dead(s6);
    lemma_spreads_runs(s7);
    let g = f + 256;
    assert(run(s1, st, f) == run(s, st, f));
    assert(run(s2, st, f) == run(s1, st, f));
    assert(run(s1, st, g) == run(s, st, g));
    assert(run(s2, st, g) == run(s1, st, g));
    assert(run(s4, st, f) == run(s3, st, f));
    assert(run(s6, st, f) == run(s5, st, f));
    let clean = run_avoids_moving_zero_adds(s6, st, f);
    if run(s, st, f) is Done && !(run(s8, st, f) is Fault) && clean {
        assert(!(run(s2, st, f) is OutOfFuel));
        assert(run(s3, st, f) == run(s2, st, f));
        assert(!(run(s4, st, f) is Fault));
        assert(run(s5, st, f) == run(s4, st, f));
        assert(!(run(s6, st, f) is Fault));
        assert(run(s7, st, f) == run(s6, st, f));
        assert(run(s7, st, f) == run(s8, st, f));
    }
    if run(s8, st, f) is Done && !(run(s, st, g) is Fault) && clean {
        assert(run(s7, st, f) == run(s8, st, f));
        if run(s3, st, f) is OutOfFuel {
            assert(run(s5, st, f) == run(s4, st, f));
            assert(run(s7, st, f) == run(s6, st, f));
            assert(false);
        }
        assert(run(s2, st, g) == run(s3, st, f));
        assert(run(s5, st, f) == run(s4, st, f));
        assert(run(s7, st, f) == run(s6, st, f));
    }
}

} // verus!

verus! {

/// A parsed program holds no `Spread`.
pub proof fn lemma_parse_no_spreads(s: Seq<char>)
    ensures
        no_spreads(crate::parse::parse(s)),
    decreases s.len(),
{
    let p = crate::parse::parse(s);
    if s.len() > 0 {
        if s[0] == '[' {
            let j = crate::parse::close_from(s, 0, 0);
            if 0 < j < s.len() {
                lemma_parse_no_spreads(s.subrange(1, j));
                lemma_parse_no_spreads(s.skip(j + 1));
                lemma_no_spreads_cons(Op::Loop(crate::parse::parse(s.subrange(1, j))), crate::parse::parse(s.skip(j + 1)));
            }
        } else {
            lemma_parse_no_spreads(s.skip(1));
            lemma_no_spreads_cons(crate::parse::command_op(s[0]), crate::parse::parse(s.skip(1)));
        }
    }
}

/// What `new` makes of a text runs as what `unoptimized_new` makes of it:
/// `law_optimized_agrees` on the parse of the cleaned text, which holds no
/// `Spread`.
pub proof fn law_parsed_program_optimizes_alike(p: Seq<char>, st: State, f: nat)
    ensures
        ({
            let s = crate::parse::parse(crate::parse::cleaned(p));
            &&& run(s, st, f) is Done && !(run(optimized(s), st, f) is Fault) && run_avoids_moving_zero_adds(
                before_dead_offset_adds(s),
                st,
                f,
            ) ==> run(optimized(s), st, f) == run(s, st, f)
            &&& run(optimized(s), st, f) is Done && !(run(s, st, f + 256) is Fault) && run_avoids_moving_zero_adds(
                before_dead_offset_adds(s),
                st,
                f,
            ) ==> run(s, st, f + 256) == run(optimized(s), st, f)
        }),
{
    let s = crate::parse::parse(crate::parse::cleaned(p));
    lemma_parse_no_spreads(crate::parse::cleaned(p));
    law_optimized_agrees(s, st, f);
}

} // verus!

verus! {

// ---------------------------------------------------------------------------
// When the removal of dead offset additions is harmless
// ---------------------------------------------------------------------------

/// Neither a `Memory(0)` nor an `OffsetAdd` that adds 0, at any depth.
pub open spec fn no_zero_adds(s: Seq<Op>) -> bool
    decreases seq_size(s),
{
    if s.len() == 0 {
        true
    } else {
        proof {
            lemma_seq_size_elem(s, 0);
            lemma_seq_size_skip(s, 1);
        }
        (match s[0] {
            Op::Loop(body) => no_zero_adds(body),
            Op::Memory(v) => v != 0,
            Op::OffsetAdd(_, v) => v != 0,
            _ => true,
        }) && no_zero_adds(s.skip(1))
    }
}

proof fn lemma_no_zero_adds_cons(x: Op, t: Seq<Op>)
    ensures
        no_zero_adds(seq![x] + t) == ((match x {
            Op::Loop(body) => no_zero_adds(body),
            Op::Memory(v) => v != 0,
            Op::OffsetAdd(_, v) => v != 0,
            _ => true,
        }) && no_zero_adds(t)),
{
    let u = seq![x] + t;
    assert(u[0] == x);
    assert(u.skip(1) =~= t);
}

proof fn lemma_no_zero_adds_moving(s: Seq<Op>)
    requires
        no_zero_adds(s),
    ensures
        no_moving_zero_adds(s),
    decreases seq_size(s),
{
    if s.len() > 0 {
        lemma_seq_size_elem(s, 0);
        lemma_seq_size_skip(s, 1);
        lemma_no_zero_adds_moving(s.skip(1));
        if let Op::Loop(body) = s[0] {
            lemma_no_zero_adds_moving(body);
        }
    }
}

proof fn lemma_no_zero_adds_grouped_pointers(s: Seq<Op>)
    requires
        no_zero_adds(s),
    ensures
        no_zero_adds(grouped_pointers(s)),
    decreases seq_size(s), 1int,
{
    if s.len() > 0 {
        lemma_seq_size_elem(s, 0);
        lemma_seq_size_skip(s, 1);
        match s[0] {
            Op::Loop(body) => {
                lemma_no_zero_adds_grouped_pointers(body);
                lemma_no_zero_adds_grouped_pointers(s.skip(1));
                lemma_no_zero_adds_cons(Op::Loop(grouped_pointers(body)), grouped_pointers(s.skip(1)));
            },
            Op::Pointer(v) => {
                lemma_no_zero_adds_merged_pointers(v, s.skip(1));
            },
            _ => {
                lemma_no_zero_adds_grouped_pointers(s.skip(1));
                lemma_no_zero_adds_cons(s[0], grouped_pointers(s.skip(1)));
            },
        }
    }
}

proof fn lemma_no_zero_adds_merged_pointers(v: usize, rest: Seq<Op>)
    requires
        no_zero_adds(rest),
    ensures
        no_zero_adds(merged_pointers(v, rest)),
    decreases seq_size(rest), 2int,
{
    if rest.len() > 0 && rest[0] is Pointer {
        lemma_seq_size_skip(rest, 1);
        lemma_no_zero_adds_merged_pointers(v.wrapping_add(rest[0]->Pointer_0), rest.skip(1));
    } else {
        lemma_no_zero_adds_grouped_pointers(rest);
        lemma_no_zero_adds_cons(Op::Pointer(v), grouped_pointers(rest));
    }
}

proof fn lemma_no_zero_adds_cleared(s: Seq<Op>)
    requires
        no_zero_adds(s),
    ensures
        no_zero_adds(cleared_cells(s)),
    decreases seq_size(s),
{
    if s.len() > 0 {
        lemma_seq_size_elem(s, 0);
        lemma_seq_size_skip(s, 1);
        lemma_no_zero_adds_cleared(s.skip(1));
        if let Op::Loop(body) = s[0] {
            lemma_no_zero_adds_cleared(body);
        }
        let head = match s[0] {
            Op::Loop(body) => if body.len() == 1 && body[0] is Memory {
                if body[0] == Op::Memory(255) {
                    Op::ClearCell
                } else {
                    s[0]
                }
            } else {
                Op::Loop(cleared_cells(body))
            },
            _ => s[0],
        };
        lemma_no_zero_adds_cons(head, cleared_cells(s.skip(1)));
    }
}

proof fn lemma_no_zero_adds_offset_adds(s: Seq<Op>)
    requires
        no_zero_adds(s),
    ensures
        no_zero_adds(with_offset_adds(s)),
    decreases seq_size(s), 1int,
{
    if s.len() > 0 {
        lemma_seq_size_skip(s, 1);
        lemma_head_tail(s);
        lemma_no_zero_adds_cons(s[0], s.skip(1));
        lemma_no_zero_adds_cons(s[0], Seq::<Op>::empty());
        assert(seq![s[0]] + Seq::<Op>::empty() =~= seq![s[0]]);
        lemma_no_zero_adds_offset_adds_from(s[0], s.skip(1));
    }
}

proof fn lemma_no_zero_adds_offset_adds_from(cur: Op, rest: Seq<Op>)
    requires
        no_zero_adds(seq![cur]),
        no_zero_adds(rest),
    ensures
        no_zero_adds(offset_adds_from(cur, rest)),
    decreases op_size(cur) + seq_size(rest), 0int,
{
    lemma_no_zero_adds_cons(cur, Seq::<Op>::empty());
    assert(seq![cur] + Seq::<Op>::empty() =~= seq![cur]);
    if rest.len() > 0 {
        lemma_seq_size_elem(rest, 0);
        lemma_seq_size_skip(rest, 1);
        lemma_no_zero_adds_cons(rest[0], Seq::<Op>::empty());
        assert(seq![rest[0]] + Seq::<Op>::empty() =~= seq![rest[0]]);
        lemma_head_tail(rest);
        lemma_no_zero_adds_cons(rest[0], rest.skip(1));
    }
    match cur {
        Op::Loop(body) => {
            lemma_no_zero_adds_offset_adds(body);
            if rest.len() == 0 {
                lemma_no_zero_adds_cons(Op::Loop(with_offset_adds(body)), Seq::<Op>::empty());
                assert(seq![Op::Loop(with_offset_adds(body))] + Seq::<Op>::empty() =~= seq![Op::Loop(with_offset_adds(body))]);
            } else {
                lemma_no_zero_adds_offset_adds_from(rest[0], rest.skip(1));
                lemma_no_zero_adds_cons(Op::Loop(with_offset_adds(body)), offset_adds_from(rest[0], rest.skip(1)));
            }
        },
        Op::Pointer(off) => {
            if rest.len() > 0 {
                lemma_no_zero_adds_cons(Op::Pointer(off), Seq::<Op>::empty());
                assert(seq![Op::Pointer(off)] + Seq::<Op>::empty() =~= seq![Op::Pointer(off)]);
                match rest[0] {
                    Op::Pointer(off2) => {
                        lemma_no_zero_adds_cons(Op::Pointer(off.wrapping_add(off2)), Seq::<Op>::empty());
                        assert(seq![Op::Pointer(off.wrapping_add(off2))] + Seq::<Op>::empty() =~= seq![Op::Pointer(off.wrapping_add(off2))]);
                        lemma_no_zero_adds_offset_adds_from(Op::Pointer(off.wrapping_add(off2)), rest.skip(1));
                    },
                    Op::Memory(v) => {
                        lemma_no_zero_adds_offset_adds_from(Op::Pointer(off), rest.skip(1));
                        lemma_no_zero_adds_cons(Op::OffsetAdd(off, v), offset_adds_from(Op::Pointer(off), rest.skip(1)));
                    },
                    _ => {
                        lemma_no_zero_adds_offset_adds_from(rest[0], rest.skip(1));
                        lemma_no_zero_adds_cons(cur, offset_adds_from(rest[0], rest.skip(1)));
                    },
                }
            }
        },
        _ => {
            if rest.len() > 0 {
                lemma_no_zero_adds_offset_adds_from(rest[0], rest.skip(1));
                lemma_no_zero_adds_cons(cur, offset_adds_from(rest[0], rest.skip(1)));
            }
        },
    }
}

proof fn lemma_no_zero_adds_dead(s: Seq<Op>)
    requires
        no_zero_adds(s),
    ensures
        no_zero_adds(without_dead_memory(s)),
        no_zero_adds(without_dead_pointers(s)),
    decreases seq_size(s),
{
    if s.len() > 0 {
        lemma_seq_size_elem(s, 0);
        lemma_seq_size_skip(s, 1);
        lemma_no_zero_adds_dead(s.skip(1));
        if let Op::Loop(body) = s[0] {
            lemma_no_zero_adds_dead(body);
        }
        let a = without_dead_memory(s.skip(1));
        let b = without_dead_pointers(s.skip(1));
        assert(Seq::<Op>::empty() + a =~= a);
        assert(Seq::<Op>::empty() + b =~= b);
        match s[0] {
            Op::Loop(body) => {
                lemma_no_zero_adds_cons(Op::Loop(without_dead_memory(body)), a);
                lemma_no_zero_adds_cons(Op::Loop(without_dead_pointers(body)), b);
            },
            _ => {
                lemma_no_zero_adds_cons(s[0], a);
                lemma_no_zero_adds_cons(s[0], b);
            },
        }
    }
}

/// The optimiser keeps what a program does when no run of additions in it
/// sums to 0 (mod 256), no `OffsetAdd` in it adds 0 and it holds no `Spread`,
/// as programs read from text do not: see `law_optimized_agrees`.
pub proof fn law_optimized_agrees_without_cancelling_adds(s: Seq<Op>, st: State, f: nat)
    requires
        no_spreads(s),
        no_zero_adds(grouped_adds(s)),
    ensures
        run(s, st, f) is Done && !(run(optimized(s), st, f) is Fault) ==> run(optimized(s), st, f) == run(s, st, f),
        run(optimized(s), st, f) is Done && !(run(s, st, f + 256) is Fault) ==> run(s, st, f + 256) == run(optimized(s), st, f),
{
    let s1 = grouped_adds(s);
    lemma_no_zero_adds_grouped_pointers(s1);
    lemma_no_zero_adds_cleared(grouped_pointers(s1));
    lemma_no_zero_adds_offset_adds(cleared_cells(grouped_pointers(s1)));
    let s4 = with_offset_adds(cleared_cells(grouped_pointers(s1)));
    lemma_no_zero_adds_dead(s4);
    lemma_no_zero_adds_dead(without_dead_memory(s4));
    lemma_no_zero_adds_moving(before_dead_offset_adds(s));
    lemma_no_moving_zero_adds_runs(before_dead_offset_adds(s), st, f);
    law_optimized_agrees(s, st, f);
}

} // verus!

verus! {

// ---------------------------------------------------------------------------
// What offset additions and spreads stand for
// ---------------------------------------------------------------------------

/// An offset addition runs as a move, an addition and the move back (`back`
/// being the move that undoes `o`).
pub proof fn law_offset_add_is_move_add_move(o: usize, v: u8, back: usize, t: Seq<Op>)
    requires
        o.wrapping_add(back) == 0,
    ensures
        same_runs(seq![Op::OffsetAdd(o, v)] + t, seq![Op::Pointer(o), Op::Memory(v), Op::Pointer(back)] + t),
{
    let a = seq![Op::OffsetAdd(o, v)] + t;
    let b = seq![Op::Pointer(o), Op::Memory(v), Op::Pointer(back)] + t;
    assert forall|st: State, f: nat| #[trigger] run(a, st, f) == run(b, st, f) by {
        assert(b =~= seq![Op::Pointer(o)] + (seq![Op::Memory(v)] + (seq![Op::Pointer(back)] + t)));
        lemma_run_cons(Op::OffsetAdd(o, v), t, st, f);
        lemma_run_cons(Op::Pointer(o), seq![Op::Memory(v)] + (seq![Op::Pointer(back)] + t), st, f);
        let q = st.pointer.wrapping_add(o);
        let st1 = State { pointer: q, ..st };
        lemma_run_cons(Op::Memory(v), seq![Op::Pointer(back)] + t, st1, f);
        if q < st.tape.len() {
            let st2 = State { tape: add_cell(st.tape, q, v), ..st1 };
            lemma_run_cons(Op::Pointer(back), t, st2, f);
            assert(q.wrapping_add(back) == st.pointer.wrapping_add(o.wrapping_add(back)));
            assert(st.pointer.wrapping_add(0) == st.pointer);
            assert(State { pointer: q.wrapping_add(back), ..st2 } == State { tape: add_cell(st.tape, q, v), ..st });
        }
    }
}

/// The offset additions of the pairs of `vals`, in order.
pub open spec fn pair_adds(vals: Seq<(usize, u8)>) -> Seq<Op>
    decreases vals.len(),
{
    if vals.len() == 0 {
        seq![]
    } else {
        seq![Op::OffsetAdd(vals[0].0, vals[0].1)] + pair_adds(vals.skip(1))
    }
}

proof fn lemma_pair_adds_run(vals: Seq<(usize, u8)>, t: Seq<Op>, st: State, f: nat)
    ensures
        run(pair_adds(vals) + t, st, f) == if pairs_fit(st.tape.len(), st.pointer, vals) {
            run(t, State { tape: apply_pairs(st.tape, st.pointer, vals), ..st }, f)
        } else {
            Outcome::Fault(st.output)
        },
    decreases vals.len(),
{
    if vals.len() == 0 {
        assert(pair_adds(vals) + t =~= t);
        assert(State { tape: apply_pairs(st.tape, st.pointer, vals), ..st } == st);
    } else {
        let (o, v) = vals[0];
        let x = Op::OffsetAdd(o, v);
        assert(pair_adds(vals) + t =~= seq![x] + (pair_adds(vals.skip(1)) + t));
        lemma_run_cons(x, pair_adds(vals.skip(1)) + t, st, f);
        let q = st.pointer.wrapping_add(o);
        if q < st.tape.len() {
            let st1 = State { tape: add_cell(st.tape, q, v), ..st };
            lemma_pair_adds_run(vals.skip(1), t, st1, f);
            if pairs_fit(st.tape.len(), st.pointer, vals) {
                assert forall|k: int| 0 <= k < vals.skip(1).len() implies st.pointer.wrapping_add(#[trigger] vals.skip(1)[k].0) < st1.tape.len() by {
                    assert(vals.skip(1)[k] == vals[k + 1]);
                }
            } else {
                let k = choose|k: int| 0 <= k < vals.len() && !(st.pointer.wrapping_add(#[trigger] vals[k].0) < st.tape.len());
                assert(k > 0);
                assert(vals.skip(1)[k - 1] == vals[k]);
                assert(!pairs_fit(st1.tape.len(), st.pointer, vals.skip(1)));
            }
        } else {
            assert(!(st.pointer.wrapping_add(vals[0].0) < st.tape.len()));
        }
    }
}

/// A `Spread` runs as its addition to the current cell followed by its
/// offset additions, in order.
pub proof fn law_spread_is_its_additions(m: u8, vals: Seq<(usize, u8)>, t: Seq<Op>)
    ensures
        same_runs(seq![Op::Spread(m, vals)] + t, seq![Op::Memory(m)] + pair_adds(vals) + t),
{
    let a = seq![Op::Spread(m, vals)] + t;
    let b = seq![Op::Memory(m)] + pair_adds(vals) + t;
    assert forall|st: State, f: nat| #[trigger] run(a, st, f) == run(b, st, f) by {
        assert(b =~= seq![Op::Memory(m)] + (pair_adds(vals) + t));
        lemma_run_cons(Op::Spread(m, vals), t, st, f);
        lemma_run_cons(Op::Memory(m), pair_adds(vals) + t, st, f);
        if st.pointer < st.tape.len() {
            let st1 = State { tape: add_cell(st.tape, st.pointer, m), ..st };
            lemma_pair_adds_run(vals, t, st1, f);
        }
    }
}

} // verus!
