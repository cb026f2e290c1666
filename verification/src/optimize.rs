use vstd::prelude::*;
use crate::bytecode::{Op, op_size, Instruction, ByteCodeObject, view_seq, seq_size, lemma_seq_size_elem, lemma_seq_size_skip};

verus! {

/// Pushing an instruction whose model heads the remaining output keeps the
/// output on track.
pub(crate) proof fn lemma_emit(out: Seq<Instruction>, x: Instruction, rest_old: Seq<Op>, rest_new: Seq<Op>, total: Seq<Op>)
    requires
        view_seq(out) + rest_old == total,
        rest_old == seq![x@] + rest_new,
    ensures
        view_seq(out.push(x)) + rest_new == total,
{
    assert(view_seq(out.push(x)) =~= view_seq(out).push(x@));
    assert(view_seq(out).push(x@) + rest_new =~= view_seq(out) + (seq![x@] + rest_new));
}

pub proof fn lemma_skip_skip<A>(s: Seq<A>, a: int, b: int)
    requires
        0 <= a,
        0 <= b,
        a + b <= s.len(),
    ensures
        s.skip(a).skip(b) == s.skip(a + b),
{
    assert(s.skip(a).skip(b) =~= s.skip(a + b));
}

// ---------------------------------------------------------------------------
// Spread instructions
// ---------------------------------------------------------------------------

/// How many instructions after a `Memory`, `OffsetAdd` or `Spread` head are
/// folded with it into one `Spread`: a stretch of `OffsetAdd`s holding at
/// most one `Memory` in all (`seen_memory` says whether the head was one).
pub open spec fn spread_tail(t: Seq<Op>, seen_memory: bool) -> nat
    decreases t.len(),
{
    if t.len() == 0 {
        0
    } else {
        match t[0] {
            Op::Memory(_) => if seen_memory {
                0
            } else {
                1 + spread_tail(t.skip(1), true)
            },
            Op::OffsetAdd(_, _) => 1 + spread_tail(t.skip(1), seen_memory),
            _ => 0,
        }
    }
}

/// The value of the first `Memory` of `t`, or 0 when there is none.
pub open spec fn first_memory(t: Seq<Op>) -> u8
    decreases t.len(),
{
    if t.len() == 0 {
        0
    } else {
        match t[0] {
            Op::Memory(v) => v,
            _ => first_memory(t.skip(1)),
        }
    }
}

/// The (offset, value) pairs of the `OffsetAdd`s of `t`, in order.
pub open spec fn offset_pairs(t: Seq<Op>) -> Seq<(usize, u8)>
    decreases t.len(),
{
    if t.len() == 0 {
        seq![]
    } else {
        match t[0] {
            Op::OffsetAdd(o, v) => seq![(o, v)] + offset_pairs(t.skip(1)),
            _ => offset_pairs(t.skip(1)),
        }
    }
}

pub proof fn lemma_spread_tail_bound(t: Seq<Op>, seen: bool)
    ensures
        spread_tail(t, seen) <= t.len(),
    decreases t.len(),
{
    if t.len() > 0 {
        lemma_spread_tail_bound(t.skip(1), true);
        lemma_spread_tail_bound(t.skip(1), seen);
    }
}

/// `add_spread_instructions`: every stretch that starts with a `Memory`,
/// `OffsetAdd` or `Spread` and goes on with `OffsetAdd`s and at most one
/// `Memory` becomes a single `Spread` of the first `Memory` value and the
/// `OffsetAdd` pairs; loop bodies are rewritten the same way.
pub open spec fn with_spreads(s: Seq<Op>) -> Seq<Op>
    decreases seq_size(s),
{
    if s.len() == 0 {
        seq![]
    } else {
        proof {
            lemma_seq_size_elem(s, 0);
            lemma_seq_size_skip(s, 1);
        }
        match s[0] {
            Op::Loop(body) => seq![Op::Loop(with_spreads(body))] + with_spreads(s.skip(1)),
            Op::Memory(_) | Op::OffsetAdd(_, _) | Op::Spread(_, _) => {
                let n = spread_tail(s.skip(1), s[0] is Memory) as int;
                proof {
                    lemma_spread_tail_bound(s.skip(1), s[0] is Memory);
                    lemma_seq_size_skip(s, n + 1);
                }
                if n == 0 {
                    seq![s[0]] + with_spreads(s.skip(1))
                } else {
                    let run = s.take(n + 1);
                    seq![Op::Spread(first_memory(run), offset_pairs(run))] + with_spreads(s.skip(n + 1))
                }
            },
            _ => seq![s[0]] + with_spreads(s.skip(1)),
        }
    }
}

impl ByteCodeObject {
    pub(crate) fn add_spread_instructions(&mut self)
        ensures
            final(self)@ == with_spreads(old(self)@),
        decreases seq_size(old(self)@),
    {
        proof {
            self.lemma_view();
        }
        let ghost s = self@;
        let len = self.instructions.len();
        let mut instructions: Vec<Instruction> = Vec::new();
        let mut i: usize = 0;
        proof {
            assert(s.skip(0) =~= s);
            assert(view_seq(instructions@) + s.skip(0) =~= s.skip(0));
            assert(view_seq(instructions@) + with_spreads(s.skip(0)) =~= with_spreads(s));
        }
        while i < len
            invariant
                len == self.instructions@.len(),
                s == view_seq(self.instructions@),
                s == old(self)@,
                i <= len,
                view_seq(instructions@) + with_spreads(s.skip(i as int)) == with_spreads(s),
            decreases len - i,
        {
            proof {
                lemma_seq_size_skip(s, i as int);
                lemma_skip_skip(s, i as int, 1);
                assert(s.skip(i as int)[0] == s[i as int]);
            }
            match &self.instructions[i] {
                Instruction::Loop(b) => {
                    proof {
                        lemma_seq_size_elem(s, i as int);
                    }
                    let mut body = b.copy();
                    body.add_spread_instructions();
                    let ins = Instruction::Loop(body);
                    proof {
                        lemma_emit(instructions@, ins, with_spreads(s.skip(i as int)), with_spreads(s.skip(i + 1)), with_spreads(s));
                    }
                    instructions.push(ins);
                    i += 1;
                },
                Instruction::ClearCell | Instruction::Pointer(_) | Instruction::Input | Instruction::Output => {
                    let ins = self.instructions[i].copy();
                    proof {
                        lemma_emit(instructions@, ins, with_spreads(s.skip(i as int)), with_spreads(s.skip(i + 1)), with_spreads(s));
                    }
                    instructions.push(ins);
                    i += 1;
                },
                _ => {
                    let ghost head_is_memory = s[i as int] is Memory;
                    let mut keepgoing = true;
                    let mut num_memory_instructions: usize = 0;
                    if let Instruction::Memory(_) = self.instructions[i] {
                        num_memory_instructions += 1;
                    }
                    let mut j = i;
                    while keepgoing && j + 1 < len
                        invariant
                            len == self.instructions@.len(),
                            s == view_seq(self.instructions@),
                            i <= j < len,
                            num_memory_instructions <= 2,
                            keepgoing ==> num_memory_instructions <= 1,
                            keepgoing ==> spread_tail(s.skip(i + 1), head_is_memory) == (j - i)
                                + spread_tail(s.skip(j + 1), num_memory_instructions == 1),
                            !keepgoing ==> spread_tail(s.skip(i + 1), head_is_memory) == j - i,
                        decreases len - j + (if keepgoing { 1int } else { 0int }),
                    {
                        proof {
                            lemma_skip_skip(s, j + 1, 1);
                            assert(s.skip(j + 1)[0] == s[j + 1]);
                        }
                        match &self.instructions[j + 1] {
                            Instruction::Memory(_) => {
                                num_memory_instructions += 1;
                                if num_memory_instructions > 1 {
                                    keepgoing = false;
                                }
                            },
                            Instruction::OffsetAdd(_) => {
                                keepgoing = true;
                            },
                            _ => {
                                keepgoing = false;
                            },
                        }
                        if keepgoing {
                            j += 1;
                        }
                    }
                    proof {
                        if keepgoing {
                            assert(s.skip(j + 1).len() == 0);
                        }
                        lemma_spread_tail_bound(s.skip(i + 1), head_is_memory);
                    }
                    if i == j {
                        let ins = self.instructions[i].copy();
                        proof {
                            lemma_emit(instructions@, ins, with_spreads(s.skip(i as int)), with_spreads(s.skip(i + 1)), with_spreads(s));
                        }
                        instructions.push(ins);
                        i += 1;
                    } else {
                        let ghost run = s.subrange(i as int, j + 1);
                        let mut memory_value: u8 = 0;
                        let mut k = i;
                        while k <= j
                            invariant_except_break
                                memory_value == 0,
                                first_memory(run) == first_memory(s.subrange(k as int, j + 1)),
                            invariant
                                len == self.instructions@.len(),
                                s == view_seq(self.instructions@),
                                i <= k <= j + 1,
                                j < len,
                                run == s.subrange(i as int, j + 1),
                            ensures
                                first_memory(run) == memory_value,
                            decreases j + 1 - k,
                        {
                            assert(s.subrange(k as int, j + 1).skip(1) =~= s.subrange(k + 1, j + 1));
                            assert(s.subrange(k as int, j + 1)[0] == s[k as int]);
                            if let Instruction::Memory(val) = self.instructions[k] {
                                memory_value = val;
                                break;
                            }
                            k += 1;
                        }
                        k = i;
                        let mut values: Vec<(usize, u8)> = Vec::new();
                        while k <= j
                            invariant
                                len == self.instructions@.len(),
                                s == view_seq(self.instructions@),
                                i <= k <= j + 1,
                                j < len,
                                run == s.subrange(i as int, j + 1),
                                first_memory(run) == memory_value,
                                values@ + offset_pairs(s.subrange(k as int, j + 1)) == offset_pairs(run),
                            decreases j + 1 - k,
                        {
                            assert(s.subrange(k as int, j + 1).skip(1) =~= s.subrange(k + 1, j + 1));
                            assert(s.subrange(k as int, j + 1)[0] == s[k as int]);
                            if let Instruction::OffsetAdd((offset2, val2)) = self.instructions[k] {
                                let ghost prev = values@;
                                values.push((offset2, val2));
                                assert(values@ + offset_pairs(s.subrange(k + 1, j + 1))
                                    =~= prev + offset_pairs(s.subrange(k as int, j + 1)));
                            }
                            k += 1;
                        }
                        let ins = Instruction::Spread(memory_value, values);
                        proof {
                            let t = s.skip(i as int);
                            assert(t.take(j - i + 1) =~= run);
                            lemma_skip_skip(s, i as int, j - i + 1);
                            assert(s.subrange(j + 1, j + 1).len() == 0);
                            assert(values@ =~= offset_pairs(run));
                            lemma_emit(instructions@, ins, with_spreads(s.skip(i as int)), with_spreads(s.skip(j + 1)), with_spreads(s));
                        }
                        instructions.push(ins);
                        i = j + 1;
                    }
                },
            }
        }
        self.instructions = instructions;
        proof {
            self.lemma_view();
            assert(s.skip(len as int) =~= Seq::<Op>::empty());
            assert(view_seq(self.instructions@) =~= view_seq(self.instructions@) + with_spreads(s.skip(len as int)));
        }
    }
}

} // verus!

verus! {

// ---------------------------------------------------------------------------
// Grouping runs of additions and of moves
// ---------------------------------------------------------------------------

/// `group_add_instructions`: every maximal run of `Memory` instructions
/// becomes one `Memory` of their sum (mod 256), in every block.
pub open spec fn grouped_adds(s: Seq<Op>) -> Seq<Op>
    decreases seq_size(s), 1int,
{
    if s.len() == 0 {
        seq![]
    } else {
        proof {
            lemma_seq_size_elem(s, 0);
            lemma_seq_size_skip(s, 1);
        }
        match s[0] {
            Op::Loop(body) => seq![Op::Loop(grouped_adds(body))] + grouped_adds(s.skip(1)),
            Op::Memory(v) => merged_adds(v, s.skip(1)),
            _ => seq![s[0]] + grouped_adds(s.skip(1)),
        }
    }
}

/// A `Memory(v)` whose run goes on with `rest`.
pub open spec fn merged_adds(v: u8, rest: Seq<Op>) -> Seq<Op>
    decreases seq_size(rest), 2int,
{
    if rest.len() > 0 && rest[0] is Memory {
        proof {
            lemma_seq_size_skip(rest, 1);
        }
        merged_adds(v.wrapping_add(rest[0]->Memory_0), rest.skip(1))
    } else {
        seq![Op::Memory(v)] + grouped_adds(rest)
    }
}

/// `group_add_pointer_instructions`: every maximal run of `Pointer`
/// instructions becomes one `Pointer` of their sum (mod 2^bits), in every block.
pub open spec fn grouped_pointers(s: Seq<Op>) -> Seq<Op>
    decreases seq_size(s), 1int,
{
    if s.len() == 0 {
        seq![]
    } else {
        proof {
            lemma_seq_size_elem(s, 0);
            lemma_seq_size_skip(s, 1);
        }
        match s[0] {
            Op::Loop(body) => seq![Op::Loop(grouped_pointers(body))] + grouped_pointers(s.skip(1)),
            Op::Pointer(v) => merged_pointers(v, s.skip(1)),
            _ => seq![s[0]] + grouped_pointers(s.skip(1)),
        }
    }
}

/// A `Pointer(v)` whose run goes on with `rest`.
pub open spec fn merged_pointers(v: usize, rest: Seq<Op>) -> Seq<Op>
    decreases seq_size(rest), 2int,
{
    if rest.len() > 0 && rest[0] is Pointer {
        proof {
            lemma_seq_size_skip(rest, 1);
        }
        merged_pointers(v.wrapping_add(rest[0]->Pointer_0), rest.skip(1))
    } else {
        seq![Op::Pointer(v)] + grouped_pointers(rest)
    }
}

// ---------------------------------------------------------------------------
// Clearing loops
// ---------------------------------------------------------------------------

/// `add_clear_cell_instructions`: a loop whose body is the single
/// instruction `Memory(255)` becomes `ClearCell`; a loop whose body is one
/// other `Memory` stays as it is; every other loop body is rewritten the same way.
pub open spec fn cleared_cells(s: Seq<Op>) -> Seq<Op>
    decreases seq_size(s),
{
    if s.len() == 0 {
        seq![]
    } else {
        proof {
            lemma_seq_size_elem(s, 0);
            lemma_seq_size_skip(s, 1);
        }
        let head = match s[0] {
            Op::Loop(body) => if body.len() == 1 && body[0] is Memory {
                if body[0] == Op::Memory(255) {
                    Op::ClearCell
                } else {
                    s[0]
                }
            } else {
                Op::Loop(cleared_cells(body))
            },
            _ => s[0],
        };
        seq![head] + cleared_cells(s.skip(1))
    }
}

// ---------------------------------------------------------------------------
// Offset additions
// ---------------------------------------------------------------------------

/// Every block, the program's own and every loop body, holds at least one
/// instruction.
pub open spec fn blocks_nonempty(s: Seq<Op>) -> bool
    decreases seq_size(s), 1int,
{
    s.len() > 0 && bodies_nonempty(s)
}

/// Every loop body in `s`, at any depth, holds at least one instruction.
pub open spec fn bodies_nonempty(s: Seq<Op>) -> bool
    decreases seq_size(s), 0int,
{
    if s.len() == 0 {
        true
    } else {
        proof {
            lemma_seq_size_elem(s, 0);
            lemma_seq_size_skip(s, 1);
        }
        (match s[0] {
            Op::Loop(body) => blocks_nonempty(body),
            _ => true,
        }) && bodies_nonempty(s.skip(1))
    }
}

pub proof fn lemma_bodies_nonempty_elem(s: Seq<Op>, i: int)
    requires
        bodies_nonempty(s),
        0 <= i < s.len(),
    ensures
        s[i] is Loop ==> blocks_nonempty(s[i]->Loop_0),
    decreases s.len(),
{
    if i > 0 {
        lemma_bodies_nonempty_elem(s.skip(1), i - 1);
    }
}

/// `add_add_offset_instructions`: a `Pointer(p)` followed by `Memory(v)`
/// becomes `OffsetAdd(p, v)` with the move kept pending; consecutive pending
/// moves are summed; loop bodies are rewritten the same way.
pub open spec fn with_offset_adds(s: Seq<Op>) -> Seq<Op>
    decreases seq_size(s), 1int,
{
    if s.len() == 0 {
        seq![]
    } else {
        proof {
            lemma_seq_size_skip(s, 1);
        }
        offset_adds_from(s[0], s.skip(1))
    }
}

/// The rewriting of `with_offset_adds` with `cur` pending in front of `rest`.
pub open spec fn offset_adds_from(cur: Op, rest: Seq<Op>) -> Seq<Op>
    decreases op_size(cur) + seq_size(rest), 0int,
{
    proof {
        if rest.len() > 0 {
            lemma_seq_size_elem(rest, 0);
            lemma_seq_size_skip(rest, 1);
        }
    }
    match cur {
        Op::Loop(body) => seq![Op::Loop(with_offset_adds(body))] + (if rest.len() == 0 {
            seq![]
        } else {
            offset_adds_from(rest[0], rest.skip(1))
        }),
        Op::Pointer(off) => if rest.len() == 0 {
            seq![cur]
        } else {
            match rest[0] {
                Op::Pointer(off2) => offset_adds_from(Op::Pointer(off.wrapping_add(off2)), rest.skip(1)),
                Op::Memory(v) => seq![Op::OffsetAdd(off, v)] + offset_adds_from(Op::Pointer(off), rest.skip(1)),
                _ => seq![cur] + offset_adds_from(rest[0], rest.skip(1)),
            }
        },
        _ => if rest.len() == 0 {
            seq![cur]
        } else {
            seq![cur] + offset_adds_from(rest[0], rest.skip(1))
        },
    }
}

// ---------------------------------------------------------------------------
// Dead instructions
// ---------------------------------------------------------------------------

/// `eliminate_dead_memory_instructions`: every `Memory(0)` is removed, in every block.
pub open spec fn without_dead_memory(s: Seq<Op>) -> Seq<Op>
    decreases seq_size(s),
{
    if s.len() == 0 {
        seq![]
    } else {
        proof {
            lemma_seq_size_elem(s, 0);
            lemma_seq_size_skip(s, 1);
        }
        let head = match s[0] {
            Op::Loop(body) => seq![Op::Loop(without_dead_memory(body))],
            Op::Memory(v) => if v == 0 { seq![] } else { seq![s[0]] },
            _ => seq![s[0]],
        };
        head + without_dead_memory(s.skip(1))
    }
}

/// `eliminate_dead_pointer_instructions`: every `Pointer(0)` is removed, in every block.
pub open spec fn without_dead_pointers(s: Seq<Op>) -> Seq<Op>
    decreases seq_size(s),
{
    if s.len() == 0 {
        seq![]
    } else {
        proof {
            lemma_seq_size_elem(s, 0);
            lemma_seq_size_skip(s, 1);
        }
        let head = match s[0] {
            Op::Loop(body) => seq![Op::Loop(without_dead_pointers(body))],
            Op::Pointer(v) => if v == 0 { seq![] } else { seq![s[0]] },
            _ => seq![s[0]],
        };
        head + without_dead_pointers(s.skip(1))
    }
}

/// `eliminate_dead_offset_add_instructions`, in every block:
/// `OffsetAdd(0, 0)` is removed, `OffsetAdd(o, 0)` becomes `Pointer(o)`,
/// `OffsetAdd(0, v)` becomes `Memory(v)`, other instructions stay.
pub open spec fn without_dead_offset_adds(s: Seq<Op>) -> Seq<Op>
    decreases seq_size(s),
{
    if s.len() == 0 {
        seq![]
    } else {
        proof {
            lemma_seq_size_elem(s, 0);
            lemma_seq_size_skip(s, 1);
        }
        let head = match s[0] {
            Op::Loop(body) => seq![Op::Loop(without_dead_offset_adds(body))],
            Op::OffsetAdd(o, v) => if o == 0 && v == 0 {
                seq![]
            } else if v == 0 {
                seq![Op::Pointer(o)]
            } else if o == 0 {
                seq![Op::Memory(v)]
            } else {
                seq![s[0]]
            },
            _ => seq![s[0]],
        };
        head + without_dead_offset_adds(s.skip(1))
    }
}

/// `optimize`: the passes in the order the library runs them.
pub open spec fn optimized(s: Seq<Op>) -> Seq<Op> {
    with_spreads(
        without_dead_offset_adds(
            without_dead_pointers(
                without_dead_memory(
                    with_offset_adds(cleared_cells(grouped_pointers(grouped_adds(s)))),
                ),
            ),
        ),
    )
}

} // verus!

verus! {

pub(crate) proof fn lemma_start(s: Seq<Op>, total: Seq<Op>)
    ensures
        s.skip(0) == s,
        view_seq(Seq::<Instruction>::empty()) + total == total,
{
    assert(s.skip(0) =~= s);
    assert(view_seq(Seq::<Instruction>::empty()) + total =~= total);
}

pub(crate) proof fn lemma_finish(s: Seq<Op>, out: Seq<Instruction>)
    ensures
        s.skip(s.len() as int) == Seq::<Op>::empty(),
        view_seq(out) + Seq::<Op>::empty() == view_seq(out),
{
    assert(s.skip(s.len() as int) =~= Seq::<Op>::empty());
    assert(view_seq(out) + Seq::<Op>::empty() =~= view_seq(out));
}

pub proof fn lemma_empty_prefix(t: Seq<Op>)
    ensures
        Seq::<Op>::empty() + t == t,
{
    assert(Seq::<Op>::empty() + t =~= t);
}

impl ByteCodeObject {
    pub(crate) fn group_add_instructions(&mut self)
        ensures
            final(self)@ == grouped_adds(old(self)@),
        decreases seq_size(old(self)@),
    {
        proof {
            self.lemma_view();
        }
        let ghost s = self@;
        let len = self.instructions.len();
        let mut instructions: Vec<Instruction> = Vec::new();
        let mut i: usize = 0;
        proof {
            lemma_start(s, grouped_adds(s));
        }
        while i < len
            invariant
                len == self.instructions@.len(),
                s == view_seq(self.instructions@),
                s == old(self)@,
                i <= len,
                view_seq(instructions@) + grouped_adds(s.skip(i as int)) == grouped_adds(s),
            decreases len - i,
        {
            proof {
                lemma_seq_size_skip(s, i as int);
                lemma_skip_skip(s, i as int, 1);
                assert(s.skip(i as int)[0] == s[i as int]);
            }
            match &self.instructions[i] {
                Instruction::Loop(b) => {
                    proof {
                        lemma_seq_size_elem(s, i as int);
                    }
                    let mut body = b.copy();
                    body.group_add_instructions();
                    let ins = Instruction::Loop(body);
                    proof {
                        lemma_emit(instructions@, ins, grouped_adds(s.skip(i as int)), grouped_adds(s.skip(i + 1)), grouped_adds(s));
                    }
                    instructions.push(ins);
                    i += 1;
                },
                Instruction::Memory(v) => {
                    let mut val: u8 = *v;
                    let ghost i0 = i;
                    while i < len - 1
                        invariant
                            i0 <= i,
                            len == self.instructions@.len(),
                            s == view_seq(self.instructions@),
                            i < len,
                            view_seq(instructions@) + merged_adds(val, s.skip(i + 1)) == grouped_adds(s),
                        ensures
                            i + 1 == len || !(s[i + 1] is Memory),
                        decreases len - i,
                    {
                        proof {
                            lemma_skip_skip(s, i + 1, 1);
                            assert(s.skip(i + 1)[0] == s[i + 1]);
                        }
                        if let Instruction::Memory(operand2) = self.instructions[i + 1] {
                            i += 1;
                            val = val.wrapping_add(operand2);
                        } else {
                            break;
                        }
                    }
                    let ins = Instruction::Memory(val);
                    proof {
                        if i + 1 == len {
                            assert(s.skip(i + 1).len() == 0);
                        } else {
                            assert(s.skip(i + 1)[0] == s[i + 1]);
                        }
                        lemma_emit(instructions@, ins, merged_adds(val, s.skip(i + 1)), grouped_adds(s.skip(i + 1)), grouped_adds(s));
                    }
                    instructions.push(ins);
                    i += 1;
                },
                _ => {
                    let ins = self.instructions[i].copy();
                    proof {
                        lemma_emit(instructions@, ins, grouped_adds(s.skip(i as int)), grouped_adds(s.skip(i + 1)), grouped_adds(s));
                    }
                    instructions.push(ins);
                    i += 1;
                },
            }
        }
        self.instructions = instructions;
        proof {
            self.lemma_view();
            lemma_finish(s, self.instructions@);
        }
    }

    pub(crate) fn group_add_pointer_instructions(&mut self)
        ensures
            final(self)@ == grouped_pointers(old(self)@),
        decreases seq_size(old(self)@),
    {
        proof {
            self.lemma_view();
        }
        let ghost s = self@;
        let len = self.instructions.len();
        let mut instructions: Vec<Instruction> = Vec::new();
        let mut i: usize = 0;
        proof {
            lemma_start(s, grouped_pointers(s));
        }
        while i < len
            invariant
                len == self.instructions@.len(),
                s == view_seq(self.instructions@),
                s == old(self)@,
                i <= len,
                view_seq(instructions@) + grouped_pointers(s.skip(i as int)) == grouped_pointers(s),
            decreases len - i,
        {
            proof {
                lemma_seq_size_skip(s, i as int);
                lemma_skip_skip(s, i as int, 1);
                assert(s.skip(i as int)[0] == s[i as int]);
            }
            match &self.instructions[i] {
                Instruction::Loop(b) => {
                    proof {
                        lemma_seq_size_elem(s, i as int);
                    }
                    let mut body = b.copy();
                    body.group_add_pointer_instructions();
                    let ins = Instruction::Loop(body);
                    proof {
                        lemma_emit(instructions@, ins, grouped_pointers(s.skip(i as int)), grouped_pointers(s.skip(i + 1)), grouped_pointers(s));
                    }
                    instructions.push(ins);
                    i += 1;
                },
                Instruction::Pointer(v) => {
                    let mut val: usize = *v;
                    let ghost i0 = i;
                    while i < len - 1
                        invariant
                            i0 <= i,
                            len == self.instructions@.len(),
                            s == view_seq(self.instructions@),
                            i < len,
                            view_seq(instructions@) + merged_pointers(val, s.skip(i + 1)) == grouped_pointers(s),
                        ensures
                            i + 1 == len || !(s[i + 1] is Pointer),
                        decreases len - i,
                    {
                        proof {
                            lemma_skip_skip(s, i + 1, 1);
                            assert(s.skip(i + 1)[0] == s[i + 1]);
                        }
                        if let Instruction::Pointer(operand2) = self.instructions[i + 1] {
                            i += 1;
                            val = val.wrapping_add(operand2);
                        } else {
                            break;
                        }
                    }
                    let ins = Instruction::Pointer(val);
                    proof {
                        if i + 1 == len {
                            assert(s.skip(i + 1).len() == 0);
                        } else {
                            assert(s.skip(i + 1)[0] == s[i + 1]);
                        }
                        lemma_emit(instructions@, ins, merged_pointers(val, s.skip(i + 1)), grouped_pointers(s.skip(i + 1)), grouped_pointers(s));
                    }
                    instructions.push(ins);
                    i += 1;
                },
                _ => {
                    let ins = self.instructions[i].copy();
                    proof {
                        lemma_emit(instructions@, ins, grouped_pointers(s.skip(i as int)), grouped_pointers(s.skip(i + 1)), grouped_pointers(s));
                    }
                    instructions.push(ins);
                    i += 1;
                },
            }
        }
        self.instructions = instructions;
        proof {
            self.lemma_view();
            lemma_finish(s, self.instructions@);
        }
    }
}

} // verus!

verus! {

impl ByteCodeObject {
    pub(crate) fn add_clear_cell_instructions(&mut self)
        ensures
            final(self)@ == cleared_cells(old(self)@),
        decreases seq_size(old(self)@),
    {
        proof {
            self.lemma_view();
        }
        let ghost s = self@;
        let len = self.instructions.len();
        let mut instructions: Vec<Instruction> = Vec::new();
        let mut i: usize = 0;
        proof {
            lemma_start(s, cleared_cells(s));
        }
        while i < len
            invariant
                len == self.instructions@.len(),
                s == view_seq(self.instructions@),
                s == old(self)@,
                i <= len,
                view_seq(instructions@) + cleared_cells(s.skip(i as int)) == cleared_cells(s),
            decreases len - i,
        {
            proof {
                lemma_seq_size_skip(s, i as int);
                lemma_skip_skip(s, i as int, 1);
                assert(s.skip(i as int)[0] == s[i as int]);
            }
            let ins = match &self.instructions[i] {
                Instruction::Loop(b) => {
                    proof {
                        lemma_seq_size_elem(s, i as int);
                        b.lemma_view();
                    }
                    if b.instructions.len() == 1 {
                        match &b.instructions[0] {
                            Instruction::Memory(val) => {
                                if *val == 255 {
                                    Instruction::ClearCell
                                } else {
                                    self.instructions[i].copy()
                                }
                            },
                            _ => {
                                let mut body = b.copy();
                                body.add_clear_cell_instructions();
                                Instruction::Loop(body)
                            },
                        }
                    } else {
                        let mut body = b.copy();
                        body.add_clear_cell_instructions();
                        Instruction::Loop(body)
                    }
                },
                _ => self.instructions[i].copy(),
            };
            proof {
                lemma_emit(instructions@, ins, cleared_cells(s.skip(i as int)), cleared_cells(s.skip(i + 1)), cleared_cells(s));
            }
            instructions.push(ins);
            i += 1;
        }
        self.instructions = instructions;
        proof {
            self.lemma_view();
            lemma_finish(s, self.instructions@);
        }
    }

    pub(crate) fn add_add_offset_instructions(&mut self)
        requires
            blocks_nonempty(old(self)@),
        ensures
            final(self)@ == with_offset_adds(old(self)@),
        decreases seq_size(old(self)@),
    {
        proof {
            self.lemma_view();
        }
        let ghost s = self@;
        let len = self.instructions.len();
        let mut instructions: Vec<Instruction> = Vec::new();
        let mut i: usize = 0;
        let mut current_instruction = self.instructions[i].copy();
        proof {
            lemma_start(s, with_offset_adds(s));
        }
        while i < len
            invariant_except_break
                i < len,
                view_seq(instructions@) + offset_adds_from(current_instruction@, s.skip(i + 1)) == with_offset_adds(s),
                current_instruction@ is Loop ==> current_instruction@ == s[i as int],
            invariant
                len == self.instructions@.len(),
                s == view_seq(self.instructions@),
                s == old(self)@,
                blocks_nonempty(s),
            ensures
                view_seq(instructions@) == with_offset_adds(s),
            decreases len - i,
        {
            proof {
                if i + 1 < len {
                    lemma_skip_skip(s, i + 1, 1);
                    assert(s.skip(i + 1)[0] == s[i + 1]);
                }
            }
            if let Instruction::Loop(b) = &current_instruction {
                proof {
                    lemma_seq_size_elem(s, i as int);
                    lemma_bodies_nonempty_elem(s, i as int);
                }
                let mut body = b.copy();
                body.add_add_offset_instructions();
                let ins = Instruction::Loop(body);
                if i + 1 < len {
                    proof {
                        lemma_emit(instructions@, ins, offset_adds_from(current_instruction@, s.skip(i + 1)), offset_adds_from(s[i + 1], s.skip(i + 2)), with_offset_adds(s));
                    }
                    instructions.push(ins);
                    current_instruction = self.instructions[i + 1].copy();
                } else {
                    proof {
                        assert(s.skip(i + 1).len() == 0);
                        lemma_emit(instructions@, ins, offset_adds_from(current_instruction@, s.skip(i + 1)), Seq::empty(), with_offset_adds(s));
                        lemma_finish(s, instructions@.push(ins));
                    }
                    instructions.push(ins);
                    break;
                }
                i += 1;
                continue;
            }
            if i + 1 == len {
                proof {
                    assert(s.skip(i + 1).len() == 0);
                    lemma_emit(instructions@, current_instruction, offset_adds_from(current_instruction@, s.skip(i + 1)), Seq::empty(), with_offset_adds(s));
                    lemma_finish(s, instructions@.push(current_instruction));
                }
                instructions.push(current_instruction);
                break;
            }
            if let Instruction::Pointer(offset) = current_instruction {
                if let Instruction::Pointer(offset2) = self.instructions[i + 1] {
                    current_instruction = Instruction::Pointer(offset.wrapping_add(offset2));
                    i += 1;
                    continue;
                }
                if let Instruction::Memory(val) = self.instructions[i + 1] {
                    let current_instruction2 = Instruction::OffsetAdd((offset, val));
                    let next_instruction = Instruction::Pointer(offset);
                    proof {
                        lemma_emit(instructions@, current_instruction2, offset_adds_from(current_instruction@, s.skip(i + 1)), offset_adds_from(next_instruction@, s.skip(i + 2)), with_offset_adds(s));
                    }
                    instructions.push(current_instruction2);
                    current_instruction = next_instruction;
                    i += 1;
                } else {
                    proof {
                        lemma_emit(instructions@, current_instruction, offset_adds_from(current_instruction@, s.skip(i + 1)), offset_adds_from(s[i + 1], s.skip(i + 2)), with_offset_adds(s));
                    }
                    instructions.push(current_instruction);
                    current_instruction = self.instructions[i + 1].copy();
                    i += 1;
                }
            } else {
                proof {
                    lemma_emit(instructions@, current_instruction, offset_adds_from(current_instruction@, s.skip(i + 1)), offset_adds_from(s[i + 1], s.skip(i + 2)), with_offset_adds(s));
                }
                instructions.push(current_instruction);
                current_instruction = self.instructions[i + 1].copy();
                i += 1;
            }
        }
        self.instructions = instructions;
        proof {
            self.lemma_view();
        }
    }

    pub(crate) fn eliminate_dead_pointer_instructions(&mut self)
        ensures
            final(self)@ == without_dead_pointers(old(self)@),
        decreases seq_size(old(self)@),
    {
        proof {
            self.lemma_view();
        }
        let ghost s = self@;
        let len = self.instructions.len();
        let mut instructions: Vec<Instruction> = Vec::new();
        let mut i: usize = 0;
        proof {
            lemma_start(s, without_dead_pointers(s));
        }
        while i < len
            invariant
                len == self.instructions@.len(),
                s == view_seq(self.instructions@),
                s == old(self)@,
                i <= len,
                view_seq(instructions@) + without_dead_pointers(s.skip(i as int)) == without_dead_pointers(s),
            decreases len - i,
        {
            proof {
                lemma_seq_size_skip(s, i as int);
                lemma_skip_skip(s, i as int, 1);
                assert(s.skip(i as int)[0] == s[i as int]);
            }
            match &self.instructions[i] {
                Instruction::Loop(b) => {
                    proof {
                        lemma_seq_size_elem(s, i as int);
                    }
                    let mut body = b.copy();
                    body.eliminate_dead_pointer_instructions();
                    let ins = Instruction::Loop(body);
                    proof {
                        lemma_emit(instructions@, ins, without_dead_pointers(s.skip(i as int)), without_dead_pointers(s.skip(i + 1)), without_dead_pointers(s));
                    }
                    instructions.push(ins);
                    i += 1;
                },
                Instruction::Pointer(offset) => {
                    if *offset != 0 {
                        let ins = self.instructions[i].copy();
                        proof {
                            lemma_emit(instructions@, ins, without_dead_pointers(s.skip(i as int)), without_dead_pointers(s.skip(i + 1)), without_dead_pointers(s));
                        }
                        instructions.push(ins);
                        i += 1;
                    } else {
                        proof {
                            lemma_empty_prefix(without_dead_pointers(s.skip(i + 1)));
                        }
                        i += 1;
                    }
                },
                _ => {
                    let ins = self.instructions[i].copy();
                    proof {
                        lemma_emit(instructions@, ins, without_dead_pointers(s.skip(i as int)), without_dead_pointers(s.skip(i + 1)), without_dead_pointers(s));
                    }
                    instructions.push(ins);
                    i += 1;
                },
            }
        }
        self.instructions = instructions;
        proof {
            self.lemma_view();
            lemma_finish(s, self.instructions@);
        }
    }

    pub(crate) fn eliminate_dead_memory_instructions(&mut self)
        ensures
            final(self)@ == without_dead_memory(old(self)@),
        decreases seq_size(old(self)@),
    {
        proof {
            self.lemma_view();
        }
        let ghost s = self@;
        let len = self.instructions.len();
        let mut instructions: Vec<Instruction> = Vec::new();
        let mut i: usize = 0;
        proof {
            lemma_start(s, without_dead_memory(s));
        }
        while i < len
            invariant
                len == self.instructions@.len(),
                s == view_seq(self.instructions@),
                s == old(self)@,
                i <= len,
                view_seq(instructions@) + without_dead_memory(s.skip(i as int)) == without_dead_memory(s),
            decreases len - i,
        {
            proof {
                lemma_seq_size_skip(s, i as int);
                lemma_skip_skip(s, i as int, 1);
                assert(s.skip(i as int)[0] == s[i as int]);
            }
            match &self.instructions[i] {
                Instruction::Loop(b) => {
                    proof {
                        lemma_seq_size_elem(s, i as int);
                    }
                    let mut body = b.copy();
                    body.eliminate_dead_memory_instructions();
                    let ins = Instruction::Loop(body);
                    proof {
                        lemma_emit(instructions@, ins, without_dead_memory(s.skip(i as int)), without_dead_memory(s.skip(i + 1)), without_dead_memory(s));
                    }
                    instructions.push(ins);
                    i += 1;
                },
                Instruction::Memory(val) => {
                    if *val != 0 {
                        let ins = self.instructions[i].copy();
                        proof {
                            lemma_emit(instructions@, ins, without_dead_memory(s.skip(i as int)), without_dead_memory(s.skip(i + 1)), without_dead_memory(s));
                        }
                        instructions.push(ins);
                        i += 1;
                    } else {
                        proof {
                            lemma_empty_prefix(without_dead_memory(s.skip(i + 1)));
                        }
                        i += 1;
                    }
                },
                _ => {
                    let ins = self.instructions[i].copy();
                    proof {
                        lemma_emit(instructions@, ins, without_dead_memory(s.skip(i as int)), without_dead_memory(s.skip(i + 1)), without_dead_memory(s));
                    }
                    instructions.push(ins);
                    i += 1;
                },
            }
        }
        self.instructions = instructions;
        proof {
            self.lemma_view();
            lemma_finish(s, self.instructions@);
        }
    }

    pub(crate) fn eliminate_dead_offset_add_instructions(&mut self)
        ensures
            final(self)@ == without_dead_offset_adds(old(self)@),
        decreases seq_size(old(self)@),
    {
        proof {
            self.lemma_view();
        }
        let ghost s = self@;
        let len = self.instructions.len();
        let mut i: usize = 0;
        let mut instructions: Vec<Instruction> = Vec::new();
        proof {
            lemma_start(s, without_dead_offset_adds(s));
        }
        while i < len
            invariant
                len == self.instructions@.len(),
                s == view_seq(self.instructions@),
                s == old(self)@,
                i <= len,
                view_seq(instructions@) + without_dead_offset_adds(s.skip(i as int)) == without_dead_offset_adds(s),
            decreases len - i,
        {
            proof {
                lemma_seq_size_skip(s, i as int);
                lemma_skip_skip(s, i as int, 1);
                assert(s.skip(i as int)[0] == s[i as int]);
            }
            match &self.instructions[i] {
                Instruction::Loop(b) => {
                    proof {
                        lemma_seq_size_elem(s, i as int);
                    }
                    let mut body = b.copy();
                    body.eliminate_dead_offset_add_instructions();
                    let ins = Instruction::Loop(body);
                    proof {
                        lemma_emit(instructions@, ins, without_dead_offset_adds(s.skip(i as int)), without_dead_offset_adds(s.skip(i + 1)), without_dead_offset_adds(s));
                    }
                    instructions.push(ins);
                    i += 1;
                },
                Instruction::OffsetAdd((offset, val)) => {
                    if *offset == 0 && *val == 0 {
                        proof {
                            lemma_empty_prefix(without_dead_offset_adds(s.skip(i + 1)));
                        }
                        i += 1;
                        continue;
                    }
                    let ins = if *val == 0 {
                        Instruction::Pointer(*offset)
                    } else if *offset == 0 {
                        Instruction::Memory(*val)
                    } else {
                        self.instructions[i].copy()
                    };
                    proof {
                        lemma_emit(instructions@, ins, without_dead_offset_adds(s.skip(i as int)), without_dead_offset_adds(s.skip(i + 1)), without_dead_offset_adds(s));
                    }
                    instructions.push(ins);
                    i += 1;
                },
                _ => {
                    let ins = self.instructions[i].copy();
                    proof {
                        lemma_emit(instructions@, ins, without_dead_offset_adds(s.skip(i as int)), without_dead_offset_adds(s.skip(i + 1)), without_dead_offset_adds(s));
                    }
                    instructions.push(ins);
                    i += 1;
                },
            }
        }
        self.instructions = instructions;
        proof {
            self.lemma_view();
            lemma_finish(s, self.instructions@);
        }
    }
}

} // verus!

verus! {

pub proof fn lemma_bodies_cons(x: Op, t: Seq<Op>)
    ensures
        bodies_nonempty(seq![x] + t) == ((x is Loop ==> blocks_nonempty(x->Loop_0)) && bodies_nonempty(t)),
{
    let u = seq![x] + t;
    assert(u[0] == x);
    assert(u.skip(1) =~= t);
}

pub proof fn lemma_bodies_tail(s: Seq<Op>)
    requires
        s.len() > 0,
    ensures
        bodies_nonempty(s) == ((s[0] is Loop ==> blocks_nonempty(s[0]->Loop_0)) && bodies_nonempty(s.skip(1))),
{
}

proof fn lemma_grouped_adds_nonempty(s: Seq<Op>)
    requires
        bodies_nonempty(s),
    ensures
        bodies_nonempty(grouped_adds(s)),
        s.len() > 0 ==> grouped_adds(s).len() > 0,
    decreases seq_size(s), 1int,
{
    if s.len() > 0 {
        lemma_seq_size_elem(s, 0);
        lemma_seq_size_skip(s, 1);
        lemma_bodies_tail(s);
        match s[0] {
            Op::Loop(body) => {
                lemma_grouped_adds_nonempty(body);
                lemma_grouped_adds_nonempty(s.skip(1));
                lemma_bodies_cons(Op::Loop(grouped_adds(body)), grouped_adds(s.skip(1)));
            },
            Op::Memory(v) => {
                lemma_merged_adds_nonempty(v, s.skip(1));
            },
            _ => {
                lemma_grouped_adds_nonempty(s.skip(1));
                lemma_bodies_cons(s[0], grouped_adds(s.skip(1)));
            },
        }
    }
}

proof fn lemma_merged_adds_nonempty(v: u8, rest: Seq<Op>)
    requires
        bodies_nonempty(rest),
    ensures
        bodies_nonempty(merged_adds(v, rest)),
        merged_adds(v, rest).len() > 0,
    decreases seq_size(rest), 2int,
{
    if rest.len() > 0 && rest[0] is Memory {
        lemma_seq_size_skip(rest, 1);
        lemma_bodies_tail(rest);
        lemma_merged_adds_nonempty(v.wrapping_add(rest[0]->Memory_0), rest.skip(1));
    } else {
        lemma_grouped_adds_nonempty(rest);
        lemma_bodies_cons(Op::Memory(v), grouped_adds(rest));
    }
}

proof fn lemma_grouped_pointers_nonempty(s: Seq<Op>)
    requires
        bodies_nonempty(s),
    ensures
        bodies_nonempty(grouped_pointers(s)),
        s.len() > 0 ==> grouped_pointers(s).len() > 0,
    decreases seq_size(s), 1int,
{
    if s.len() > 0 {
        lemma_seq_size_elem(s, 0);
        lemma_seq_size_skip(s, 1);
        lemma_bodies_tail(s);
        match s[0] {
            Op::Loop(body) => {
                lemma_grouped_pointers_nonempty(body);
                lemma_grouped_pointers_nonempty(s.skip(1));
                lemma_bodies_cons(Op::Loop(grouped_pointers(body)), grouped_pointers(s.skip(1)));
            },
            Op::Pointer(v) => {
                lemma_merged_pointers_nonempty(v, s.skip(1));
            },
            _ => {
                lemma_grouped_pointers_nonempty(s.skip(1));
                lemma_bodies_cons(s[0], grouped_pointers(s.skip(1)));
            },
        }
    }
}

proof fn lemma_merged_pointers_nonempty(v: usize, rest: Seq<Op>)
    requires
        bodies_nonempty(rest),
    ensures
        bodies_nonempty(merged_pointers(v, rest)),
        merged_pointers(v, rest).len() > 0,
    decreases seq_size(rest), 2int,
{
    if rest.len() > 0 && rest[0] is Pointer {
        lemma_seq_size_skip(rest, 1);
        lemma_bodies_tail(rest);
        lemma_merged_pointers_nonempty(v.wrapping_add(rest[0]->Pointer_0), rest.skip(1));
    } else {
        lemma_grouped_pointers_nonempty(rest);
        lemma_bodies_cons(Op::Pointer(v), grouped_pointers(rest));
    }
}

proof fn lemma_cleared_cells_nonempty(s: Seq<Op>)
    requires
        bodies_nonempty(s),
    ensures
        bodies_nonempty(cleared_cells(s)),
        cleared_cells(s).len() == s.len(),
    decreases seq_size(s),
{
    if s.len() > 0 {
        lemma_seq_size_elem(s, 0);
        lemma_seq_size_skip(s, 1);
        lemma_bodies_tail(s);
        lemma_cleared_cells_nonempty(s.skip(1));
        if let Op::Loop(body) = s[0] {
            lemma_cleared_cells_nonempty(body);
        }
        let head = match s[0] {
            Op::Loop(body) => if body.len() == 1 && body[0] is Memory {
                if body[0] == Op::Memory(255) {
                    Op::ClearCell
                } else {
                    s[0]
                }
            } else {
                Op::Loop(cleared_cells(body))
            },
            _ => s[0],
        };
        lemma_bodies_cons(head, cleared_cells(s.skip(1)));
    }
}

impl ByteCodeObject {
    /// Runs the optimisation passes, in order: grouping of additions, grouping
    /// of moves, clearing loops, offset additions, removal of dead additions,
    /// of dead moves, of dead offset additions, and spreads.
    pub fn optimize(&mut self)
        requires
            blocks_nonempty(old(self)@),
        ensures
            final(self)@ == optimized(old(self)@),
    {
        let ghost s = self@;
        self.group_add_instructions();
        self.group_add_pointer_instructions();
        self.add_clear_cell_instructions();
        proof {
            lemma_grouped_adds_nonempty(s);
            lemma_grouped_pointers_nonempty(grouped_adds(s));
            lemma_cleared_cells_nonempty(grouped_pointers(grouped_adds(s)));
        }
        self.add_add_offset_instructions();
        self.eliminate_dead_memory_instructions();
        self.eliminate_dead_pointer_instructions();
        self.eliminate_dead_offset_add_instructions();
        self.add_spread_instructions();
    }
}

} // verus!

verus! {

impl ByteCodeObject {
    /// Whether the program and every loop body hold at least one instruction,
    /// which `optimize` requires.
    pub fn all_blocks_nonempty(&self) -> (b: bool)
        ensures
            b == blocks_nonempty(self@),
        decreases seq_size(self@),
    {
        proof {
            self.lemma_view();
        }
        let ghost s = self@;
        let len = self.instructions.len();
        if len == 0 {
            return false;
        }
        let mut i: usize = 0;
        proof {
            assert(s.skip(0) =~= s);
        }
        while i < len
            invariant
                len == self.instructions@.len(),
                s == view_seq(self.instructions@),
                s == self@,
                i <= len,
                bodies_nonempty(s) == bodies_nonempty(s.skip(i as int)),
            decreases len - i,
        {
            proof {
                lemma_skip_skip(s, i as int, 1);
                assert(s.skip(i as int)[0] == s[i as int]);
                lemma_bodies_tail(s.skip(i as int));
            }
            if let Instruction::Loop(b) = &self.instructions[i] {
                proof {
                    lemma_seq_size_elem(s, i as int);
                }
                if !b.all_blocks_nonempty() {
                    return false;
                }
            }
            i += 1;
        }
        proof {
            assert(s.skip(len as int).len() == 0);
        }
        true
    }
}

} // verus!
