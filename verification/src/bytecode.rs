use vstd::prelude::*;

verus! {

/// The mathematical model of one bytecode instruction.
pub enum Op {
    /// Add the value (mod 256) to the current cell.
    Memory(u8),
    /// Move the tape pointer by the value (mod 2^bits of usize).
    Pointer(usize),
    /// Add the value to the cell at the given offset from the pointer.
    OffsetAdd(usize, u8),
    /// Add the first value to the current cell, then each pair's value to the
    /// cell at the pair's offset.
    Spread(u8, Seq<(usize, u8)>),
    /// Run the body while the current cell is not zero.
    Loop(Seq<Op>),
    /// Set the current cell to zero.
    ClearCell,
    /// Read one byte into the current cell.
    Input,
    /// Write the current cell as a character.
    Output,
}

/// Number of nodes of an instruction tree; it bounds every recursion here.
pub open spec fn op_size(op: Op) -> nat
    decreases op,
{
    match op {
        Op::Loop(body) => 1 + seq_size(body),
        _ => 1,
    }
}

/// Number of nodes of a sequence of instruction trees.
pub open spec fn seq_size(s: Seq<Op>) -> nat
    decreases s,
{
    if s.len() == 0 {
        0
    } else {
        op_size(s[0]) + seq_size(s.subrange(1, s.len() as int))
    }
}

pub proof fn lemma_seq_size_elem(s: Seq<Op>, i: int)
    requires
        0 <= i < s.len(),
    ensures
        op_size(s[i]) <= seq_size(s),
        op_size(s[i]) >= 1,
    decreases s.len(),
{
    if i > 0 {
        lemma_seq_size_elem(s.subrange(1, s.len() as int), i - 1);
    }
}

pub proof fn lemma_seq_size_skip(s: Seq<Op>, k: int)
    requires
        0 <= k <= s.len(),
    ensures
        seq_size(s.subrange(k, s.len() as int)) <= seq_size(s),
        k > 0 ==> seq_size(s.subrange(k, s.len() as int)) < seq_size(s),
    decreases k,
{
    if k == 0 {
        assert(s.subrange(0, s.len() as int) =~= s);
    } else {
        lemma_seq_size_skip(s.subrange(1, s.len() as int), k - 1);
        assert(s.subrange(1, s.len() as int).subrange(k - 1, s.len() - 1) =~= s.subrange(k, s.len() as int));
        lemma_seq_size_elem(s, 0);
    }
}

#[derive(Debug)]
pub(crate) enum Instruction {
    Memory(u8),
    Pointer(usize),
    OffsetAdd((usize, u8)),
    Spread(u8, Vec<(usize, u8)>),
    Loop(ByteCodeObject),
    ClearCell,
    Input,
    Output,
}

/// A program: a sequence of instructions, loops holding their bodies.
#[derive(Debug)]
pub struct ByteCodeObject {
    pub(crate) instructions: Vec<Instruction>,
}

impl Instruction {
    pub(crate) open spec fn view(&self) -> Op
        decreases self,
    {
        match self {
            Instruction::Memory(v) => Op::Memory(*v),
            Instruction::Pointer(v) => Op::Pointer(*v),
            Instruction::OffsetAdd(p) => Op::OffsetAdd(p.0, p.1),
            Instruction::Spread(m, vals) => Op::Spread(*m, vals@),
            Instruction::Loop(b) => Op::Loop(b.view()),
            Instruction::ClearCell => Op::ClearCell,
            Instruction::Input => Op::Input,
            Instruction::Output => Op::Output,
        }
    }

    pub(crate) fn copy(&self) -> (r: Instruction)
        ensures
            r@ == self@,
        decreases self,
    {
        match self {
            Instruction::Memory(v) => Instruction::Memory(*v),
            Instruction::Pointer(v) => Instruction::Pointer(*v),
            Instruction::OffsetAdd(p) => Instruction::OffsetAdd(*p),
            Instruction::Spread(m, vals) => Instruction::Spread(*m, copy_pairs(vals)),
            Instruction::Loop(b) => Instruction::Loop(b.copy()),
            Instruction::ClearCell => Instruction::ClearCell,
            Instruction::Input => Instruction::Input,
            Instruction::Output => Instruction::Output,
        }
    }

    pub(crate) fn add(num: u8) -> (r: Instruction)
        ensures
            r@ == Op::Memory(num),
    {
        Instruction::Memory(num)
    }

    pub(crate) fn loop_instruction(instructions: ByteCodeObject) -> (r: Instruction)
        ensures
            r@ == Op::Loop(instructions@),
    {
        Instruction::Loop(instructions)
    }

    pub(crate) fn input() -> (r: Instruction)
        ensures
            r@ == Op::Input,
    {
        Instruction::Input
    }

    pub(crate) fn output() -> (r: Instruction)
        ensures
            r@ == Op::Output,
    {
        Instruction::Output
    }

    pub(crate) fn add_pointer(num: usize) -> (r: Instruction)
        ensures
            r@ == Op::Pointer(num),
    {
        Instruction::Pointer(num)
    }
}

pub(crate) fn copy_pairs(v: &Vec<(usize, u8)>) -> (r: Vec<(usize, u8)>)
    ensures
        r@ == v@,
{
    let mut r: Vec<(usize, u8)> = Vec::new();
    let mut i: usize = 0;
    while i < v.len()
        invariant
            i <= v.len(),
            r@ == v@.take(i as int),
        decreases v.len() - i,
    {
        r.push(v[i]);
        i += 1;
        assert(r@ =~= v@.take(i as int));
    }
    assert(v@.take(v.len() as int) =~= v@);
    r
}

/// The model of a sequence of exec instructions.
pub(crate) open spec fn view_seq(s: Seq<Instruction>) -> Seq<Op> {
    Seq::new(s.len(), |i: int| s[i]@)
}

impl ByteCodeObject {
    /// The program as a sequence of model instructions.
    pub closed spec fn view(&self) -> Seq<Op>
        decreases self,
    {
        Seq::new(
            self.instructions@.len(),
            |i: int|
                if 0 <= i < self.instructions@.len() {
                    self.instructions@[i].view()
                } else {
                    Op::Input
                },
        )
    }

    pub(crate) proof fn lemma_view(&self)
        ensures
            self@ == view_seq(self.instructions@),
    {
        assert(self@ =~= view_seq(self.instructions@));
    }

    pub(crate) fn copy(&self) -> (r: ByteCodeObject)
        ensures
            r@ == self@,
        decreases self,
    {
        let mut out: Vec<Instruction> = Vec::new();
        let mut i: usize = 0;
        while i < self.instructions.len()
            invariant
                i <= self.instructions@.len(),
                out@.len() == i,
                view_seq(out@) == view_seq(self.instructions@).take(i as int),
            decreases self.instructions.len() - i,
        {
            assert(decreases_to!(self => self.instructions));
            let c = self.instructions[i].copy();
            let ghost prev = out@;
            out.push(c);
            i += 1;
            assert forall|j: int| 0 <= j < i implies #[trigger] view_seq(out@)[j] == view_seq(self.instructions@)[j] by {
                if j < i - 1 {
                    assert(out@[j] == prev[j]);
                    assert(view_seq(prev)[j] == view_seq(self.instructions@).take(i - 1)[j]);
                }
            }
            assert(view_seq(out@) =~= view_seq(self.instructions@).take(i as int));
        }
        assert(view_seq(self.instructions@).take(i as int) =~= view_seq(self.instructions@));
        let r = ByteCodeObject { instructions: out };
        proof {
            r.lemma_view();
            self.lemma_view();
        }
        r
    }

    pub(crate) fn from_vec(instructions: Vec<Instruction>) -> (r: ByteCodeObject)
        ensures
            r@ == view_seq(instructions@),
    {
        let r = ByteCodeObject { instructions };
        proof {
            r.lemma_view();
        }
        r
    }
}

} // verus!

verus! {

impl Clone for ByteCodeObject {
    fn clone(&self) -> (r: ByteCodeObject)
        ensures
            r@ == self@,
    {
        self.copy()
    }
}

} // verus!
