use vstd::prelude::*;
use crate::bytecode::{Op, Instruction, ByteCodeObject, view_seq};
use crate::semantics::{add_cell, apply_pairs, pairs_fit};
use crate::text::byte_char_text;
use vstd::string::*;

verus! {

/// Number of cells on the tape of a new interpreter.
pub const TAPE_LEN: usize = 30000;

/// The model of an interpreter between two steps.
pub struct Machine {
    pub tape: Seq<u8>,
    pub pointer: usize,
    /// Everything written so far.
    pub output: Seq<char>,
    /// Where execution stands: each entry but the last is the position of a
    /// loop being run in the block the previous entries lead to; the last is
    /// the position of the next instruction in the innermost block.
    pub frames: Seq<usize>,
}

/// What one step did, or what it waits for.
#[derive(PartialEq, Eq, Structural, Debug, Clone, Copy)]
pub enum Action {
    /// An instruction was run; more may follow.
    Continue,
    /// The next instruction reads a byte; the step is to be repeated with one.
    NeedInput,
    /// An `Output` instruction wrote this byte.
    Output(u8),
    /// The program has ended, or the position of the machine does not lie in
    /// the program it was given.
    Halted,
    /// The instruction would read or write a cell beyond the tape; nothing was run.
    OutOfBounds,
}

/// The block reached by following the loop positions of `path` from `prog`;
/// `None` when a position is not that of a loop.
pub open spec fn block_at(prog: Seq<Op>, path: Seq<usize>) -> Option<Seq<Op>>
    decreases path.len(),
{
    if path.len() == 0 {
        Some(prog)
    } else {
        match block_at(prog, path.drop_last()) {
            Some(b) => if path.last() < b.len() {
                match b[path.last() as int] {
                    Op::Loop(body) => Some(body),
                    _ => None,
                }
            } else {
                None
            },
            None => None,
        }
    }
}

/// The machine moved on to the next instruction of its block.
pub open spec fn advance(m: Machine) -> Machine {
    let last = m.frames.len() - 1;
    Machine { frames: m.frames.update(last, (m.frames[last] + 1) as usize), ..m }
}

/// Runs instruction `op`, the next one of the machine.
pub open spec fn run_instruction(op: Op, m: Machine, input: Option<u8>) -> (Machine, Action) {
    let p = m.pointer;
    let fits = p < m.tape.len();
    match op {
        Op::Memory(v) => if fits {
            (advance(Machine { tape: add_cell(m.tape, p, v), ..m }), Action::Continue)
        } else {
            (m, Action::OutOfBounds)
        },
        Op::Pointer(o) => (advance(Machine { pointer: p.wrapping_add(o), ..m }), Action::Continue),
        Op::OffsetAdd(o, v) => if p.wrapping_add(o) < m.tape.len() {
            (advance(Machine { tape: add_cell(m.tape, p.wrapping_add(o), v), ..m }), Action::Continue)
        } else {
            (m, Action::OutOfBounds)
        },
        Op::Spread(v, vals) => if fits && pairs_fit(m.tape.len(), p, vals) {
            (advance(Machine { tape: apply_pairs(add_cell(m.tape, p, v), p, vals), ..m }), Action::Continue)
        } else {
            (m, Action::OutOfBounds)
        },
        Op::Loop(_) => if !fits {
            (m, Action::OutOfBounds)
        } else if m.tape[p as int] != 0 {
            (Machine { frames: m.frames.push(0), ..m }, Action::Continue)
        } else {
            (advance(m), Action::Continue)
        },
        Op::ClearCell => if fits {
            (advance(Machine { tape: m.tape.update(p as int, 0), ..m }), Action::Continue)
        } else {
            (m, Action::OutOfBounds)
        },
        Op::Input => match input {
            None => (m, Action::NeedInput),
            Some(b) => if fits {
                (advance(Machine { tape: m.tape.update(p as int, b), ..m }), Action::Continue)
            } else {
                (m, Action::OutOfBounds)
            },
        },
        Op::Output => if fits {
            (
                advance(Machine { output: m.output.push(m.tape[p as int] as char), ..m }),
                Action::Output(m.tape[p as int]),
            )
        } else {
            (m, Action::OutOfBounds)
        },
    }
}

/// One step of the machine on program `prog`. At the end of a loop body the
/// machine goes back to the loop, which tests its cell again; at the end of
/// the program, or when the frames do not lead into `prog`, it halts.
pub open spec fn machine_step(prog: Seq<Op>, m: Machine, input: Option<u8>) -> (Machine, Action) {
    if m.frames.len() == 0 {
        (m, Action::Halted)
    } else {
        let d = m.frames.len() - 1;
        let idx = m.frames[d];
        match block_at(prog, m.frames.take(d)) {
            None => (m, Action::Halted),
            Some(block) => if idx < block.len() {
                run_instruction(block[idx as int], m, input)
            } else if d == 0 {
                (m, Action::Halted)
            } else {
                (Machine { frames: m.frames.take(d), ..m }, Action::Continue)
            },
        }
    }
}

pub proof fn lemma_block_at_none(prog: Seq<Op>, path: Seq<usize>, d: int)
    requires
        0 <= d <= path.len(),
        block_at(prog, path.take(d)) is None,
    ensures
        block_at(prog, path) is None,
    decreases path.len() - d,
{
    if d < path.len() {
        assert(path.take(d + 1).drop_last() =~= path.take(d));
        lemma_block_at_none(prog, path, d + 1);
    } else {
        assert(path.take(d) =~= path);
    }
}

/// Appends the character whose code is `b` to `s`.
fn push_char(s: &mut String, b: u8)
    ensures
        final(s)@ == old(s)@.push(b as char),
{
    let piece = byte_char_text(b);
    s.append(piece);
    assert(old(s)@ + seq![b as char] =~= old(s)@.push(b as char));
}

/// A copy of `v`.
fn copy_vec<T: Copy>(v: &Vec<T>) -> (r: Vec<T>)
    ensures
        r@ == v@,
{
    let mut r: Vec<T> = Vec::new();
    let mut i: usize = 0;
    while i < v.len()
        invariant
            i <= v@.len(),
            r@ == v@.take(i as int),
        decreases v.len() - i,
    {
        r.push(v[i]);
        i += 1;
        assert(r@ =~= v@.take(i as int));
    }
    assert(v@.take(i as int) =~= v@);
    r
}

/// A Brainfuck interpreter: a tape of cells, a pointer into it, what the
/// program has written, and where execution stands.
#[derive(Debug)]
pub struct ByteCodeInterpreter {
    tape: Vec<u8>,
    tape_pointer: usize,
    output_log: String,
    frames: Vec<usize>,
}

impl ByteCodeInterpreter {
    pub closed spec fn view(&self) -> Machine {
        Machine {
            tape: self.tape@,
            pointer: self.tape_pointer,
            output: self.output_log@,
            frames: self.frames@,
        }
    }

    /// An interpreter with `TAPE_LEN` zero cells, the pointer on the first,
    /// nothing written, about to run the first instruction of a program.
    pub fn new() -> (r: ByteCodeInterpreter)
        ensures
            r@.tape == Seq::new(TAPE_LEN as nat, |i: int| 0u8),
            r@.pointer == 0,
            r@.output == Seq::<char>::empty(),
            r@.frames == seq![0usize],
    {
        let mut tape: Vec<u8> = Vec::new();
        let mut i: usize = 0;
        while i < TAPE_LEN
            invariant
                i <= TAPE_LEN,
                tape@ == Seq::new(i as nat, |k: int| 0u8),
            decreases TAPE_LEN - i,
        {
            tape.push(0);
            i += 1;
            assert(tape@ =~= Seq::new(i as nat, |k: int| 0u8));
        }
        let mut frames: Vec<usize> = Vec::new();
        frames.push(0);
        ByteCodeInterpreter { tape, tape_pointer: 0, output_log: String::new(), frames }
    }

    /// Goes back to the first instruction of a program, keeping the tape, the
    /// pointer and what was written.
    pub fn start(&mut self)
        ensures
            final(self)@ == (Machine { frames: seq![0usize], ..old(self)@ }),
    {
        let mut frames: Vec<usize> = Vec::new();
        frames.push(0);
        self.frames = frames;
    }

    /// Everything the program has written so far.
    pub fn output_log(&self) -> (s: &str)
        ensures
            s@ == self@.output,
    {
        self.output_log.as_str()
    }

    /// Runs one instruction of `instructions`; see `machine_step`. `input` is
    /// the byte for an `Input` instruction, which waits for one when it is
    /// `None`.
    pub fn step(&mut self, instructions: &ByteCodeObject, input: Option<u8>) -> (a: Action)
        ensures
            (final(self)@, a) == machine_step(instructions@, old(self)@, input),
    {
        let ghost prog = instructions@;
        let ghost m = self@;
        if self.frames.len() == 0 {
            return Action::Halted;
        }
        let d = self.frames.len() - 1;
        let mut block: &Vec<Instruction> = &instructions.instructions;
        let mut k: usize = 0;
        proof {
            instructions.lemma_view();
            assert(m.frames.take(0) =~= Seq::<usize>::empty());
        }
        while k < d
            invariant
                m == self@,
                m == old(self)@,
                prog == instructions@,
                d == self.frames@.len() - 1,
                k <= d,
                block_at(prog, m.frames.take(k as int)) == Some(view_seq(block@)),
            decreases d - k,
        {
            let idx = self.frames[k];
            proof {
                assert(m.frames.take(k + 1).drop_last() =~= m.frames.take(k as int));
                assert(m.frames.take(k + 1).last() == idx);
            }
            if idx < block.len() {
                match &block[idx] {
                    Instruction::Loop(b) => {
                        proof {
                            b.lemma_view();
                        }
                        block = &b.instructions;
                    },
                    _ => {
                        proof {
                            assert(view_seq(block@)[idx as int] == block@[idx as int]@);
                            assert(block_at(prog, m.frames.take(k + 1)) is None);
                            assert(m.frames.take(d as int).take(k + 1) =~= m.frames.take(k + 1));
                            lemma_block_at_none(prog, m.frames.take(d as int), k + 1);
                        }
                        return Action::Halted;
                    },
                }
            } else {
                proof {
                    assert(block_at(prog, m.frames.take(k + 1)) is None);
                    assert(m.frames.take(d as int).take(k + 1) =~= m.frames.take(k + 1));
                    lemma_block_at_none(prog, m.frames.take(d as int), k + 1);
                }
                return Action::Halted;
            }
            k += 1;
        }
        let idx = self.frames[d];
        if idx >= block.len() {
            if d == 0 {
                return Action::Halted;
            }
            self.frames.pop();
            proof {
                assert(self.frames@ =~= m.frames.take(d as int));
            }
            return Action::Continue;
        }
        let p = self.tape_pointer;
        let fits = p < self.tape.len();
        proof {
            assert(machine_step(prog, m, input) == run_instruction(block@[idx as int]@, m, input));
        }
        match &block[idx] {
            Instruction::Memory(v) => {
                if !fits {
                    return Action::OutOfBounds;
                }
                let cell = self.tape[p];
                self.tape.set(p, cell.wrapping_add(*v));
            },
            Instruction::Pointer(o) => {
                self.tape_pointer = p.wrapping_add(*o);
            },
            Instruction::OffsetAdd((o, v)) => {
                let q = p.wrapping_add(*o);
                if q >= self.tape.len() {
                    return Action::OutOfBounds;
                }
                let cell = self.tape[q];
                self.tape.set(q, cell.wrapping_add(*v));
            },
            Instruction::Spread(v, vals) => {
                if !fits {
                    return Action::OutOfBounds;
                }
                let mut j: usize = 0;
                while j < vals.len()
                    invariant
                        j <= vals@.len(),
                        self@ == m,
                        m == old(self)@,
                        p == m.pointer,
                        p < m.tape.len(),
                        prog == instructions@,
                        machine_step(prog, m, input) == run_instruction(Op::Spread(*v, vals@), m, input),
                        forall|k: int| 0 <= k < j ==> p.wrapping_add(#[trigger] vals@[k].0) < m.tape.len(),
                    decreases vals.len() - j,
                {
                    if p.wrapping_add(vals[j].0) >= self.tape.len() {
                        proof {
                            assert(!pairs_fit(m.tape.len(), p, vals@)) by {
                                assert(!(p.wrapping_add(vals@[j as int].0) < m.tape.len()));
                            }
                        }
                        return Action::OutOfBounds;
                    }
                    j += 1;
                }
                let cell = self.tape[p];
                self.tape.set(p, cell.wrapping_add(*v));
                let ghost base = self.tape@;
                j = 0;
                proof {
                    assert(vals@.skip(0) =~= vals@);
                }
                while j < vals.len()
                    invariant
                        j <= vals@.len(),
                        self.tape@.len() == m.tape.len(),
                        self.frames@ == m.frames,
                        self.tape_pointer == p,
                        self.output_log@ == m.output,
                        pairs_fit(m.tape.len(), p, vals@),
                        apply_pairs(self.tape@, p, vals@.skip(j as int)) == apply_pairs(base, p, vals@),
                    decreases vals.len() - j,
                {
                    let q = p.wrapping_add(vals[j].0);
                    let cell = self.tape[q];
                    proof {
                        assert(vals@.skip(j as int)[0] == vals@[j as int]);
                        assert(vals@.skip(j as int).skip(1) =~= vals@.skip(j + 1));
                    }
                    self.tape.set(q, cell.wrapping_add(vals[j].1));
                    j += 1;
                }
                proof {
                    assert(vals@.skip(j as int) =~= Seq::<(usize, u8)>::empty());
                }
            },
            Instruction::Loop(_) => {
                if !fits {
                    return Action::OutOfBounds;
                }
                if self.tape[p] != 0 {
                    self.frames.push(0);
                    return Action::Continue;
                }
            },
            Instruction::ClearCell => {
                if !fits {
                    return Action::OutOfBounds;
                }
                self.tape.set(p, 0);
            },
            Instruction::Input => {
                match input {
                    None => {
                        return Action::NeedInput;
                    },
                    Some(b) => {
                        if !fits {
                            return Action::OutOfBounds;
                        }
                        self.tape.set(p, b);
                    },
                }
            },
            Instruction::Output => {
                if !fits {
                    return Action::OutOfBounds;
                }
                let thing = self.tape[p];
                push_char(&mut self.output_log, thing);
                self.frames.set(d, idx + 1);
                return Action::Output(thing);
            },
        }
        self.frames.set(d, idx + 1);
        Action::Continue
    }
}

impl Clone for ByteCodeInterpreter {
    fn clone(&self) -> (r: ByteCodeInterpreter)
        ensures
            r@ == self@,
    {
        ByteCodeInterpreter {
            tape: copy_vec(&self.tape),
            tape_pointer: self.tape_pointer,
            output_log: self.output_log.clone(),
            frames: copy_vec(&self.frames),
        }
    }
}

} // verus!
