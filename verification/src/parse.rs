use vstd::prelude::*;
use std::collections::HashMap;
use crate::bytecode::{Op, Instruction, ByteCodeObject, view_seq};
use crate::optimize::{blocks_nonempty, optimized, lemma_emit, lemma_skip_skip, lemma_finish};

verus! {

broadcast use vstd::std_specs::hash::group_hash_axioms;

/// The eight characters that carry meaning in a program.
pub open spec fn is_command(c: char) -> bool {
    c == '+' || c == '-' || c == '<' || c == '>' || c == '[' || c == ']' || c == ',' || c == '.'
}

/// The program text with every character that is not a command removed.
pub open spec fn cleaned(p: Seq<char>) -> Seq<char>
    decreases p.len(),
{
    if p.len() == 0 {
        seq![]
    } else {
        cleaned(p.drop_last()) + if is_command(p.last()) {
            seq![p.last()]
        } else {
            seq![]
        }
    }
}

/// How a character changes the bracket nesting.
pub open spec fn delta(c: char) -> int {
    if c == '[' {
        1
    } else if c == ']' {
        -1
    } else {
        0
    }
}

/// Opened brackets minus closed brackets.
pub open spec fn depth(s: Seq<char>) -> int
    decreases s.len(),
{
    if s.len() == 0 {
        0
    } else {
        depth(s.drop_last()) + delta(s.last())
    }
}

/// Every `]` closes an earlier `[`, and every `[` is closed.
pub open spec fn balanced(s: Seq<char>) -> bool {
    &&& depth(s) == 0
    &&& forall|k: int| 0 <= k <= s.len() ==> #[trigger] depth(s.take(k)) >= 0
}

/// Scanning from position `k` with nesting `d`, the first position at which
/// the nesting comes back to 0 after its character; the length of `s` when
/// there is none. For a `[` at `k` and `d == 0`, the position of its `]`.
pub open spec fn close_from(s: Seq<char>, k: int, d: int) -> int
    decreases s.len() - k,
{
    if k < 0 || k >= s.len() {
        s.len() as int
    } else {
        let d2 = d + delta(s[k]);
        if d2 == 0 {
            k
        } else {
            close_from(s, k + 1, d2)
        }
    }
}

/// The instruction of a command other than a bracket.
pub open spec fn command_op(c: char) -> Op {
    if c == '+' {
        Op::Memory(1)
    } else if c == '-' {
        Op::Memory(255)
    } else if c == '>' {
        Op::Pointer(1)
    } else if c == '<' {
        Op::Pointer(usize::MAX)
    } else if c == ',' {
        Op::Input
    } else {
        Op::Output
    }
}

/// The instructions of a cleaned program: a `[` and its `]` make a loop of
/// what they enclose; every other character is its `command_op`.
pub open spec fn parse(s: Seq<char>) -> Seq<Op>
    decreases s.len(),
{
    if s.len() == 0 {
        seq![]
    } else if s[0] == '[' {
        let j = close_from(s, 0, 0);
        if 0 < j < s.len() {
            seq![Op::Loop(parse(s.subrange(1, j)))] + parse(s.skip(j + 1))
        } else {
            seq![]
        }
    } else {
        seq![command_op(s[0])] + parse(s.skip(1))
    }
}

// ---------------------------------------------------------------------------
// Lemmas
// ---------------------------------------------------------------------------

pub proof fn lemma_cleaned_len(p: Seq<char>)
    ensures
        cleaned(p).len() <= p.len(),
        forall|i: int| 0 <= i < cleaned(p).len() ==> is_command(#[trigger] cleaned(p)[i]),
    decreases p.len(),
{
    if p.len() > 0 {
        lemma_cleaned_len(p.drop_last());
        let a = cleaned(p.drop_last());
        let b = if is_command(p.last()) { seq![p.last()] } else { Seq::<char>::empty() };
        assert forall|i: int| 0 <= i < cleaned(p).len() implies is_command(#[trigger] cleaned(p)[i]) by {
            if i < a.len() {
                assert(cleaned(p)[i] == a[i]);
            } else {
                assert(cleaned(p)[i] == b[i - a.len()]);
            }
        }
    }
}

pub proof fn lemma_cleaned_id(s: Seq<char>)
    requires
        forall|i: int| 0 <= i < s.len() ==> is_command(#[trigger] s[i]),
    ensures
        cleaned(s) == s,
    decreases s.len(),
{
    if s.len() > 0 {
        lemma_cleaned_id(s.drop_last());
        assert(s.drop_last().push(s.last()) =~= s);
        assert(cleaned(s.drop_last()) + seq![s.last()] =~= s);
    }
}

pub proof fn lemma_cleaned_step(p: Seq<char>, i: int)
    requires
        0 <= i < p.len(),
    ensures
        cleaned(p.take(i + 1)) == cleaned(p.take(i)) + if is_command(p[i]) {
            seq![p[i]]
        } else {
            seq![]
        },
{
    assert(p.take(i + 1).drop_last() =~= p.take(i));
}

pub proof fn lemma_depth_step(s: Seq<char>, k: int)
    requires
        0 <= k < s.len(),
    ensures
        depth(s.take(k + 1)) == depth(s.take(k)) + delta(s[k]),
{
    assert(s.take(k + 1).drop_last() =~= s.take(k));
}

pub proof fn lemma_depth_sub(s: Seq<char>, a: int, b: int)
    requires
        0 <= a <= b <= s.len(),
    ensures
        depth(s.subrange(a, b)) == depth(s.take(b)) - depth(s.take(a)),
    decreases b - a,
{
    if a == b {
        assert(s.subrange(a, b).len() == 0);
    } else {
        lemma_depth_sub(s, a, b - 1);
        assert(s.subrange(a, b).drop_last() =~= s.subrange(a, b - 1));
        lemma_depth_step(s, b - 1);
    }
}

pub proof fn lemma_depth_full(s: Seq<char>)
    ensures
        depth(s.take(s.len() as int)) == depth(s),
        depth(s.take(0)) == 0,
{
    assert(s.take(s.len() as int) =~= s);
    assert(s.take(0).len() == 0);
}

/// What `close_from` finds: the first position from `k` on at which the
/// nesting, started at `d`, comes back to 0.
pub proof fn lemma_close_from(s: Seq<char>, k: int, d: int)
    requires
        0 <= k <= s.len(),
    ensures
        k <= close_from(s, k, d) <= s.len(),
        forall|q: int|
            k <= q < close_from(s, k, d) ==> d + depth(#[trigger] s.take(q + 1)) - depth(s.take(k)) != 0,
        close_from(s, k, d) < s.len() ==> d + depth(s.take(close_from(s, k, d) + 1)) - depth(s.take(k)) == 0,
    decreases s.len() - k,
{
    if k < s.len() {
        lemma_depth_step(s, k);
        let d2 = d + delta(s[k]);
        if d2 != 0 {
            lemma_close_from(s, k + 1, d2);
        }
    }
}

/// The first such position is `r`.
pub proof fn lemma_close_is(s: Seq<char>, k: int, d: int, r: int)
    requires
        0 <= k <= r < s.len(),
        d + depth(s.take(r + 1)) - depth(s.take(k)) == 0,
        forall|q: int| k <= q < r ==> d + depth(#[trigger] s.take(q + 1)) - depth(s.take(k)) != 0,
    ensures
        close_from(s, k, d) == r,
{
    lemma_close_from(s, k, d);
    let c = close_from(s, k, d);
    if c < r {
        assert(d + depth(s.take(c + 1)) - depth(s.take(k)) != 0);
    } else if c > r {
        assert(d + depth(s.take(r + 1)) - depth(s.take(k)) != 0);
    }
}

/// Scanning a suffix finds the same position, counted from the suffix's start.
pub proof fn lemma_close_shift(s: Seq<char>, a: int, k: int, d: int)
    requires
        0 <= a <= k <= s.len(),
    ensures
        close_from(s.skip(a), k - a, d) == close_from(s, k, d) - a,
    decreases s.len() - k,
{
    if k < s.len() {
        assert(s.skip(a)[k - a] == s[k]);
        let d2 = d + delta(s[k]);
        if d2 != 0 {
            lemma_close_shift(s, a, k + 1, d2);
        }
    }
}

/// How a balanced program opening with `[` splits at its `]`.
pub proof fn lemma_balanced_open(t: Seq<char>)
    requires
        balanced(t),
        t.len() > 0,
        t[0] == '[',
    ensures
        0 < close_from(t, 0, 0) < t.len(),
        t[close_from(t, 0, 0)] == ']',
        balanced(t.subrange(1, close_from(t, 0, 0))),
        balanced(t.skip(close_from(t, 0, 0) + 1)),
{
    let n = t.len() as int;
    lemma_close_from(t, 0, 0);
    lemma_depth_full(t);
    lemma_depth_step(t, 0);
    let j = close_from(t, 0, 0);
    if j == n {
        assert(0 + depth(t.take(n - 1 + 1)) - depth(t.take(0)) != 0);
    }
    assert(j != 0);
    lemma_depth_step(t, j);
    assert(depth(t.take(j)) != 0) by {
        assert(0 + depth(t.take(j - 1 + 1)) - depth(t.take(0)) != 0);
    }
    assert(depth(t.take(j)) >= 0);
    let inner = t.subrange(1, j);
    lemma_depth_sub(t, 1, j);
    assert forall|k: int| 0 <= k <= inner.len() implies #[trigger] depth(inner.take(k)) >= 0 by {
        assert(inner.take(k) =~= t.subrange(1, 1 + k));
        lemma_depth_sub(t, 1, 1 + k);
        assert(0 + depth(t.take(k + 1)) - depth(t.take(0)) != 0);
        assert(depth(t.take(k + 1)) >= 0);
    }
    let rest = t.skip(j + 1);
    lemma_depth_sub(t, j + 1, n);
    assert forall|k: int| 0 <= k <= rest.len() implies #[trigger] depth(rest.take(k)) >= 0 by {
        assert(rest.take(k) =~= t.subrange(j + 1, j + 1 + k));
        lemma_depth_sub(t, j + 1, j + 1 + k);
        assert(depth(t.take(j + 1 + k)) >= 0);
    }
}

/// A balanced program opening with another command goes on balanced.
pub proof fn lemma_balanced_other(t: Seq<char>)
    requires
        balanced(t),
        t.len() > 0,
        t[0] != '[',
    ensures
        t[0] != ']',
        balanced(t.skip(1)),
{
    let n = t.len() as int;
    lemma_depth_full(t);
    lemma_depth_step(t, 0);
    assert(depth(t.take(1)) >= 0);
    let rest = t.skip(1);
    lemma_depth_sub(t, 1, n);
    assert forall|k: int| 0 <= k <= rest.len() implies #[trigger] depth(rest.take(k)) >= 0 by {
        assert(rest.take(k) =~= t.subrange(1, 1 + k));
        lemma_depth_sub(t, 1, 1 + k);
        assert(depth(t.take(1 + k)) >= 0);
    }
}

} // verus!

verus! {

/// Keeps the command characters of `program`, in order.
fn cleanup(program: &[char]) -> (r: Vec<char>)
    ensures
        r@ == cleaned(program@),
{
    let mut r: Vec<char> = Vec::new();
    let mut i: usize = 0;
    proof {
        assert(program@.take(0).len() == 0);
    }
    while i < program.len()
        invariant
            i <= program@.len(),
            r@ == cleaned(program@.take(i as int)),
        decreases program.len() - i,
    {
        let c = program[i];
        proof {
            lemma_cleaned_step(program@, i as int);
        }
        if c == '+' || c == '-' || c == '<' || c == '>' || c == '[' || c == ']' || c == ',' || c == '.' {
            r.push(c);
        } else {
            assert(cleaned(program@.take(i as int)) + Seq::<char>::empty() =~= cleaned(program@.take(i as int)));
        }
        i += 1;
    }
    assert(program@.take(i as int) =~= program@);
    r
}

/// The position of the `]` of every `[` of `data`.
fn get_matches(data: &[char]) -> (matches: HashMap<usize, usize>)
    requires
        forall|k: int| 0 <= k <= data@.len() ==> #[trigger] depth(data@.take(k)) >= 0,
    ensures
        forall|p: usize|
            #[trigger] matches@.contains_key(p) ==> {
                &&& p < data@.len()
                &&& data@[p as int] == '['
                &&& matches@[p] == close_from(data@, p as int, 0)
                &&& matches@[p] < data@.len()
            },
        forall|p: int|
            0 <= p < data@.len() && data@[p] == '[' && close_from(data@, p, 0) < data@.len()
                ==> #[trigger] matches@.contains_key(p as usize),
{
    let ghost s = data@;
    let mut matches: HashMap<usize, usize> = HashMap::new();
    let mut stack: Vec<usize> = Vec::new();
    let mut i: usize = 0;
    proof {
        lemma_depth_full(s);
    }
    while i < data.len()
        invariant
            s == data@,
            i <= s.len(),
            forall|k: int| 0 <= k <= s.len() ==> #[trigger] depth(s.take(k)) >= 0,
            stack@.len() == depth(s.take(i as int)),
            forall|m: int|
                0 <= m < stack@.len() ==> {
                    &&& #[trigger] stack@[m] < i
                    &&& s[stack@[m] as int] == '['
                    &&& depth(s.take(stack@[m] as int)) == m
                    &&& forall|q: int| stack@[m] <= q < i ==> depth(#[trigger] s.take(q + 1)) > m
                },
            forall|p: usize|
                #[trigger] matches@.contains_key(p) ==> {
                    &&& p < i
                    &&& s[p as int] == '['
                    &&& matches@[p] == close_from(s, p as int, 0)
                    &&& matches@[p] < i
                },
            forall|p: int|
                0 <= p < i && s[p] == '[' ==> #[trigger] matches@.contains_key(p as usize) || exists|m: int|
                    0 <= m < stack@.len() && #[trigger] stack@[m] == p,
        decreases s.len() - i,
    {
        proof {
            lemma_depth_step(s, i as int);
        }
        let v = data[i];
        if v == '[' {
            let ghost old_stack = stack@;
            stack.push(i);
            proof {
                assert forall|p: int|
                    0 <= p < i + 1 && s[p] == '[' implies #[trigger] matches@.contains_key(p as usize) || exists|m: int|
                        0 <= m < stack@.len() && #[trigger] stack@[m] == p by {
                    if p == i {
                        assert(stack@[old_stack.len() as int] == p);
                    } else if !matches@.contains_key(p as usize) {
                        let m = choose|m: int| 0 <= m < old_stack.len() && #[trigger] old_stack[m] == p;
                        assert(stack@[m] == p);
                    }
                }
            }
        }
        if v == ']' {
            let ghost old_stack = stack@;
            let start = stack.pop().expect("brackets do not match");
            proof {
                let top = old_stack.len() - 1;
                assert(old_stack[top] == start);
                assert forall|q: int| start <= q < i implies 0 + depth(#[trigger] s.take(q + 1)) - depth(s.take(start as int)) != 0 by {
                    assert(depth(s.take(q + 1)) > top);
                }
                lemma_close_is(s, start as int, 0, i as int);
            }
            let ghost old_matches = matches@;
            matches.insert(start, i);
            proof {
                assert forall|m: int| 0 <= m < stack@.len() implies {
                    &&& #[trigger] stack@[m] < i + 1
                    &&& s[stack@[m] as int] == '['
                    &&& depth(s.take(stack@[m] as int)) == m
                    &&& forall|q: int| stack@[m] <= q < i + 1 ==> depth(#[trigger] s.take(q + 1)) > m
                } by {
                    assert(stack@[m] == old_stack[m]);
                }
                assert forall|p: int|
                    0 <= p < i + 1 && s[p] == '[' implies #[trigger] matches@.contains_key(p as usize) || exists|m: int|
                        0 <= m < stack@.len() && #[trigger] stack@[m] == p by {
                    if p != start && !old_matches.contains_key(p as usize) {
                        let m = choose|m: int| 0 <= m < old_stack.len() && #[trigger] old_stack[m] == p;
                        assert(stack@[m] == p);
                    }
                }
            }
        }
        i += 1;
    }
    proof {
        lemma_depth_full(s);
        assert forall|p: int|
            0 <= p < s.len() && s[p] == '[' && close_from(s, p, 0) < s.len()
                implies #[trigger] matches@.contains_key(p as usize) by {
            if !matches@.contains_key(p as usize) {
                let m = choose|m: int| 0 <= m < stack@.len() && #[trigger] stack@[m] == p;
                lemma_close_from(s, p, 0);
                let c = close_from(s, p, 0);
                assert(depth(s.take(c + 1)) > m);
                assert(depth(s.take(p)) == m);
            }
        }
    }
    matches
}

} // verus!

verus! {

impl ByteCodeObject {
    /// The instructions of `program2`, without optimisation. Characters other
    /// than the eight commands are ignored; the brackets must match, as the
    /// program cannot be read otherwise.
    pub fn unoptimized_new(program2: &[char]) -> (r: ByteCodeObject)
        requires
            balanced(cleaned(program2@)),
        ensures
            r@ == parse(cleaned(program2@)),
        decreases program2@.len(),
    {
        let program = cleanup(program2);
        let ghost s = program@;
        proof {
            lemma_cleaned_len(program2@);
            lemma_depth_full(s);
            assert(s.skip(0) =~= s);
            assert(view_seq(Seq::<Instruction>::empty()) + parse(s) =~= parse(s));
        }
        let matches = get_matches(program.as_slice());
        let mut instructions: Vec<Instruction> = Vec::new();
        let mut i: usize = 0;
        while i < program.len()
            invariant
                program@ == s,
                s == cleaned(program2@),
                s.len() <= program2@.len(),
                forall|k: int| 0 <= k < s.len() ==> is_command(#[trigger] s[k]),
                i <= s.len(),
                balanced(s.skip(i as int)),
                view_seq(instructions@) + parse(s.skip(i as int)) == parse(s),
                forall|p: usize|
                    #[trigger] matches@.contains_key(p) ==> {
                        &&& p < s.len()
                        &&& s[p as int] == '['
                        &&& matches@[p] == close_from(s, p as int, 0)
                        &&& matches@[p] < s.len()
                    },
                forall|p: int|
                    0 <= p < s.len() && s[p] == '[' && close_from(s, p, 0) < s.len()
                        ==> #[trigger] matches@.contains_key(p as usize),
            decreases s.len() - i,
        {
            let ghost t = s.skip(i as int);
            proof {
                assert(t[0] == s[i as int]);
                lemma_skip_skip(s, i as int, 1);
            }
            let instruction = match program[i] {
                '+' => Instruction::add(1),
                '-' => Instruction::add(255),
                '>' => Instruction::add_pointer(1),
                '<' => Instruction::add_pointer(usize::MAX),
                '[' => {
                    proof {
                        assert(s[i as int] == '[');
                        lemma_balanced_open(t);
                        lemma_close_shift(s, i as int, i as int, 0);
                        assert(matches@.contains_key((i as int) as usize));
                    }
                    let matching: usize = *matches.get(&i).expect("not in dictionary");
                    proof {
                        lemma_balanced_open(t);
                        lemma_close_shift(s, i as int, i as int, 0);
                        assert(t.subrange(1, matching - i) =~= s.subrange(i + 1, matching as int));
                        lemma_skip_skip(s, i as int, matching - i + 1);
                    }
                    let subprogram = &program.as_slice()[i + 1..matching];
                    proof {
                        assert(subprogram@ == s.subrange(i + 1, matching as int));
                        assert forall|k: int| 0 <= k < subprogram@.len() implies is_command(#[trigger] subprogram@[k]) by {
                            assert(subprogram@[k] == s[i + 1 + k]);
                        }
                        lemma_cleaned_id(subprogram@);
                    }
                    let obj = ByteCodeObject::unoptimized_new(subprogram);
                    i = matching;
                    Instruction::loop_instruction(obj)
                },
                ',' => Instruction::input(),
                _ => Instruction::output(),
            };
            proof {
                if t[0] != '[' {
                    lemma_balanced_other(t);
                }
                lemma_emit(instructions@, instruction, parse(t), parse(s.skip(i + 1)), parse(s));
            }
            instructions.push(instruction);
            i += 1;
        }
        proof {
            lemma_finish(parse(s), instructions@);
            assert(s.skip(s.len() as int) =~= Seq::<char>::empty());
        }
        ByteCodeObject::from_vec(instructions)
    }

    /// The instructions of `program2`, optimised.
    pub fn new(program2: &[char]) -> (r: ByteCodeObject)
        requires
            balanced(cleaned(program2@)),
            blocks_nonempty(parse(cleaned(program2@))),
        ensures
            r@ == optimized(parse(cleaned(program2@))),
    {
        let mut tmp = ByteCodeObject::unoptimized_new(program2);
        tmp.optimize();
        tmp
    }
}

/// Whether the brackets of `program` match, which `unoptimized_new` and
/// `new` require.
pub fn is_balanced(program: &[char]) -> (b: bool)
    ensures
        b == balanced(cleaned(program@)),
{
    let clean = cleanup(program);
    let ghost s = clean@;
    let mut d: usize = 0;
    let mut i: usize = 0;
    proof {
        lemma_depth_full(s);
    }
    while i < clean.len()
        invariant
            s == clean@,
            s == cleaned(program@),
            i <= s.len(),
            d == depth(s.take(i as int)),
            d <= i,
            forall|k: int| 0 <= k <= i ==> #[trigger] depth(s.take(k)) >= 0,
        decreases s.len() - i,
    {
        proof {
            lemma_depth_step(s, i as int);
        }
        if clean[i] == '[' {
            d += 1;
        } else if clean[i] == ']' {
            if d == 0 {
                proof {
                    let k = i + 1;
                    assert(depth(s.take(k)) < 0);
                    assert(0 <= k <= s.len());
                    assert(!balanced(s));
                }
                return false;
            }
            d -= 1;
        }
        i += 1;
    }
    proof {
        lemma_depth_full(s);
    }
    d == 0
}

} // verus!

verus! {

/// The text of a program: every instruction as the character it is read
/// from, every loop as its body between `[` and `]`; an instruction that no
/// character reads to gives nothing.
pub open spec fn program_text(s: Seq<Op>) -> Seq<char>
    decreases crate::bytecode::seq_size(s),
{
    if s.len() == 0 {
        seq![]
    } else {
        proof {
            crate::bytecode::lemma_seq_size_elem(s, 0);
            crate::bytecode::lemma_seq_size_skip(s, 1);
        }
        let head = match s[0] {
            Op::Memory(v) => if v == 1 {
                seq!['+']
            } else if v == 255 {
                seq!['-']
            } else {
                seq![]
            },
            Op::Pointer(o) => if o == 1 {
                seq!['>']
            } else if o == usize::MAX {
                seq!['<']
            } else {
                seq![]
            },
            Op::Input => seq![','],
            Op::Output => seq!['.'],
            Op::Loop(body) => seq!['['] + program_text(body) + seq![']'],
            _ => seq![],
        };
        head + program_text(s.skip(1))
    }
}

/// Every instruction of `s`, at any depth, is one that a character reads to:
/// `Memory(1)`, `Memory(255)`, `Pointer(1)`, `Pointer(usize::MAX)`, `Input`,
/// `Output` or a loop.
pub open spec fn source_form(s: Seq<Op>) -> bool
    decreases crate::bytecode::seq_size(s),
{
    if s.len() == 0 {
        true
    } else {
        proof {
            crate::bytecode::lemma_seq_size_elem(s, 0);
            crate::bytecode::lemma_seq_size_skip(s, 1);
        }
        (match s[0] {
            Op::Memory(v) => v == 1 || v == 255,
            Op::Pointer(o) => o == 1 || o == usize::MAX,
            Op::Input => true,
            Op::Output => true,
            Op::Loop(body) => source_form(body),
            _ => false,
        }) && source_form(s.skip(1))
    }
}

proof fn lemma_text_cons(x: Op, t: Seq<Op>)
    ensures
        program_text(seq![x] + t) == program_text(seq![x]) + program_text(t),
        source_form(seq![x] + t) == (source_form(seq![x]) && source_form(t)),
{
    let u = seq![x] + t;
    assert(u[0] == x);
    assert(u.skip(1) =~= t);
    let one = seq![x];
    assert(one[0] == x);
    assert(one.skip(1) =~= Seq::<Op>::empty());
    assert(program_text(Seq::<Op>::empty()) == Seq::<char>::empty());
    assert(source_form(Seq::<Op>::empty()));
    assert(program_text(one) =~= program_text(one) + Seq::<char>::empty());
    assert(program_text(u) =~= program_text(one) + program_text(t));
}

proof fn lemma_parse_text(s: Seq<char>)
    requires
        balanced(s),
        forall|k: int| 0 <= k < s.len() ==> is_command(#[trigger] s[k]),
    ensures
        program_text(parse(s)) == s,
        source_form(parse(s)),
    decreases s.len(),
{
    if s.len() == 0 {
        assert(parse(s) == Seq::<Op>::empty());
    } else if s[0] == '[' {
        lemma_balanced_open(s);
        let j = close_from(s, 0, 0);
        let inner = s.subrange(1, j);
        let rest = s.skip(j + 1);
        assert forall|k: int| 0 <= k < inner.len() implies is_command(#[trigger] inner[k]) by {
            assert(inner[k] == s[1 + k]);
        }
        assert forall|k: int| 0 <= k < rest.len() implies is_command(#[trigger] rest[k]) by {
            assert(rest[k] == s[j + 1 + k]);
        }
        lemma_parse_text(inner);
        lemma_parse_text(rest);
        let x = Op::Loop(parse(inner));
        lemma_text_cons(x, parse(rest));
        let one = seq![x];
        assert(one[0] == x);
        assert(one.skip(1) =~= Seq::<Op>::empty());
        let e = Seq::<Op>::empty();
        assert(one.skip(1) == e);
        assert(program_text(e) == Seq::<char>::empty());
        assert(program_text(one) == seq!['['] + program_text(parse(inner)) + seq![']'] + program_text(one.skip(1)));
        assert(program_text(one) =~= seq!['['] + inner + seq![']'] + Seq::<char>::empty());
        assert(source_form(e));
        assert(source_form(one));
        assert(seq!['['] + inner + seq![']'] + Seq::<char>::empty() + rest =~= s);
    } else {
        lemma_balanced_other(s);
        let rest = s.skip(1);
        assert forall|k: int| 0 <= k < rest.len() implies is_command(#[trigger] rest[k]) by {
            assert(rest[k] == s[1 + k]);
        }
        lemma_parse_text(rest);
        let x = command_op(s[0]);
        lemma_text_cons(x, parse(rest));
        let one = seq![x];
        assert(one[0] == x);
        assert(one.skip(1) =~= Seq::<Op>::empty());
        assert(is_command(s[0]));
        let e = Seq::<Op>::empty();
        assert(one.skip(1) == e);
        assert(program_text(e) == Seq::<char>::empty());
        let c = s[0];
        if c == '+' {
            assert(program_text(one) == seq!['+'] + program_text(one.skip(1)));
        } else if c == '-' {
            assert(program_text(one) == seq!['-'] + program_text(one.skip(1)));
        } else if c == '>' {
            assert(program_text(one) == seq!['>'] + program_text(one.skip(1)));
        } else if c == '<' {
            assert(program_text(one) == seq!['<'] + program_text(one.skip(1)));
        } else if c == ',' {
            assert(program_text(one) == seq![','] + program_text(one.skip(1)));
        } else {
            assert(c == '.');
            assert(program_text(one) == seq!['.'] + program_text(one.skip(1)));
        }
        assert(program_text(one) =~= seq![s[0]]);
        assert(source_form(e));
        assert(source_form(one));
        assert(seq![s[0]] + rest =~= s);
    }
}

/// Reading a program keeps all of its text: printing the instructions that
/// `unoptimized_new` builds from a text with matching brackets gives back the
/// text's commands, and every instruction is one a character reads to.
pub proof fn law_parse_prints_back(p: Seq<char>)
    requires
        balanced(cleaned(p)),
    ensures
        program_text(parse(cleaned(p))) == cleaned(p),
        source_form(parse(cleaned(p))),
{
    lemma_cleaned_len(p);
    lemma_parse_text(cleaned(p));
}

} // verus!

verus! {

// ---------------------------------------------------------------------------
// What bracket matching does not depend on
// ---------------------------------------------------------------------------

proof fn lemma_depth_concat(a: Seq<char>, b: Seq<char>)
    ensures
        depth(a + b) == depth(a) + depth(b),
    decreases b.len(),
{
    if b.len() == 0 {
        assert(a + b =~= a);
    } else {
        assert((a + b).drop_last() =~= a + b.drop_last());
        assert((a + b).last() == b.last());
        lemma_depth_concat(a, b.drop_last());
    }
}

proof fn lemma_depth_one(c: char)
    ensures
        depth(seq![c]) == delta(c),
        cleaned(seq![c]) == if is_command(c) { seq![c] } else { Seq::<char>::empty() },
{
    let o = seq![c];
    assert(o.drop_last() =~= Seq::<char>::empty());
    assert(o.last() == c);
    assert(depth(Seq::<char>::empty()) == 0);
    assert(cleaned(Seq::<char>::empty()) == Seq::<char>::empty());
    assert(Seq::<char>::empty() + seq![c] =~= seq![c]);
    assert(Seq::<char>::empty() + Seq::<char>::empty() =~= Seq::<char>::empty());
}

proof fn lemma_take_concat(a: Seq<char>, b: Seq<char>, k: int)
    requires
        0 <= k <= a.len() + b.len(),
    ensures
        k <= a.len() ==> (a + b).take(k) == a.take(k),
        k > a.len() ==> (a + b).take(k) == a + b.take(k - a.len()),
{
    if k <= a.len() {
        assert((a + b).take(k) =~= a.take(k));
    } else {
        assert((a + b).take(k) =~= a + b.take(k - a.len()));
    }
}

/// Removing comments commutes with joining texts.
pub proof fn law_cleaned_concat(a: Seq<char>, b: Seq<char>)
    ensures
        cleaned(a + b) == cleaned(a) + cleaned(b),
    decreases b.len(),
{
    if b.len() == 0 {
        assert(a + b =~= a);
        assert(cleaned(a) + cleaned(b) =~= cleaned(a));
    } else {
        assert((a + b).drop_last() =~= a + b.drop_last());
        assert((a + b).last() == b.last());
        law_cleaned_concat(a, b.drop_last());
        let tail = if is_command(b.last()) { seq![b.last()] } else { Seq::<char>::empty() };
        assert(cleaned(a) + cleaned(b.drop_last()) + tail =~= cleaned(a) + (cleaned(b.drop_last()) + tail));
    }
}

/// The empty text is balanced.
pub proof fn law_empty_is_balanced()
    ensures
        balanced(Seq::<char>::empty()),
{
    assert forall|k: int| 0 <= k <= 0 implies #[trigger] depth(Seq::<char>::empty().take(k)) >= 0 by {
        assert(Seq::<char>::empty().take(k).len() == 0);
    }
}

/// A text without brackets is balanced, however long it is.
pub proof fn law_bracket_free_is_balanced(s: Seq<char>)
    requires
        forall|i: int| 0 <= i < s.len() ==> s[i] != '[' && s[i] != ']',
    ensures
        balanced(s),
        forall|k: int| 0 <= k <= s.len() ==> #[trigger] depth(s.take(k)) == 0,
    decreases s.len(),
{
    if s.len() == 0 {
        law_empty_is_balanced();
        assert forall|k: int| 0 <= k <= s.len() implies #[trigger] depth(s.take(k)) == 0 by {
            assert(s.take(k).len() == 0);
        }
    } else {
        let t = s.drop_last();
        law_bracket_free_is_balanced(t);
        assert forall|k: int| 0 <= k <= s.len() implies #[trigger] depth(s.take(k)) == 0 by {
            if k < s.len() {
                assert(s.take(k) =~= t.take(k));
            } else {
                assert(s.take(k) =~= s);
                assert(t.take(t.len() as int) =~= t);
                assert(s.last() == s[s.len() - 1]);
            }
        }
        assert(s.take(s.len() as int) =~= s);
    }
}

/// Two balanced texts, one after the other, are balanced.
pub proof fn law_balanced_concat(a: Seq<char>, b: Seq<char>)
    requires
        balanced(a),
        balanced(b),
    ensures
        balanced(a + b),
{
    lemma_depth_concat(a, b);
    assert forall|k: int| 0 <= k <= (a + b).len() implies #[trigger] depth((a + b).take(k)) >= 0 by {
        lemma_take_concat(a, b, k);
        if k > a.len() {
            lemma_depth_concat(a, b.take(k - a.len()));
        }
    }
}

/// A balanced text between a `[` and a `]` is balanced.
pub proof fn law_balanced_nest(a: Seq<char>)
    requires
        balanced(a),
    ensures
        balanced(seq!['['] + a + seq![']']),
{
    let o = seq!['['];
    let c = seq![']'];
    let s = o + a + c;
    lemma_depth_one('[');
    lemma_depth_one(']');
    lemma_depth_concat(o, a);
    lemma_depth_concat(o + a, c);
    assert forall|k: int| 0 <= k <= s.len() implies #[trigger] depth(s.take(k)) >= 0 by {
        lemma_take_concat(o + a, c, k);
        if k == 0 {
            assert(s.take(k).len() == 0);
        } else if k == 1 {
            assert(s.take(1) =~= o);
        } else if k <= a.len() + 1 {
            lemma_take_concat(o, a, k);
            assert(s.take(k) == (o + a).take(k));
            assert(s.take(k) == o + a.take(k - 1));
            lemma_depth_concat(o, a.take(k - 1));
            assert(depth(a.take(k - 1)) >= 0);
        } else {
            assert(c.take(1) =~= c);
            assert(s.take(k) =~= s);
        }
    }
}

/// A text that starts with a `]` is not balanced.
pub proof fn law_leading_close_unbalanced(a: Seq<char>)
    ensures
        !balanced(seq![']'] + a),
{
    let s = seq![']'] + a;
    assert(s.take(1) =~= seq![']']);
    lemma_depth_one(']');
    assert(depth(s.take(1)) == -1);
}

/// Appending an empty loop `[]` to a program text changes nothing in
/// whether its brackets match.
pub proof fn law_balanced_ignores_empty_loop(p: Seq<char>)
    ensures
        balanced(cleaned(p + seq!['[', ']'])) == balanced(cleaned(p)),
{
    let e = seq!['[', ']'];
    law_cleaned_concat(p, e);
    assert(cleaned(e) == e) by {
        assert(e.drop_last() =~= seq!['[']);
        lemma_depth_one('[');
        assert(e.last() == ']');
        assert(cleaned(e) =~= e);
    }
    let a = cleaned(p);
    assert(balanced(e)) by {
        law_empty_is_balanced();
        law_balanced_nest(Seq::<char>::empty());
        assert(seq!['['] + Seq::<char>::empty() + seq![']'] =~= e);
    }
    if balanced(a) {
        law_balanced_concat(a, e);
    }
    if balanced(a + e) {
        lemma_depth_concat(a, e);
        assert(depth(e) == 0) by {
            assert(e.take(e.len() as int) =~= e);
        }
        assert forall|k: int| 0 <= k <= a.len() implies #[trigger] depth(a.take(k)) >= 0 by {
            lemma_take_concat(a, e, k);
            assert(depth((a + e).take(k)) >= 0);
        }
    }
}

} // verus!
