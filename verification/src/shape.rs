use vstd::prelude::*;
use crate::bytecode::{Op, seq_size, lemma_seq_size_elem, lemma_seq_size_skip};
use crate::optimize::{cleared_cells, with_spreads, spread_tail, offset_pairs, lemma_spread_tail_bound, lemma_skip_skip};
use crate::laws::no_spreads;

verus! {

// ---------------------------------------------------------------------------
// Clearing loops: what `cleared_cells` leaves of a program
// ---------------------------------------------------------------------------

/// No loop, at any depth, has the body `[Memory(255)]`, the loop `[-]`.
pub open spec fn no_countdown_loops(s: Seq<Op>) -> bool
    decreases seq_size(s),
{
    if s.len() == 0 {
        true
    } else {
        proof {
            lemma_seq_size_elem(s, 0);
            lemma_seq_size_skip(s, 1);
        }
        (match s[0] {
            Op::Loop(body) => body != seq![Op::Memory(255)] && no_countdown_loops(body),
            _ => true,
        }) && no_countdown_loops(s.skip(1))
    }
}

/// No `ClearCell`, at any depth.
pub open spec fn no_clear_cells(s: Seq<Op>) -> bool
    decreases seq_size(s),
{
    if s.len() == 0 {
        true
    } else {
        proof {
            lemma_seq_size_elem(s, 0);
            lemma_seq_size_skip(s, 1);
        }
        (match s[0] {
            Op::Loop(body) => no_clear_cells(body),
            Op::ClearCell => false,
            _ => true,
        }) && no_clear_cells(s.skip(1))
    }
}

/// `s` with every `ClearCell`, at any depth, written back as the loop `[-]`.
pub open spec fn with_countdowns(s: Seq<Op>) -> Seq<Op>
    decreases seq_size(s),
{
    if s.len() == 0 {
        seq![]
    } else {
        proof {
            lemma_seq_size_elem(s, 0);
            lemma_seq_size_skip(s, 1);
        }
        let head = match s[0] {
            Op::ClearCell => Op::Loop(seq![Op::Memory(255)]),
            Op::Loop(body) => Op::Loop(with_countdowns(body)),
            _ => s[0],
        };
        seq![head] + with_countdowns(s.skip(1))
    }
}

proof fn lemma_cleared_len(s: Seq<Op>)
    ensures
        cleared_cells(s).len() == s.len(),
        s.len() > 0 ==> (cleared_cells(s)[0] is Memory <==> s[0] is Memory),
    decreases s.len(),
{
    if s.len() > 0 {
        lemma_cleared_len(s.skip(1));
    }
}

/// After the clearing pass no `[-]` is left anywhere in the program: every
/// one, in a loop body or not, has become a `ClearCell`.
pub proof fn law_cleared_cells_leaves_no_countdown(s: Seq<Op>)
    ensures
        no_countdown_loops(cleared_cells(s)),
    decreases seq_size(s),
{
    if s.len() > 0 {
        lemma_seq_size_elem(s, 0);
        lemma_seq_size_skip(s, 1);
        law_cleared_cells_leaves_no_countdown(s.skip(1));
        let rest = cleared_cells(s.skip(1));
        let head = match s[0] {
            Op::Loop(body) => if body.len() == 1 && body[0] is Memory {
                if body[0] == Op::Memory(255) {
                    Op::ClearCell
                } else {
                    s[0]
                }
            } else {
                Op::Loop(cleared_cells(body))
            },
            _ => s[0],
        };
        if let Op::Loop(body) = s[0] {
            if body.len() == 1 && body[0] is Memory {
                if body[0] != Op::Memory(255) {
                    assert(body != seq![Op::Memory(255)]) by {
                        if body == seq![Op::Memory(255)] {
                            assert(body[0] == Op::Memory(255));
                        }
                    }
                    assert(body.skip(1).len() == 0);
                    assert(no_countdown_loops(body.skip(1)));
                    assert(no_countdown_loops(body));
                }
            } else {
                law_cleared_cells_leaves_no_countdown(body);
                lemma_cleared_len(body);
                let cb = cleared_cells(body);
                assert(cb != seq![Op::Memory(255)]) by {
                    if cb == seq![Op::Memory(255)] {
                        assert(cb[0] == Op::Memory(255));
                    }
                }
            }
        }
        let u = seq![head] + rest;
        assert(u[0] == head);
        assert(u.skip(1) =~= rest);
        assert(cleared_cells(s) == u);
    }
}

/// The clearing pass changes nothing but `[-]` loops: writing each
/// `ClearCell` back as `[-]` gives the program it was given, for a program
/// that held no `ClearCell` (one read from text).
pub proof fn law_cleared_cells_only_clears_countdowns(s: Seq<Op>)
    requires
        no_clear_cells(s),
    ensures
        with_countdowns(cleared_cells(s)) == s,
    decreases seq_size(s),
{
    if s.len() > 0 {
        lemma_seq_size_elem(s, 0);
        lemma_seq_size_skip(s, 1);
        law_cleared_cells_only_clears_countdowns(s.skip(1));
        let rest = cleared_cells(s.skip(1));
        let head = match s[0] {
            Op::Loop(body) => if body.len() == 1 && body[0] is Memory {
                if body[0] == Op::Memory(255) {
                    Op::ClearCell
                } else {
                    s[0]
                }
            } else {
                Op::Loop(cleared_cells(body))
            },
            _ => s[0],
        };
        let back = match head {
            Op::ClearCell => Op::Loop(seq![Op::Memory(255)]),
            Op::Loop(body) => Op::Loop(with_countdowns(body)),
            _ => head,
        };
        if let Op::Loop(body) = s[0] {
            if body.len() == 1 && body[0] is Memory {
                if body[0] == Op::Memory(255) {
                    assert(body =~= seq![Op::Memory(255)]);
                } else {
                    assert(body.skip(1).len() == 0);
                    assert(with_countdowns(body.skip(1)) == Seq::<Op>::empty());
                    assert(with_countdowns(body) =~= body);
                }
            } else {
                law_cleared_cells_only_clears_countdowns(body);
            }
        }
        assert(back == s[0]);
        let u = seq![head] + rest;
        assert(u[0] == head);
        assert(u.skip(1) =~= rest);
        assert(cleared_cells(s) == u);
        assert(with_countdowns(u) == seq![back] + with_countdowns(rest));
        assert(seq![s[0]] + s.skip(1) =~= s);
    }
}

// ---------------------------------------------------------------------------
// Spreads: what `with_spreads` keeps of a program's offset additions
// ---------------------------------------------------------------------------

/// The (offset, value) pairs of every `OffsetAdd` and `Spread` of `s`, in
/// program order, loop bodies in place.
pub open spec fn offset_adds_of(s: Seq<Op>) -> Seq<(usize, u8)>
    decreases seq_size(s),
{
    if s.len() == 0 {
        seq![]
    } else {
        proof {
            lemma_seq_size_elem(s, 0);
            lemma_seq_size_skip(s, 1);
        }
        (match s[0] {
            Op::Loop(body) => offset_adds_of(body),
            Op::OffsetAdd(o, v) => seq![(o, v)],
            Op::Spread(_, vals) => vals,
            _ => Seq::<(usize, u8)>::empty(),
        }) + offset_adds_of(s.skip(1))
    }
}

proof fn lemma_offset_adds_of_concat(a: Seq<Op>, b: Seq<Op>)
    ensures
        offset_adds_of(a + b) == offset_adds_of(a) + offset_adds_of(b),
    decreases a.len(),
{
    if a.len() == 0 {
        assert(a + b =~= b);
        assert(offset_adds_of(a) + offset_adds_of(b) =~= offset_adds_of(b));
    } else {
        let u = a + b;
        assert(u[0] == a[0]);
        assert(u.skip(1) =~= a.skip(1) + b);
        lemma_offset_adds_of_concat(a.skip(1), b);
        let h = match a[0] {
            Op::Loop(body) => offset_adds_of(body),
            Op::OffsetAdd(o, v) => seq![(o, v)],
            Op::Spread(_, vals) => vals,
            _ => Seq::<(usize, u8)>::empty(),
        };
        assert(h + (offset_adds_of(a.skip(1)) + offset_adds_of(b)) =~= (h + offset_adds_of(a.skip(1)))
            + offset_adds_of(b));
    }
}

proof fn lemma_stretch_ops(t: Seq<Op>, seen: bool, k: int)
    requires
        0 <= k < spread_tail(t, seen),
    ensures
        t[k] is Memory || t[k] is OffsetAdd,
    decreases t.len(),
{
    lemma_spread_tail_bound(t, seen);
    if k > 0 {
        assert(t.skip(1)[k - 1] == t[k]);
        match t[0] {
            Op::Memory(_) => lemma_stretch_ops(t.skip(1), true, k - 1),
            _ => lemma_stretch_ops(t.skip(1), seen, k - 1),
        }
    }
}

proof fn lemma_offset_pairs_of_adds(t: Seq<Op>)
    requires
        forall|k: int| 0 <= k < t.len() ==> (#[trigger] t[k] is Memory || t[k] is OffsetAdd),
    ensures
        offset_pairs(t) == offset_adds_of(t),
    decreases t.len(),
{
    if t.len() > 0 {
        assert forall|k: int| 0 <= k < t.skip(1).len() implies (#[trigger] t.skip(1)[k] is Memory || t.skip(1)[k] is OffsetAdd) by {
            assert(t.skip(1)[k] == t[k + 1]);
        }
        lemma_offset_pairs_of_adds(t.skip(1));
        assert(t[0] is Memory || t[0] is OffsetAdd);
        if let Op::Memory(_) = t[0] {
            assert(Seq::<(usize, u8)>::empty() + offset_adds_of(t.skip(1)) =~= offset_adds_of(t.skip(1)));
        }
    }
}

proof fn lemma_no_spreads_skip(s: Seq<Op>, k: int)
    requires
        no_spreads(s),
        0 <= k <= s.len(),
    ensures
        no_spreads(s.skip(k)),
    decreases k,
{
    if k == 0 {
        assert(s.skip(0) =~= s);
    } else {
        lemma_no_spreads_skip(s.skip(1), k - 1);
        lemma_skip_skip(s, 1, k - 1);
    }
}

/// The spread pass keeps every offset addition of a program without
/// `Spread`s, and adds none: the (offset, value) pairs of the `OffsetAdd`s
/// and `Spread`s it leaves are those of the `OffsetAdd`s it was given, in
/// the same order. So each `Spread` holds exactly the pairs of the stretch
/// it replaces.
pub proof fn law_spreads_keep_offset_adds(s: Seq<Op>)
    requires
        no_spreads(s),
    ensures
        offset_adds_of(with_spreads(s)) == offset_adds_of(s),
    decreases seq_size(s),
{
    if s.len() > 0 {
        lemma_seq_size_elem(s, 0);
        lemma_seq_size_skip(s, 1);
        lemma_no_spreads_skip(s, 1);
        match s[0] {
            Op::Loop(body) => {
                law_spreads_keep_offset_adds(body);
                law_spreads_keep_offset_adds(s.skip(1));
                let u = seq![Op::Loop(with_spreads(body))] + with_spreads(s.skip(1));
                assert(u[0] == Op::Loop(with_spreads(body)));
                assert(u.skip(1) =~= with_spreads(s.skip(1)));
                assert(with_spreads(s) == u);
            },
            Op::Memory(_) | Op::OffsetAdd(_, _) => {
                let n = spread_tail(s.skip(1), s[0] is Memory) as int;
                lemma_spread_tail_bound(s.skip(1), s[0] is Memory);
                if n == 0 {
                    law_spreads_keep_offset_adds(s.skip(1));
                    let u = seq![s[0]] + with_spreads(s.skip(1));
                    assert(u[0] == s[0]);
                    assert(u.skip(1) =~= with_spreads(s.skip(1)));
                    assert(with_spreads(s) == u);
                } else {
                    let r = s.take(n + 1);
                    lemma_seq_size_skip(s, n + 1);
                    lemma_no_spreads_skip(s, n + 1);
                    law_spreads_keep_offset_adds(s.skip(n + 1));
                    assert forall|k: int| 0 <= k < r.len() implies (#[trigger] r[k] is Memory || r[k] is OffsetAdd) by {
                        if k > 0 {
                            lemma_stretch_ops(s.skip(1), s[0] is Memory, k - 1);
                            assert(s.skip(1)[k - 1] == s[k]);
                        }
                    }
                    lemma_offset_pairs_of_adds(r);
                    let sp = Op::Spread(crate::optimize::first_memory(r), offset_pairs(r));
                    let u = seq![sp] + with_spreads(s.skip(n + 1));
                    assert(with_spreads(s) == u);
                    assert(u[0] == sp);
                    assert(u.skip(1) =~= with_spreads(s.skip(n + 1)));
                    assert(s =~= r + s.skip(n + 1));
                    lemma_offset_adds_of_concat(r, s.skip(n + 1));
                }
            },
            Op::Spread(_, _) => {},
            _ => {
                law_spreads_keep_offset_adds(s.skip(1));
                let u = seq![s[0]] + with_spreads(s.skip(1));
                assert(u[0] == s[0]);
                assert(u.skip(1) =~= with_spreads(s.skip(1)));
                assert(with_spreads(s) == u);
            },
        }
    }
}

} // verus!
