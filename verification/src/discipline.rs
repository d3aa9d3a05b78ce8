//! The frame discipline: a walk through a program that follows the head
//! relative to the live frame and the loops that are open. A program that can
//! be walked keeps the entry flags of its frames in order, however its run
//! goes.
use vstd::prelude::*;
use crate::fusion::lemma_fuse_push;
use crate::interp::{balanced, delta, depth, fuse, fused_pair, op_of_char, parse, COps};
use crate::layout::{goto_text, tabs};
use crate::reasoning::{lemma_parse_join, lemma_parse_one, lemma_parse_repeated, run_of};
use crate::text::{decimal, digit, repeated};
use crate::semantics::{
    act, iterate, lemma_balanced_front, lemma_balanced_loop, lemma_depth_part, lemma_no_open_end,
    lemma_opener, opener, sem, Cells,
};

verus! {

/// Where a walk stands: the head's distance from the first cell of the live
/// frame, and the distances at which the loops that are open were entered.
pub struct Walk {
    pub at: int,
    pub loops: Seq<int>,
}

/// One operation of a walk through frames of width `w`. The head stays
/// within the live frame and the one above it. The first cell of a frame, its
/// entry flag, is only touched in two ways: the flag of the frame above the
/// live one is raised, which makes that frame the live one, and the flag of
/// the live frame is taken down, which makes the frame below the live one. A
/// loop ends at the distance at which it was entered.
pub open spec fn walk_op(w: int, op: COps, s: Walk) -> Option<Walk> {
    match op {
        COps::Mov(n) => if 0 <= s.at + n < 2 * w {
            Some(Walk { at: s.at + n, ..s })
        } else {
            None
        },
        COps::Add(n) => if n == 0 {
            Some(s)
        } else if s.at == w {
            if n == 1 {
                Some(Walk { at: 0, ..s })
            } else {
                None
            }
        } else if s.at == 0 {
            if n == -1 {
                Some(Walk { at: w, ..s })
            } else {
                None
            }
        } else {
            Some(s)
        },
        COps::Putchar => Some(s),
        COps::Getchar => Some(s),
        COps::JmpIfZ(_) => Some(Walk { loops: s.loops.push(s.at), ..s }),
        COps::JmpIfNZ(_) => if s.loops.len() > 0 && s.loops.last() == s.at {
            Some(Walk { loops: s.loops.drop_last(), ..s })
        } else {
            None
        },
    }
}

/// A walk through code, operation by operation.
pub open spec fn walk(w: int, code: Seq<COps>, s: Walk) -> Option<Walk>
    decreases code.len(),
{
    if code.len() == 0 {
        Some(s)
    } else {
        match walk(w, code.drop_last(), s) {
            Some(s1) => walk_op(w, code.last(), s1),
            None => None,
        }
    }
}

/// A walk through two pieces of code is a walk through the first and then
/// through the second.
pub proof fn lemma_walk_join(w: int, x: Seq<COps>, y: Seq<COps>, s: Walk)
    ensures
        walk(w, x + y, s) == match walk(w, x, s) {
            Some(s1) => walk(w, y, s1),
            None => None,
        },
    decreases y.len(),
{
    if y.len() == 0 {
        assert(x + y =~= x);
    } else {
        assert((x + y).drop_last() =~= x + y.drop_last());
        lemma_walk_join(w, x, y.drop_last(), s);
    }
}

/// A walk through one operation.
pub proof fn lemma_walk_one(w: int, op: COps, s: Walk)
    ensures
        walk(w, seq![op], s) == walk_op(w, op, s),
{
    assert(seq![op].drop_last() =~= Seq::<COps>::empty());
    reveal_with_fuel(walk, 2);
}

/// The loops that are open count the depth of the code.
pub proof fn lemma_walk_depth(w: int, code: Seq<COps>, s: Walk)
    requires
        walk(w, code, s) is Some,
    ensures
        (walk(w, code, s)->0).loops.len() == s.loops.len() + depth(code, code.len() as int),
        forall|k: int| 0 <= k <= code.len() ==> s.loops.len() + depth(code, k) >= 0,
    decreases code.len(),
{
    if code.len() > 0 {
        let n = code.len() as int;
        let front = code.drop_last();
        lemma_walk_depth(w, front, s);
        assert(front =~= code.subrange(0, n - 1));
        lemma_depth_part(code, 0, n - 1, n - 1);
        assert(depth(code, n) == depth(code, n - 1) + delta(code[n - 1]));
        assert forall|k: int| 0 <= k <= code.len() implies s.loops.len() + depth(code, k)
            >= 0 by {
            if k < n {
                lemma_depth_part(code, 0, n - 1, k);
            }
        }
    }
}

/// Code that can be walked with no loop open before and none after is
/// balanced.
pub proof fn lemma_walk_balanced(w: int, code: Seq<COps>, at: int)
    requires
        walk(w, code, Walk { at, loops: Seq::empty() }) is Some,
        (walk(w, code, Walk { at, loops: Seq::empty() })->0).loops.len() == 0,
    ensures
        balanced(code),
{
    lemma_walk_depth(w, code, Walk { at, loops: Seq::empty() });
}

/// A walk through balanced code leaves the loops that were open as they
/// were.
pub proof fn lemma_walk_keeps_loops(w: int, code: Seq<COps>, s: Walk)
    requires
        balanced(code),
        walk(w, code, s) is Some,
    ensures
        (walk(w, code, s)->0).loops == s.loops,
    decreases code.len(),
{
    if code.len() == 0 {
        return ;
    }
    let n = code.len() as int;
    match code.last() {
        COps::JmpIfNZ(_) => {
            lemma_opener(code);
            let i = opener(code);
            let before = code.take(i);
            let body = code.subrange(i + 1, n - 1);
            lemma_balanced_loop(code, i);
            assert(code =~= before + seq![code[i]] + body + seq![code[n - 1]]);
            lemma_walk_join(w, before + seq![code[i]] + body, seq![code[n - 1]], s);
            lemma_walk_join(w, before + seq![code[i]], body, s);
            lemma_walk_join(w, before, seq![code[i]], s);
            lemma_walk_one(w, code[i], walk(w, before, s)->0);
            lemma_walk_keeps_loops(w, before, s);
            let s1 = walk(w, before, s)->0;
            let s2 = Walk { loops: s1.loops.push(s1.at), ..s1 };
            lemma_walk_keeps_loops(w, body, s2);
            let s3 = walk(w, body, s2)->0;
            lemma_walk_one(w, code[n - 1], s3);
            assert(s3.loops.drop_last() =~= s1.loops);
        },
        COps::JmpIfZ(_) => {
            lemma_no_open_end(code);
        },
        _ => {
            lemma_balanced_front(code);
            lemma_walk_keeps_loops(w, code.drop_last(), s);
        },
    }
}

// ---------------------------------------------------------------------------
// What a walk says of a run
// ---------------------------------------------------------------------------

/// The first cell of frame `j`.
pub open spec fn frame(j: int, w: int) -> int {
    j * w
}

/// The entry flags are in order: the frames 1 to `live` have theirs at 1, and
/// every other frame on the tape has its at 0.
pub open spec fn flags(c: Cells, live: int, w: int) -> bool {
    forall|j: int|
        0 <= j && #[trigger] frame(j, w) < c.tape.len() ==> c.tape[frame(j, w)] == if 1 <= j
            <= live {
            1u8
        } else {
            0u8
        }
}

/// The cells are where a walk says: `live` frames are live, their flags are
/// in order, and the head stands `at` cells from the first cell of the live
/// frame.
pub open spec fn stands(c: Cells, live: int, w: int, at: int) -> bool {
    &&& live >= 0
    &&& w > 0
    &&& flags(c, live, w)
    &&& c.mp == frame(live, w) + at
    &&& c.valid()
}

/// Frames lie side by side.
pub proof fn lemma_frames(j: int, k: int, w: int)
    requires
        w > 0,
    ensures
        frame(j + 1, w) == frame(j, w) + w,
        frame(j - 1, w) == frame(j, w) - w,
        j < k ==> frame(j, w) + w <= frame(k, w),
        j == k <==> frame(j, w) == frame(k, w),
        frame(0, w) == 0,
{
    assert(frame(j + 1, w) == frame(j, w) + w) by (nonlinear_arith);
    assert(frame(j - 1, w) == frame(j, w) - w) by (nonlinear_arith);
    assert(j < k ==> frame(j, w) + w <= frame(k, w)) by (nonlinear_arith)
        requires
            w > 0,
    ;
    assert(k < j ==> frame(k, w) + w <= frame(j, w)) by (nonlinear_arith)
        requires
            w > 0,
    ;
}

/// A cell that is not the first of a frame is no entry flag.
pub proof fn lemma_off_flag(live: int, w: int, at: int, j: int)
    requires
        w > 0,
        0 < at < 2 * w,
        at != w,
    ensures
        frame(j, w) != frame(live, w) + at,
{
    lemma_frames(j, live, w);
    lemma_frames(live, live + 1, w);
    lemma_frames(live + 1, live + 2, w);
    lemma_frames(live + 2, j, w);
    if j == live + 1 {
    } else if j == live + 2 {
    }
}

/// One operation keeps the cells where the walk says.
pub proof fn lemma_walk_op_sound(w: int, op: COps, s: Walk, c: Cells, live: int)
    requires
        delta(op) == 0,
        0 <= s.at < 2 * w,
        stands(c, live, w, s.at),
        walk_op(w, op, s) is Some,
        act(op, c) is Ok,
    ensures
        exists|next: int| stands(act(op, c)->Ok_0, next, w, (walk_op(w, op, s)->0).at),
        0 <= (walk_op(w, op, s)->0).at < 2 * w,
{
    let c2 = act(op, c)->Ok_0;
    let s2 = walk_op(w, op, s)->0;
    lemma_frames(live, live + 1, w);
    lemma_frames(live, live - 1, w);
    match op {
        COps::Mov(n) => {
            assert(stands(c2, live, w, s2.at));
        },
        COps::Add(n) => {
            if n == 0 {
                assert(c2.tape =~= c.tape);
                assert(stands(c2, live, w, s2.at));
            } else if s.at == w {
                assert(c.mp == frame(live + 1, w));
                assert(c.cell() == 0);
                assert forall|j: int|
                    0 <= j && #[trigger] frame(j, w) < c2.tape.len() implies c2.tape[frame(j, w)]
                    == if 1 <= j <= live + 1 {
                    1u8
                } else {
                    0u8
                } by {
                    lemma_frames(j, live + 1, w);
                }
                assert(stands(c2, live + 1, w, s2.at));
            } else if s.at == 0 {
                assert(c.mp == frame(live, w));
                if live == 0 {
                    assert(c.cell() == 0);
                    assert(false);
                }
                assert(c.cell() == 1);
                assert forall|j: int|
                    0 <= j && #[trigger] frame(j, w) < c2.tape.len() implies c2.tape[frame(j, w)]
                    == if 1 <= j <= live - 1 {
                    1u8
                } else {
                    0u8
                } by {
                    lemma_frames(j, live, w);
                }
                assert(stands(c2, live - 1, w, s2.at));
            } else {
                assert forall|j: int|
                    0 <= j && #[trigger] frame(j, w) < c2.tape.len() implies c2.tape[frame(j, w)]
                    == if 1 <= j <= live {
                    1u8
                } else {
                    0u8
                } by {
                    lemma_off_flag(live, w, s.at, j);
                }
                assert(stands(c2, live, w, s2.at));
            }
        },
        COps::Putchar => {
            assert(stands(c2, live, w, s2.at));
        },
        _ => {},
    }
}

/// A run of code that can be walked ends where the walk says: if the cells
/// stand where the walk starts, and the run comes to its end, the cells stand
/// where the walk ends, with some number of frames live.
pub proof fn lemma_walk_sound(
    w: int,
    code: Seq<COps>,
    s: Walk,
    c: Cells,
    live: int,
    fuel: nat,
) -> (next: int)
    requires
        balanced(code),
        0 <= s.at < 2 * w,
        stands(c, live, w, s.at),
        walk(w, code, s) is Some,
        sem(code, c, fuel) is Done,
    ensures
        stands(sem(code, c, fuel)->Done_0, next, w, (walk(w, code, s)->0).at),
        0 <= (walk(w, code, s)->0).at < 2 * w,
    decreases fuel, code.len(), 0nat,
{
    if code.len() == 0 {
        return live;
    }
    let n = code.len() as int;
    match code.last() {
        COps::JmpIfNZ(_) => {
            lemma_opener(code);
            let i = opener(code);
            let before = code.take(i);
            let body = code.subrange(i + 1, n - 1);
            lemma_balanced_loop(code, i);
            assert(code =~= before + seq![code[i]] + body + seq![code[n - 1]]);
            lemma_walk_join(w, before + seq![code[i]] + body, seq![code[n - 1]], s);
            lemma_walk_join(w, before + seq![code[i]], body, s);
            lemma_walk_join(w, before, seq![code[i]], s);
            let s1 = walk(w, before, s)->0;
            lemma_walk_one(w, code[i], s1);
            let s2 = Walk { loops: s1.loops.push(s1.at), ..s1 };
            lemma_walk_keeps_loops(w, body, s2);
            let s3 = walk(w, body, s2)->0;
            lemma_walk_one(w, code[n - 1], s3);
            let live1 = lemma_walk_sound(w, before, s, c, live, fuel);
            let c1 = sem(before, c, fuel)->Done_0;
            lemma_rounds_sound(w, body, s2, c1, live1, fuel)
        },
        COps::JmpIfZ(_) => {
            lemma_no_open_end(code);
            live
        },
        op => {
            lemma_balanced_front(code);
            let front = code.drop_last();
            let live1 = lemma_walk_sound(w, front, s, c, live, fuel);
            let c1 = sem(front, c, fuel)->Done_0;
            let s1 = walk(w, front, s)->0;
            lemma_walk_op_sound(w, op, s1, c1, live1);
            choose|next: int| stands(act(op, c1)->Ok_0, next, w, (walk_op(w, op, s1)->0).at)
        },
    }
}

/// The rounds of a loop whose body can be walked back to where it starts
/// keep the cells where the walk says.
pub proof fn lemma_rounds_sound(
    w: int,
    body: Seq<COps>,
    s: Walk,
    c: Cells,
    live: int,
    fuel: nat,
) -> (next: int)
    requires
        balanced(body),
        0 <= s.at < 2 * w,
        stands(c, live, w, s.at),
        walk(w, body, s) is Some,
        (walk(w, body, s)->0).at == s.at,
        iterate(body, c, fuel) is Done,
    ensures
        stands(iterate(body, c, fuel)->Done_0, next, w, s.at),
        (iterate(body, c, fuel)->Done_0).cell() == 0,
    decreases fuel, body.len(), 1nat,
{
    if c.cell() == 0 {
        live
    } else {
        let f = (fuel - 1) as nat;
        let live1 = lemma_walk_sound(w, body, s, c, live, f);
        lemma_rounds_sound(w, body, s, sem(body, c, f)->Done_0, live1, f)
    }
}

/// Code that ends in a loop ends on a cell that is 0.
pub proof fn lemma_ends_on_zero(code: Seq<COps>, c: Cells, fuel: nat)
    requires
        balanced(code),
        code.len() > 0,
        code.last() is JmpIfNZ,
        sem(code, c, fuel) is Done,
    ensures
        (sem(code, c, fuel)->Done_0).cell() == 0,
{
    lemma_opener(code);
    let i = opener(code);
    let body = code.subrange(i + 1, code.len() - 1);
    let c1 = sem(code.take(i), c, fuel)->Done_0;
    lemma_rounds_zero(body, c1, fuel);
}

/// A loop ends on a cell that is 0.
pub proof fn lemma_rounds_zero(body: Seq<COps>, c: Cells, fuel: nat)
    requires
        iterate(body, c, fuel) is Done,
    ensures
        (iterate(body, c, fuel)->Done_0).cell() == 0,
    decreases fuel,
{
    if c.cell() != 0 {
        let f = (fuel - 1) as nat;
        lemma_rounds_zero(body, sem(body, c, f)->Done_0, f);
    }
}

/// Two operations that are fused walk as their fused pair does.
pub proof fn lemma_walk_pair(w: int, z: COps, x: COps, s: Walk)
    requires
        fused_pair(z, x) is Some,
        walk_op(w, z, s) is Some,
        walk_op(w, x, walk_op(w, z, s)->0) is Some,
        w > 0,
    ensures
        walk_op(w, fused_pair(z, x)->0, s) == walk_op(w, x, walk_op(w, z, s)->0),
{
}

/// Code that can be walked can be walked when fused, to the same end.
pub proof fn lemma_walk_fused(w: int, code: Seq<COps>, s: Walk)
    requires
        walk(w, code, s) is Some,
        w > 0,
    ensures
        walk(w, fuse(code), s) == walk(w, code, s),
    decreases code.len(),
{
    if code.len() > 0 {
        let front = code.drop_last();
        let x = code.last();
        assert(front.push(x) =~= code);
        lemma_walk_fused(w, front, s);
        lemma_fuse_push(front, x);
        let f = fuse(front);
        if f.len() > 0 && fused_pair(f.last(), x) is Some {
            let z = f.last();
            let g = f.drop_last().push(fused_pair(z, x)->0);
            assert(g.drop_last() =~= f.drop_last());
            let s0 = walk(w, f.drop_last(), s)->0;
            lemma_walk_pair(w, z, x, s0);
        } else {
            assert(f.push(x).drop_last() =~= f);
        }
    }
}

// ---------------------------------------------------------------------------
// Walks through text
// ---------------------------------------------------------------------------

/// A place of a walk.
pub open spec fn here(at: int, loops: Seq<int>) -> Walk {
    Walk { at, loops }
}

/// The text can be walked from `s`, and the walk ends at `t`.
pub open spec fn strolls(w: int, text: Seq<char>, s: Walk, t: Walk) -> bool {
    walk(w, parse(text), s) == Some(t)
}

/// The text holds no instruction.
pub open spec fn quiet(text: Seq<char>) -> bool {
    parse(text) == Seq::<COps>::empty()
}

/// A walk through two texts is a walk through the first and then through the
/// second.
pub proof fn lemma_stroll_join(w: int, a: Seq<char>, b: Seq<char>, s: Walk, m: Walk, t: Walk)
    requires
        strolls(w, a, s, m),
        strolls(w, b, m, t),
    ensures
        strolls(w, a + b, s, t),
{
    lemma_parse_join(a, b);
    lemma_walk_join(w, parse(a), parse(b), s);
}

/// A walk through text without instructions stays where it is.
pub proof fn lemma_stroll_quiet(w: int, a: Seq<char>, s: Walk)
    requires
        quiet(a),
    ensures
        strolls(w, a, s, s),
{
}

/// Text without instructions in front of a text, or behind it, does not
/// change what the text is read as.
pub proof fn lemma_quiet_beside(a: Seq<char>, b: Seq<char>)
    ensures
        quiet(a) ==> parse(a + b) == parse(b),
        quiet(b) ==> parse(a + b) == parse(a),
        quiet(a) && quiet(b) ==> quiet(a + b),
{
    lemma_parse_join(a, b);
    assert(Seq::<COps>::empty() + parse(b) =~= parse(b));
    assert(parse(a) + Seq::<COps>::empty() =~= parse(a));
}

/// A character that is no instruction, written any number of times, is text
/// without instructions.
pub proof fn lemma_quiet_repeated(ch: char, n: nat)
    requires
        op_of_char(ch) is None,
    ensures
        quiet(repeated(ch, n)),
    decreases n,
{
    if n == 0 {
        assert(repeated(ch, 0) =~= Seq::<char>::empty());
    } else {
        lemma_quiet_repeated(ch, (n - 1) as nat);
        assert(repeated(ch, (n - 1) as nat).push(ch) =~= repeated(ch, n));
        crate::reasoning::lemma_parse_push(repeated(ch, (n - 1) as nat), ch);
    }
}

/// A number in decimal is text without instructions.
pub proof fn lemma_quiet_decimal(n: nat)
    ensures
        quiet(decimal(n)),
    decreases n,
{
    if n < 10 {
        lemma_parse_one(digit(n));
    } else {
        lemma_quiet_decimal(n / 10);
        crate::reasoning::lemma_parse_push(decimal(n / 10), digit(n % 10));
    }
}

/// A walk through moves to the right.
pub proof fn lemma_walk_right(w: int, k: nat, s: Walk)
    requires
        0 <= s.at,
        s.at + k < 2 * w,
    ensures
        walk(w, run_of(COps::Mov(1i64), k), s) == Some(Walk { at: s.at + k, ..s }),
    decreases k,
{
    if k > 0 {
        assert(run_of(COps::Mov(1i64), k).drop_last() =~= run_of(COps::Mov(1i64), (k - 1) as nat));
        lemma_walk_right(w, (k - 1) as nat, s);
    }
}

/// A walk through moves to the left.
pub proof fn lemma_walk_left(w: int, k: nat, s: Walk)
    requires
        0 <= s.at - k,
        s.at < 2 * w,
    ensures
        walk(w, run_of(COps::Mov(-1i64), k), s) == Some(Walk { at: s.at - k, ..s }),
    decreases k,
{
    if k > 0 {
        assert(run_of(COps::Mov(-1i64), k).drop_last() =~= run_of(
            COps::Mov(-1i64),
            (k - 1) as nat,
        ));
        lemma_walk_left(w, (k - 1) as nat, s);
    }
}

/// A walk through increments of a cell that is no entry flag.
pub proof fn lemma_walk_count(w: int, v: nat, s: Walk)
    requires
        s.at != 0,
        s.at != w,
    ensures
        walk(w, run_of(COps::Add(1i32), v), s) == Some(s),
    decreases v,
{
    if v > 0 {
        assert(run_of(COps::Add(1i32), v).drop_last() =~= run_of(COps::Add(1i32), (v - 1) as nat));
        lemma_walk_count(w, (v - 1) as nat, s);
    }
}

/// A walk to a cell of the frame, through what is to be done there, and
/// back.
pub proof fn lemma_stroll_goto(
    w: int,
    indent: nat,
    k: nat,
    body: Seq<char>,
    at: int,
    before: Seq<int>,
    after: Seq<int>,
)
    requires
        0 <= at,
        at + k < 2 * w,
        walk(w, parse(body), here(at + k, before)) == Some(here(at + k, after)),
    ensures
        strolls(w, goto_text(indent, k, body), here(at, before), here(at, after)),
{
    let t1 = tabs(indent);
    let t2 = t1 + repeated('>', k);
    let t3 = t2 + seq!['\n'];
    let t4 = t3 + body;
    let t5 = t4 + tabs(indent);
    let t6 = t5 + repeated('<', k);
    let t7 = t6 + seq!['\n'];
    assert(goto_text(indent, k, body) == t7);
    lemma_quiet_repeated('\t', indent);
    lemma_parse_one('\n');
    lemma_parse_repeated('>', k);
    lemma_parse_repeated('<', k);
    lemma_walk_right(w, k, here(at, before));
    lemma_walk_left(w, k, here(at + k, after));
    lemma_stroll_join(w, t1, repeated('>', k), here(at, before), here(at, before), here(at + k, before));
    lemma_stroll_join(w, t2, seq!['\n'], here(at, before), here(at + k, before), here(at + k, before));
    lemma_stroll_join(w, t3, body, here(at, before), here(at + k, before), here(at + k, after));
    lemma_stroll_join(w, t4, tabs(indent), here(at, before), here(at + k, after), here(at + k, after));
    lemma_stroll_join(w, t5, repeated('<', k), here(at, before), here(at + k, after), here(at, after));
    lemma_stroll_join(w, t6, seq!['\n'], here(at, before), here(at, after), here(at, after));
}

/// A line with a name in it is read as what its fixed parts are, where
/// the name holds no instruction.
pub proof fn lemma_parse_named(a: Seq<char>, name: Seq<char>, b: Seq<char>)
    requires
        quiet(name),
    ensures
        parse(a + name + b) == parse(a) + parse(b),
{
    lemma_parse_join(a + name, b);
    lemma_quiet_beside(a, name);
}

/// A line with a name and a number in it.
pub proof fn lemma_parse_named_numbered(
    a: Seq<char>,
    name: Seq<char>,
    b: Seq<char>,
    n: nat,
    c: Seq<char>,
)
    requires
        quiet(name),
    ensures
        parse(a + name + b + decimal(n) + c) == parse(a) + parse(b) + parse(c),
{
    lemma_parse_join(a + name + b + decimal(n), c);
    lemma_quiet_decimal(n);
    lemma_quiet_beside(a + name + b, decimal(n));
    lemma_parse_named(a, name, b);
}

/// A line with a number in it.
pub proof fn lemma_parse_numbered(a: Seq<char>, n: nat, b: Seq<char>)
    ensures
        parse(a + decimal(n) + b) == parse(a) + parse(b),
{
    lemma_quiet_decimal(n);
    lemma_parse_named(a, decimal(n), b);
}

/// A line with a run of increments in it.
pub proof fn lemma_parse_counted(a: Seq<char>, v: nat, b: Seq<char>)
    ensures
        parse(a + repeated('+', v) + b) == parse(a) + run_of(COps::Add(1i32), v) + parse(b),
{
    lemma_parse_join(a + repeated('+', v), b);
    lemma_parse_join(a, repeated('+', v));
    lemma_parse_repeated('+', v);
}

} // verus!
