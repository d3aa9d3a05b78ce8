//! What the lowering of a comparison does to the cells of a frame: the
//! destination ends as 1 where the register is less than the constant, and as
//! 0 where it is not.
use vstd::prelude::*;
use crate::balance::reg_at;
use crate::discipline::{
    lemma_parse_counted, lemma_quiet_beside, lemma_quiet_decimal, lemma_rounds_zero, quiet,
};
use crate::effects::{
    drained, drained_once, lemma_mv_plain, lemma_parse_clear, lemma_then_clear, lemma_then_mv, mv,
    sign_op, with_cell,
};
use crate::emit::{compare_less, compare_setup, lower_compare, reg};
use crate::interp::{balanced, parse, COps};
use crate::ir::{Operand, Pred};
use crate::layout::{goto_text, Layout};
use crate::lowering::{
    lemma_parse_goto, lemma_then_look, lemma_then_step, lemma_then_step_balanced,
    lemma_then_visit, on_tape, reg_cell, shared, shared_once,
};
use crate::reasoning::{
    lemma_join_balanced, lemma_line_balanced, lemma_loop_balanced, lemma_parse_join,
    lemma_parse_repeated, lemma_plain_balanced, lemma_regroup, lemma_sem_join, lemma_then_loop,
    lemma_then_op, moved, put,
};
use crate::semantics::{act, iterate, sem, Cells, Effect};
use crate::table::lemma_count_here;
use crate::tape::clear_loop;
use crate::text::{decimal, repeated};

verus! {

// ---------------------------------------------------------------------------
// Loops that take one from their cell at the end of every round
// ---------------------------------------------------------------------------

/// The body of a loop on the cell `s` of the frame that goes home, does `mid`
/// from there, comes back to the cell, and takes one from it.
pub open spec fn tail_body(s: nat, mid: Seq<char>) -> Seq<COps> {
    mv(s, 0) + parse(mid) + mv(0, s) + seq![COps::Add(-1i32)]
}

/// A loop that is opened on a visit of its cell and closed on a later visit
/// of the same cell, with one taken from the cell in front of the closing
/// bracket and `extra` done on the cell behind it, as operations.
pub proof fn lemma_parse_tail_span(
    indent: nat,
    s: nat,
    open: Seq<char>,
    mid: Seq<char>,
    close: Seq<char>,
    extra: Seq<COps>,
)
    requires
        parse(open) == seq![COps::JmpIfZ(0)],
        parse(close) == seq![COps::Add(-1i32), COps::JmpIfNZ(0)] + extra,
    ensures
        parse(goto_text(indent, s, open) + mid + goto_text(indent, s, close)) == mv(0, s) + seq![
            COps::JmpIfZ(0),
        ] + tail_body(s, mid) + seq![COps::JmpIfNZ(0)] + extra + mv(s, 0),
        balanced(parse(mid)) ==> balanced(tail_body(s, mid)),
{
    let first = goto_text(indent, s, open);
    let last = goto_text(indent, s, close);
    lemma_parse_join(first + mid, last);
    lemma_parse_join(first, mid);
    lemma_parse_goto(indent, s, open);
    lemma_parse_goto(indent, s, close);
    let jz = seq![COps::JmpIfZ(0)];
    let dec = seq![COps::Add(-1i32)];
    let jnz = seq![COps::JmpIfNZ(0)];
    assert(seq![COps::Add(-1i32), COps::JmpIfNZ(0)] =~= dec + jnz);
    let p = mv(0, s) + jz;
    let inner = mv(s, 0) + parse(mid) + mv(0, s);
    // the last visit, grouped from the left
    lemma_regroup(mv(0, s), dec + jnz, extra);
    lemma_regroup(mv(0, s), dec, jnz);
    assert(parse(last) == mv(0, s) + dec + jnz + extra + mv(s, 0));
    let whole = p + mv(s, 0) + parse(mid) + (mv(0, s) + dec + jnz + extra + mv(s, 0));
    assert(parse(first + mid + last) == whole);
    let q = p + mv(s, 0) + parse(mid);
    lemma_regroup(q, mv(0, s) + dec + jnz + extra, mv(s, 0));
    lemma_regroup(q, mv(0, s) + dec + jnz, extra);
    lemma_regroup(q, mv(0, s) + dec, jnz);
    lemma_regroup(q, mv(0, s), dec);
    lemma_regroup(p, mv(s, 0), parse(mid));
    lemma_regroup(p, mv(s, 0) + parse(mid), mv(0, s));
    lemma_regroup(p, inner, dec);
    if balanced(parse(mid)) {
        lemma_mv_plain(s, 0);
        lemma_mv_plain(0, s);
        lemma_plain_balanced(mv(s, 0));
        lemma_join_balanced(mv(s, 0), parse(mid));
        lemma_line_balanced(mv(s, 0) + parse(mid), mv(0, s));
        lemma_line_balanced(inner, dec);
    }
}

/// Such a loop behind some code.
pub proof fn lemma_then_tail_span(
    x: Seq<COps>,
    indent: nat,
    s: nat,
    open: Seq<char>,
    mid: Seq<char>,
    close: Seq<char>,
    bonus: bool,
    c: Cells,
    fuel: nat,
)
    requires
        parse(open) == seq![COps::JmpIfZ(0)],
        parse(close) == seq![COps::Add(-1i32), COps::JmpIfNZ(0)] + if bonus {
            seq![COps::Add(1i32)]
        } else {
            Seq::<COps>::empty()
        },
        balanced(parse(mid)),
        sem(x, c, fuel) is Done,
        ({
            let c1 = sem(x, c, fuel)->Done_0;
            &&& 0 <= c1.mp
            &&& c1.mp + s < c1.tape.len()
            &&& iterate(tail_body(s, mid), moved(c1, s as int), fuel) is Done
            &&& (iterate(tail_body(s, mid), moved(c1, s as int), fuel)->Done_0).mp == c1.mp + s
            &&& (iterate(tail_body(s, mid), moved(c1, s as int), fuel)->Done_0).tape.len()
                == c1.tape.len()
        }),
    ensures
        sem(
            x + parse(goto_text(indent, s, open) + mid + goto_text(indent, s, close)),
            c,
            fuel,
        ) == Effect::Done(
            moved(
                if bonus {
                    put(
                        iterate(
                            tail_body(s, mid),
                            moved(sem(x, c, fuel)->Done_0, s as int),
                            fuel,
                        )->Done_0,
                        1,
                    )
                } else {
                    iterate(
                        tail_body(s, mid),
                        moved(sem(x, c, fuel)->Done_0, s as int),
                        fuel,
                    )->Done_0
                },
                -(s as int),
            ),
        ),
        balanced(x) ==> balanced(
            x + parse(goto_text(indent, s, open) + mid + goto_text(indent, s, close)),
        ),
{
    let c1 = sem(x, c, fuel)->Done_0;
    let body = tail_body(s, mid);
    let jz = seq![COps::JmpIfZ(0)];
    let jnz = seq![COps::JmpIfNZ(0)];
    let extra = if bonus {
        seq![COps::Add(1i32)]
    } else {
        Seq::<COps>::empty()
    };
    lemma_parse_tail_span(indent, s, open, mid, close, extra);
    let x1 = x + mv(0, s);
    lemma_then_mv(x, 0, s, c, fuel);
    lemma_then_loop(x1, body, c, fuel);
    let x2 = x1 + jz + body + jnz;
    let c2 = iterate(body, moved(c1, s as int), fuel)->Done_0;
    lemma_rounds_zero(body, moved(c1, s as int), fuel);
    let x3 = x2 + extra;
    if bonus {
        lemma_then_op(x2, COps::Add(1i32), c, fuel);
        assert(x2.push(COps::Add(1i32)) =~= x3);
    } else {
        assert(x3 =~= x2);
    }
    lemma_then_mv(x3, s, 0, c, fuel);
    lemma_regroup(x, mv(0, s), jz);
    lemma_regroup(x, mv(0, s) + jz, body);
    lemma_regroup(x, mv(0, s) + jz + body, jnz);
    lemma_regroup(x, mv(0, s) + jz + body + jnz, extra);
    lemma_regroup(x, mv(0, s) + jz + body + jnz + extra, mv(s, 0));
    if balanced(x) {
        lemma_mv_plain(0, s);
        lemma_mv_plain(s, 0);
        lemma_line_balanced(x, mv(0, s));
        lemma_loop_balanced(x1, body);
        lemma_line_balanced(x2, extra);
        lemma_line_balanced(x3, mv(s, 0));
    }
}

/// One round of such a loop that carries its cell over to the cell `d`.
pub proof fn lemma_tail_carry_round(
    indent: nat,
    s: nat,
    d: nat,
    step: Seq<char>,
    c: Cells,
    h: int,
    fuel: nat,
)
    requires
        s != d,
        0 <= h,
        h + s < c.tape.len(),
        h + d < c.tape.len(),
        c.mp == h + s,
        c.tape[h + s] >= 1,
        c.tape[h + d] <= 254,
        parse(step) == seq![sign_op(true)],
    ensures
        sem(tail_body(s, goto_text(indent, d, step)), c, fuel) == Effect::Done(
            drained_once(c, h, s, d, true),
        ),
{
    let e = Seq::<COps>::empty();
    let mid = goto_text(indent, d, step);
    assert(sem(e, c, fuel) == Effect::Done(c));
    let x1 = e + mv(s, 0);
    lemma_then_mv(e, s, 0, c, fuel);
    let c1 = moved(c, 0 - s);
    lemma_then_step(x1, indent, d, step, true, c, fuel);
    let x2 = x1 + parse(mid);
    let c2 = with_cell(c1, h + d, c1.tape[h + d] + 1);
    assert(sem(x2, c, fuel) == Effect::Done(c2));
    lemma_then_mv(x2, 0, s, c, fuel);
    let x3 = x2 + mv(0, s);
    lemma_then_op(x3, COps::Add(-1i32), c, fuel);
    assert(e + mv(s, 0) =~= mv(s, 0));
    assert(x3.push(COps::Add(-1i32)) =~= tail_body(s, mid));
    let c4 = act(COps::Add(-1i32), moved(c2, s as int))->Ok_0;
    assert(c4.tape =~= drained_once(c, h, s, d, true).tape);
}

/// All rounds of such a loop that carries its cell over to the cell `d`.
pub proof fn lemma_tail_carry_rounds(
    indent: nat,
    s: nat,
    d: nat,
    step: Seq<char>,
    c: Cells,
    h: int,
    fuel: nat,
)
    requires
        s != d,
        0 <= h,
        h + s < c.tape.len(),
        h + d < c.tape.len(),
        c.mp == h + s,
        c.tape[h + d] + c.tape[h + s] <= 255,
        fuel >= c.tape[h + s],
        parse(step) == seq![sign_op(true)],
    ensures
        iterate(tail_body(s, goto_text(indent, d, step)), c, fuel) == Effect::Done(
            drained(c, h, s, d, true),
        ),
    decreases c.tape[h + s],
{
    if c.tape[h + s] == 0 {
        assert(drained(c, h, s, d, true).tape =~= c.tape);
    } else {
        let f = (fuel - 1) as nat;
        lemma_tail_carry_round(indent, s, d, step, c, h, f);
        let c1 = drained_once(c, h, s, d, true);
        lemma_tail_carry_rounds(indent, s, d, step, c1, h, f);
        assert(drained(c1, h, s, d, true).tape =~= drained(c, h, s, d, true).tape);
    }
}

/// One round of such a loop that carries its cell over to two cells.
pub proof fn lemma_tail_share_round(
    indent: nat,
    s: nat,
    d1: nat,
    step1: Seq<char>,
    d2: nat,
    step2: Seq<char>,
    c: Cells,
    h: int,
    fuel: nat,
)
    requires
        s != d1,
        s != d2,
        d1 != d2,
        0 <= h,
        h + s < c.tape.len(),
        h + d1 < c.tape.len(),
        h + d2 < c.tape.len(),
        c.mp == h + s,
        c.tape[h + s] >= 1,
        c.tape[h + d1] <= 254,
        c.tape[h + d2] <= 254,
        parse(step1) == seq![sign_op(true)],
        parse(step2) == seq![sign_op(true)],
    ensures
        sem(
            tail_body(s, goto_text(indent, d1, step1) + goto_text(indent, d2, step2)),
            c,
            fuel,
        ) == Effect::Done(shared_once(c, h, s, d1, true, d2, true)),
{
    let e = Seq::<COps>::empty();
    let v1 = goto_text(indent, d1, step1);
    let v2 = goto_text(indent, d2, step2);
    lemma_parse_join(v1, v2);
    assert(sem(e, c, fuel) == Effect::Done(c));
    let x1 = e + mv(s, 0);
    lemma_then_mv(e, s, 0, c, fuel);
    let c1 = moved(c, 0 - s);
    lemma_then_step(x1, indent, d1, step1, true, c, fuel);
    let x2 = x1 + parse(v1);
    let c2 = with_cell(c1, h + d1, c1.tape[h + d1] + 1);
    assert(sem(x2, c, fuel) == Effect::Done(c2));
    lemma_then_step(x2, indent, d2, step2, true, c, fuel);
    let x3 = x2 + parse(v2);
    let c3 = with_cell(c2, h + d2, c2.tape[h + d2] + 1);
    assert(sem(x3, c, fuel) == Effect::Done(c3));
    lemma_then_mv(x3, 0, s, c, fuel);
    let x4 = x3 + mv(0, s);
    lemma_then_op(x4, COps::Add(-1i32), c, fuel);
    assert(e + mv(s, 0) =~= mv(s, 0));
    lemma_regroup(x1, parse(v1), parse(v2));
    assert(x4.push(COps::Add(-1i32)) =~= tail_body(s, v1 + v2));
    let c5 = act(COps::Add(-1i32), moved(c3, s as int))->Ok_0;
    assert(c5.tape =~= shared_once(c, h, s, d1, true, d2, true).tape);
}

/// All rounds of such a loop that carries its cell over to two cells.
pub proof fn lemma_tail_share_rounds(
    indent: nat,
    s: nat,
    d1: nat,
    step1: Seq<char>,
    d2: nat,
    step2: Seq<char>,
    c: Cells,
    h: int,
    fuel: nat,
)
    requires
        s != d1,
        s != d2,
        d1 != d2,
        0 <= h,
        h + s < c.tape.len(),
        h + d1 < c.tape.len(),
        h + d2 < c.tape.len(),
        c.mp == h + s,
        c.tape[h + d1] + c.tape[h + s] <= 255,
        c.tape[h + d2] + c.tape[h + s] <= 255,
        fuel >= c.tape[h + s],
        parse(step1) == seq![sign_op(true)],
        parse(step2) == seq![sign_op(true)],
    ensures
        iterate(
            tail_body(s, goto_text(indent, d1, step1) + goto_text(indent, d2, step2)),
            c,
            fuel,
        ) == Effect::Done(shared(c, h, s, d1, true, d2, true)),
    decreases c.tape[h + s],
{
    if c.tape[h + s] == 0 {
        assert(shared(c, h, s, d1, true, d2, true).tape =~= c.tape);
    } else {
        let f = (fuel - 1) as nat;
        lemma_tail_share_round(indent, s, d1, step1, d2, step2, c, h, f);
        let c1 = shared_once(c, h, s, d1, true, d2, true);
        lemma_tail_share_rounds(indent, s, d1, step1, d2, step2, c1, h, f);
        assert(shared(c1, h, s, d1, true, d2, true).tape =~= shared(
            c,
            h,
            s,
            d1,
            true,
            d2,
            true,
        ).tape);
    }
}

/// Such a loop that carries its cell `s` over to the cell `d`, behind some
/// code; with `bonus`, the cell ends as 1.
pub proof fn lemma_then_tail_carry(
    x: Seq<COps>,
    indent: nat,
    s: nat,
    d: nat,
    open: Seq<char>,
    step: Seq<char>,
    close: Seq<char>,
    bonus: bool,
    c: Cells,
    fuel: nat,
)
    requires
        parse(open) == seq![COps::JmpIfZ(0)],
        parse(close) == seq![COps::Add(-1i32), COps::JmpIfNZ(0)] + if bonus {
            seq![COps::Add(1i32)]
        } else {
            Seq::<COps>::empty()
        },
        parse(step) == seq![sign_op(true)],
        s != d,
        sem(x, c, fuel) is Done,
        ({
            let c1 = sem(x, c, fuel)->Done_0;
            &&& 0 <= c1.mp
            &&& c1.mp + s < c1.tape.len()
            &&& c1.mp + d < c1.tape.len()
            &&& c1.tape[c1.mp + d] + c1.tape[c1.mp + s] <= 255
        }),
        fuel >= 255,
    ensures
        sem(
            x + parse(
                goto_text(indent, s, open) + goto_text(indent, d, step) + goto_text(
                    indent,
                    s,
                    close,
                ),
            ),
            c,
            fuel,
        ) == Effect::Done(
            with_cell(
                drained(sem(x, c, fuel)->Done_0, (sem(x, c, fuel)->Done_0).mp, s, d, true),
                (sem(x, c, fuel)->Done_0).mp + s,
                if bonus {
                    1
                } else {
                    0
                },
            ),
        ),
        balanced(x) ==> balanced(
            x + parse(
                goto_text(indent, s, open) + goto_text(indent, d, step) + goto_text(
                    indent,
                    s,
                    close,
                ),
            ),
        ),
{
    let c1 = sem(x, c, fuel)->Done_0;
    let h = c1.mp;
    let mid = goto_text(indent, d, step);
    lemma_then_step_balanced(indent, d, step, true);
    lemma_tail_carry_rounds(indent, s, d, step, moved(c1, s as int), h, fuel);
    lemma_then_tail_span(x, indent, s, open, mid, close, bonus, c, fuel);
    let c2 = drained(moved(c1, s as int), h, s, d, true);
    let want = with_cell(
        drained(c1, h, s, d, true),
        h + s,
        if bonus {
            1
        } else {
            0
        },
    );
    if bonus {
        assert(moved(put(c2, 1), -(s as int)).tape =~= want.tape);
    } else {
        assert(moved(c2, -(s as int)).tape =~= want.tape);
    }
}

/// Such a loop that carries its cell over to two cells, behind some code.
pub proof fn lemma_then_tail_share(
    x: Seq<COps>,
    indent: nat,
    s: nat,
    open: Seq<char>,
    d1: nat,
    step1: Seq<char>,
    d2: nat,
    step2: Seq<char>,
    close: Seq<char>,
    c: Cells,
    fuel: nat,
)
    requires
        parse(open) == seq![COps::JmpIfZ(0)],
        parse(close) == seq![COps::Add(-1i32), COps::JmpIfNZ(0)],
        parse(step1) == seq![sign_op(true)],
        parse(step2) == seq![sign_op(true)],
        s != d1,
        s != d2,
        d1 != d2,
        sem(x, c, fuel) is Done,
        ({
            let c1 = sem(x, c, fuel)->Done_0;
            &&& 0 <= c1.mp
            &&& c1.mp + s < c1.tape.len()
            &&& c1.mp + d1 < c1.tape.len()
            &&& c1.mp + d2 < c1.tape.len()
            &&& c1.tape[c1.mp + d1] + c1.tape[c1.mp + s] <= 255
            &&& c1.tape[c1.mp + d2] + c1.tape[c1.mp + s] <= 255
        }),
        fuel >= 255,
    ensures
        sem(
            x + parse(
                goto_text(indent, s, open) + (goto_text(indent, d1, step1) + goto_text(
                    indent,
                    d2,
                    step2,
                )) + goto_text(indent, s, close),
            ),
            c,
            fuel,
        ) == Effect::Done(
            shared(
                sem(x, c, fuel)->Done_0,
                (sem(x, c, fuel)->Done_0).mp,
                s,
                d1,
                true,
                d2,
                true,
            ),
        ),
        balanced(x) ==> balanced(
            x + parse(
                goto_text(indent, s, open) + (goto_text(indent, d1, step1) + goto_text(
                    indent,
                    d2,
                    step2,
                )) + goto_text(indent, s, close),
            ),
        ),
{
    let c1 = sem(x, c, fuel)->Done_0;
    let h = c1.mp;
    let mid = goto_text(indent, d1, step1) + goto_text(indent, d2, step2);
    lemma_then_step_balanced(indent, d1, step1, true);
    lemma_then_step_balanced(indent, d2, step2, true);
    lemma_parse_join(goto_text(indent, d1, step1), goto_text(indent, d2, step2));
    lemma_join_balanced(
        parse(goto_text(indent, d1, step1)),
        parse(goto_text(indent, d2, step2)),
    );
    lemma_tail_share_rounds(indent, s, d1, step1, d2, step2, moved(c1, s as int), h, fuel);
    let e = Seq::<COps>::empty();
    assert(seq![COps::Add(-1i32), COps::JmpIfNZ(0)] + e =~= seq![
        COps::Add(-1i32),
        COps::JmpIfNZ(0),
    ]);
    lemma_then_tail_span(x, indent, s, open, mid, close, false, c, fuel);
    assert(moved(
        shared(moved(c1, s as int), h, s, d1, true, d2, true),
        -(s as int),
    ) == shared(c1, h, s, d1, true, d2, true));
}

// ---------------------------------------------------------------------------
// What is done only where a cell is 0
// ---------------------------------------------------------------------------

/// The body of the loop that steps over the mark beside a cell that is not 0.
pub open spec fn skip_body() -> Seq<COps> {
    seq![COps::Mov(1i64), COps::Add(-1i32)]
}

/// The body of the loop on the mark: from the mark to the cell, home, `mid`
/// from there, back to the cell, and past the mark, which is taken away.
pub open spec fn unless_body(k: nat, mid: Seq<char>) -> Seq<COps> {
    seq![COps::Mov(-1i64)] + mv(k, 0) + parse(mid) + mv(0, k) + seq![
        COps::Mov(1i64),
        COps::Add(-1i32),
        COps::Mov(1i64),
    ]
}

/// The way back from behind the mark, which is set again, and home.
pub open spec fn unless_end(k: nat) -> Seq<COps> {
    seq![COps::Mov(-1i64), COps::Add(1i32), COps::Mov(-1i64)] + mv(k, 0)
}

/// What comes in front of the test of the cell: with `pre`, one is taken from
/// the cell.
pub open spec fn unless_pre(pre: bool) -> Seq<COps> {
    if pre {
        seq![COps::Add(-1i32)]
    } else {
        Seq::<COps>::empty()
    }
}

/// The operations that test the cell and open the loop on the mark.
pub open spec fn unless_head() -> Seq<COps> {
    seq![
        COps::JmpIfZ(0),
        COps::Mov(1i64),
        COps::Add(-1i32),
        COps::JmpIfNZ(0),
        COps::Mov(1i64),
        COps::JmpIfZ(0),
        COps::Mov(-1i64),
    ]
}

/// The operations that close the loop on the mark and set the mark again.
pub open spec fn unless_tail() -> Seq<COps> {
    seq![
        COps::Mov(1i64),
        COps::Add(-1i32),
        COps::Mov(1i64),
        COps::JmpIfNZ(0),
        COps::Mov(-1i64),
        COps::Add(1i32),
        COps::Mov(-1i64),
    ]
}

/// The whole of such a test as operations, from the left.
pub open spec fn unless_code(x: Seq<COps>, k: nat, pre: bool, mid: Seq<char>) -> Seq<COps> {
    x + mv(0, k) + unless_pre(pre) + seq![COps::JmpIfZ(0)] + skip_body() + seq![COps::JmpIfNZ(0)]
        + seq![COps::Mov(1i64)] + seq![COps::JmpIfZ(0)] + unless_body(k, mid) + seq![
        COps::JmpIfNZ(0),
    ] + unless_end(k)
}

/// A test of the cell `k` of the frame, with what is done where the cell is
/// 0 written between two visits of the cell, as operations.
pub proof fn lemma_parse_unless(
    x: Seq<COps>,
    indent: nat,
    k: nat,
    pre: bool,
    head: Seq<char>,
    mid: Seq<char>,
    tail: Seq<char>,
)
    requires
        parse(head) == unless_pre(pre) + unless_head(),
        parse(tail) == unless_tail(),
    ensures
        x + parse(goto_text(indent, k, head) + mid + goto_text(indent, k, tail)) == unless_code(
            x,
            k,
            pre,
            mid,
        ),
        balanced(parse(mid)) ==> balanced(unless_body(k, mid)),
        balanced(skip_body()),
{
    let first = goto_text(indent, k, head);
    let last = goto_text(indent, k, tail);
    lemma_parse_join(first + mid, last);
    lemma_parse_join(first, mid);
    lemma_parse_goto(indent, k, head);
    lemma_parse_goto(indent, k, tail);
    let whole = parse(first + mid + last);
    assert(whole == (mv(0, k) + (unless_pre(pre) + unless_head()) + mv(k, 0)) + parse(mid) + (mv(
        0,
        k,
    ) + unless_tail() + mv(k, 0)));
    assert(x + whole =~= unless_code(x, k, pre, mid));
    lemma_plain_balanced(skip_body());
    if balanced(parse(mid)) {
        lemma_mv_plain(k, 0);
        lemma_mv_plain(0, k);
        let a = seq![COps::Mov(-1i64)] + mv(k, 0);
        lemma_plain_balanced(a);
        lemma_join_balanced(a, parse(mid));
        lemma_line_balanced(a + parse(mid), mv(0, k));
        lemma_line_balanced(
            a + parse(mid) + mv(0, k),
            seq![COps::Mov(1i64), COps::Add(-1i32), COps::Mov(1i64)],
        );
    }
}

/// The loop that steps over the mark: where the cell is not 0, the head ends
/// on the mark, which is taken away; where it is 0, nothing is done.
pub proof fn lemma_unless_skip(c: Cells, fuel: nat)
    requires
        0 <= c.mp,
        c.mp + 1 < c.tape.len(),
        c.tape[c.mp + 1] == 1,
        fuel >= 1,
    ensures
        iterate(skip_body(), c, fuel) == Effect::Done(
            if c.cell() == 0 {
                c
            } else {
                moved(with_cell(c, c.mp + 1, 0), 1)
            },
        ),
{
    if c.cell() != 0 {
        let f = (fuel - 1) as nat;
        let e = Seq::<COps>::empty();
        assert(sem(e, c, f) == Effect::Done(c));
        lemma_then_op(e, COps::Mov(1i64), c, f);
        let x1 = e.push(COps::Mov(1i64));
        lemma_then_op(x1, COps::Add(-1i32), c, f);
        assert(x1.push(COps::Add(-1i32)) =~= skip_body());
        let c1 = moved(with_cell(c, c.mp + 1, 0), 1);
        assert(sem(skip_body(), c, f)->Done_0.tape =~= c1.tape);
        assert(sem(skip_body(), c, f) == Effect::Done(c1));
        assert(c1.cell() == 0);
        assert(iterate(skip_body(), c1, f) == Effect::Done(c1));
    }
}

/// One round of the loop on the mark: `mid` is done from home, and the head
/// ends behind the mark, which is taken away.
pub proof fn lemma_unless_round(k: nat, mid: Seq<char>, c: Cells, h: int, fuel: nat)
    requires
        balanced(parse(mid)),
        0 <= h,
        h + k + 2 < c.tape.len(),
        c.mp == h + k + 1,
        sem(parse(mid), moved(c, -(k as int) - 1), fuel) is Done,
        ({
            let cm = sem(parse(mid), moved(c, -(k as int) - 1), fuel)->Done_0;
            &&& cm.mp == h
            &&& cm.tape.len() == c.tape.len()
            &&& cm.tape[h + k + 1] == 1
        }),
    ensures
        sem(unless_body(k, mid), c, fuel) == Effect::Done(
            moved(
                with_cell(
                    sem(parse(mid), moved(c, -(k as int) - 1), fuel)->Done_0,
                    h + k + 1,
                    0,
                ),
                (k + 2) as int,
            ),
        ),
{
    let cm = sem(parse(mid), moved(c, -(k as int) - 1), fuel)->Done_0;
    let e = Seq::<COps>::empty();
    assert(sem(e, c, fuel) == Effect::Done(c));
    lemma_then_op(e, COps::Mov(-1i64), c, fuel);
    let x1 = e.push(COps::Mov(-1i64));
    assert(x1 =~= seq![COps::Mov(-1i64)]);
    lemma_then_mv(x1, k, 0, c, fuel);
    let x2 = x1 + mv(k, 0);
    assert(sem(x2, c, fuel) == Effect::Done(moved(c, -(k as int) - 1)));
    lemma_sem_join(x2, parse(mid), c, fuel);
    let x3 = x2 + parse(mid);
    lemma_then_mv(x3, 0, k, c, fuel);
    let x4 = x3 + mv(0, k);
    lemma_then_op(x4, COps::Mov(1i64), c, fuel);
    let x5 = x4.push(COps::Mov(1i64));
    lemma_then_op(x5, COps::Add(-1i32), c, fuel);
    let x6 = x5.push(COps::Add(-1i32));
    lemma_then_op(x6, COps::Mov(1i64), c, fuel);
    let x7 = x6.push(COps::Mov(1i64));
    assert(x7 =~= unless_body(k, mid));
    let want = moved(with_cell(cm, h + k + 1, 0), (k + 2) as int);
    assert(sem(x7, c, fuel)->Done_0.tape =~= want.tape);
}

/// The cells with one taken from cell `i`, where `pre` says so.
pub open spec fn counted_down(c: Cells, i: int, pre: bool) -> Cells {
    if pre {
        with_cell(c, i, c.tape[i] - 1)
    } else {
        c
    }
}

/// Such a test behind some code, where the cell beside the tested one is the
/// mark, set to 1, and the cell behind the mark is 0: `mid` is done where the
/// tested cell is 0, and nothing where it is not.
pub proof fn lemma_then_unless(
    x: Seq<COps>,
    indent: nat,
    k: nat,
    pre: bool,
    head: Seq<char>,
    mid: Seq<char>,
    tail: Seq<char>,
    c: Cells,
    fuel: nat,
)
    requires
        parse(head) == unless_pre(pre) + unless_head(),
        parse(tail) == unless_tail(),
        balanced(parse(mid)),
        sem(x, c, fuel) is Done,
        fuel >= 1,
        ({
            let c1 = sem(x, c, fuel)->Done_0;
            let h = c1.mp;
            let c2 = counted_down(c1, h + k, pre);
            let cm = sem(parse(mid), c2, (fuel - 1) as nat)->Done_0;
            &&& 0 <= h
            &&& h + k + 2 < c1.tape.len()
            &&& c1.tape[h + k + 1] == 1
            &&& c1.tape[h + k + 2] == 0
            &&& pre ==> c1.tape[h + k] >= 1
            &&& c2.tape[h + k] == 0 ==> {
                &&& sem(parse(mid), c2, (fuel - 1) as nat) is Done
                &&& cm.mp == h
                &&& cm.tape.len() == c1.tape.len()
                &&& cm.tape[h + k + 1] == 1
                &&& cm.tape[h + k + 2] == 0
            }
        }),
    ensures
        sem(x + parse(goto_text(indent, k, head) + mid + goto_text(indent, k, tail)), c, fuel)
            == Effect::Done(
            {
                let c1 = sem(x, c, fuel)->Done_0;
                let c2 = counted_down(c1, c1.mp + k, pre);
                if c2.tape[c1.mp + k] == 0 {
                    sem(parse(mid), c2, (fuel - 1) as nat)->Done_0
                } else {
                    c2
                }
            },
        ),
        balanced(x) ==> balanced(
            x + parse(goto_text(indent, k, head) + mid + goto_text(indent, k, tail)),
        ),
{
    let c1 = sem(x, c, fuel)->Done_0;
    let h = c1.mp;
    let c2 = counted_down(c1, h + k, pre);
    let f = (fuel - 1) as nat;
    let jz = seq![COps::JmpIfZ(0)];
    let jnz = seq![COps::JmpIfNZ(0)];
    let body = unless_body(k, mid);
    lemma_parse_unless(x, indent, k, pre, head, mid, tail);
    // to the cell, and one taken from it
    let x1 = x + mv(0, k);
    lemma_then_mv(x, 0, k, c, fuel);
    let x2 = x1 + unless_pre(pre);
    let there = moved(c2, k as int);
    if pre {
        lemma_then_op(x1, COps::Add(-1i32), c, fuel);
        assert(x1.push(COps::Add(-1i32)) =~= x2);
        assert(sem(x2, c, fuel)->Done_0.tape =~= there.tape);
    } else {
        assert(x2 =~= x1);
    }
    assert(sem(x2, c, fuel) == Effect::Done(there));
    // over the mark
    lemma_then_loop(x2, skip_body(), c, fuel);
    lemma_unless_skip(there, fuel);
    let x3 = x2 + jz + skip_body() + jnz;
    lemma_then_op(x3, COps::Mov(1i64), c, fuel);
    let x4 = x3 + seq![COps::Mov(1i64)];
    assert(x3.push(COps::Mov(1i64)) =~= x4);
    let c4 = sem(x4, c, fuel)->Done_0;
    // the loop on the mark
    lemma_then_loop(x4, body, c, fuel);
    let x5 = x4 + jz + body + jnz;
    if c2.tape[h + k] == 0 {
        let cm = sem(parse(mid), c2, f)->Done_0;
        assert(c4 == moved(c2, (k + 1) as int));
        assert(moved(c4, -(k as int) - 1) == c2);
        lemma_unless_round(k, mid, c4, h, f);
        let c5 = moved(with_cell(cm, h + k + 1, 0), (k + 2) as int);
        assert(iterate(body, c5, f) == Effect::Done(c5));
        assert(sem(x5, c, fuel) == Effect::Done(c5));
    } else {
        assert(c4 == moved(with_cell(c2, h + k + 1, 0), (k + 2) as int));
        assert(sem(x5, c, fuel) == Effect::Done(c4));
    }
    // the mark again, and home
    lemma_then_op(x5, COps::Mov(-1i64), c, fuel);
    let x6 = x5.push(COps::Mov(-1i64));
    lemma_then_op(x6, COps::Add(1i32), c, fuel);
    let x7 = x6.push(COps::Add(1i32));
    lemma_then_op(x7, COps::Mov(-1i64), c, fuel);
    let x8 = x7.push(COps::Mov(-1i64));
    lemma_then_mv(x8, k, 0, c, fuel);
    assert(x8 + mv(k, 0) =~= x5 + unless_end(k));
    let end = if c2.tape[h + k] == 0 {
        sem(parse(mid), c2, f)->Done_0
    } else {
        c2
    };
    assert(sem(x5 + unless_end(k), c, fuel)->Done_0.tape =~= end.tape);
    if balanced(x) {
        lemma_mv_plain(0, k);
        lemma_mv_plain(k, 0);
        lemma_line_balanced(x, mv(0, k));
        lemma_line_balanced(x1, unless_pre(pre));
        lemma_loop_balanced(x2, skip_body());
        lemma_line_balanced(x3, seq![COps::Mov(1i64)]);
        lemma_loop_balanced(x4, body);
        lemma_line_balanced(x5, unless_end(k));
    }
}

/// A visit that clears the cell and, with `plus`, sets it to 1.
pub proof fn lemma_then_reset(
    x: Seq<COps>,
    indent: nat,
    k: nat,
    body: Seq<char>,
    plus: bool,
    c: Cells,
    fuel: nat,
)
    requires
        parse(body) == seq![COps::JmpIfZ(0), COps::Add(-1i32), COps::JmpIfNZ(0)] + if plus {
            seq![COps::Add(1i32)]
        } else {
            Seq::<COps>::empty()
        },
        sem(x, c, fuel) is Done,
        0 <= (sem(x, c, fuel)->Done_0).mp,
        (sem(x, c, fuel)->Done_0).mp + k < (sem(x, c, fuel)->Done_0).tape.len(),
        fuel >= 255,
    ensures
        sem(x + parse(goto_text(indent, k, body)), c, fuel) == Effect::Done(
            with_cell(
                sem(x, c, fuel)->Done_0,
                (sem(x, c, fuel)->Done_0).mp + k,
                if plus {
                    1
                } else {
                    0
                },
            ),
        ),
        balanced(x) ==> balanced(x + parse(goto_text(indent, k, body))),
        balanced(parse(goto_text(indent, k, body))),
{
    let c1 = sem(x, c, fuel)->Done_0;
    let there = moved(c1, k as int);
    let e = Seq::<COps>::empty();
    assert(sem(e, there, fuel) == Effect::Done(there));
    assert(balanced(e));
    lemma_parse_clear();
    lemma_then_clear(e, there, fuel);
    let x1 = e + parse(clear_loop());
    assert(x1 =~= seq![COps::JmpIfZ(0), COps::Add(-1i32), COps::JmpIfNZ(0)]);
    if plus {
        lemma_then_op(x1, COps::Add(1i32), there, fuel);
        assert(x1.push(COps::Add(1i32)) =~= parse(body));
        lemma_line_balanced(x1, seq![COps::Add(1i32)]);
        assert(x1 + seq![COps::Add(1i32)] =~= parse(body));
        assert(sem(parse(body), there, fuel)->Done_0.tape =~= put(there, 1).tape);
    } else {
        assert(x1 =~= parse(body));
    }
    lemma_then_visit(x, indent, k, body, c, fuel);
    lemma_parse_goto(indent, k, body);
    lemma_mv_plain(0, k);
    lemma_mv_plain(k, 0);
    lemma_plain_balanced(mv(0, k));
    lemma_join_balanced(mv(0, k), parse(body));
    lemma_line_balanced(mv(0, k) + parse(body), mv(k, 0));
}

// ---------------------------------------------------------------------------
// The cells that a comparison works on
// ---------------------------------------------------------------------------

/// A frame in which the five scratch cells from `ks` on and the cell `kd` lie
/// on the tape, `kd` being none of the five, and the last of the five is 0.
pub open spec fn workable(base: Cells, ks: nat, kd: nat) -> bool {
    &&& 0 <= base.mp
    &&& base.mp + ks + 4 < base.tape.len()
    &&& base.mp + kd < base.tape.len()
    &&& (kd < ks || kd > ks + 4)
    &&& base.tape[base.mp + ks + 4] == 0
}

/// The cells of `base` with the first four scratch cells set to `y`, `t`,
/// `u` and `m`, and the cell `kd` to `d`.
pub open spec fn work(base: Cells, ks: nat, kd: nat, y: int, t: int, u: int, m: int, d: int) -> Cells {
    let h = base.mp;
    with_cell(
        with_cell(
            with_cell(with_cell(with_cell(base, h + ks, y), h + ks + 1, t), h + ks + 2, u),
            h + ks + 3,
            m,
        ),
        h + kd,
        d,
    )
}

/// All five are values of a cell.
pub open spec fn bytes(y: int, t: int, u: int, m: int, d: int) -> bool {
    &&& 0 <= y <= 255
    &&& 0 <= t <= 255
    &&& 0 <= u <= 255
    &&& 0 <= m <= 255
    &&& 0 <= d <= 255
}

/// What is done where the counter has run out: one is taken from the cell
/// `kd`, and the second scratch cell is cleared and, with `plus`, set to 1.
pub open spec fn verdict_text(ks: nat, kd: nat, plus: bool) -> Seq<char> {
    goto_text(2, kd, "\t\t-\n"@) + goto_text(
        2,
        ks + 1,
        if plus {
            "\t\t[-]+\n"@
        } else {
            "\t\t[-]\n"@
        },
    )
}

/// What the text for a counter that has run out does.
pub proof fn lemma_verdict_does(
    base: Cells,
    ks: nat,
    kd: nat,
    y: int,
    t: int,
    u: int,
    d: int,
    plus: bool,
    fuel: nat,
)
    requires
        workable(base, ks, kd),
        bytes(y, t, u, 1, d),
        d >= 1,
        fuel >= 255,
    ensures
        sem(parse(verdict_text(ks, kd, plus)), work(base, ks, kd, y, t, u, 1, d), fuel)
            == Effect::Done(
            work(
                base,
                ks,
                kd,
                y,
                if plus {
                    1
                } else {
                    0
                },
                u,
                1,
                d - 1,
            ),
        ),
        balanced(parse(verdict_text(ks, kd, plus))),
{
    let c = work(base, ks, kd, y, t, u, 1, d);
    let h = base.mp;
    crate::literals::lemma_lit_minus_line();
    crate::literals::lemma_lit_clear_line();
    crate::literals::lemma_lit_clear_set();
    let reset = if plus {
        "\t\t[-]+\n"@
    } else {
        "\t\t[-]\n"@
    };
    let none = Seq::<COps>::empty();
    let clear = seq![COps::JmpIfZ(0), COps::Add(-1i32), COps::JmpIfNZ(0)];
    if plus {
        assert(parse(reset) =~= clear + seq![COps::Add(1i32)]);
    } else {
        assert(parse(reset) =~= clear + none);
    }
    let e = Seq::<COps>::empty();
    assert(sem(e, c, fuel) == Effect::Done(c));
    assert(balanced(e));
    lemma_then_step(e, 2, kd, "\t\t-\n"@, false, c, fuel);
    let ln1 = goto_text(2, kd, "\t\t-\n"@);
    let x1 = e + parse(ln1);
    assert(x1 =~= parse(ln1));
    lemma_then_reset(x1, 2, ks + 1, reset, plus, c, fuel);
    lemma_parse_join(ln1, goto_text(2, ks + 1, reset));
    let want = work(
        base,
        ks,
        kd,
        y,
        if plus {
            1
        } else {
            0
        },
        u,
        1,
        d - 1,
    );
    assert(sem(parse(verdict_text(ks, kd, plus)), c, fuel)->Done_0.tape =~= want.tape);
}

/// What one round of the counting loop does from home: one is taken from
/// the third scratch cell, the counter, and where that has run out, the text
/// for it is run.
pub open spec fn count_text(ks: nat, kd: nat) -> Seq<char> {
    goto_text(2, ks + 2, "\t\t- [>-]> [<\n"@) + verdict_text(ks, kd, true) + goto_text(
        2,
        ks + 2,
        "\t\t>->]<+<\n"@,
    )
}

/// What the counting text does.
pub proof fn lemma_count_does(
    base: Cells,
    ks: nat,
    kd: nat,
    y: int,
    t: int,
    u: int,
    d: int,
    fuel: nat,
)
    requires
        workable(base, ks, kd),
        bytes(y, t, u, 1, d),
        u >= 1,
        u == 1 ==> d >= 1,
        fuel >= 256,
    ensures
        sem(parse(count_text(ks, kd)), work(base, ks, kd, y, t, u, 1, d), fuel) == Effect::Done(
            if u == 1 {
                work(base, ks, kd, y, 1, 0, 1, d - 1)
            } else {
                work(base, ks, kd, y, t, u - 1, 1, d)
            },
        ),
        balanced(parse(count_text(ks, kd))),
{
    let c = work(base, ks, kd, y, t, u, 1, d);
    let h = base.mp;
    let k = ks + 2;
    let f = (fuel - 1) as nat;
    crate::literals::lemma_lit_count_unless_head();
    crate::literals::lemma_lit_unless_tail();
    let head = "\t\t- [>-]> [<\n"@;
    let tail = "\t\t>->]<+<\n"@;
    assert(parse(head) =~= unless_pre(true) + unless_head());
    assert(parse(tail) =~= unless_tail());
    let e = Seq::<COps>::empty();
    assert(sem(e, c, fuel) == Effect::Done(c));
    assert(balanced(e));
    let c2 = counted_down(c, h + k, true);
    let less = work(base, ks, kd, y, t, u - 1, 1, d);
    assert(c2.tape =~= less.tape);
    assert(c2 == less);
    if u == 1 {
        lemma_verdict_does(base, ks, kd, y, t, 0, d, true, f);
    } else {
        // the text is not run here; this shows that it is balanced
        lemma_verdict_does(base, ks, kd, y, t, u - 1, 1, true, f);
    }
    lemma_then_unless(e, 2, k, true, head, verdict_text(ks, kd, true), tail, c, fuel);
    assert(e + parse(count_text(ks, kd)) =~= parse(count_text(ks, kd)));
}

/// The third scratch cell after the counting loop.
pub open spec fn count_left(t: int, u: int) -> int {
    if t == 0 || t < u {
        u - t
    } else {
        0
    }
}

/// The cell `kd` after the counting loop.
pub open spec fn count_flag(t: int, u: int, d: int) -> int {
    if t == 0 || t < u {
        d
    } else {
        d - 1
    }
}

/// One round of the counting loop, which runs on the second scratch cell.
pub proof fn lemma_count_round(
    base: Cells,
    ks: nat,
    kd: nat,
    y: int,
    t: int,
    u: int,
    d: int,
    fuel: nat,
)
    requires
        workable(base, ks, kd),
        bytes(y, t, u, 1, d),
        t >= 1,
        u >= 1,
        u == 1 ==> d >= 1,
        fuel >= 256,
    ensures
        sem(
            tail_body(ks + 1, count_text(ks, kd)),
            moved(work(base, ks, kd, y, t, u, 1, d), (ks + 1) as int),
            fuel,
        ) == Effect::Done(
            moved(
                if u == 1 {
                    work(base, ks, kd, y, 0, 0, 1, d - 1)
                } else {
                    work(base, ks, kd, y, t - 1, u - 1, 1, d)
                },
                (ks + 1) as int,
            ),
        ),
{
    let w = work(base, ks, kd, y, t, u, 1, d);
    let c = moved(w, (ks + 1) as int);
    let h = base.mp;
    let k = ks + 1;
    let e = Seq::<COps>::empty();
    assert(sem(e, c, fuel) == Effect::Done(c));
    lemma_then_mv(e, k, 0, c, fuel);
    let x1 = e + mv(k, 0);
    assert(sem(x1, c, fuel) == Effect::Done(w));
    lemma_count_does(base, ks, kd, y, t, u, d, fuel);
    lemma_sem_join(x1, parse(count_text(ks, kd)), c, fuel);
    let x2 = x1 + parse(count_text(ks, kd));
    lemma_then_mv(x2, 0, k, c, fuel);
    let x3 = x2 + mv(0, k);
    lemma_then_op(x3, COps::Add(-1i32), c, fuel);
    assert(x3.push(COps::Add(-1i32)) =~= tail_body(k, count_text(ks, kd)));
    let want = moved(
        if u == 1 {
            work(base, ks, kd, y, 0, 0, 1, d - 1)
        } else {
            work(base, ks, kd, y, t - 1, u - 1, 1, d)
        },
        k as int,
    );
    assert(sem(x3.push(COps::Add(-1i32)), c, fuel)->Done_0.tape =~= want.tape);
}

/// All rounds of the counting loop: where the second scratch cell is less
/// than the counter, the counter ends as what is left of it; where it is
/// not, the counter ends as 0 and one is taken from the cell `kd`.
pub proof fn lemma_count_rounds(
    base: Cells,
    ks: nat,
    kd: nat,
    y: int,
    t: int,
    u: int,
    d: int,
    fuel: nat,
)
    requires
        workable(base, ks, kd),
        bytes(y, t, u, 1, d),
        t >= 1 ==> u >= 1,
        t >= 1 && t >= u ==> d >= 1,
        fuel >= 257 + t,
    ensures
        iterate(
            tail_body(ks + 1, count_text(ks, kd)),
            moved(work(base, ks, kd, y, t, u, 1, d), (ks + 1) as int),
            fuel,
        ) == Effect::Done(
            moved(
                work(base, ks, kd, y, 0, count_left(t, u), 1, count_flag(t, u, d)),
                (ks + 1) as int,
            ),
        ),
    decreases t,
{
    let c = moved(work(base, ks, kd, y, t, u, 1, d), (ks + 1) as int);
    assert(c.cell() == t);
    if t != 0 {
        let f = (fuel - 1) as nat;
        lemma_count_round(base, ks, kd, y, t, u, d, f);
        if u == 1 {
            let c1 = moved(work(base, ks, kd, y, 0, 0, 1, d - 1), (ks + 1) as int);
            assert(c1.cell() == 0);
            assert(iterate(tail_body(ks + 1, count_text(ks, kd)), c1, f) == Effect::Done(c1));
        } else {
            lemma_count_rounds(base, ks, kd, y, t - 1, u - 1, d, f);
        }
    }
}

// ---------------------------------------------------------------------------
// The less-than idiom, part by part
// ---------------------------------------------------------------------------

/// Setting the mark from the cell in front of it.
pub proof fn lemma_mark_here(c: Cells, fuel: nat)
    requires
        0 <= c.mp,
        c.mp + 2 < c.tape.len(),
        c.tape[c.mp + 1] <= 254,
    ensures
        sem(parse("\t\ttemp1 >+ > <<\n"@), c, fuel) == Effect::Done(
            with_cell(c, c.mp + 1, c.tape[c.mp + 1] + 1),
        ),
        balanced(parse("\t\ttemp1 >+ > <<\n"@)),
{
    crate::literals::lemma_lit_mark();
    let e = Seq::<COps>::empty();
    assert(sem(e, c, fuel) == Effect::Done(c));
    lemma_then_op(e, COps::Mov(1i64), c, fuel);
    let x1 = e.push(COps::Mov(1i64));
    lemma_then_op(x1, COps::Add(1i32), c, fuel);
    let x2 = x1.push(COps::Add(1i32));
    lemma_then_op(x2, COps::Mov(1i64), c, fuel);
    let x3 = x2.push(COps::Mov(1i64));
    lemma_then_op(x3, COps::Mov(-1i64), c, fuel);
    let x4 = x3.push(COps::Mov(-1i64));
    lemma_then_op(x4, COps::Mov(-1i64), c, fuel);
    let x5 = x4.push(COps::Mov(-1i64));
    assert(x5 =~= parse("\t\ttemp1 >+ > <<\n"@));
    lemma_plain_balanced(x5);
    assert(sem(x5, c, fuel)->Done_0.tape =~= with_cell(c, c.mp + 1, c.tape[c.mp + 1] + 1).tape);
}

/// The first part of the idiom: the mark is set, the constant is doubled
/// into the counter, and the cell `kd` is moved to the second scratch cell
/// and set to 1.
pub open spec fn first_text(ks: nat, kd: nat) -> Seq<char> {
    goto_text(2, ks + 2, "\t\ttemp1 >+ > <<\n"@) + (goto_text(2, ks, "\t\ty[\n"@) + (goto_text(
        2,
        ks + 1,
        "\t\t+\n"@,
    ) + goto_text(2, ks + 2, "\t\t+\n"@)) + goto_text(2, ks, "\t\t-]\n"@)) + (goto_text(
        2,
        ks + 1,
        "\t\ttemp0[\n"@,
    ) + goto_text(2, ks, "\t\ty+\n"@) + goto_text(2, ks + 1, "\t\ttemp0-]\n"@)) + (goto_text(
        2,
        kd,
        "\t\t[\n"@,
    ) + goto_text(2, ks + 1, "\t\ttemp0+\n"@) + goto_text(2, kd, "\t\tx-]+\n"@))
}

/// What the first part does.
pub proof fn lemma_then_first(
    x: Seq<COps>,
    base: Cells,
    ks: nat,
    kd: nat,
    y: int,
    v: int,
    c: Cells,
    fuel: nat,
)
    requires
        workable(base, ks, kd),
        bytes(y, 0, 0, 0, v),
        sem(x, c, fuel) == Effect::Done(work(base, ks, kd, y, 0, 0, 0, v)),
        fuel >= 255,
    ensures
        sem(x + parse(first_text(ks, kd)), c, fuel) == Effect::Done(
            work(base, ks, kd, y, v, y, 1, 1),
        ),
        balanced(x) ==> balanced(x + parse(first_text(ks, kd))),
{
    let h = base.mp;
    let w0 = work(base, ks, kd, y, 0, 0, 0, v);
    crate::literals::lemma_lit_enter_y();
    crate::literals::lemma_lit_enter_temp0();
    crate::literals::lemma_lit_enter_line();
    crate::literals::lemma_lit_leave_line();
    crate::literals::lemma_lit_leave_temp0();
    crate::literals::lemma_lit_leave_x();
    crate::literals::lemma_lit_plus_line();
    crate::literals::lemma_lit_plus_y();
    crate::literals::lemma_lit_plus_temp0();
    let none = Seq::<COps>::empty();
    let leave = seq![COps::Add(-1i32), COps::JmpIfNZ(0)];
    assert(leave + none =~= leave);
    assert(parse("\t\tx-]+\n"@) =~= leave + seq![COps::Add(1i32)]);
    let a1 = goto_text(2, ks + 2, "\t\ttemp1 >+ > <<\n"@);
    let a2 = goto_text(2, ks, "\t\ty[\n"@) + (goto_text(2, ks + 1, "\t\t+\n"@) + goto_text(
        2,
        ks + 2,
        "\t\t+\n"@,
    )) + goto_text(2, ks, "\t\t-]\n"@);
    let a3 = goto_text(2, ks + 1, "\t\ttemp0[\n"@) + goto_text(2, ks, "\t\ty+\n"@) + goto_text(
        2,
        ks + 1,
        "\t\ttemp0-]\n"@,
    );
    let a4 = goto_text(2, kd, "\t\t[\n"@) + goto_text(2, ks + 1, "\t\ttemp0+\n"@) + goto_text(
        2,
        kd,
        "\t\tx-]+\n"@,
    );
    lemma_parse_join(a1 + a2 + a3, a4);
    lemma_parse_join(a1 + a2, a3);
    lemma_parse_join(a1, a2);
    lemma_regroup(x, parse(a1), parse(a2));
    lemma_regroup(x, parse(a1) + parse(a2), parse(a3));
    lemma_regroup(x, parse(a1) + parse(a2) + parse(a3), parse(a4));
    // the mark
    lemma_mark_here(moved(w0, (ks + 2) as int), fuel);
    lemma_then_visit(x, 2, ks + 2, "\t\ttemp1 >+ > <<\n"@, c, fuel);
    let x1 = x + parse(a1);
    let w1 = work(base, ks, kd, y, 0, 0, 1, v);
    assert(sem(x1, c, fuel)->Done_0.tape =~= w1.tape);
    // the constant into the second scratch cell and the counter
    lemma_then_tail_share(
        x1,
        2,
        ks,
        "\t\ty[\n"@,
        ks + 1,
        "\t\t+\n"@,
        ks + 2,
        "\t\t+\n"@,
        "\t\t-]\n"@,
        c,
        fuel,
    );
    let x2 = x1 + parse(a2);
    let w2 = work(base, ks, kd, 0, y, y, 1, v);
    assert(sem(x2, c, fuel)->Done_0.tape =~= w2.tape);
    // and back from the second scratch cell
    lemma_then_tail_carry(
        x2,
        2,
        ks + 1,
        ks,
        "\t\ttemp0[\n"@,
        "\t\ty+\n"@,
        "\t\ttemp0-]\n"@,
        false,
        c,
        fuel,
    );
    let x3 = x2 + parse(a3);
    let w3 = work(base, ks, kd, y, 0, y, 1, v);
    assert(sem(x3, c, fuel)->Done_0.tape =~= w3.tape);
    // the cell into the second scratch cell
    lemma_then_tail_carry(
        x3,
        2,
        kd,
        ks + 1,
        "\t\t[\n"@,
        "\t\ttemp0+\n"@,
        "\t\tx-]+\n"@,
        true,
        c,
        fuel,
    );
    let x4 = x3 + parse(a4);
    let w4 = work(base, ks, kd, y, v, y, 1, 1);
    assert(sem(x4, c, fuel)->Done_0.tape =~= w4.tape);
}

/// The second part of the idiom: where the counter is 0 from the start, the
/// verdict is given at once.
pub open spec fn second_text(ks: nat, kd: nat) -> Seq<char> {
    goto_text(2, ks + 2, "\t\t[>-]> [<\n"@) + verdict_text(ks, kd, false) + goto_text(
        2,
        ks + 2,
        "\t\t>->]<+<\n"@,
    )
}

/// What the second part does.
pub proof fn lemma_then_second(
    x: Seq<COps>,
    base: Cells,
    ks: nat,
    kd: nat,
    y: int,
    t: int,
    u: int,
    d: int,
    c: Cells,
    fuel: nat,
)
    requires
        workable(base, ks, kd),
        bytes(y, t, u, 1, d),
        d >= 1,
        sem(x, c, fuel) == Effect::Done(work(base, ks, kd, y, t, u, 1, d)),
        fuel >= 256,
    ensures
        sem(x + parse(second_text(ks, kd)), c, fuel) == Effect::Done(
            if u == 0 {
                work(base, ks, kd, y, 0, 0, 1, d - 1)
            } else {
                work(base, ks, kd, y, t, u, 1, d)
            },
        ),
        balanced(x) ==> balanced(x + parse(second_text(ks, kd))),
{
    let f = (fuel - 1) as nat;
    crate::literals::lemma_lit_unless_head();
    crate::literals::lemma_lit_unless_tail();
    let head = "\t\t[>-]> [<\n"@;
    let tail = "\t\t>->]<+<\n"@;
    assert(parse(head) =~= unless_pre(false) + unless_head());
    assert(parse(tail) =~= unless_tail());
    lemma_verdict_does(base, ks, kd, y, t, u, d, false, f);
    lemma_then_unless(x, 2, ks + 2, false, head, verdict_text(ks, kd, false), tail, c, fuel);
}

/// The third part of the idiom: the counting loop.
pub open spec fn third_text(ks: nat, kd: nat) -> Seq<char> {
    goto_text(2, ks + 1, "\t\t[\n"@) + count_text(ks, kd) + goto_text(2, ks + 1, "\t\t-]\n"@)
}

/// What the third part does.
pub proof fn lemma_then_third(
    x: Seq<COps>,
    base: Cells,
    ks: nat,
    kd: nat,
    y: int,
    t: int,
    u: int,
    d: int,
    c: Cells,
    fuel: nat,
)
    requires
        workable(base, ks, kd),
        bytes(y, t, u, 1, d),
        t >= 1 ==> u >= 1,
        t >= 1 && t >= u ==> d >= 1,
        sem(x, c, fuel) == Effect::Done(work(base, ks, kd, y, t, u, 1, d)),
        fuel >= 512,
    ensures
        sem(x + parse(third_text(ks, kd)), c, fuel) == Effect::Done(
            work(base, ks, kd, y, 0, count_left(t, u), 1, count_flag(t, u, d)),
        ),
        balanced(x) ==> balanced(x + parse(third_text(ks, kd))),
{
    crate::literals::lemma_lit_enter_line();
    crate::literals::lemma_lit_leave_line();
    let none = Seq::<COps>::empty();
    let leave = seq![COps::Add(-1i32), COps::JmpIfNZ(0)];
    assert(leave + none =~= leave);
    lemma_count_does(base, ks, kd, y, t, 1, 1, fuel);
    lemma_count_rounds(base, ks, kd, y, t, u, d, fuel);
    lemma_then_tail_span(
        x,
        2,
        ks + 1,
        "\t\t[\n"@,
        count_text(ks, kd),
        "\t\t-]\n"@,
        false,
        c,
        fuel,
    );
}

/// The last part of the idiom: the five scratch cells are cleared.
pub open spec fn last_text(ks: nat) -> Seq<char> {
    goto_text(2, ks, "\t\t[-]\n"@) + goto_text(2, ks + 1, "\t\t[-]\n"@) + goto_text(
        2,
        ks + 2,
        "\t\t[-]\n"@,
    ) + goto_text(2, ks + 3, "\t\t[-]\n"@) + goto_text(2, ks + 4, "\t\t[-]\n"@)
}

/// What the last part does.
pub proof fn lemma_then_last(
    x: Seq<COps>,
    base: Cells,
    ks: nat,
    kd: nat,
    y: int,
    t: int,
    u: int,
    m: int,
    d: int,
    c: Cells,
    fuel: nat,
)
    requires
        workable(base, ks, kd),
        bytes(y, t, u, m, d),
        sem(x, c, fuel) == Effect::Done(work(base, ks, kd, y, t, u, m, d)),
        fuel >= 255,
    ensures
        sem(x + parse(last_text(ks)), c, fuel) == Effect::Done(
            work(base, ks, kd, 0, 0, 0, 0, d),
        ),
        balanced(x) ==> balanced(x + parse(last_text(ks))),
{
    crate::literals::lemma_lit_clear_line();
    let clear = "\t\t[-]\n"@;
    let none = Seq::<COps>::empty();
    assert(parse(clear) =~= seq![COps::JmpIfZ(0), COps::Add(-1i32), COps::JmpIfNZ(0)] + none);
    let a1 = goto_text(2, ks, clear);
    let a2 = goto_text(2, ks + 1, clear);
    let a3 = goto_text(2, ks + 2, clear);
    let a4 = goto_text(2, ks + 3, clear);
    let a5 = goto_text(2, ks + 4, clear);
    lemma_parse_join(a1 + a2 + a3 + a4, a5);
    lemma_parse_join(a1 + a2 + a3, a4);
    lemma_parse_join(a1 + a2, a3);
    lemma_parse_join(a1, a2);
    lemma_regroup(x, parse(a1), parse(a2));
    lemma_regroup(x, parse(a1) + parse(a2), parse(a3));
    lemma_regroup(x, parse(a1) + parse(a2) + parse(a3), parse(a4));
    lemma_regroup(x, parse(a1) + parse(a2) + parse(a3) + parse(a4), parse(a5));
    lemma_then_reset(x, 2, ks, clear, false, c, fuel);
    let x1 = x + parse(a1);
    lemma_then_reset(x1, 2, ks + 1, clear, false, c, fuel);
    let x2 = x1 + parse(a2);
    lemma_then_reset(x2, 2, ks + 2, clear, false, c, fuel);
    let x3 = x2 + parse(a3);
    lemma_then_reset(x3, 2, ks + 3, clear, false, c, fuel);
    let x4 = x3 + parse(a4);
    lemma_then_reset(x4, 2, ks + 4, clear, false, c, fuel);
    let x5 = x4 + parse(a5);
    let want = work(base, ks, kd, 0, 0, 0, 0, d);
    assert(sem(x5, c, fuel)->Done_0.tape =~= want.tape);
}

/// The whole idiom from the first scratch cell `ks` on, for the cell `kd`.
pub open spec fn less_text(ks: nat, kd: nat) -> Seq<char> {
    first_text(ks, kd) + second_text(ks, kd) + third_text(ks, kd) + last_text(ks)
}

/// What the idiom does: with the constant in the first scratch cell and the
/// other four at 0, the cell `kd` ends as 1 where it was less than the
/// constant and as 0 where it was not, and the scratch cells end as 0.
pub proof fn lemma_then_less(
    x: Seq<COps>,
    base: Cells,
    ks: nat,
    kd: nat,
    y: int,
    v: int,
    c: Cells,
    fuel: nat,
)
    requires
        workable(base, ks, kd),
        bytes(y, 0, 0, 0, v),
        sem(x, c, fuel) == Effect::Done(work(base, ks, kd, y, 0, 0, 0, v)),
        fuel >= 512,
    ensures
        sem(x + parse(less_text(ks, kd)), c, fuel) == Effect::Done(
            work(
                base,
                ks,
                kd,
                0,
                0,
                0,
                0,
                if v < y {
                    1
                } else {
                    0
                },
            ),
        ),
        balanced(x) ==> balanced(x + parse(less_text(ks, kd))),
{
    let a1 = first_text(ks, kd);
    let a2 = second_text(ks, kd);
    let a3 = third_text(ks, kd);
    let a4 = last_text(ks);
    lemma_parse_join(a1 + a2 + a3, a4);
    lemma_parse_join(a1 + a2, a3);
    lemma_parse_join(a1, a2);
    lemma_regroup(x, parse(a1), parse(a2));
    lemma_regroup(x, parse(a1) + parse(a2), parse(a3));
    lemma_regroup(x, parse(a1) + parse(a2) + parse(a3), parse(a4));
    lemma_then_first(x, base, ks, kd, y, v, c, fuel);
    let x1 = x + parse(a1);
    lemma_then_second(x1, base, ks, kd, y, v, y, 1, c, fuel);
    let x2 = x1 + parse(a2);
    if y == 0 {
        lemma_then_third(x2, base, ks, kd, y, 0, 0, 0, c, fuel);
        let x3 = x2 + parse(a3);
        lemma_then_last(x3, base, ks, kd, y, 0, 0, 1, 0, c, fuel);
    } else {
        lemma_then_third(x2, base, ks, kd, y, v, y, 1, c, fuel);
        let x3 = x2 + parse(a3);
        lemma_then_last(
            x3,
            base,
            ks,
            kd,
            y,
            0,
            count_left(v, y),
            1,
            count_flag(v, y, 1),
            c,
            fuel,
        );
    }
}

// ---------------------------------------------------------------------------
// The comparison
// ---------------------------------------------------------------------------

/// The line that names a comparison.
pub open spec fn compare_name(x: nat, y: nat, dest: nat) -> Seq<char> {
    "\t\t #%"@ + decimal(dest) + "_icmp_%"@ + decimal(x) + "_lt_"@ + decimal(y) + "\n"@
}

/// The line that names a comparison holds no instruction.
pub proof fn lemma_compare_name_quiet(x: nat, y: nat, dest: nat)
    ensures
        quiet(compare_name(x, y, dest)),
{
    crate::literals::lemma_lit_compare_name();
    crate::literals::lemma_lit_compare_with();
    crate::literals::lemma_lit_compare_to();
    crate::literals::lemma_lit_newline();
    lemma_quiet_decimal(dest);
    lemma_quiet_decimal(x);
    lemma_quiet_decimal(y);
    let t1 = "\t\t #%"@ + decimal(dest);
    let t2 = t1 + "_icmp_%"@;
    let t3 = t2 + decimal(x);
    let t4 = t3 + "_lt_"@;
    let t5 = t4 + decimal(y);
    lemma_quiet_beside("\t\t #%"@, decimal(dest));
    lemma_quiet_beside(t1, "_icmp_%"@);
    lemma_quiet_beside(t2, decimal(x));
    lemma_quiet_beside(t3, "_lt_"@);
    lemma_quiet_beside(t4, decimal(y));
    lemma_quiet_beside(t5, "\n"@);
}

/// The lines that name the cells of a comparison.
pub open spec fn names_text(kx: nat, ks: nat, kd: nat, name: Seq<char>) -> Seq<char> {
    goto_text(2, kx, "\t\t#op0\n"@) + goto_text(2, ks, "\t\t#op1\n"@) + goto_text(
        2,
        ks + 1,
        "\t\t#temp0\n"@,
    ) + goto_text(2, ks + 2, "\t\t#temp1_a\n"@) + goto_text(2, ks + 3, "\t\t#temp1_b\n"@)
        + goto_text(2, ks + 4, "\t\t#temp1_c\n"@) + goto_text(2, kd, name)
}

/// The lines that name the cells leave the cells as they are.
pub proof fn lemma_names_do(kx: nat, ks: nat, kd: nat, name: Seq<char>, c: Cells, fuel: nat)
    requires
        quiet(name),
        0 <= c.mp,
        c.mp + kx < c.tape.len(),
        c.mp + ks + 4 < c.tape.len(),
        c.mp + kd < c.tape.len(),
    ensures
        sem(parse(names_text(kx, ks, kd, name)), c, fuel) == Effect::Done(c),
        balanced(parse(names_text(kx, ks, kd, name))),
{
    crate::literals::lemma_lit_op0();
    crate::literals::lemma_lit_op1();
    crate::literals::lemma_lit_temp0();
    crate::literals::lemma_lit_temp1_a();
    crate::literals::lemma_lit_temp1_b();
    crate::literals::lemma_lit_temp1_c();
    let a1 = goto_text(2, kx, "\t\t#op0\n"@);
    let a2 = goto_text(2, ks, "\t\t#op1\n"@);
    let a3 = goto_text(2, ks + 1, "\t\t#temp0\n"@);
    let a4 = goto_text(2, ks + 2, "\t\t#temp1_a\n"@);
    let a5 = goto_text(2, ks + 3, "\t\t#temp1_b\n"@);
    let a6 = goto_text(2, ks + 4, "\t\t#temp1_c\n"@);
    let a7 = goto_text(2, kd, name);
    lemma_parse_join(a1 + a2 + a3 + a4 + a5 + a6, a7);
    lemma_parse_join(a1 + a2 + a3 + a4 + a5, a6);
    lemma_parse_join(a1 + a2 + a3 + a4, a5);
    lemma_parse_join(a1 + a2 + a3, a4);
    lemma_parse_join(a1 + a2, a3);
    lemma_parse_join(a1, a2);
    let e = Seq::<COps>::empty();
    assert(sem(e, c, fuel) == Effect::Done(c));
    assert(balanced(e));
    lemma_then_look(e, 2, kx, "\t\t#op0\n"@, c, fuel);
    assert(e + parse(a1) =~= parse(a1));
    let x1 = parse(a1);
    lemma_then_look(x1, 2, ks, "\t\t#op1\n"@, c, fuel);
    let x2 = x1 + parse(a2);
    lemma_then_look(x2, 2, ks + 1, "\t\t#temp0\n"@, c, fuel);
    let x3 = x2 + parse(a3);
    lemma_then_look(x3, 2, ks + 2, "\t\t#temp1_a\n"@, c, fuel);
    let x4 = x3 + parse(a4);
    lemma_then_look(x4, 2, ks + 3, "\t\t#temp1_b\n"@, c, fuel);
    let x5 = x4 + parse(a5);
    lemma_then_look(x5, 2, ks + 4, "\t\t#temp1_c\n"@, c, fuel);
    let x6 = x5 + parse(a6);
    lemma_then_look(x6, 2, kd, name, c, fuel);
}

/// The lines that double the register `kx` into the cell `kd`, by way of
/// the first scratch cell, and count the constant up in that scratch cell.
pub open spec fn double_text(kx: nat, ks: nat, kd: nat, y: nat) -> Seq<char> {
    (goto_text(2, kx, "\t\t[\n"@) + (goto_text(2, ks, "\t\t+\n"@) + goto_text(2, kd, "\t\t+\n"@))
        + goto_text(2, kx, "\t\t-]\n"@)) + (goto_text(2, ks, "\t\t[\n"@) + goto_text(
        2,
        kx,
        "\t\t+\n"@,
    ) + goto_text(2, ks, "\t\t-]\n"@)) + goto_text(2, ks, "\t\t"@ + repeated('+', y) + "\n"@)
}

/// What the doubling lines do.
pub proof fn lemma_then_double(
    x: Seq<COps>,
    kx: nat,
    ks: nat,
    kd: nat,
    y: nat,
    c: Cells,
    fuel: nat,
)
    requires
        sem(x, c, fuel) is Done,
        ({
            let c1 = sem(x, c, fuel)->Done_0;
            &&& 0 <= c1.mp
            &&& c1.mp + kx < c1.tape.len()
            &&& c1.mp + ks < c1.tape.len()
            &&& c1.mp + kd < c1.tape.len()
            &&& c1.tape[c1.mp + ks] == 0
            &&& c1.tape[c1.mp + kd] == 0
        }),
        kx != ks,
        kx != kd,
        ks != kd,
        y <= 255,
        fuel >= 255,
    ensures
        sem(x + parse(double_text(kx, ks, kd, y)), c, fuel) == Effect::Done(
            with_cell(
                with_cell(
                    sem(x, c, fuel)->Done_0,
                    (sem(x, c, fuel)->Done_0).mp + ks,
                    y as int,
                ),
                (sem(x, c, fuel)->Done_0).mp + kd,
                (sem(x, c, fuel)->Done_0).tape[(sem(x, c, fuel)->Done_0).mp + kx] as int,
            ),
        ),
        balanced(x) ==> balanced(x + parse(double_text(kx, ks, kd, y))),
{
    let c1 = sem(x, c, fuel)->Done_0;
    let h = c1.mp;
    let v = c1.tape[h + kx] as int;
    crate::literals::lemma_lit_enter_line();
    crate::literals::lemma_lit_leave_line();
    crate::literals::lemma_lit_plus_line();
    crate::literals::lemma_lit_indent();
    crate::literals::lemma_lit_newline();
    let none = Seq::<COps>::empty();
    let leave = seq![COps::Add(-1i32), COps::JmpIfNZ(0)];
    assert(leave + none =~= leave);
    let count = "\t\t"@ + repeated('+', y) + "\n"@;
    lemma_parse_counted("\t\t"@, y, "\n"@);
    lemma_parse_repeated('+', y);
    assert(parse(count) =~= parse(repeated('+', y)));
    let a1 = goto_text(2, kx, "\t\t[\n"@) + (goto_text(2, ks, "\t\t+\n"@) + goto_text(
        2,
        kd,
        "\t\t+\n"@,
    )) + goto_text(2, kx, "\t\t-]\n"@);
    let a2 = goto_text(2, ks, "\t\t[\n"@) + goto_text(2, kx, "\t\t+\n"@) + goto_text(
        2,
        ks,
        "\t\t-]\n"@,
    );
    let a3 = goto_text(2, ks, count);
    lemma_parse_join(a1 + a2, a3);
    lemma_parse_join(a1, a2);
    lemma_regroup(x, parse(a1), parse(a2));
    lemma_regroup(x, parse(a1) + parse(a2), parse(a3));
    lemma_then_tail_share(
        x,
        2,
        kx,
        "\t\t[\n"@,
        ks,
        "\t\t+\n"@,
        kd,
        "\t\t+\n"@,
        "\t\t-]\n"@,
        c,
        fuel,
    );
    let x1 = x + parse(a1);
    let c2 = shared(c1, h, kx, ks, true, kd, true);
    lemma_then_tail_carry(x1, 2, ks, kx, "\t\t[\n"@, "\t\t+\n"@, "\t\t-]\n"@, false, c, fuel);
    let x2 = x1 + parse(a2);
    let c3 = with_cell(drained(c2, h, ks, kx, true), h + ks, 0);
    assert(c3.tape =~= with_cell(c1, h + kd, v).tape);
    lemma_count_here(true, y, moved(c3, ks as int), fuel);
    lemma_then_visit(x2, 2, ks, count, c, fuel);
    let want = with_cell(with_cell(c1, h + ks, y as int), h + kd, v);
    assert(sem(x2 + parse(a3), c, fuel)->Done_0.tape =~= want.tape);
}

/// A comparison of a register with a constant sets the destination to 1
/// where the register holds less than the constant, and to 0 where it does
/// not; the register and the scratch cells end as they began. The
/// destination and the first five scratch cells begin as 0.
pub proof fn lemma_compare_does(l: Layout, x: usize, y: u64, dest: usize, c: Cells, fuel: nat)
    requires
        on_tape(l, c),
        x < l.scratch,
        dest < l.scratch,
        x != dest,
        y <= 255,
        c.tape[reg_cell(l, c, dest as int)] == 0,
        forall|i: int| 0 <= i < 5 ==> c.tape[#[trigger] reg_cell(l, c, l.scratch + i)] == 0,
        fuel >= 512,
    ensures
        sem(
            parse(lower_compare(l, Pred::SignedLess, Operand::Local(x), Operand::Const(y), dest)->Ok_0),
            c,
            fuel,
        ) == Effect::Done(
            with_cell(
                c,
                reg_cell(l, c, dest as int),
                if c.tape[reg_cell(l, c, x as int)] < y {
                    1
                } else {
                    0
                },
            ),
        ),
        balanced(
            parse(lower_compare(l, Pred::SignedLess, Operand::Local(x), Operand::Const(y), dest)->Ok_0),
        ),
{
    let h = c.mp;
    let kx = reg_at(l, x as int) as nat;
    let kd = reg_at(l, dest as int) as nat;
    let ks = reg_at(l, l.scratch as int) as nat;
    let v = c.tape[h + kx] as int;
    let name = compare_name(x as nat, y as nat, dest as nat);
    let a1 = names_text(kx, ks, kd, name);
    let a2 = double_text(kx, ks, kd, y as nat);
    let a3 = less_text(ks, kd);
    let text = lower_compare(l, Pred::SignedLess, Operand::Local(x), Operand::Const(y), dest)->Ok_0;
    lemma_setup_text(l, x, y, dest);
    lemma_less_text(l, dest);
    assert(text == a1 + a2 + a3);
    lemma_parse_join(a1 + a2, a3);
    lemma_parse_join(a1, a2);
    assert(reg_cell(l, c, l.scratch + 0) == h + ks);
    assert(reg_cell(l, c, l.scratch + 1) == h + ks + 1);
    assert(reg_cell(l, c, l.scratch + 2) == h + ks + 2);
    assert(reg_cell(l, c, l.scratch + 3) == h + ks + 3);
    assert(reg_cell(l, c, l.scratch + 4) == h + ks + 4);
    lemma_compare_name_quiet(x as nat, y as nat, dest as nat);
    lemma_names_do(kx, ks, kd, name, c, fuel);
    lemma_then_double(parse(a1), kx, ks, kd, y as nat, c, fuel);
    let x2 = parse(a1) + parse(a2);
    let w = work(c, ks, kd, y as int, 0, 0, 0, v);
    assert(sem(x2, c, fuel)->Done_0.tape =~= w.tape);
    lemma_then_less(x2, c, ks, kd, y as int, v, c, fuel);
    let r: int = if v < y {
        1
    } else {
        0
    };
    assert(work(c, ks, kd, 0, 0, 0, 0, r).tape =~= with_cell(c, h + kd, r).tape);
}

/// Putting three pieces of text together, either way.
proof fn lemma_gather(a: Seq<char>, b: Seq<char>, c: Seq<char>)
    ensures
        (a + b) + c == a + (b + c),
{
    assert((a + b) + c =~= a + (b + c));
}

/// The first half of a comparison, by the distances of its cells.
proof fn lemma_setup_text(l: Layout, x: usize, y: u64, dest: usize)
    ensures
        compare_setup(l, x, y, dest) == names_text(
            reg_at(l, x as int) as nat,
            reg_at(l, l.scratch as int) as nat,
            reg_at(l, dest as int) as nat,
            compare_name(x as nat, y as nat, dest as nat),
        ) + double_text(
            reg_at(l, x as int) as nat,
            reg_at(l, l.scratch as int) as nat,
            reg_at(l, dest as int) as nat,
            y as nat,
        ),
{
    reveal(compare_setup);
    let kx = reg_at(l, x as int) as nat;
    let kd = reg_at(l, dest as int) as nat;
    let ks = reg_at(l, l.scratch as int) as nat;
    let s = l.scratch as int;
    let name = compare_name(x as nat, y as nat, dest as nat);
    let n = names_text(kx, ks, kd, name);
    let ln8 = goto_text(2, kx, "\t\t[\n"@);
    let ln9 = goto_text(2, ks, "\t\t+\n"@);
    let ln10 = goto_text(2, kd, "\t\t+\n"@);
    let ln11 = goto_text(2, kx, "\t\t-]\n"@);
    let ln12 = goto_text(2, ks, "\t\t[\n"@);
    let ln13 = goto_text(2, kx, "\t\t+\n"@);
    let ln14 = goto_text(2, ks, "\t\t-]\n"@);
    let ln15 = goto_text(2, ks, "\t\t"@ + repeated('+', y as nat) + "\n"@);
    assert(reg(l, x as int, "\t\t#op0\n"@) == goto_text(2, kx, "\t\t#op0\n"@));
    assert(reg(l, s, "\t\t#op1\n"@) == goto_text(2, ks, "\t\t#op1\n"@));
    assert(reg(l, s + 1, "\t\t#temp0\n"@) == goto_text(2, ks + 1, "\t\t#temp0\n"@));
    assert(reg(l, s + 2, "\t\t#temp1_a\n"@) == goto_text(2, ks + 2, "\t\t#temp1_a\n"@));
    assert(reg(l, s + 3, "\t\t#temp1_b\n"@) == goto_text(2, ks + 3, "\t\t#temp1_b\n"@));
    assert(reg(l, s + 4, "\t\t#temp1_c\n"@) == goto_text(2, ks + 4, "\t\t#temp1_c\n"@));
    assert(reg(l, dest as int, name) == goto_text(2, kd, name));
    assert(compare_setup(l, x, y, dest) == n + ln8 + ln9 + ln10 + ln11 + ln12 + ln13 + ln14 + ln15);
    let g1 = ln8 + (ln9 + ln10) + ln11;
    let g2 = ln12 + ln13 + ln14;
    lemma_gather(n + ln8, ln9, ln10);
    lemma_gather(n, ln8, ln9 + ln10);
    lemma_gather(n, ln8 + (ln9 + ln10), ln11);
    assert(n + ln8 + ln9 + ln10 + ln11 == n + g1);
    lemma_gather(n + g1, ln12, ln13);
    lemma_gather(n + g1, ln12 + ln13, ln14);
    assert(n + g1 + ln12 + ln13 + ln14 == n + g1 + g2);
    lemma_gather(n, g1, g2);
    lemma_gather(n, g1 + g2, ln15);
    assert(double_text(kx, ks, kd, y as nat) == g1 + g2 + ln15);
}

/// The second half of a comparison, by the distances of its cells.
proof fn lemma_less_text(l: Layout, dest: usize)
    ensures
        compare_less(l, dest) == less_text(
            reg_at(l, l.scratch as int) as nat,
            reg_at(l, dest as int) as nat,
        ),
{
    reveal(compare_less);
    let kd = reg_at(l, dest as int) as nat;
    let ks = reg_at(l, l.scratch as int) as nat;
    let q1 = goto_text(2, ks + 2, "\t\ttemp1 >+ > <<\n"@);
    let q2 = goto_text(2, ks, "\t\ty[\n"@);
    let q3 = goto_text(2, ks + 1, "\t\t+\n"@);
    let q4 = goto_text(2, ks + 2, "\t\t+\n"@);
    let q5 = goto_text(2, ks, "\t\t-]\n"@);
    let q6 = goto_text(2, ks + 1, "\t\ttemp0[\n"@);
    let q7 = goto_text(2, ks, "\t\ty+\n"@);
    let q8 = goto_text(2, ks + 1, "\t\ttemp0-]\n"@);
    let q9 = goto_text(2, kd, "\t\t[\n"@);
    let q10 = goto_text(2, ks + 1, "\t\ttemp0+\n"@);
    let q11 = goto_text(2, kd, "\t\tx-]+\n"@);
    let q12 = goto_text(2, ks + 2, "\t\t[>-]> [<\n"@);
    let q13 = goto_text(2, kd, "\t\t-\n"@);
    let q14 = goto_text(2, ks + 1, "\t\t[-]\n"@);
    let q15 = goto_text(2, ks + 2, "\t\t>->]<+<\n"@);
    let q16 = goto_text(2, ks + 1, "\t\t[\n"@);
    let q17 = goto_text(2, ks + 2, "\t\t- [>-]> [<\n"@);
    let q18 = goto_text(2, kd, "\t\t-\n"@);
    let q19 = goto_text(2, ks + 1, "\t\t[-]+\n"@);
    let q20 = goto_text(2, ks + 2, "\t\t>->]<+<\n"@);
    let q21 = goto_text(2, ks + 1, "\t\t-]\n"@);
    let q22 = goto_text(2, ks, "\t\t[-]\n"@);
    let q23 = goto_text(2, ks + 1, "\t\t[-]\n"@);
    let q24 = goto_text(2, ks + 2, "\t\t[-]\n"@);
    let q25 = goto_text(2, ks + 3, "\t\t[-]\n"@);
    let q26 = goto_text(2, ks + 4, "\t\t[-]\n"@);
    let a = q1 + q2 + q3 + q4 + q5 + q6 + q7 + q8 + q9 + q10 + q11;
    let b = a + q12 + q13 + q14 + q15;
    let c = b + q16 + q17 + q18 + q19 + q20 + q21;
    assert(compare_less(l, dest) == c + q22 + q23 + q24 + q25 + q26);
    // the first part
    let g2 = q2 + (q3 + q4) + q5;
    let g3 = q6 + q7 + q8;
    let g4 = q9 + q10 + q11;
    lemma_gather(q1 + q2, q3, q4);
    lemma_gather(q1, q2, q3 + q4);
    lemma_gather(q1, q2 + (q3 + q4), q5);
    let f1 = q1 + g2;
    assert(q1 + q2 + q3 + q4 + q5 == f1);
    lemma_gather(f1, q6, q7);
    lemma_gather(f1, q6 + q7, q8);
    let f2 = f1 + g3;
    assert(f1 + q6 + q7 + q8 == f2);
    lemma_gather(f2, q9, q10);
    lemma_gather(f2, q9 + q10, q11);
    let first = f2 + g4;
    assert(a == first);
    assert(first == first_text(ks, kd));
    // the second part
    let v0 = q13 + q14;
    let second = q12 + v0 + q15;
    lemma_gather(first + q12, q13, q14);
    lemma_gather(first, q12, v0);
    lemma_gather(first, q12 + v0, q15);
    assert(b == first + second);
    assert(second == second_text(ks, kd));
    // the third part
    let g = first + second;
    let v1 = q18 + q19;
    let count = q17 + v1 + q20;
    let third = q16 + count + q21;
    lemma_gather(g + q16 + q17, q18, q19);
    lemma_gather(g + q16, q17, v1);
    lemma_gather(g + q16, q17 + v1, q20);
    lemma_gather(g, q16, count);
    lemma_gather(g, q16 + count, q21);
    assert(c == g + third);
    assert(count == count_text(ks, kd));
    assert(third == third_text(ks, kd));
    // the last part
    let h = g + third;
    lemma_gather(h, q22, q23);
    lemma_gather(h, q22 + q23, q24);
    lemma_gather(h, q22 + q23 + q24, q25);
    lemma_gather(h, q22 + q23 + q24 + q25, q26);
    assert(q22 + q23 + q24 + q25 + q26 == last_text(ks));
}

} // verus!
