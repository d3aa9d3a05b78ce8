//! What the load train does: the cell that a pointer names is fetched by a
//! station that drives out to the cell and back.
use vstd::prelude::*;
use crate::effects::{
    clear_body, drain_body, drained, lemma_drain_rounds, lemma_mv_plain, lemma_parse_clear,
    lemma_parse_move, lemma_then_clear, lemma_then_mv, mv, sign_char, sign_op, with_cell,
};
use crate::interp::{balanced, parse, COps};
use crate::reasoning::{
    lemma_join_balanced, lemma_line_balanced, lemma_loop_balanced, lemma_parse_join,
    lemma_parse_one, lemma_plain_balanced, lemma_regroup, lemma_sem_join, lemma_then_adds,
    lemma_then_loop, lemma_then_op, moved, put, run_of,
};
use crate::semantics::{act, iterate, sem, Cells, Effect};
use crate::tape::{
    at_cell, carry, carry2, clear_loop, load_depart, load_home_body, load_homeward, load_out_body,
    load_outward, load_train, looped, tape_move,
};
use crate::text::repeated;

verus! {

// ---------------------------------------------------------------------------
// Pieces of text behind some code
// ---------------------------------------------------------------------------

/// Head motion behind balanced code is balanced code.
pub proof fn lemma_go_balanced(x: Seq<COps>, from: nat, to: nat)
    requires
        balanced(x),
    ensures
        balanced(x + parse(tape_move(from, to))),
{
    lemma_parse_move(from, to);
    lemma_mv_plain(from, to);
    lemma_line_balanced(x, mv(from, to));
}

/// Head motion behind some code.
pub proof fn lemma_then_go(x: Seq<COps>, from: nat, to: nat, c: Cells, fuel: nat)
    requires
        sem(x, c, fuel) is Done,
        (sem(x, c, fuel)->Done_0).valid(),
        0 <= (sem(x, c, fuel)->Done_0).mp - from + to < (sem(x, c, fuel)->Done_0).tape.len(),
    ensures
        sem(x + parse(tape_move(from, to)), c, fuel) == Effect::Done(
            moved(sem(x, c, fuel)->Done_0, to - from),
        ),
{
    lemma_parse_move(from, to);
    lemma_then_mv(x, from, to, c, fuel);
}

/// One increment or decrement behind balanced code is balanced code.
pub proof fn lemma_sign_balanced(x: Seq<COps>, up: bool)
    requires
        balanced(x),
    ensures
        balanced(x + parse(seq![sign_char(up)])),
{
    lemma_parse_one(sign_char(up));
    lemma_line_balanced(x, seq![sign_op(up)]);
}

/// One increment or decrement behind some code.
pub proof fn lemma_then_sign(x: Seq<COps>, up: bool, c: Cells, fuel: nat)
    requires
        sem(x, c, fuel) is Done,
        (sem(x, c, fuel)->Done_0).valid(),
        up ==> (sem(x, c, fuel)->Done_0).cell() <= 254,
        !up ==> (sem(x, c, fuel)->Done_0).cell() >= 1,
    ensures
        sem(x + parse(seq![sign_char(up)]), c, fuel) == Effect::Done(
            put(
                sem(x, c, fuel)->Done_0,
                (sem(x, c, fuel)->Done_0).cell() + if up {
                    1int
                } else {
                    -1int
                },
            ),
        ),
{
    lemma_parse_one(sign_char(up));
    lemma_then_op(x, sign_op(up), c, fuel);
    assert(x.push(sign_op(up)) =~= x + seq![sign_op(up)]);
}

/// A loop as operations.
pub proof fn lemma_parse_looped(body: Seq<char>)
    ensures
        parse(looped(body)) == seq![COps::JmpIfZ(0)] + parse(body) + seq![COps::JmpIfNZ(0)],
{
    lemma_parse_join(seq!['['] + body, seq![']']);
    lemma_parse_join(seq!['['], body);
    lemma_parse_one('[');
    lemma_parse_one(']');
}

/// A loop around balanced code, behind balanced code, is balanced code.
pub proof fn lemma_looped_balanced(x: Seq<COps>, body: Seq<char>)
    requires
        balanced(x),
        balanced(parse(body)),
    ensures
        balanced(x + parse(looped(body))),
{
    lemma_parse_looped(body);
    lemma_loop_balanced(x, parse(body));
    lemma_regroup(x, seq![COps::JmpIfZ(0)], parse(body));
    lemma_regroup(x, seq![COps::JmpIfZ(0)] + parse(body), seq![COps::JmpIfNZ(0)]);
}

/// A loop behind some code runs on what that code leaves.
pub proof fn lemma_then_looped(x: Seq<COps>, body: Seq<char>, c: Cells, fuel: nat)
    requires
        balanced(parse(body)),
        sem(x, c, fuel) is Done,
    ensures
        sem(x + parse(looped(body)), c, fuel) == iterate(
            parse(body),
            sem(x, c, fuel)->Done_0,
            fuel,
        ),
{
    lemma_parse_looped(body);
    lemma_then_loop(x, parse(body), c, fuel);
    lemma_regroup(x, seq![COps::JmpIfZ(0)], parse(body));
    lemma_regroup(x, seq![COps::JmpIfZ(0)] + parse(body), seq![COps::JmpIfNZ(0)]);
}

// ---------------------------------------------------------------------------
// Carrying a cell to another
// ---------------------------------------------------------------------------

/// A carry as operations.
pub proof fn lemma_parse_carry(s: nat, d: nat)
    ensures
        parse(carry(s, d)) == mv(0, d) + parse(clear_loop()) + mv(d, s) + seq![COps::JmpIfZ(0)]
            + drain_body(s, d, true) + seq![COps::JmpIfNZ(0)] + mv(s, 0),
{
    let t1 = tape_move(0, d);
    let t2 = t1 + clear_loop();
    let t3 = t2 + tape_move(d, s);
    let t4 = t3 + seq!['[', '-'];
    let t5 = t4 + tape_move(s, d);
    let t6 = t5 + seq!['+'];
    let t7 = t6 + tape_move(d, s);
    let t8 = t7 + seq![']'];
    let t9 = t8 + tape_move(s, 0);
    assert(carry(s, d) == t9);
    lemma_parse_join(t8, tape_move(s, 0));
    lemma_parse_join(t7, seq![']']);
    lemma_parse_join(t6, tape_move(d, s));
    lemma_parse_join(t5, seq!['+']);
    lemma_parse_join(t4, tape_move(s, d));
    lemma_parse_join(t3, seq!['[', '-']);
    lemma_parse_join(t2, tape_move(d, s));
    lemma_parse_join(t1, clear_loop());
    assert(seq!['[', '-'] =~= seq!['['] + seq!['-']);
    lemma_parse_join(seq!['['], seq!['-']);
    lemma_parse_one('[');
    lemma_parse_one('-');
    lemma_parse_one(']');
    lemma_parse_one('+');
    lemma_parse_move(0, d);
    lemma_parse_move(d, s);
    lemma_parse_move(s, d);
    lemma_parse_move(s, 0);
    let open = seq![COps::JmpIfZ(0)];
    let take = seq![COps::Add(-1i32)];
    let give = seq![sign_op(true)];
    let lead = mv(0, d) + parse(clear_loop()) + mv(d, s);
    let p = lead + open;
    lemma_regroup(lead, open, take);
    lemma_regroup(p, take, mv(s, d));
    lemma_regroup(p, take + mv(s, d), give);
    lemma_regroup(p, take + mv(s, d) + give, mv(d, s));
}

/// A carry behind balanced code is balanced code.
pub proof fn lemma_carry_balanced(x: Seq<COps>, s: nat, d: nat)
    requires
        balanced(x),
    ensures
        balanced(x + parse(carry(s, d))),
{
    lemma_parse_carry(s, d);
    lemma_parse_clear();
    lemma_mv_plain(0, d);
    lemma_mv_plain(d, s);
    lemma_mv_plain(s, 0);
    let x1 = x + mv(0, d);
    lemma_line_balanced(x, mv(0, d));
    lemma_loop_balanced(x1, clear_body());
    let x2 = x1 + parse(clear_loop());
    assert(x1 + seq![COps::JmpIfZ(0)] + clear_body() + seq![COps::JmpIfNZ(0)] =~= x2);
    let x3 = x2 + mv(d, s);
    lemma_line_balanced(x2, mv(d, s));
    lemma_plain_balanced(drain_body(s, d, true));
    lemma_loop_balanced(x3, drain_body(s, d, true));
    let x4 = x3 + seq![COps::JmpIfZ(0)] + drain_body(s, d, true) + seq![COps::JmpIfNZ(0)];
    lemma_line_balanced(x4, mv(s, 0));
    assert(x4 + mv(s, 0) =~= x + parse(carry(s, d)));
}

/// The cells after a carry whose frame starts at `h`: the destination holds
/// what the source held, and the source is 0.
pub open spec fn carried(c: Cells, h: int, s: nat, d: nat) -> Cells {
    with_cell(with_cell(c, h + d, c.tape[h + s] as int), h + s, 0)
}

/// A carry behind some code: with the head on the first cell of the frame,
/// the destination comes to hold what the source holds, and the source ends
/// as 0; the head is back where it was.
pub proof fn lemma_then_carry(x: Seq<COps>, s: nat, d: nat, c: Cells, fuel: nat)
    requires
        sem(x, c, fuel) is Done,
        s != d,
        ({
            let c1 = sem(x, c, fuel)->Done_0;
            &&& 0 <= c1.mp
            &&& c1.mp + s < c1.tape.len()
            &&& c1.mp + d < c1.tape.len()
        }),
        fuel >= 255,
    ensures
        sem(x + parse(carry(s, d)), c, fuel) == Effect::Done(
            carried(sem(x, c, fuel)->Done_0, (sem(x, c, fuel)->Done_0).mp, s, d),
        ),
{
    let c1 = sem(x, c, fuel)->Done_0;
    let h = c1.mp;
    lemma_parse_carry(s, d);
    let body = drain_body(s, d, true);
    lemma_plain_balanced(body);
    let x1 = x + mv(0, d);
    lemma_then_mv(x, 0, d, c, fuel);
    let x2 = x1 + parse(clear_loop());
    lemma_then_clear(x1, c, fuel);
    let c2 = Cells { mp: h + d, ..with_cell(c1, h + d, 0) };
    assert(sem(x2, c, fuel) == Effect::Done(c2));
    let x3 = x2 + mv(d, s);
    lemma_then_mv(x2, d, s, c, fuel);
    let c3 = moved(c2, s - d);
    lemma_then_loop(x3, body, c, fuel);
    lemma_drain_rounds(c3, h, s, d, true, fuel);
    let x4 = x3 + seq![COps::JmpIfZ(0)] + body + seq![COps::JmpIfNZ(0)];
    let c4 = drained(c3, h, s, d, true);
    assert(sem(x4, c, fuel) == Effect::Done(c4));
    lemma_then_mv(x4, s, 0, c, fuel);
    assert(x4 + mv(s, 0) =~= x + parse(carry(s, d)));
    assert(moved(c4, 0 - s).tape =~= carried(c1, h, s, d).tape);
}

// ---------------------------------------------------------------------------
// Carrying a cell to two others
// ---------------------------------------------------------------------------

/// The body of the loop that drains `s` into `d1` and `d2`.
pub open spec fn drain2_body(s: nat, d1: nat, d2: nat) -> Seq<COps> {
    seq![COps::Add(-1i32)] + mv(s, d1) + seq![COps::Add(1i32)] + mv(d1, d2) + seq![
        COps::Add(1i32),
    ] + mv(d2, s)
}

/// A carry to two cells as operations.
pub proof fn lemma_parse_carry2(s: nat, d1: nat, d2: nat)
    ensures
        parse(carry2(s, d1, d2)) == mv(0, d1) + parse(clear_loop()) + mv(d1, d2) + parse(
            clear_loop(),
        ) + mv(d2, s) + seq![COps::JmpIfZ(0)] + drain2_body(s, d1, d2) + seq![COps::JmpIfNZ(0)]
            + mv(s, 0),
{
    let t1 = tape_move(0, d1);
    let t2 = t1 + clear_loop();
    let t3 = t2 + tape_move(d1, d2);
    let t4 = t3 + clear_loop();
    let t5 = t4 + tape_move(d2, s);
    let t6 = t5 + seq!['[', '-'];
    let t7 = t6 + tape_move(s, d1);
    let t8 = t7 + seq!['+'];
    let t9 = t8 + tape_move(d1, d2);
    let t10 = t9 + seq!['+'];
    let t11 = t10 + tape_move(d2, s);
    let t12 = t11 + seq![']'];
    let t13 = t12 + tape_move(s, 0);
    assert(carry2(s, d1, d2) == t13);
    lemma_parse_join(t12, tape_move(s, 0));
    lemma_parse_join(t11, seq![']']);
    lemma_parse_join(t10, tape_move(d2, s));
    lemma_parse_join(t9, seq!['+']);
    lemma_parse_join(t8, tape_move(d1, d2));
    lemma_parse_join(t7, seq!['+']);
    lemma_parse_join(t6, tape_move(s, d1));
    lemma_parse_join(t5, seq!['[', '-']);
    lemma_parse_join(t4, tape_move(d2, s));
    lemma_parse_join(t3, clear_loop());
    lemma_parse_join(t2, tape_move(d1, d2));
    lemma_parse_join(t1, clear_loop());
    assert(seq!['[', '-'] =~= seq!['['] + seq!['-']);
    lemma_parse_join(seq!['['], seq!['-']);
    lemma_parse_one('[');
    lemma_parse_one('-');
    lemma_parse_one(']');
    lemma_parse_one('+');
    lemma_parse_move(0, d1);
    lemma_parse_move(d1, d2);
    lemma_parse_move(d2, s);
    lemma_parse_move(s, d1);
    lemma_parse_move(s, 0);
    let open = seq![COps::JmpIfZ(0)];
    let take = seq![COps::Add(-1i32)];
    let give = seq![COps::Add(1i32)];
    let lead = mv(0, d1) + parse(clear_loop()) + mv(d1, d2) + parse(clear_loop()) + mv(d2, s);
    let p = lead + open;
    lemma_regroup(lead, open, take);
    lemma_regroup(p, take, mv(s, d1));
    lemma_regroup(p, take + mv(s, d1), give);
    lemma_regroup(p, take + mv(s, d1) + give, mv(d1, d2));
    lemma_regroup(p, take + mv(s, d1) + give + mv(d1, d2), give);
    lemma_regroup(p, take + mv(s, d1) + give + mv(d1, d2) + give, mv(d2, s));
}

/// A carry to two cells behind balanced code is balanced code.
pub proof fn lemma_carry2_balanced(x: Seq<COps>, s: nat, d1: nat, d2: nat)
    requires
        balanced(x),
    ensures
        balanced(x + parse(carry2(s, d1, d2))),
{
    lemma_parse_carry2(s, d1, d2);
    lemma_parse_clear();
    lemma_mv_plain(0, d1);
    lemma_mv_plain(d1, d2);
    lemma_mv_plain(d2, s);
    lemma_mv_plain(s, 0);
    let jz = seq![COps::JmpIfZ(0)];
    let jnz = seq![COps::JmpIfNZ(0)];
    let x1 = x + mv(0, d1);
    lemma_line_balanced(x, mv(0, d1));
    lemma_loop_balanced(x1, clear_body());
    let x2 = x1 + parse(clear_loop());
    assert(x1 + jz + clear_body() + jnz =~= x2);
    let x3 = x2 + mv(d1, d2);
    lemma_line_balanced(x2, mv(d1, d2));
    lemma_loop_balanced(x3, clear_body());
    let x4 = x3 + parse(clear_loop());
    assert(x3 + jz + clear_body() + jnz =~= x4);
    let x5 = x4 + mv(d2, s);
    lemma_line_balanced(x4, mv(d2, s));
    lemma_plain_balanced(drain2_body(s, d1, d2));
    lemma_loop_balanced(x5, drain2_body(s, d1, d2));
    let x6 = x5 + jz + drain2_body(s, d1, d2) + jnz;
    lemma_line_balanced(x6, mv(s, 0));
    assert(x6 + mv(s, 0) =~= x + parse(carry2(s, d1, d2)));
}

/// The cells after one round of a drain into two cells.
pub open spec fn drained2_once(c: Cells, h: int, s: nat, d1: nat, d2: nat) -> Cells {
    with_cell(
        with_cell(with_cell(c, h + s, c.tape[h + s] - 1), h + d1, c.tape[h + d1] + 1),
        h + d2,
        c.tape[h + d2] + 1,
    )
}

/// One round of a drain into two cells.
pub proof fn lemma_drain2_round(c: Cells, h: int, s: nat, d1: nat, d2: nat, fuel: nat)
    requires
        s != d1,
        s != d2,
        d1 != d2,
        0 <= h,
        h + s < c.tape.len(),
        h + d1 < c.tape.len(),
        h + d2 < c.tape.len(),
        c.mp == h + s,
        c.tape[h + s] >= 1,
        c.tape[h + d1] <= 254,
        c.tape[h + d2] <= 254,
    ensures
        sem(drain2_body(s, d1, d2), c, fuel) == Effect::Done(drained2_once(c, h, s, d1, d2)),
{
    let e = Seq::<COps>::empty();
    let x1 = e.push(COps::Add(-1i32));
    lemma_then_op(e, COps::Add(-1i32), c, fuel);
    let c1 = with_cell(c, h + s, c.tape[h + s] - 1);
    assert(sem(x1, c, fuel) == Effect::Done(c1));
    let x2 = x1 + mv(s, d1);
    lemma_then_mv(x1, s, d1, c, fuel);
    let c2 = moved(c1, d1 - s);
    let x3 = x2.push(COps::Add(1i32));
    lemma_then_op(x2, COps::Add(1i32), c, fuel);
    let c3 = Cells { mp: h + d1, ..with_cell(c1, h + d1, c.tape[h + d1] + 1) };
    assert(act(COps::Add(1i32), c2)->Ok_0.tape =~= c3.tape);
    assert(sem(x3, c, fuel) == Effect::Done(c3));
    let x4 = x3 + mv(d1, d2);
    lemma_then_mv(x3, d1, d2, c, fuel);
    let c4 = moved(c3, d2 - d1);
    let x5 = x4.push(COps::Add(1i32));
    lemma_then_op(x4, COps::Add(1i32), c, fuel);
    let c5 = Cells { mp: h + d2, ..drained2_once(c, h, s, d1, d2) };
    assert(act(COps::Add(1i32), c4)->Ok_0.tape =~= c5.tape);
    assert(sem(x5, c, fuel) == Effect::Done(c5));
    lemma_then_mv(x5, d2, s, c, fuel);
    assert(x5 + mv(d2, s) =~= drain2_body(s, d1, d2));
}

/// The cells after a drain into two cells.
pub open spec fn drained2(c: Cells, h: int, s: nat, d1: nat, d2: nat) -> Cells {
    with_cell(
        with_cell(with_cell(c, h + s, 0), h + d1, c.tape[h + d1] + c.tape[h + s]),
        h + d2,
        c.tape[h + d2] + c.tape[h + s],
    )
}

/// All rounds of a drain into two cells.
pub proof fn lemma_drain2_rounds(c: Cells, h: int, s: nat, d1: nat, d2: nat, fuel: nat)
    requires
        s != d1,
        s != d2,
        d1 != d2,
        0 <= h,
        h + s < c.tape.len(),
        h + d1 < c.tape.len(),
        h + d2 < c.tape.len(),
        c.mp == h + s,
        c.tape[h + d1] + c.tape[h + s] <= 255,
        c.tape[h + d2] + c.tape[h + s] <= 255,
        fuel >= c.tape[h + s],
    ensures
        iterate(drain2_body(s, d1, d2), c, fuel) == Effect::Done(drained2(c, h, s, d1, d2)),
    decreases c.tape[h + s],
{
    if c.tape[h + s] == 0 {
        assert(drained2(c, h, s, d1, d2).tape =~= c.tape);
    } else {
        let f = (fuel - 1) as nat;
        lemma_drain2_round(c, h, s, d1, d2, f);
        let c1 = drained2_once(c, h, s, d1, d2);
        lemma_drain2_rounds(c1, h, s, d1, d2, f);
        assert(drained2(c1, h, s, d1, d2).tape =~= drained2(c, h, s, d1, d2).tape);
    }
}

/// The cells after a carry to two cells: both hold what the source held, and
/// the source is 0.
pub open spec fn carried2(c: Cells, h: int, s: nat, d1: nat, d2: nat) -> Cells {
    with_cell(
        with_cell(with_cell(c, h + d1, c.tape[h + s] as int), h + d2, c.tape[h + s] as int),
        h + s,
        0,
    )
}

/// The code that a carry to two cells starts with: clear both, go to the
/// source.
pub open spec fn carry2_setup(s: nat, d1: nat, d2: nat) -> Seq<COps> {
    mv(0, d1) + parse(clear_loop()) + mv(d1, d2) + parse(clear_loop()) + mv(d2, s)
}

/// The start of a carry to two cells: both are 0, and the head is on the
/// source.
pub proof fn lemma_carry2_setup(s: nat, d1: nat, d2: nat, c: Cells, fuel: nat)
    requires
        s != d1,
        s != d2,
        d1 != d2,
        0 <= c.mp,
        c.mp + s < c.tape.len(),
        c.mp + d1 < c.tape.len(),
        c.mp + d2 < c.tape.len(),
        fuel >= 255,
    ensures
        sem(carry2_setup(s, d1, d2), c, fuel) == Effect::Done(
            moved(with_cell(with_cell(c, c.mp + d1, 0), c.mp + d2, 0), s as int),
        ),
{
    let h = c.mp;
    let e = Seq::<COps>::empty();
    assert(sem(e, c, fuel) == Effect::Done(c));
    let x1 = e + mv(0, d1);
    lemma_then_mv(e, 0, d1, c, fuel);
    let x2 = x1 + parse(clear_loop());
    lemma_then_clear(x1, c, fuel);
    let c2 = Cells { mp: h + d1, ..with_cell(c, h + d1, 0) };
    assert(sem(x2, c, fuel) == Effect::Done(c2));
    let x3 = x2 + mv(d1, d2);
    lemma_then_mv(x2, d1, d2, c, fuel);
    let x4 = x3 + parse(clear_loop());
    lemma_then_clear(x3, c, fuel);
    let c4 = Cells { mp: h + d2, ..with_cell(with_cell(c, h + d1, 0), h + d2, 0) };
    assert(sem(x4, c, fuel) == Effect::Done(c4));
    lemma_then_mv(x4, d2, s, c, fuel);
    assert(e + mv(0, d1) =~= mv(0, d1));
}

/// A carry to two cells on its own.
pub proof fn lemma_carry2_alone(s: nat, d1: nat, d2: nat, c: Cells, fuel: nat)
    requires
        s != d1,
        s != d2,
        d1 != d2,
        0 <= c.mp,
        c.mp + s < c.tape.len(),
        c.mp + d1 < c.tape.len(),
        c.mp + d2 < c.tape.len(),
        fuel >= 255,
    ensures
        sem(parse(carry2(s, d1, d2)), c, fuel) == Effect::Done(carried2(c, c.mp, s, d1, d2)),
{
    let h = c.mp;
    lemma_parse_carry2(s, d1, d2);
    let body = drain2_body(s, d1, d2);
    lemma_plain_balanced(body);
    let x5 = carry2_setup(s, d1, d2);
    lemma_carry2_setup(s, d1, d2, c, fuel);
    let c5 = moved(with_cell(with_cell(c, h + d1, 0), h + d2, 0), s as int);
    lemma_then_loop(x5, body, c, fuel);
    lemma_drain2_rounds(c5, h, s, d1, d2, fuel);
    let x6 = x5 + seq![COps::JmpIfZ(0)] + body + seq![COps::JmpIfNZ(0)];
    let c6 = drained2(c5, h, s, d1, d2);
    assert(sem(x6, c, fuel) == Effect::Done(c6));
    lemma_then_mv(x6, s, 0, c, fuel);
    assert(moved(c6, 0 - s).tape =~= carried2(c, h, s, d1, d2).tape);
}

/// A carry to two cells behind some code.
pub proof fn lemma_then_carry2(x: Seq<COps>, s: nat, d1: nat, d2: nat, c: Cells, fuel: nat)
    requires
        sem(x, c, fuel) is Done,
        s != d1,
        s != d2,
        d1 != d2,
        ({
            let c1 = sem(x, c, fuel)->Done_0;
            &&& 0 <= c1.mp
            &&& c1.mp + s < c1.tape.len()
            &&& c1.mp + d1 < c1.tape.len()
            &&& c1.mp + d2 < c1.tape.len()
        }),
        fuel >= 255,
    ensures
        sem(x + parse(carry2(s, d1, d2)), c, fuel) == Effect::Done(
            carried2(sem(x, c, fuel)->Done_0, (sem(x, c, fuel)->Done_0).mp, s, d1, d2),
        ),
{
    let c1 = sem(x, c, fuel)->Done_0;
    lemma_carry2_balanced(Seq::<COps>::empty(), s, d1, d2);
    assert(Seq::<COps>::empty() + parse(carry2(s, d1, d2)) =~= parse(carry2(s, d1, d2)));
    lemma_sem_join(x, parse(carry2(s, d1, d2)), c, fuel);
    lemma_carry2_alone(s, d1, d2, c1, fuel);
}

// ---------------------------------------------------------------------------
// The train under way
// ---------------------------------------------------------------------------

/// The tape while the station stands `j` cells away from where it started, at
/// `h`: the `j` cells that it passed lie three cells further back, the
/// station holds 0, the return counter `j`, and `val`, and the rest of the
/// tape `t0` is as it was.
pub open spec fn train_tape(t0: Seq<u8>, h: int, j: int, val: int) -> Seq<u8> {
    Seq::new(
        t0.len(),
        |i: int|
            if i < h {
                t0[i]
            } else if i < h + j {
                t0[i + 3]
            } else if i == h + j {
                0u8
            } else if i == h + j + 1 {
                j as u8
            } else if i == h + j + 2 {
                val as u8
            } else {
                t0[i]
            },
    )
}

/// The cells at the test of the outward loop: the head is on the pointer
/// copy, which has `n - j` to go.
pub open spec fn outbound(t0: Seq<u8>, h: int, n: int, j: int, output: Seq<u8>) -> Cells {
    Cells { mp: h + j + 2, tape: train_tape(t0, h, j, n - j), output }
}

/// The cells at the test of the homeward loop: the head is on the return
/// counter, and the station carries `z`.
pub open spec fn inbound(t0: Seq<u8>, h: int, z: int, j: int, output: Seq<u8>) -> Cells {
    Cells { mp: h + j + 1, tape: train_tape(t0, h, j, z), output }
}

/// The step away from the station as operations.
pub proof fn lemma_parse_out_body()
    ensures
        parse(load_out_body()) == parse(seq!['-']) + parse(tape_move(2, 1)) + parse(seq!['+'])
            + parse(tape_move(1, 0)) + parse(carry(3, 0)) + parse(carry(2, 3)) + parse(carry(1, 2))
            + parse(tape_move(0, 3)),
        balanced(parse(load_out_body())),
{
    let t1 = seq!['-'];
    let t2 = t1 + tape_move(2, 1);
    let t3 = t2 + seq!['+'];
    let t4 = t3 + tape_move(1, 0);
    let t5 = t4 + carry(3, 0);
    let t6 = t5 + carry(2, 3);
    let t7 = t6 + carry(1, 2);
    let t8 = t7 + tape_move(0, 3);
    assert(load_out_body() == t8);
    lemma_parse_join(t7, tape_move(0, 3));
    lemma_parse_join(t6, carry(1, 2));
    lemma_parse_join(t5, carry(2, 3));
    lemma_parse_join(t4, carry(3, 0));
    lemma_parse_join(t3, tape_move(1, 0));
    lemma_parse_join(t2, seq!['+']);
    lemma_parse_join(t1, tape_move(2, 1));
    let e = Seq::<COps>::empty();
    assert(sign_char(false) == '-');
    assert(sign_char(true) == '+');
    lemma_sign_balanced(e, false);
    assert(e + parse(t1) =~= parse(t1));
    lemma_go_balanced(parse(t1), 2, 1);
    lemma_sign_balanced(parse(t2), true);
    lemma_go_balanced(parse(t3), 1, 0);
    lemma_carry_balanced(parse(t4), 3, 0);
    lemma_carry_balanced(parse(t5), 2, 3);
    lemma_carry_balanced(parse(t6), 1, 2);
    lemma_go_balanced(parse(t7), 0, 3);
}

/// The first half of a step away from the station: the pointer copy goes
/// down, the return counter goes up, and the head comes to the station's
/// first cell.
pub proof fn lemma_out_shunt(t0: Seq<u8>, h: int, n: int, j: int, output: Seq<u8>, fuel: nat)
    requires
        0 <= h,
        0 <= j < n <= 252,
        h + n + 2 < t0.len(),
    ensures
        sem(
            parse(seq!['-']) + parse(tape_move(2, 1)) + parse(seq!['+']) + parse(tape_move(1, 0)),
            outbound(t0, h, n, j, output),
            fuel,
        ) == Effect::Done(
            Cells {
                mp: h + j,
                tape: train_tape(t0, h, j, n - j - 1).update(h + j + 1, (j + 1) as u8),
                output,
            },
        ),
{
    let c = outbound(t0, h, n, j, output);
    let e = Seq::<COps>::empty();
    assert(sem(e, c, fuel) == Effect::Done(c));
    assert(sign_char(false) == '-');
    assert(sign_char(true) == '+');
    lemma_then_sign(e, false, c, fuel);
    let x1 = parse(seq!['-']);
    assert(e + x1 =~= x1);
    let c1 = put(c, n - j - 1);
    assert(sem(x1, c, fuel) == Effect::Done(c1));
    lemma_then_go(x1, 2, 1, c, fuel);
    let x2 = x1 + parse(tape_move(2, 1));
    let c2 = moved(c1, -1);
    lemma_then_sign(x2, true, c, fuel);
    let x3 = x2 + parse(seq!['+']);
    let c3 = put(c2, j + 1);
    assert(sem(x3, c, fuel) == Effect::Done(c3));
    lemma_then_go(x3, 1, 0, c, fuel);
    let want = train_tape(t0, h, j, n - j - 1).update(h + j + 1, (j + 1) as u8);
    assert(c3.tape =~= want);
}

/// One step away from the station.
pub proof fn lemma_out_step(t0: Seq<u8>, h: int, n: int, j: int, output: Seq<u8>, fuel: nat)
    requires
        0 <= h,
        0 <= j < n <= 252,
        h + n + 2 < t0.len(),
        fuel >= 255,
    ensures
        sem(parse(load_out_body()), outbound(t0, h, n, j, output), fuel) == Effect::Done(
            outbound(t0, h, n, j + 1, output),
        ),
{
    let c = outbound(t0, h, n, j, output);
    lemma_parse_out_body();
    lemma_out_shunt(t0, h, n, j, output, fuel);
    let x4 = parse(seq!['-']) + parse(tape_move(2, 1)) + parse(seq!['+']) + parse(
        tape_move(1, 0),
    );
    let b = h + j;
    let c4 = Cells {
        mp: b,
        tape: train_tape(t0, h, j, n - j - 1).update(b + 1, (j + 1) as u8),
        output,
    };
    lemma_then_carry(x4, 3, 0, c, fuel);
    let x5 = x4 + parse(carry(3, 0));
    let c5 = carried(c4, b, 3, 0);
    lemma_then_carry(x5, 2, 3, c, fuel);
    let x6 = x5 + parse(carry(2, 3));
    let c6 = carried(c5, b, 2, 3);
    lemma_then_carry(x6, 1, 2, c, fuel);
    let x7 = x6 + parse(carry(1, 2));
    let c7 = carried(c6, b, 1, 2);
    assert(sem(x7, c, fuel) == Effect::Done(c7));
    lemma_then_go(x7, 0, 3, c, fuel);
    assert(c7.tape =~= train_tape(t0, h, j + 1, n - j - 1));
}

/// The run away from the station: after `n` steps the pointer copy is 0.
pub proof fn lemma_out_rounds(t0: Seq<u8>, h: int, n: int, j: int, output: Seq<u8>, fuel: nat)
    requires
        0 <= h,
        0 <= j <= n <= 252,
        h + n + 2 < t0.len(),
        fuel >= 256 + (n - j),
    ensures
        iterate(parse(load_out_body()), outbound(t0, h, n, j, output), fuel) == Effect::Done(
            outbound(t0, h, n, n, output),
        ),
    decreases n - j,
{
    let c = outbound(t0, h, n, j, output);
    assert(c.cell() == (n - j) as u8);
    if j < n {
        let f = (fuel - 1) as nat;
        lemma_out_step(t0, h, n, j, output, f);
        lemma_out_rounds(t0, h, n, j + 1, output, f);
    }
}

/// The step back to the station as operations.
pub proof fn lemma_parse_home_body()
    ensures
        parse(load_home_body()) == parse(seq!['-']) + parse(tape_move(1, 0)) + parse(carry(1, 0))
            + parse(carry(2, 1)) + parse(tape_move(1, 0)) + parse(carry(0, 3)) + parse(
            tape_move(0, 1),
        ),
        balanced(parse(load_home_body())),
{
    let t1 = seq!['-'];
    let t2 = t1 + tape_move(1, 0);
    let t3 = t2 + carry(1, 0);
    let t4 = t3 + carry(2, 1);
    let t5 = t4 + tape_move(1, 0);
    let t6 = t5 + carry(0, 3);
    let t7 = t6 + tape_move(0, 1);
    assert(load_home_body() == t7);
    lemma_parse_join(t6, tape_move(0, 1));
    lemma_parse_join(t5, carry(0, 3));
    lemma_parse_join(t4, tape_move(1, 0));
    lemma_parse_join(t3, carry(2, 1));
    lemma_parse_join(t2, carry(1, 0));
    lemma_parse_join(t1, tape_move(1, 0));
    let e = Seq::<COps>::empty();
    assert(sign_char(false) == '-');
    lemma_sign_balanced(e, false);
    assert(e + parse(t1) =~= parse(t1));
    lemma_go_balanced(parse(t1), 1, 0);
    lemma_carry_balanced(parse(t2), 1, 0);
    lemma_carry_balanced(parse(t3), 2, 1);
    lemma_go_balanced(parse(t4), 1, 0);
    lemma_carry_balanced(parse(t5), 0, 3);
    lemma_go_balanced(parse(t6), 0, 1);
}

/// The first half of a step back to the station: the return counter goes
/// down, and the station's cells move back by one.
pub proof fn lemma_home_shunt(t0: Seq<u8>, h: int, z: int, j: int, output: Seq<u8>, fuel: nat)
    requires
        0 <= h,
        1 <= j <= 252,
        0 <= z <= 255,
        h + j + 2 < t0.len(),
        fuel >= 255,
    ensures
        sem(
            parse(seq!['-']) + parse(tape_move(1, 0)) + parse(carry(1, 0)) + parse(carry(2, 1)),
            inbound(t0, h, z, j, output),
            fuel,
        ) == Effect::Done(
            Cells {
                mp: h + j,
                tape: train_tape(t0, h, j, 0).update(h + j, (j - 1) as u8).update(
                    h + j + 1,
                    z as u8,
                ),
                output,
            },
        ),
{
    let c = inbound(t0, h, z, j, output);
    let e = Seq::<COps>::empty();
    assert(sem(e, c, fuel) == Effect::Done(c));
    assert(sign_char(false) == '-');
    lemma_then_sign(e, false, c, fuel);
    let x1 = parse(seq!['-']);
    assert(e + x1 =~= x1);
    let c1 = put(c, j - 1);
    assert(sem(x1, c, fuel) == Effect::Done(c1));
    lemma_then_go(x1, 1, 0, c, fuel);
    let x2 = x1 + parse(tape_move(1, 0));
    let c2 = moved(c1, -1);
    let b = h + j;
    lemma_then_carry(x2, 1, 0, c, fuel);
    let x3 = x2 + parse(carry(1, 0));
    let c3 = carried(c2, b, 1, 0);
    lemma_then_carry(x3, 2, 1, c, fuel);
    let c4 = carried(c3, b, 2, 1);
    let want = train_tape(t0, h, j, 0).update(b, (j - 1) as u8).update(b + 1, z as u8);
    assert(c4.tape =~= want);
}

/// One step back to the station.
pub proof fn lemma_home_step(t0: Seq<u8>, h: int, z: int, j: int, output: Seq<u8>, fuel: nat)
    requires
        0 <= h,
        1 <= j <= 252,
        0 <= z <= 255,
        h + j + 2 < t0.len(),
        fuel >= 255,
    ensures
        sem(parse(load_home_body()), inbound(t0, h, z, j, output), fuel) == Effect::Done(
            inbound(t0, h, z, j - 1, output),
        ),
{
    let c = inbound(t0, h, z, j, output);
    lemma_parse_home_body();
    lemma_home_shunt(t0, h, z, j, output, fuel);
    let x4 = parse(seq!['-']) + parse(tape_move(1, 0)) + parse(carry(1, 0)) + parse(carry(2, 1));
    let b = h + j;
    let c4 = Cells {
        mp: b,
        tape: train_tape(t0, h, j, 0).update(b, (j - 1) as u8).update(b + 1, z as u8),
        output,
    };
    lemma_then_go(x4, 1, 0, c, fuel);
    let x5 = x4 + parse(tape_move(1, 0));
    let c5 = moved(c4, -1);
    lemma_then_carry(x5, 0, 3, c, fuel);
    let x6 = x5 + parse(carry(0, 3));
    let c6 = carried(c5, b - 1, 0, 3);
    assert(sem(x6, c, fuel) == Effect::Done(c6));
    lemma_then_go(x6, 0, 1, c, fuel);
    assert(c6.tape =~= train_tape(t0, h, j - 1, z));
}

/// The run back to the station: after `j` steps the return counter is 0.
pub proof fn lemma_home_rounds(t0: Seq<u8>, h: int, z: int, j: int, output: Seq<u8>, fuel: nat)
    requires
        0 <= h,
        0 <= j <= 252,
        0 <= z <= 255,
        h + j + 2 < t0.len(),
        fuel >= 256 + j,
    ensures
        iterate(parse(load_home_body()), inbound(t0, h, z, j, output), fuel) == Effect::Done(
            inbound(t0, h, z, 0, output),
        ),
    decreases j,
{
    let c = inbound(t0, h, z, j, output);
    assert(c.cell() == j as u8);
    if j > 0 {
        let f = (fuel - 1) as nat;
        lemma_home_step(t0, h, z, j, output, f);
        lemma_home_rounds(t0, h, z, j - 1, output, f);
    }
}

// ---------------------------------------------------------------------------
// The load train, stage by stage
// ---------------------------------------------------------------------------

/// Counting a cell down and coming back, behind some code.
pub proof fn lemma_then_count_down(x: Seq<COps>, cell: nat, n: nat, c: Cells, fuel: nat)
    requires
        sem(x, c, fuel) is Done,
        ({
            let c1 = sem(x, c, fuel)->Done_0;
            &&& 0 <= c1.mp
            &&& c1.mp + cell < c1.tape.len()
            &&& c1.tape[c1.mp + cell] >= n
        }),
    ensures
        sem(x + parse(at_cell(cell, repeated('-', n))), c, fuel) == Effect::Done(
            with_cell(
                sem(x, c, fuel)->Done_0,
                (sem(x, c, fuel)->Done_0).mp + cell,
                (sem(x, c, fuel)->Done_0).tape[(sem(x, c, fuel)->Done_0).mp + cell] - n,
            ),
        ),
        balanced(x) ==> balanced(x + parse(at_cell(cell, repeated('-', n)))),
{
    let c1 = sem(x, c, fuel)->Done_0;
    let h = c1.mp;
    let text = at_cell(cell, repeated('-', n));
    lemma_parse_join(tape_move(0, cell) + repeated('-', n), tape_move(cell, 0));
    lemma_parse_join(tape_move(0, cell), repeated('-', n));
    lemma_parse_move(0, cell);
    lemma_parse_move(cell, 0);
    crate::reasoning::lemma_parse_repeated('-', n);
    let down = run_of(COps::Add(-1i32), n);
    let x1 = x + mv(0, cell);
    lemma_then_mv(x, 0, cell, c, fuel);
    let x2 = x1 + down;
    lemma_then_adds(x1, false, n, c, fuel);
    let c2 = Cells { mp: h + cell, ..with_cell(c1, h + cell, c1.tape[h + cell] - n) };
    assert(sem(x2, c, fuel) == Effect::Done(c2));
    lemma_then_mv(x2, cell, 0, c, fuel);
    lemma_regroup(x, mv(0, cell), down);
    lemma_regroup(x, mv(0, cell) + down, mv(cell, 0));
    if balanced(x) {
        lemma_mv_plain(0, cell);
        lemma_mv_plain(cell, 0);
        lemma_line_balanced(x, mv(0, cell));
        lemma_line_balanced(x1, down);
        lemma_line_balanced(x2, mv(cell, 0));
    }
}

/// The train's departure is balanced code.
pub proof fn lemma_depart_balanced(p: nat)
    ensures
        parse(load_depart(p)) == parse(carry2(p, 1, 2)) + parse(carry(1, p)) + parse(
            at_cell(2, repeated('-', 3)),
        ),
        balanced(parse(carry2(p, 1, 2))),
        balanced(parse(carry2(p, 1, 2)) + parse(carry(1, p))),
{
    lemma_parse_join(carry2(p, 1, 2) + carry(1, p), at_cell(2, repeated('-', 3)));
    lemma_parse_join(carry2(p, 1, 2), carry(1, p));
    let e = Seq::<COps>::empty();
    lemma_carry2_balanced(e, p, 1, 2);
    assert(e + parse(carry2(p, 1, 2)) =~= parse(carry2(p, 1, 2)));
    lemma_carry_balanced(parse(carry2(p, 1, 2)), 1, p);
}

/// The train's departure: the pointer, less three, stands in cell 2, and
/// cell 1 is 0.
pub proof fn lemma_depart_alone(p: nat, c: Cells, fuel: nat)
    requires
        p >= 3,
        0 <= c.mp,
        c.mp + p < c.tape.len(),
        c.tape[c.mp + p] >= 3,
        fuel >= 255,
    ensures
        sem(parse(load_depart(p)), c, fuel) == Effect::Done(
            with_cell(with_cell(c, c.mp + 1, 0), c.mp + 2, c.tape[c.mp + p] - 3),
        ),
        balanced(parse(load_depart(p))),
{
    let h = c.mp;
    lemma_depart_balanced(p);
    lemma_carry2_alone(p, 1, 2, c, fuel);
    let x1 = parse(carry2(p, 1, 2));
    let c1 = carried2(c, h, p, 1, 2);
    lemma_then_carry(x1, 1, p, c, fuel);
    let x2 = x1 + parse(carry(1, p));
    let c2 = carried(c1, h, 1, p);
    lemma_then_count_down(x2, 2, 3, c, fuel);
    let want = with_cell(with_cell(c, h + 1, 0), h + 2, c.tape[h + p] - 3);
    assert(with_cell(c2, h + 2, c2.tape[h + 2] - 3).tape =~= want.tape);
}

/// The run out to the cell is balanced code.
pub proof fn lemma_outward_balanced()
    ensures
        parse(load_outward()) == parse(tape_move(0, 2)) + parse(looped(load_out_body())) + parse(
            tape_move(2, 0),
        ) + parse(carry2(3, 0, 2)) + parse(carry(0, 3)),
        balanced(parse(load_outward())),
{
    let t1 = tape_move(0, 2);
    let t2 = t1 + looped(load_out_body());
    let t3 = t2 + tape_move(2, 0);
    let t4 = t3 + carry2(3, 0, 2);
    let t5 = t4 + carry(0, 3);
    assert(load_outward() == t5);
    lemma_parse_join(t4, carry(0, 3));
    lemma_parse_join(t3, carry2(3, 0, 2));
    lemma_parse_join(t2, tape_move(2, 0));
    lemma_parse_join(t1, looped(load_out_body()));
    lemma_parse_out_body();
    let e = Seq::<COps>::empty();
    assert(balanced(e));
    lemma_go_balanced(e, 0, 2);
    assert(e + parse(t1) =~= parse(t1));
    lemma_looped_balanced(parse(t1), load_out_body());
    lemma_go_balanced(parse(t2), 2, 0);
    lemma_carry2_balanced(parse(t3), 3, 0, 2);
    lemma_carry_balanced(parse(t4), 0, 3);
}

/// The run out to the cell: the station comes to stand `n` cells away and
/// holds a copy of the cell in front of it.
pub proof fn lemma_outward_alone(t0: Seq<u8>, h: int, n: int, output: Seq<u8>, fuel: nat)
    requires
        0 <= h,
        0 <= n <= 252,
        h + n + 3 < t0.len(),
        fuel >= 600,
    ensures
        sem(
            parse(load_outward()),
            Cells { mp: h, tape: train_tape(t0, h, 0, n), output },
            fuel,
        ) == Effect::Done(
            Cells { mp: h + n, tape: train_tape(t0, h, n, t0[h + n + 3] as int), output },
        ),
{
    let c = Cells { mp: h, tape: train_tape(t0, h, 0, n), output };
    lemma_outward_balanced();
    lemma_parse_out_body();
    let e = Seq::<COps>::empty();
    assert(sem(e, c, fuel) == Effect::Done(c));
    lemma_then_go(e, 0, 2, c, fuel);
    let x1 = parse(tape_move(0, 2));
    assert(e + x1 =~= x1);
    assert(sem(x1, c, fuel) == Effect::Done(outbound(t0, h, n, 0, output)));
    lemma_then_looped(x1, load_out_body(), c, fuel);
    lemma_out_rounds(t0, h, n, 0, output, fuel);
    let x2 = x1 + parse(looped(load_out_body()));
    assert(sem(x2, c, fuel) == Effect::Done(outbound(t0, h, n, n, output)));
    lemma_then_go(x2, 2, 0, c, fuel);
    let x3 = x2 + parse(tape_move(2, 0));
    let c3 = moved(outbound(t0, h, n, n, output), -2);
    lemma_then_carry2(x3, 3, 0, 2, c, fuel);
    let x4 = x3 + parse(carry2(3, 0, 2));
    let c4 = carried2(c3, h + n, 3, 0, 2);
    lemma_then_carry(x4, 0, 3, c, fuel);
    let c5 = carried(c4, h + n, 0, 3);
    assert(c5.tape =~= train_tape(t0, h, n, t0[h + n + 3] as int));
}

/// The run back to the station is balanced code.
pub proof fn lemma_homeward_balanced(d: nat)
    ensures
        parse(load_homeward(d)) == parse(tape_move(0, 1)) + parse(looped(load_home_body()))
            + parse(tape_move(1, 0)) + parse(carry(2, d)),
        balanced(parse(load_homeward(d))),
{
    let t1 = tape_move(0, 1);
    let t2 = t1 + looped(load_home_body());
    let t3 = t2 + tape_move(1, 0);
    let t4 = t3 + carry(2, d);
    assert(load_homeward(d) == t4);
    lemma_parse_join(t3, carry(2, d));
    lemma_parse_join(t2, tape_move(1, 0));
    lemma_parse_join(t1, looped(load_home_body()));
    lemma_parse_home_body();
    let e = Seq::<COps>::empty();
    assert(balanced(e));
    lemma_go_balanced(e, 0, 1);
    assert(e + parse(t1) =~= parse(t1));
    lemma_looped_balanced(parse(t1), load_home_body());
    lemma_go_balanced(parse(t2), 1, 0);
    lemma_carry_balanced(parse(t3), 2, d);
}

/// The run back to the station and the delivery: the tape is as it was when
/// the train left, the station is 0 in all three cells, and `d` holds what
/// the train fetched.
pub proof fn lemma_homeward_alone(
    t0: Seq<u8>,
    h: int,
    n: int,
    z: int,
    d: nat,
    output: Seq<u8>,
    fuel: nat,
)
    requires
        0 <= h,
        0 <= n <= 252,
        0 <= z <= 255,
        d >= 3,
        h + n + 2 < t0.len(),
        h + d < t0.len(),
        fuel >= 600,
    ensures
        sem(
            parse(load_homeward(d)),
            Cells { mp: h + n, tape: train_tape(t0, h, n, z), output },
            fuel,
        ) == Effect::Done(
            Cells {
                mp: h,
                tape: t0.update(h, 0).update(h + 1, 0).update(h + 2, 0).update(h + d, z as u8),
                output,
            },
        ),
{
    let c = Cells { mp: h + n, tape: train_tape(t0, h, n, z), output };
    lemma_homeward_balanced(d);
    lemma_parse_home_body();
    let e = Seq::<COps>::empty();
    assert(sem(e, c, fuel) == Effect::Done(c));
    lemma_then_go(e, 0, 1, c, fuel);
    let x1 = parse(tape_move(0, 1));
    assert(e + x1 =~= x1);
    assert(sem(x1, c, fuel) == Effect::Done(inbound(t0, h, z, n, output)));
    lemma_then_looped(x1, load_home_body(), c, fuel);
    lemma_home_rounds(t0, h, z, n, output, fuel);
    let x2 = x1 + parse(looped(load_home_body()));
    assert(sem(x2, c, fuel) == Effect::Done(inbound(t0, h, z, 0, output)));
    lemma_then_go(x2, 1, 0, c, fuel);
    let x3 = x2 + parse(tape_move(1, 0));
    let c3 = moved(inbound(t0, h, z, 0, output), -1);
    lemma_then_carry(x3, 2, d, c, fuel);
    let c4 = carried(c3, h, 2, d);
    assert(c4.tape =~= t0.update(h, 0).update(h + 1, 0).update(h + 2, 0).update(h + d, z as u8));
}

/// The load train: with the three cells of the station free, the cell whose
/// number stands in `p` is copied to `d`, and nothing else changes.
pub proof fn lemma_load_alone(p: nat, d: nat, c: Cells, fuel: nat)
    requires
        p >= 3,
        d >= 3,
        0 <= c.mp,
        c.mp + p < c.tape.len(),
        c.mp + d < c.tape.len(),
        3 <= c.tape[c.mp + p],
        c.mp + c.tape[c.mp + p] < c.tape.len(),
        c.tape[c.mp] == 0,
        c.tape[c.mp + 1] == 0,
        c.tape[c.mp + 2] == 0,
        fuel >= 600,
    ensures
        sem(parse(load_train(p, d)), c, fuel) == Effect::Done(
            with_cell(c, c.mp + d, c.tape[c.mp + c.tape[c.mp + p]] as int),
        ),
        balanced(parse(load_train(p, d))),
{
    let h = c.mp;
    let n = c.tape[h + p] - 3;
    let z = c.tape[h + n + 3] as int;
    let t0 = c.tape;
    lemma_parse_join(load_depart(p) + load_outward(), load_homeward(d));
    lemma_parse_join(load_depart(p), load_outward());
    lemma_depart_alone(p, c, fuel);
    lemma_outward_balanced();
    lemma_homeward_balanced(d);
    let x1 = parse(load_depart(p));
    let c1 = with_cell(with_cell(c, h + 1, 0), h + 2, n);
    assert(c1.tape =~= train_tape(t0, h, 0, n));
    lemma_sem_join(x1, parse(load_outward()), c, fuel);
    lemma_outward_alone(t0, h, n, c.output, fuel);
    let x2 = x1 + parse(load_outward());
    let c2 = Cells { mp: h + n, tape: train_tape(t0, h, n, z), output: c.output };
    assert(sem(x2, c, fuel) == Effect::Done(c2));
    lemma_sem_join(x2, parse(load_homeward(d)), c, fuel);
    lemma_homeward_alone(t0, h, n, z, d, c.output, fuel);
    assert(t0.update(h, 0).update(h + 1, 0).update(h + 2, 0).update(h + d, z as u8) =~= with_cell(
        c,
        h + d,
        z,
    ).tape);
    lemma_join_balanced(x1, parse(load_outward()));
    lemma_join_balanced(x2, parse(load_homeward(d)));
}

} // verus!
