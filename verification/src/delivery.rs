//! What the store train does: a value is delivered to the cell that a
//! pointer names, by a station that drives out to the cell and back.
use vstd::prelude::*;
use crate::effects::{lemma_parse_move, sign_char, with_cell};
use crate::interp::{balanced, parse, COps};
use crate::reasoning::{lemma_join_balanced, lemma_parse_join, lemma_sem_join, moved, put};
use crate::semantics::{iterate, sem, Cells, Effect};
use crate::tape::{
    at_cell, carry, carry2, looped, store_depart, store_home_body, store_homeward, store_out_body,
    store_outward, store_train, tape_move,
};
use crate::text::repeated;
use crate::trains::{
    carried, carried2, lemma_carry2_alone, lemma_carry2_balanced, lemma_carry_balanced,
    lemma_go_balanced, lemma_looped_balanced, lemma_sign_balanced, lemma_then_carry,
    lemma_then_count_down, lemma_then_go, lemma_then_looped, lemma_then_sign,
};

verus! {

/// The tape while the station stands `j` cells away from where it started, at
/// `h`: the `j` cells that it passed lie four cells further back, and the
/// station holds 0, the value `val`, the return counter `j`, and the rest of
/// the way `togo`.
pub open spec fn delivery_tape(t0: Seq<u8>, h: int, j: int, val: int, togo: int) -> Seq<u8> {
    Seq::new(
        t0.len(),
        |i: int|
            if i < h {
                t0[i]
            } else if i < h + j {
                t0[i + 4]
            } else if i == h + j {
                0u8
            } else if i == h + j + 1 {
                val as u8
            } else if i == h + j + 2 {
                j as u8
            } else if i == h + j + 3 {
                togo as u8
            } else {
                t0[i]
            },
    )
}

/// The cells at the test of the outward loop: the head is on the pointer
/// copy, which has `n - j` to go.
pub open spec fn outbound(t0: Seq<u8>, h: int, n: int, val: int, j: int, output: Seq<u8>) -> Cells {
    Cells { mp: h + j + 3, tape: delivery_tape(t0, h, j, val, n - j), output }
}

/// The cells at the test of the homeward loop: the head is on the return
/// counter, and the station is empty.
pub open spec fn inbound(t0: Seq<u8>, h: int, j: int, output: Seq<u8>) -> Cells {
    Cells { mp: h + j + 2, tape: delivery_tape(t0, h, j, 0, 0), output }
}

/// The step away from the station as operations.
pub proof fn lemma_parse_out_body()
    ensures
        parse(store_out_body()) == parse(seq!['-']) + parse(tape_move(3, 2)) + parse(seq!['+'])
            + parse(tape_move(2, 0)) + parse(carry(4, 0)) + parse(carry(3, 4)) + parse(carry(2, 3))
            + parse(carry(1, 2)) + parse(tape_move(0, 4)),
        balanced(parse(store_out_body())),
{
    let t1 = seq!['-'];
    let t2 = t1 + tape_move(3, 2);
    let t3 = t2 + seq!['+'];
    let t4 = t3 + tape_move(2, 0);
    let t5 = t4 + carry(4, 0);
    let t6 = t5 + carry(3, 4);
    let t7 = t6 + carry(2, 3);
    let t8 = t7 + carry(1, 2);
    let t9 = t8 + tape_move(0, 4);
    assert(store_out_body() == t9);
    lemma_parse_join(t8, tape_move(0, 4));
    lemma_parse_join(t7, carry(1, 2));
    lemma_parse_join(t6, carry(2, 3));
    lemma_parse_join(t5, carry(3, 4));
    lemma_parse_join(t4, carry(4, 0));
    lemma_parse_join(t3, tape_move(2, 0));
    lemma_parse_join(t2, seq!['+']);
    lemma_parse_join(t1, tape_move(3, 2));
    let e = Seq::<COps>::empty();
    assert(sign_char(false) == '-');
    assert(sign_char(true) == '+');
    lemma_sign_balanced(e, false);
    assert(e + parse(t1) =~= parse(t1));
    lemma_go_balanced(parse(t1), 3, 2);
    lemma_sign_balanced(parse(t2), true);
    lemma_go_balanced(parse(t3), 2, 0);
    lemma_carry_balanced(parse(t4), 4, 0);
    lemma_carry_balanced(parse(t5), 3, 4);
    lemma_carry_balanced(parse(t6), 2, 3);
    lemma_carry_balanced(parse(t7), 1, 2);
    lemma_go_balanced(parse(t8), 0, 4);
}

/// The first half of a step away from the station: the pointer copy goes
/// down, the return counter goes up, and the head comes to the station's
/// first cell.
pub proof fn lemma_out_shunt(
    t0: Seq<u8>,
    h: int,
    n: int,
    val: int,
    j: int,
    output: Seq<u8>,
    fuel: nat,
)
    requires
        0 <= h,
        0 <= j < n <= 251,
        0 <= val <= 255,
        h + n + 3 < t0.len(),
    ensures
        sem(
            parse(seq!['-']) + parse(tape_move(3, 2)) + parse(seq!['+']) + parse(tape_move(2, 0)),
            outbound(t0, h, n, val, j, output),
            fuel,
        ) == Effect::Done(
            Cells {
                mp: h + j,
                tape: delivery_tape(t0, h, j, val, n - j - 1).update(h + j + 2, (j + 1) as u8),
                output,
            },
        ),
{
    let c = outbound(t0, h, n, val, j, output);
    let e = Seq::<COps>::empty();
    assert(sem(e, c, fuel) == Effect::Done(c));
    assert(sign_char(false) == '-');
    assert(sign_char(true) == '+');
    lemma_then_sign(e, false, c, fuel);
    let x1 = parse(seq!['-']);
    assert(e + x1 =~= x1);
    let c1 = put(c, n - j - 1);
    assert(sem(x1, c, fuel) == Effect::Done(c1));
    lemma_then_go(x1, 3, 2, c, fuel);
    let x2 = x1 + parse(tape_move(3, 2));
    let c2 = moved(c1, -1);
    lemma_then_sign(x2, true, c, fuel);
    let x3 = x2 + parse(seq!['+']);
    let c3 = put(c2, j + 1);
    assert(sem(x3, c, fuel) == Effect::Done(c3));
    lemma_then_go(x3, 2, 0, c, fuel);
    let want = delivery_tape(t0, h, j, val, n - j - 1).update(h + j + 2, (j + 1) as u8);
    assert(c3.tape =~= want);
}

/// One step away from the station.
pub proof fn lemma_out_step(
    t0: Seq<u8>,
    h: int,
    n: int,
    val: int,
    j: int,
    output: Seq<u8>,
    fuel: nat,
)
    requires
        0 <= h,
        0 <= j < n <= 251,
        0 <= val <= 255,
        h + n + 3 < t0.len(),
        fuel >= 255,
    ensures
        sem(parse(store_out_body()), outbound(t0, h, n, val, j, output), fuel) == Effect::Done(
            outbound(t0, h, n, val, j + 1, output),
        ),
{
    let c = outbound(t0, h, n, val, j, output);
    lemma_parse_out_body();
    lemma_out_shunt(t0, h, n, val, j, output, fuel);
    let x4 = parse(seq!['-']) + parse(tape_move(3, 2)) + parse(seq!['+']) + parse(
        tape_move(2, 0),
    );
    let b = h + j;
    let c4 = Cells {
        mp: b,
        tape: delivery_tape(t0, h, j, val, n - j - 1).update(b + 2, (j + 1) as u8),
        output,
    };
    lemma_then_carry(x4, 4, 0, c, fuel);
    let x5 = x4 + parse(carry(4, 0));
    let c5 = carried(c4, b, 4, 0);
    lemma_then_carry(x5, 3, 4, c, fuel);
    let x6 = x5 + parse(carry(3, 4));
    let c6 = carried(c5, b, 3, 4);
    lemma_then_carry(x6, 2, 3, c, fuel);
    let x7 = x6 + parse(carry(2, 3));
    let c7 = carried(c6, b, 2, 3);
    lemma_then_carry(x7, 1, 2, c, fuel);
    let x8 = x7 + parse(carry(1, 2));
    let c8 = carried(c7, b, 1, 2);
    assert(sem(x8, c, fuel) == Effect::Done(c8));
    lemma_then_go(x8, 0, 4, c, fuel);
    assert(c8.tape =~= delivery_tape(t0, h, j + 1, val, n - j - 1));
}

/// The run away from the station: after `n` steps the pointer copy is 0.
pub proof fn lemma_out_rounds(
    t0: Seq<u8>,
    h: int,
    n: int,
    val: int,
    j: int,
    output: Seq<u8>,
    fuel: nat,
)
    requires
        0 <= h,
        0 <= j <= n <= 251,
        0 <= val <= 255,
        h + n + 3 < t0.len(),
        fuel >= 256 + (n - j),
    ensures
        iterate(parse(store_out_body()), outbound(t0, h, n, val, j, output), fuel) == Effect::Done(
            outbound(t0, h, n, val, n, output),
        ),
    decreases n - j,
{
    let c = outbound(t0, h, n, val, j, output);
    assert(c.cell() == (n - j) as u8);
    if j < n {
        let f = (fuel - 1) as nat;
        lemma_out_step(t0, h, n, val, j, output, f);
        lemma_out_rounds(t0, h, n, val, j + 1, output, f);
    }
}

/// The step back to the station as operations.
pub proof fn lemma_parse_home_body()
    ensures
        parse(store_home_body()) == parse(seq!['-']) + parse(tape_move(2, 0)) + parse(carry(2, 1))
            + parse(tape_move(1, 0)) + parse(carry(0, 4)) + parse(tape_move(0, 2)),
        balanced(parse(store_home_body())),
{
    let t1 = seq!['-'];
    let t2 = t1 + tape_move(2, 0);
    let t3 = t2 + carry(2, 1);
    let t4 = t3 + tape_move(1, 0);
    let t5 = t4 + carry(0, 4);
    let t6 = t5 + tape_move(0, 2);
    assert(store_home_body() == t6);
    lemma_parse_join(t5, tape_move(0, 2));
    lemma_parse_join(t4, carry(0, 4));
    lemma_parse_join(t3, tape_move(1, 0));
    lemma_parse_join(t2, carry(2, 1));
    lemma_parse_join(t1, tape_move(2, 0));
    let e = Seq::<COps>::empty();
    assert(sign_char(false) == '-');
    lemma_sign_balanced(e, false);
    assert(e + parse(t1) =~= parse(t1));
    lemma_go_balanced(parse(t1), 2, 0);
    lemma_carry_balanced(parse(t2), 2, 1);
    lemma_go_balanced(parse(t3), 1, 0);
    lemma_carry_balanced(parse(t4), 0, 4);
    lemma_go_balanced(parse(t5), 0, 2);
}

/// One step back to the station.
pub proof fn lemma_home_step(t0: Seq<u8>, h: int, j: int, output: Seq<u8>, fuel: nat)
    requires
        0 <= h,
        1 <= j <= 251,
        h + j + 3 < t0.len(),
        fuel >= 255,
    ensures
        sem(parse(store_home_body()), inbound(t0, h, j, output), fuel) == Effect::Done(
            inbound(t0, h, j - 1, output),
        ),
{
    let c = inbound(t0, h, j, output);
    lemma_parse_home_body();
    let e = Seq::<COps>::empty();
    assert(sem(e, c, fuel) == Effect::Done(c));
    assert(sign_char(false) == '-');
    lemma_then_sign(e, false, c, fuel);
    let x1 = parse(seq!['-']);
    assert(e + x1 =~= x1);
    let c1 = put(c, j - 1);
    assert(sem(x1, c, fuel) == Effect::Done(c1));
    lemma_then_go(x1, 2, 0, c, fuel);
    let x2 = x1 + parse(tape_move(2, 0));
    let c2 = moved(c1, -2);
    let b = h + j;
    lemma_then_carry(x2, 2, 1, c, fuel);
    let x3 = x2 + parse(carry(2, 1));
    let c3 = carried(c2, b, 2, 1);
    lemma_then_go(x3, 1, 0, c, fuel);
    let x4 = x3 + parse(tape_move(1, 0));
    let c4 = moved(c3, -1);
    lemma_then_carry(x4, 0, 4, c, fuel);
    let x5 = x4 + parse(carry(0, 4));
    let c5 = carried(c4, b - 1, 0, 4);
    assert(sem(x5, c, fuel) == Effect::Done(c5));
    lemma_then_go(x5, 0, 2, c, fuel);
    assert(c5.tape =~= delivery_tape(t0, h, j - 1, 0, 0));
}

/// The run back to the station: after `j` steps the return counter is 0.
pub proof fn lemma_home_rounds(t0: Seq<u8>, h: int, j: int, output: Seq<u8>, fuel: nat)
    requires
        0 <= h,
        0 <= j <= 251,
        h + j + 3 < t0.len(),
        fuel >= 256 + j,
    ensures
        iterate(parse(store_home_body()), inbound(t0, h, j, output), fuel) == Effect::Done(
            inbound(t0, h, 0, output),
        ),
    decreases j,
{
    let c = inbound(t0, h, j, output);
    assert(c.cell() == j as u8);
    if j > 0 {
        let f = (fuel - 1) as nat;
        lemma_home_step(t0, h, j, output, f);
        lemma_home_rounds(t0, h, j - 1, output, f);
    }
}

/// The train's departure is balanced code.
pub proof fn lemma_depart_balanced(v: nat, p: nat)
    ensures
        parse(store_depart(v, p)) == parse(carry2(p, 2, 3)) + parse(carry(2, p)) + parse(
            at_cell(3, repeated('-', 4)),
        ) + parse(carry(v, 1)),
        balanced(parse(carry2(p, 2, 3))),
        balanced(parse(store_depart(v, p))),
{
    let t1 = carry2(p, 2, 3);
    let t2 = t1 + carry(2, p);
    let t3 = t2 + at_cell(3, repeated('-', 4));
    let t4 = t3 + carry(v, 1);
    assert(store_depart(v, p) == t4);
    lemma_parse_join(t3, carry(v, 1));
    lemma_parse_join(t2, at_cell(3, repeated('-', 4)));
    lemma_parse_join(t1, carry(2, p));
    let e = Seq::<COps>::empty();
    lemma_carry2_balanced(e, p, 2, 3);
    assert(e + parse(t1) =~= parse(t1));
    lemma_carry_balanced(parse(t1), 2, p);
    lemma_count_balanced(parse(t2), 3, 4);
    lemma_carry_balanced(parse(t3), v, 1);
}

/// Counting a cell down and coming back, behind balanced code, is balanced
/// code.
pub proof fn lemma_count_balanced(x: Seq<COps>, cell: nat, n: nat)
    requires
        balanced(x),
    ensures
        balanced(x + parse(at_cell(cell, repeated('-', n)))),
{
    lemma_parse_join(tape_move(0, cell) + repeated('-', n), tape_move(cell, 0));
    lemma_parse_join(tape_move(0, cell), repeated('-', n));
    lemma_parse_move(0, cell);
    lemma_parse_move(cell, 0);
    crate::reasoning::lemma_parse_repeated('-', n);
    crate::effects::lemma_mv_plain(0, cell);
    crate::effects::lemma_mv_plain(cell, 0);
    crate::reasoning::lemma_line_balanced(x, parse(at_cell(cell, repeated('-', n))));
}

/// The train's departure: the pointer, less four, stands in cell 3, the
/// value in cell 1, and cell 2 is 0.
pub proof fn lemma_depart_alone(v: nat, p: nat, c: Cells, fuel: nat)
    requires
        p >= 4,
        v >= 4,
        v != p,
        0 <= c.mp,
        c.mp + p < c.tape.len(),
        c.mp + v < c.tape.len(),
        c.tape[c.mp + p] >= 4,
        fuel >= 255,
    ensures
        sem(parse(store_depart(v, p)), c, fuel) == Effect::Done(
            with_cell(
                with_cell(
                    with_cell(
                        with_cell(c, c.mp + 1, c.tape[c.mp + v] as int),
                        c.mp + 2,
                        0,
                    ),
                    c.mp + 3,
                    c.tape[c.mp + p] - 4,
                ),
                c.mp + v,
                0,
            ),
        ),
{
    let h = c.mp;
    lemma_depart_balanced(v, p);
    lemma_carry2_alone(p, 2, 3, c, fuel);
    let x1 = parse(carry2(p, 2, 3));
    let c1 = carried2(c, h, p, 2, 3);
    lemma_then_carry(x1, 2, p, c, fuel);
    let x2 = x1 + parse(carry(2, p));
    let c2 = carried(c1, h, 2, p);
    lemma_then_count_down(x2, 3, 4, c, fuel);
    let x3 = x2 + parse(at_cell(3, repeated('-', 4)));
    let c3 = with_cell(c2, h + 3, c2.tape[h + 3] - 4);
    assert(sem(x3, c, fuel) == Effect::Done(c3));
    lemma_then_carry(x3, v, 1, c, fuel);
    let c4 = carried(c3, h, v, 1);
    let want = with_cell(
        with_cell(
            with_cell(with_cell(c, h + 1, c.tape[h + v] as int), h + 2, 0),
            h + 3,
            c.tape[h + p] - 4,
        ),
        h + v,
        0,
    );
    assert(c4.tape =~= want.tape);
}

/// The run out to the cell is balanced code.
pub proof fn lemma_outward_balanced()
    ensures
        parse(store_outward()) == parse(tape_move(0, 3)) + parse(looped(store_out_body())) + parse(
            tape_move(3, 0),
        ) + parse(carry(1, 4)),
        balanced(parse(store_outward())),
{
    let t1 = tape_move(0, 3);
    let t2 = t1 + looped(store_out_body());
    let t3 = t2 + tape_move(3, 0);
    let t4 = t3 + carry(1, 4);
    assert(store_outward() == t4);
    lemma_parse_join(t3, carry(1, 4));
    lemma_parse_join(t2, tape_move(3, 0));
    lemma_parse_join(t1, looped(store_out_body()));
    lemma_parse_out_body();
    let e = Seq::<COps>::empty();
    assert(balanced(e));
    lemma_go_balanced(e, 0, 3);
    assert(e + parse(t1) =~= parse(t1));
    lemma_looped_balanced(parse(t1), store_out_body());
    lemma_go_balanced(parse(t2), 3, 0);
    lemma_carry_balanced(parse(t3), 1, 4);
}

/// The run out to the cell: the station comes to stand `n` cells away, and
/// the cell in front of it holds the value.
pub proof fn lemma_outward_alone(
    t0: Seq<u8>,
    h: int,
    n: int,
    val: int,
    output: Seq<u8>,
    fuel: nat,
)
    requires
        0 <= h,
        0 <= n <= 251,
        0 <= val <= 255,
        h + n + 4 < t0.len(),
        fuel >= 600,
    ensures
        sem(
            parse(store_outward()),
            Cells { mp: h, tape: delivery_tape(t0, h, 0, val, n), output },
            fuel,
        ) == Effect::Done(
            Cells {
                mp: h + n,
                tape: delivery_tape(t0.update(h + n + 4, val as u8), h, n, 0, 0),
                output,
            },
        ),
{
    let c = Cells { mp: h, tape: delivery_tape(t0, h, 0, val, n), output };
    lemma_outward_balanced();
    lemma_parse_out_body();
    let e = Seq::<COps>::empty();
    assert(sem(e, c, fuel) == Effect::Done(c));
    lemma_then_go(e, 0, 3, c, fuel);
    let x1 = parse(tape_move(0, 3));
    assert(e + x1 =~= x1);
    assert(sem(x1, c, fuel) == Effect::Done(outbound(t0, h, n, val, 0, output)));
    lemma_then_looped(x1, store_out_body(), c, fuel);
    lemma_out_rounds(t0, h, n, val, 0, output, fuel);
    let x2 = x1 + parse(looped(store_out_body()));
    assert(sem(x2, c, fuel) == Effect::Done(outbound(t0, h, n, val, n, output)));
    lemma_then_go(x2, 3, 0, c, fuel);
    let x3 = x2 + parse(tape_move(3, 0));
    let c3 = moved(outbound(t0, h, n, val, n, output), -3);
    lemma_then_carry(x3, 1, 4, c, fuel);
    let c4 = carried(c3, h + n, 1, 4);
    assert(c4.tape =~= delivery_tape(t0.update(h + n + 4, val as u8), h, n, 0, 0));
}

/// The run back to the station is balanced code.
pub proof fn lemma_homeward_balanced()
    ensures
        parse(store_homeward()) == parse(tape_move(0, 2)) + parse(looped(store_home_body()))
            + parse(tape_move(2, 0)),
        balanced(parse(store_homeward())),
{
    let t1 = tape_move(0, 2);
    let t2 = t1 + looped(store_home_body());
    let t3 = t2 + tape_move(2, 0);
    assert(store_homeward() == t3);
    lemma_parse_join(t2, tape_move(2, 0));
    lemma_parse_join(t1, looped(store_home_body()));
    lemma_parse_home_body();
    let e = Seq::<COps>::empty();
    assert(balanced(e));
    lemma_go_balanced(e, 0, 2);
    assert(e + parse(t1) =~= parse(t1));
    lemma_looped_balanced(parse(t1), store_home_body());
    lemma_go_balanced(parse(t2), 2, 0);
}

/// The run back to the station: the tape is as it was when the train left,
/// and the station is 0 in all four cells.
pub proof fn lemma_homeward_alone(t0: Seq<u8>, h: int, n: int, output: Seq<u8>, fuel: nat)
    requires
        0 <= h,
        0 <= n <= 251,
        h + n + 3 < t0.len(),
        fuel >= 600,
    ensures
        sem(
            parse(store_homeward()),
            Cells { mp: h + n, tape: delivery_tape(t0, h, n, 0, 0), output },
            fuel,
        ) == Effect::Done(Cells { mp: h, tape: delivery_tape(t0, h, 0, 0, 0), output }),
{
    let c = Cells { mp: h + n, tape: delivery_tape(t0, h, n, 0, 0), output };
    lemma_homeward_balanced();
    lemma_parse_home_body();
    let e = Seq::<COps>::empty();
    assert(sem(e, c, fuel) == Effect::Done(c));
    lemma_then_go(e, 0, 2, c, fuel);
    let x1 = parse(tape_move(0, 2));
    assert(e + x1 =~= x1);
    assert(sem(x1, c, fuel) == Effect::Done(inbound(t0, h, n, output)));
    lemma_then_looped(x1, store_home_body(), c, fuel);
    lemma_home_rounds(t0, h, n, output, fuel);
    let x2 = x1 + parse(looped(store_home_body()));
    assert(sem(x2, c, fuel) == Effect::Done(inbound(t0, h, 0, output)));
    lemma_then_go(x2, 2, 0, c, fuel);
}

/// The cells after the store train: the cell whose number stands in `p`
/// holds what `v` held, and `v` is 0.
pub open spec fn delivered(c: Cells, v: nat, p: nat) -> Cells {
    with_cell(
        with_cell(c, c.mp + v, 0),
        c.mp + c.tape[c.mp + p],
        c.tape[c.mp + v] as int,
    )
}

/// The store train: with the four cells of the station free, the value in
/// `v` is written to the cell whose number stands in `p`; `v` ends as 0, and
/// nothing else changes.
pub proof fn lemma_store_alone(v: nat, p: nat, c: Cells, fuel: nat)
    requires
        p >= 4,
        v >= 4,
        v != p,
        0 <= c.mp,
        c.mp + p < c.tape.len(),
        c.mp + v < c.tape.len(),
        4 <= c.tape[c.mp + p],
        c.mp + c.tape[c.mp + p] < c.tape.len(),
        c.tape[c.mp] == 0,
        c.tape[c.mp + 1] == 0,
        c.tape[c.mp + 2] == 0,
        c.tape[c.mp + 3] == 0,
        fuel >= 600,
    ensures
        sem(parse(store_train(v, p)), c, fuel) == Effect::Done(delivered(c, v, p)),
        balanced(parse(store_train(v, p))),
{
    let h = c.mp;
    let n = c.tape[h + p] - 4;
    let val = c.tape[h + v] as int;
    lemma_parse_join(store_depart(v, p) + store_outward(), store_homeward());
    lemma_parse_join(store_depart(v, p), store_outward());
    lemma_depart_alone(v, p, c, fuel);
    lemma_depart_balanced(v, p);
    lemma_outward_balanced();
    lemma_homeward_balanced();
    let t0 = c.tape.update(h + v, 0);
    let x1 = parse(store_depart(v, p));
    let c1 = with_cell(
        with_cell(with_cell(with_cell(c, h + 1, val), h + 2, 0), h + 3, n),
        h + v,
        0,
    );
    assert(c1.tape =~= delivery_tape(t0, h, 0, val, n));
    lemma_sem_join(x1, parse(store_outward()), c, fuel);
    lemma_outward_alone(t0, h, n, val, c.output, fuel);
    let t1 = t0.update(h + n + 4, val as u8);
    let x2 = x1 + parse(store_outward());
    let c2 = Cells { mp: h + n, tape: delivery_tape(t1, h, n, 0, 0), output: c.output };
    assert(sem(x2, c, fuel) == Effect::Done(c2));
    lemma_sem_join(x2, parse(store_homeward()), c, fuel);
    lemma_homeward_alone(t1, h, n, c.output, fuel);
    assert(delivery_tape(t1, h, 0, 0, 0) =~= delivered(c, v, p).tape);
    lemma_join_balanced(x1, parse(store_outward()));
    lemma_join_balanced(x2, parse(store_homeward()));
}

} // verus!
