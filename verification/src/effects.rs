//! What the templates do to the cells, worked out from their text.
use vstd::prelude::*;
use crate::interp::{balanced, parse, COps};
use crate::reasoning::{
    lemma_line_balanced, lemma_loop_balanced, lemma_parse_join, lemma_parse_one,
    lemma_parse_repeated, lemma_plain_balanced, lemma_regroup, lemma_then_loop, lemma_then_moves,
    lemma_then_op, moved, put, run_of,
};
use crate::semantics::{act, iterate, sem, Cells, Effect};
use crate::tape::{clear_loop, drain, tape_move, test_cell};

verus! {

/// The moves that take the head from cell `from` to cell `to`.
pub open spec fn mv(from: nat, to: nat) -> Seq<COps> {
    if from > to {
        run_of(COps::Mov(-1i64), (from - to) as nat)
    } else {
        run_of(COps::Mov(1i64), (to - from) as nat)
    }
}

/// Head motion as operations.
pub proof fn lemma_parse_move(from: nat, to: nat)
    ensures
        parse(tape_move(from, to)) == mv(from, to),
{
    if from > to {
        lemma_parse_repeated('<', (from - to) as nat);
    } else {
        lemma_parse_repeated('>', (to - from) as nat);
    }
}

/// Moves behind some code take the head from cell `from` to cell `to`.
pub proof fn lemma_then_mv(x: Seq<COps>, from: nat, to: nat, c: Cells, fuel: nat)
    requires
        sem(x, c, fuel) is Done,
        (sem(x, c, fuel)->Done_0).valid(),
        0 <= (sem(x, c, fuel)->Done_0).mp - from + to < (sem(x, c, fuel)->Done_0).tape.len(),
    ensures
        sem(x + mv(from, to), c, fuel) == Effect::Done(moved(sem(x, c, fuel)->Done_0, to - from)),
{
    if from > to {
        lemma_then_moves(x, false, (from - to) as nat, c, fuel);
    } else {
        lemma_then_moves(x, true, (to - from) as nat, c, fuel);
    }
}

/// Moves are code without brackets.
pub proof fn lemma_mv_plain(from: nat, to: nat)
    ensures
        forall|i: int| 0 <= i < mv(from, to).len() ==> crate::interp::delta(#[trigger] mv(from, to)[i]) == 0,
{
}

/// The cells with cell `i` of the tape set to `v`.
pub open spec fn with_cell(c: Cells, i: int, v: int) -> Cells {
    Cells { tape: c.tape.update(i, v as u8), ..c }
}

// ---------------------------------------------------------------------------
// The clearing loop
// ---------------------------------------------------------------------------

/// The body of the clearing loop.
pub open spec fn clear_body() -> Seq<COps> {
    seq![COps::Add(-1i32)]
}

/// The clearing loop as operations.
pub proof fn lemma_parse_clear()
    ensures
        parse(clear_loop()) == seq![COps::JmpIfZ(0)] + clear_body() + seq![COps::JmpIfNZ(0)],
        balanced(clear_body()),
{
    let text = clear_loop();
    assert(text =~= seq!['['] + seq!['-'] + seq![']']);
    lemma_parse_join(seq!['['] + seq!['-'], seq![']']);
    lemma_parse_join(seq!['['], seq!['-']);
    lemma_parse_one('[');
    lemma_parse_one('-');
    lemma_parse_one(']');
    lemma_plain_balanced(clear_body());
}

/// The clearing loop sets the cell under the head to 0.
pub proof fn lemma_clear_rounds(c: Cells, fuel: nat)
    requires
        c.valid(),
        fuel >= c.cell(),
    ensures
        iterate(clear_body(), c, fuel) == Effect::Done(put(c, 0)),
    decreases c.cell(),
{
    if c.cell() == 0 {
        assert(put(c, 0).tape =~= c.tape);
    } else {
        let f = (fuel - 1) as nat;
        assert(sem(Seq::<COps>::empty(), c, f) == Effect::Done(c));
        lemma_then_op(Seq::<COps>::empty(), COps::Add(-1i32), c, f);
        assert(Seq::<COps>::empty().push(COps::Add(-1i32)) =~= clear_body());
        let c1 = put(c, c.cell() - 1);
        assert(sem(clear_body(), c, f) == Effect::Done(c1));
        lemma_clear_rounds(c1, f);
        assert(put(c1, 0).tape =~= put(c, 0).tape);
    }
}

/// A clearing loop behind some code sets the cell under the head to 0.
pub proof fn lemma_then_clear(x: Seq<COps>, c: Cells, fuel: nat)
    requires
        sem(x, c, fuel) is Done,
        (sem(x, c, fuel)->Done_0).valid(),
        fuel >= 255,
    ensures
        sem(x + parse(clear_loop()), c, fuel) == Effect::Done(put(sem(x, c, fuel)->Done_0, 0)),
        balanced(x) ==> balanced(x + parse(clear_loop())),
{
    lemma_parse_clear();
    let c1 = sem(x, c, fuel)->Done_0;
    lemma_then_loop(x, clear_body(), c, fuel);
    lemma_clear_rounds(c1, fuel);
    assert(x + seq![COps::JmpIfZ(0)] + clear_body() + seq![COps::JmpIfNZ(0)] =~= x + parse(
        clear_loop(),
    ));
    if balanced(x) {
        lemma_loop_balanced(x, clear_body());
    }
}

// ---------------------------------------------------------------------------
// Draining one cell into another
// ---------------------------------------------------------------------------

/// The operation that a drain applies to its destination.
pub open spec fn sign_op(up: bool) -> COps {
    COps::Add(
        if up {
            1i32
        } else {
            -1i32
        },
    )
}

/// The character of that operation.
pub open spec fn sign_char(up: bool) -> char {
    if up {
        '+'
    } else {
        '-'
    }
}

/// The body of a draining loop: take one from `s`, apply the sign to `d`.
pub open spec fn drain_body(s: nat, d: nat, up: bool) -> Seq<COps> {
    seq![COps::Add(-1i32)] + mv(s, d) + seq![sign_op(up)] + mv(d, s)
}

/// A drain as operations.
pub proof fn lemma_parse_drain(s: nat, d: nat, up: bool)
    ensures
        parse(drain(s, d, sign_char(up))) == mv(0, s) + seq![COps::JmpIfZ(0)] + drain_body(s, d, up)
            + seq![COps::JmpIfNZ(0)] + mv(s, 0),
        balanced(drain_body(s, d, up)),
{
    let sign = sign_char(up);
    let t1 = tape_move(0, s);
    let t2 = t1 + seq!['[', '-'];
    let t3 = t2 + tape_move(s, d);
    let t4 = t3 + seq![sign];
    let t5 = t4 + tape_move(d, s);
    let t6 = t5 + seq![']'];
    let t7 = t6 + tape_move(s, 0);
    assert(drain(s, d, sign) == t7);
    lemma_parse_join(t6, tape_move(s, 0));
    lemma_parse_join(t5, seq![']']);
    lemma_parse_join(t4, tape_move(d, s));
    lemma_parse_join(t3, seq![sign]);
    lemma_parse_join(t2, tape_move(s, d));
    lemma_parse_join(t1, seq!['[', '-']);
    assert(seq!['[', '-'] =~= seq!['['] + seq!['-']);
    lemma_parse_join(seq!['['], seq!['-']);
    lemma_parse_one('[');
    lemma_parse_one('-');
    lemma_parse_one(']');
    lemma_parse_one(sign);
    lemma_parse_move(0, s);
    lemma_parse_move(s, d);
    lemma_parse_move(d, s);
    lemma_parse_move(s, 0);
    let open = seq![COps::JmpIfZ(0)];
    let take = seq![COps::Add(-1i32)];
    let give = seq![sign_op(up)];
    let close = seq![COps::JmpIfNZ(0)];
    assert(parse(t7) == mv(0, s) + (open + take) + mv(s, d) + give + mv(d, s) + close + mv(s, 0));
    let p = mv(0, s) + open;
    lemma_regroup(mv(0, s), open, take);
    lemma_regroup(p, take, mv(s, d));
    lemma_regroup(p, take + mv(s, d), give);
    lemma_regroup(p, take + mv(s, d) + give, mv(d, s));
    lemma_plain_balanced(drain_body(s, d, up));
}

/// The cells after one round of a drain whose frame starts at `h`.
pub open spec fn drained_once(c: Cells, h: int, s: nat, d: nat, up: bool) -> Cells {
    with_cell(
        with_cell(c, h + s, c.tape[h + s] - 1),
        h + d,
        c.tape[h + d] + if up {
            1int
        } else {
            -1int
        },
    )
}

/// One round of a drain.
pub proof fn lemma_drain_round(c: Cells, h: int, s: nat, d: nat, up: bool, fuel: nat)
    requires
        s != d,
        0 <= h,
        h + s < c.tape.len(),
        h + d < c.tape.len(),
        c.mp == h + s,
        c.tape[h + s] >= 1,
        up ==> c.tape[h + d] <= 254,
        !up ==> c.tape[h + d] >= 1,
    ensures
        sem(drain_body(s, d, up), c, fuel) == Effect::Done(drained_once(c, h, s, d, up)),
{
    let e = Seq::<COps>::empty();
    let x1 = e.push(COps::Add(-1i32));
    lemma_then_op(e, COps::Add(-1i32), c, fuel);
    let c1 = with_cell(c, h + s, c.tape[h + s] - 1);
    assert(sem(x1, c, fuel) == Effect::Done(c1));
    let x2 = x1 + mv(s, d);
    lemma_then_mv(x1, s, d, c, fuel);
    let c2 = moved(c1, d - s);
    let x3 = x2.push(sign_op(up));
    lemma_then_op(x2, sign_op(up), c, fuel);
    let c3 = Cells { mp: h + d, ..drained_once(c, h, s, d, up) };
    assert(act(sign_op(up), c2)->Ok_0.tape =~= c3.tape);
    assert(sem(x3, c, fuel) == Effect::Done(c3));
    let x4 = x3 + mv(d, s);
    lemma_then_mv(x3, d, s, c, fuel);
    assert(x4 =~= drain_body(s, d, up));
}

/// The cells after a drain whose frame starts at `h`.
pub open spec fn drained(c: Cells, h: int, s: nat, d: nat, up: bool) -> Cells {
    with_cell(
        with_cell(c, h + s, 0),
        h + d,
        if up {
            c.tape[h + d] + c.tape[h + s]
        } else {
            c.tape[h + d] - c.tape[h + s]
        },
    )
}

/// All rounds of a drain: the source is added to the destination, or taken
/// from it, and ends as 0.
pub proof fn lemma_drain_rounds(c: Cells, h: int, s: nat, d: nat, up: bool, fuel: nat)
    requires
        s != d,
        0 <= h,
        h + s < c.tape.len(),
        h + d < c.tape.len(),
        c.mp == h + s,
        up ==> c.tape[h + d] + c.tape[h + s] <= 255,
        !up ==> c.tape[h + d] - c.tape[h + s] >= 0,
        fuel >= c.tape[h + s],
    ensures
        iterate(drain_body(s, d, up), c, fuel) == Effect::Done(drained(c, h, s, d, up)),
    decreases c.tape[h + s],
{
    if c.tape[h + s] == 0 {
        assert(drained(c, h, s, d, up).tape =~= c.tape);
    } else {
        let f = (fuel - 1) as nat;
        lemma_drain_round(c, h, s, d, up, f);
        let c1 = drained_once(c, h, s, d, up);
        lemma_drain_rounds(c1, h, s, d, up, f);
        assert(drained(c1, h, s, d, up).tape =~= drained(c, h, s, d, up).tape);
    }
}

/// A drain behind some code: with the head on the first cell of the frame,
/// the source is added to the destination, or taken from it, and ends as 0;
/// the head is back where it was.
pub proof fn lemma_then_drain(x: Seq<COps>, s: nat, d: nat, up: bool, c: Cells, fuel: nat)
    requires
        sem(x, c, fuel) is Done,
        s != d,
        ({
            let c1 = sem(x, c, fuel)->Done_0;
            &&& 0 <= c1.mp
            &&& c1.mp + s < c1.tape.len()
            &&& c1.mp + d < c1.tape.len()
            &&& up ==> c1.tape[c1.mp + d] + c1.tape[c1.mp + s] <= 255
            &&& !up ==> c1.tape[c1.mp + d] - c1.tape[c1.mp + s] >= 0
        }),
        fuel >= 255,
    ensures
        sem(x + parse(drain(s, d, sign_char(up))), c, fuel) == Effect::Done(
            drained(sem(x, c, fuel)->Done_0, (sem(x, c, fuel)->Done_0).mp, s, d, up),
        ),
        balanced(x) ==> balanced(x + parse(drain(s, d, sign_char(up)))),
{
    let c1 = sem(x, c, fuel)->Done_0;
    let h = c1.mp;
    lemma_parse_drain(s, d, up);
    let body = drain_body(s, d, up);
    let x1 = x + mv(0, s);
    lemma_then_mv(x, 0, s, c, fuel);
    let c2 = moved(c1, s as int);
    lemma_then_loop(x1, body, c, fuel);
    lemma_drain_rounds(c2, h, s, d, up, fuel);
    let x2 = x1 + seq![COps::JmpIfZ(0)] + body + seq![COps::JmpIfNZ(0)];
    let c3 = drained(c2, h, s, d, up);
    assert(sem(x2, c, fuel) == Effect::Done(c3));
    lemma_then_mv(x2, s, 0, c, fuel);
    assert(x2 + mv(s, 0) =~= x + parse(drain(s, d, sign_char(up))));
    assert(moved(c3, 0 - s) == drained(c1, h, s, d, up));
    if balanced(x) {
        lemma_mv_plain(0, s);
        lemma_mv_plain(s, 0);
        lemma_line_balanced(x, mv(0, s));
        lemma_loop_balanced(x1, body);
        lemma_line_balanced(x2, mv(s, 0));
    }
}

// ---------------------------------------------------------------------------
// Testing a cell
// ---------------------------------------------------------------------------

/// What a test writes into its destination before it looks at the source.
pub open spec fn flag_text(negate: bool) -> Seq<char> {
    if negate {
        seq!['+']
    } else {
        Seq::<char>::empty()
    }
}

/// The body of a test's loop: apply the sign to `d` once, clear `s`.
pub open spec fn test_body(s: nat, d: nat, negate: bool) -> Seq<COps> {
    mv(s, d) + seq![sign_op(!negate)] + mv(d, s) + parse(clear_loop())
}

/// The body of a test's loop is balanced.
pub proof fn lemma_test_body_balanced(s: nat, d: nat, negate: bool)
    ensures
        balanced(test_body(s, d, negate)),
{
    let line = mv(s, d) + seq![sign_op(!negate)] + mv(d, s);
    lemma_plain_balanced(line);
    lemma_parse_clear();
    lemma_loop_balanced(line, clear_body());
    assert(line + seq![COps::JmpIfZ(0)] + clear_body() + seq![COps::JmpIfNZ(0)] =~= test_body(
        s,
        d,
        negate,
    ));
}

/// A test as operations.
pub proof fn lemma_parse_test(s: nat, d: nat, negate: bool)
    ensures
        parse(test_cell(s, d, flag_text(negate), sign_char(!negate))) == mv(0, d) + parse(
            clear_loop(),
        ) + parse(flag_text(negate)) + mv(d, s) + seq![COps::JmpIfZ(0)] + test_body(s, d, negate)
            + seq![COps::JmpIfNZ(0)] + mv(s, 0),
{
    let sign = sign_char(!negate);
    let flag = flag_text(negate);
    let t1 = tape_move(0, d);
    let t2 = t1 + clear_loop();
    let t3 = t2 + flag;
    let t4 = t3 + tape_move(d, s);
    let t5 = t4 + seq!['['];
    let t6 = t5 + tape_move(s, d);
    let t7 = t6 + seq![sign];
    let t8 = t7 + tape_move(d, s);
    let t9 = t8 + clear_loop();
    let t10 = t9 + seq![']'];
    let t11 = t10 + tape_move(s, 0);
    assert(test_cell(s, d, flag, sign) == t11);
    lemma_parse_join(t10, tape_move(s, 0));
    lemma_parse_join(t9, seq![']']);
    lemma_parse_join(t8, clear_loop());
    lemma_parse_join(t7, tape_move(d, s));
    lemma_parse_join(t6, seq![sign]);
    lemma_parse_join(t5, tape_move(s, d));
    lemma_parse_join(t4, seq!['[']);
    lemma_parse_join(t3, tape_move(d, s));
    lemma_parse_join(t2, flag);
    lemma_parse_join(t1, clear_loop());
    lemma_parse_one('[');
    lemma_parse_one(']');
    lemma_parse_one(sign);
    lemma_parse_move(0, d);
    lemma_parse_move(d, s);
    lemma_parse_move(s, d);
    lemma_parse_move(s, 0);
    let open = seq![COps::JmpIfZ(0)];
    let give = seq![sign_op(!negate)];
    let close = seq![COps::JmpIfNZ(0)];
    let p = mv(0, d) + parse(clear_loop()) + parse(flag) + mv(d, s) + open;
    assert(parse(t11) == p + mv(s, d) + give + mv(d, s) + parse(clear_loop()) + close + mv(s, 0));
    lemma_regroup(p, mv(s, d), give);
    lemma_regroup(p, mv(s, d) + give, mv(d, s));
    lemma_regroup(p, mv(s, d) + give + mv(d, s), parse(clear_loop()));
}

/// The cells after a test whose frame starts at `h`: the destination says
/// whether the source was 0 (`negate`) or was not, and the source is 0.
pub open spec fn tested(c: Cells, h: int, s: nat, d: nat, negate: bool) -> Cells {
    with_cell(
        with_cell(c, h + s, 0),
        h + d,
        if (c.tape[h + s] == 0) == negate {
            1int
        } else {
            0int
        },
    )
}

/// The one round of a test's loop, entered with the flag in the destination
/// and a source that is not 0.
pub proof fn lemma_test_round(c: Cells, h: int, s: nat, d: nat, negate: bool, fuel: nat)
    requires
        s != d,
        0 <= h,
        h + s < c.tape.len(),
        h + d < c.tape.len(),
        c.mp == h + s,
        c.tape[h + d] == if negate {
            1int
        } else {
            0int
        },
        fuel >= 255,
    ensures
        sem(test_body(s, d, negate), c, fuel) == Effect::Done(
            with_cell(
                with_cell(
                    c,
                    h + d,
                    if negate {
                        0int
                    } else {
                        1int
                    },
                ),
                h + s,
                0,
            ),
        ),
{
    let e = Seq::<COps>::empty();
    let x1 = e + mv(s, d);
    lemma_then_mv(e, s, d, c, fuel);
    let c1 = moved(c, d - s);
    let x2 = x1.push(sign_op(!negate));
    lemma_then_op(x1, sign_op(!negate), c, fuel);
    let c2 = Cells {
        mp: h + d,
        ..with_cell(
            c,
            h + d,
            if negate {
                0int
            } else {
                1int
            },
        )
    };
    assert(act(sign_op(!negate), c1)->Ok_0.tape =~= c2.tape);
    assert(sem(x2, c, fuel) == Effect::Done(c2));
    let x3 = x2 + mv(d, s);
    lemma_then_mv(x2, d, s, c, fuel);
    let c3 = moved(c2, s - d);
    lemma_then_clear(x3, c, fuel);
    assert(x3 + parse(clear_loop()) =~= test_body(s, d, negate));
}

/// The code that a test starts with: go to the destination, clear it, write
/// the flag, go to the source.
pub open spec fn test_setup(s: nat, d: nat, negate: bool) -> Seq<COps> {
    mv(0, d) + parse(clear_loop()) + parse(flag_text(negate)) + mv(d, s)
}

/// The flag as a number.
pub open spec fn flag_value(negate: bool) -> int {
    if negate {
        1
    } else {
        0
    }
}

/// The start of a test behind some code: the destination holds the flag, and
/// the head is on the source.
pub proof fn lemma_then_test_setup(x: Seq<COps>, s: nat, d: nat, negate: bool, c: Cells, fuel: nat)
    requires
        sem(x, c, fuel) is Done,
        s != d,
        ({
            let c1 = sem(x, c, fuel)->Done_0;
            &&& 0 <= c1.mp
            &&& c1.mp + s < c1.tape.len()
            &&& c1.mp + d < c1.tape.len()
        }),
        fuel >= 255,
    ensures
        sem(x + test_setup(s, d, negate), c, fuel) == Effect::Done(
            moved(
                with_cell(
                    sem(x, c, fuel)->Done_0,
                    (sem(x, c, fuel)->Done_0).mp + d,
                    flag_value(negate),
                ),
                s as int,
            ),
        ),
        balanced(x) ==> balanced(x + test_setup(s, d, negate)),
{
    let c1 = sem(x, c, fuel)->Done_0;
    let h = c1.mp;
    lemma_mv_plain(0, d);
    lemma_mv_plain(d, s);
    let x1 = x + mv(0, d);
    lemma_then_mv(x, 0, d, c, fuel);
    let x2 = x1 + parse(clear_loop());
    lemma_then_clear(x1, c, fuel);
    let c2 = Cells { mp: h + d, ..with_cell(c1, h + d, 0) };
    assert(sem(x2, c, fuel) == Effect::Done(c2));
    let x3 = x2 + parse(flag_text(negate));
    let c3 = Cells { mp: h + d, ..with_cell(c1, h + d, flag_value(negate)) };
    if negate {
        lemma_parse_one('+');
        assert(x2.push(COps::Add(1i32)) =~= x3);
        lemma_then_op(x2, COps::Add(1i32), c, fuel);
        assert(act(COps::Add(1i32), c2)->Ok_0.tape =~= c3.tape);
    } else {
        assert(parse(flag_text(negate)) =~= Seq::<COps>::empty());
        assert(x3 =~= x2);
    }
    assert(sem(x3, c, fuel) == Effect::Done(c3));
    lemma_then_mv(x3, d, s, c, fuel);
    assert(x3 + mv(d, s) =~= x + test_setup(s, d, negate));
    if balanced(x) {
        lemma_line_balanced(x, mv(0, d));
        lemma_line_balanced(x2, parse(flag_text(negate)));
        lemma_line_balanced(x3, mv(d, s));
    }
}

/// The loop of a test, entered with the flag in the destination and the head
/// on the source.
pub proof fn lemma_test_rounds(c: Cells, h: int, s: nat, d: nat, negate: bool, fuel: nat)
    requires
        s != d,
        0 <= h,
        h + s < c.tape.len(),
        h + d < c.tape.len(),
        c.mp == h + s,
        c.tape[h + d] == flag_value(negate),
        fuel >= 256,
    ensures
        iterate(test_body(s, d, negate), c, fuel) == Effect::Done(
            moved(tested(moved(c, 0 - s), h, s, d, negate), s as int),
        ),
{
    let body = test_body(s, d, negate);
    let want = moved(tested(moved(c, 0 - s), h, s, d, negate), s as int);
    if c.cell() == 0 {
        assert(want.tape =~= c.tape);
    } else {
        let f = (fuel - 1) as nat;
        lemma_test_round(c, h, s, d, negate, f);
        let after = sem(body, c, f)->Done_0;
        assert(after.cell() == 0);
        assert(iterate(body, after, f) == Effect::Done(after));
        assert(after.tape =~= want.tape);
    }
}

/// A test behind some code: with the head on the first cell of the frame,
/// the destination comes to say whether the source was 0 (`negate`) or was
/// not, and the source ends as 0; the head is back where it was.
pub proof fn lemma_then_test(x: Seq<COps>, s: nat, d: nat, negate: bool, c: Cells, fuel: nat)
    requires
        sem(x, c, fuel) is Done,
        s != d,
        ({
            let c1 = sem(x, c, fuel)->Done_0;
            &&& 0 <= c1.mp
            &&& c1.mp + s < c1.tape.len()
            &&& c1.mp + d < c1.tape.len()
        }),
        fuel >= 256,
    ensures
        sem(x + parse(test_cell(s, d, flag_text(negate), sign_char(!negate))), c, fuel)
            == Effect::Done(
            tested(sem(x, c, fuel)->Done_0, (sem(x, c, fuel)->Done_0).mp, s, d, negate),
        ),
        balanced(x) ==> balanced(
            x + parse(test_cell(s, d, flag_text(negate), sign_char(!negate))),
        ),
{
    let c1 = sem(x, c, fuel)->Done_0;
    let h = c1.mp;
    lemma_parse_test(s, d, negate);
    lemma_test_body_balanced(s, d, negate);
    lemma_mv_plain(s, 0);
    let body = test_body(s, d, negate);
    let x4 = x + test_setup(s, d, negate);
    lemma_then_test_setup(x, s, d, negate, c, fuel);
    let c4 = moved(with_cell(c1, h + d, flag_value(negate)), s as int);
    lemma_then_loop(x4, body, c, fuel);
    lemma_test_rounds(c4, h, s, d, negate, fuel);
    let x5 = x4 + seq![COps::JmpIfZ(0)] + body + seq![COps::JmpIfNZ(0)];
    let c5 = moved(tested(moved(c4, 0 - s), h, s, d, negate), s as int);
    assert(sem(x5, c, fuel) == Effect::Done(c5));
    lemma_then_mv(x5, s, 0, c, fuel);
    assert(x5 + mv(s, 0) =~= x + parse(
        test_cell(s, d, flag_text(negate), sign_char(!negate)),
    ));
    assert(moved(c5, 0 - s).tape =~= tested(c1, h, s, d, negate).tape);
    if balanced(x) {
        lemma_loop_balanced(x4, body);
        lemma_line_balanced(x5, mv(s, 0));
    }
}

} // verus!
