//! The table of templates: what each template does to the cells, and the law
//! that the interpreter, run on a template's text, does just that.
use vstd::prelude::*;
use crate::delivery::{delivered, lemma_store_alone};
use crate::effects::{
    drained, flag_text, lemma_mv_plain, lemma_parse_clear, lemma_parse_move, lemma_then_clear,
    lemma_then_drain, lemma_then_mv, lemma_then_test, mv, sign_char, tested, with_cell,
};
use crate::fusion::{lemma_fuse_balanced, lemma_fused_sem};
use crate::interp::{balanced, fuse, parse, resolved, run, COps};
use crate::reasoning::{
    lemma_join_balanced, lemma_line_balanced, lemma_loop_balanced, lemma_parse_join,
    lemma_parse_one, lemma_parse_repeated, lemma_plain_balanced, lemma_regroup, lemma_sem_join,
    lemma_then_adds, lemma_then_loop, lemma_then_op, moved, put, run_of,
};
use crate::semantics::{at, cells_of, lemma_structure_to_run, sem, Cells, Effect};
use crate::tape::{at_cell, carry, carry2, clear_loop, drain, drain2, tape_move, template, test_cell, Op};
use crate::text::repeated;
use crate::trains::{
    carried, carried2, drain2_body, drained2, lemma_carry2_alone, lemma_carry2_balanced,
    lemma_carry_balanced, lemma_drain2_rounds, lemma_load_alone, lemma_then_carry, lemma_then_go,
};

verus! {

/// The cell `k` of the frame that starts under the head.
pub open spec fn cell(c: Cells, k: usize) -> int {
    c.tape[c.mp + k] as int
}

/// The cell `k` of the frame lies on the tape.
pub open spec fn in_frame(c: Cells, k: usize) -> bool {
    c.mp + k < c.tape.len()
}

/// The first `n` cells of the frame, the train station, are 0.
pub open spec fn station_free(c: Cells, n: int) -> bool {
    &&& c.tape[c.mp] == 0
    &&& c.tape[c.mp + 1] == 0
    &&& c.tape[c.mp + 2] == 0
    &&& n > 3 ==> c.tape[c.mp + 3] == 0
}

/// A template can be run on these cells without a fault: its cells lie on the
/// tape and are distinct, and no cell leaves the range of a byte.
pub open spec fn defined(op: Op, c: Cells) -> bool {
    &&& c.valid()
    &&& match op {
        Op::LoadInd(p, d) => {
            &&& p >= 3
            &&& d >= 3
            &&& in_frame(c, p)
            &&& in_frame(c, d)
            &&& cell(c, p) >= 3
            &&& c.mp + cell(c, p) < c.tape.len()
            &&& station_free(c, 3)
        },
        Op::StoreInd(v, p) => {
            &&& p >= 4
            &&& v >= 4
            &&& v != p
            &&& in_frame(c, p)
            &&& in_frame(c, v)
            &&& cell(c, p) >= 4
            &&& c.mp + cell(c, p) < c.tape.len()
            &&& station_free(c, 4)
        },
        Op::ClearImm(d) => in_frame(c, d),
        Op::StoreImm(v, d) => in_frame(c, d),
        Op::StoreAddr(a, d) => in_frame(c, d) && a <= 255,
        Op::Move(s, d) => s != d && in_frame(c, s) && in_frame(c, d) && cell(c, d) + cell(c, s)
            <= 255,
        Op::Move2(s, d1, d2) => {
            &&& s != d1
            &&& s != d2
            &&& d1 != d2
            &&& in_frame(c, s)
            &&& in_frame(c, d1)
            &&& in_frame(c, d2)
            &&& cell(c, d1) + cell(c, s) <= 255
            &&& cell(c, d2) + cell(c, s) <= 255
        },
        Op::Copy(s, d, t) => {
            &&& s != d
            &&& s != t
            &&& d != t
            &&& in_frame(c, s)
            &&& in_frame(c, d)
            &&& in_frame(c, t)
        },
        Op::Add(s, d) => s != d && in_frame(c, s) && in_frame(c, d) && cell(c, d) + cell(c, s)
            <= 255,
        Op::Sub(s, d) => s != d && in_frame(c, s) && in_frame(c, d) && cell(c, d) - cell(c, s)
            >= 0,
        Op::AddImm(v, d) => in_frame(c, d) && cell(c, d) + v <= 255,
        Op::SubImm(v, d) => in_frame(c, d) && cell(c, d) - v >= 0,
        Op::Not(s, d) => s != d && in_frame(c, s) && in_frame(c, d),
        Op::Bitcast(s, d) => s != d && in_frame(c, s) && in_frame(c, d),
        Op::Ret(a) => in_frame(c, a) && cell(c, a) >= 1,
        Op::Putc(a) => in_frame(c, a),
        Op::Getc(a) => false,
        Op::Branch(a) => in_frame(c, a),
        Op::Cond(x, t, f) => {
            &&& x != t
            &&& x != f
            &&& t != f
            &&& in_frame(c, x)
            &&& in_frame(c, t)
            &&& in_frame(c, f)
        },
    }
}

/// What a template does to the cells. The head ends where it started.
pub open spec fn effect(op: Op, c: Cells) -> Cells {
    let h = c.mp;
    match op {
        Op::LoadInd(p, d) => with_cell(c, h + d, c.tape[h + cell(c, p)] as int),
        Op::StoreInd(v, p) => delivered(c, v as nat, p as nat),
        Op::ClearImm(d) => with_cell(c, h + d, 0),
        Op::StoreImm(v, d) => with_cell(c, h + d, v as int),
        Op::StoreAddr(a, d) => with_cell(c, h + d, a as int),
        Op::Move(s, d) => drained(c, h, s as nat, d as nat, true),
        Op::Move2(s, d1, d2) => drained2(c, h, s as nat, d1 as nat, d2 as nat),
        Op::Copy(s, d, t) => with_cell(with_cell(c, h + d, cell(c, s)), h + t, 0),
        Op::Add(s, d) => drained(c, h, s as nat, d as nat, true),
        Op::Sub(s, d) => drained(c, h, s as nat, d as nat, false),
        Op::AddImm(v, d) => with_cell(c, h + d, cell(c, d) + v),
        Op::SubImm(v, d) => with_cell(c, h + d, cell(c, d) - v),
        Op::Not(s, d) => tested(c, h, s as nat, d as nat, true),
        Op::Bitcast(s, d) => tested(c, h, s as nat, d as nat, false),
        Op::Ret(a) => with_cell(c, h + a, cell(c, a) - 1),
        Op::Putc(a) => Cells { output: c.output.push(c.tape[h + a]), ..c },
        Op::Getc(a) => c,
        Op::Branch(a) => with_cell(c, h + a, 1),
        Op::Cond(x, t, f) => with_cell(
            with_cell(with_cell(c, h + t, cell(c, x)), h + x, 0),
            h + f,
            if cell(c, x) == 0 {
                1int
            } else {
                0int
            },
        ),
    }
}

/// Code that runs on another cell of the frame and comes back.
pub proof fn lemma_at_cell(k: nat, body: Seq<char>, c: Cells, fuel: nat)
    requires
        0 <= c.mp,
        c.mp + k < c.tape.len(),
        balanced(parse(body)),
        sem(parse(body), moved(c, k as int), fuel) is Done,
        (sem(parse(body), moved(c, k as int), fuel)->Done_0).mp == c.mp + k,
        (sem(parse(body), moved(c, k as int), fuel)->Done_0).tape.len() == c.tape.len(),
    ensures
        sem(parse(at_cell(k, body)), c, fuel) == Effect::Done(
            moved(sem(parse(body), moved(c, k as int), fuel)->Done_0, -(k as int)),
        ),
        balanced(parse(at_cell(k, body))),
{
    lemma_parse_join(tape_move(0, k) + body, tape_move(k, 0));
    lemma_parse_join(tape_move(0, k), body);
    let e = Seq::<COps>::empty();
    assert(sem(e, c, fuel) == Effect::Done(c));
    assert(balanced(e));
    lemma_then_go(e, 0, k, c, fuel);
    let x1 = parse(tape_move(0, k));
    assert(e + x1 =~= x1);
    lemma_sem_join(x1, parse(body), c, fuel);
    let x2 = x1 + parse(body);
    lemma_then_go(x2, k, 0, c, fuel);
    crate::trains::lemma_go_balanced(e, 0, k);
    lemma_join_balanced(x1, parse(body));
    crate::trains::lemma_go_balanced(x2, k, 0);
}

/// Clearing the cell under the head and counting it up to `n`.
pub proof fn lemma_set_here(n: nat, c: Cells, fuel: nat)
    requires
        c.valid(),
        n <= 255,
        fuel >= 255,
    ensures
        sem(parse(clear_loop() + repeated('+', n)), c, fuel) == Effect::Done(put(c, n as int)),
        sem(parse(clear_loop()), c, fuel) == Effect::Done(put(c, 0)),
        balanced(parse(clear_loop() + repeated('+', n))),
        balanced(parse(clear_loop())),
{
    lemma_parse_join(clear_loop(), repeated('+', n));
    lemma_parse_repeated('+', n);
    lemma_parse_clear();
    let e = Seq::<COps>::empty();
    assert(sem(e, c, fuel) == Effect::Done(c));
    assert(balanced(e));
    lemma_then_clear(e, c, fuel);
    let x1 = parse(clear_loop());
    assert(e + x1 =~= x1);
    let up = run_of(COps::Add(1i32), n);
    lemma_then_adds(x1, true, n, c, fuel);
    assert(put(put(c, 0), put(c, 0).cell() + n).tape =~= put(c, n as int).tape);
    lemma_line_balanced(x1, up);
}

/// Counting the cell under the head up or down by `n`.
pub proof fn lemma_count_here(up: bool, n: nat, c: Cells, fuel: nat)
    requires
        c.valid(),
        up ==> c.cell() + n <= 255,
        !up ==> c.cell() - n >= 0,
    ensures
        sem(parse(repeated(sign_char(up), n)), c, fuel) == Effect::Done(
            put(
                c,
                c.cell() + if up {
                    n as int
                } else {
                    -(n as int)
                },
            ),
        ),
        balanced(parse(repeated(sign_char(up), n))),
{
    lemma_parse_repeated(sign_char(up), n);
    let e = Seq::<COps>::empty();
    assert(sem(e, c, fuel) == Effect::Done(c));
    lemma_then_adds(e, up, n, c, fuel);
    let line = run_of(
        COps::Add(
            if up {
                1i32
            } else {
                -1i32
            },
        ),
        n,
    );
    assert(e + line =~= line);
    lemma_plain_balanced(line);
}

/// Printing the cell under the head.
pub proof fn lemma_print_here(c: Cells, fuel: nat)
    ensures
        sem(parse(seq!['.']), c, fuel) == Effect::Done(
            Cells { output: c.output.push(c.cell()), ..c },
        ),
        balanced(parse(seq!['.'])),
{
    lemma_parse_one('.');
    let e = Seq::<COps>::empty();
    assert(sem(e, c, fuel) == Effect::Done(c));
    lemma_then_op(e, COps::Putchar, c, fuel);
    assert(e.push(COps::Putchar) =~= seq![COps::Putchar]);
    lemma_plain_balanced(seq![COps::Putchar]);
}

/// A drain into two cells as operations.
pub proof fn lemma_parse_drain2(s: nat, d1: nat, d2: nat)
    ensures
        parse(drain2(s, d1, d2)) == mv(0, s) + seq![COps::JmpIfZ(0)] + drain2_body(s, d1, d2)
            + seq![COps::JmpIfNZ(0)] + mv(s, 0),
        balanced(parse(drain2(s, d1, d2))),
{
    let t1 = tape_move(0, s);
    let t2 = t1 + seq!['[', '-'];
    let t3 = t2 + tape_move(s, d1);
    let t4 = t3 + seq!['+'];
    let t5 = t4 + tape_move(d1, d2);
    let t6 = t5 + seq!['+'];
    let t7 = t6 + tape_move(d2, s);
    let t8 = t7 + seq![']'];
    let t9 = t8 + tape_move(s, 0);
    assert(drain2(s, d1, d2) == t9);
    lemma_parse_join(t8, tape_move(s, 0));
    lemma_parse_join(t7, seq![']']);
    lemma_parse_join(t6, tape_move(d2, s));
    lemma_parse_join(t5, seq!['+']);
    lemma_parse_join(t4, tape_move(d1, d2));
    lemma_parse_join(t3, seq!['+']);
    lemma_parse_join(t2, tape_move(s, d1));
    lemma_parse_join(t1, seq!['[', '-']);
    assert(seq!['[', '-'] =~= seq!['['] + seq!['-']);
    lemma_parse_join(seq!['['], seq!['-']);
    lemma_parse_one('[');
    lemma_parse_one('-');
    lemma_parse_one(']');
    lemma_parse_one('+');
    lemma_parse_move(0, s);
    lemma_parse_move(s, d1);
    lemma_parse_move(d1, d2);
    lemma_parse_move(d2, s);
    lemma_parse_move(s, 0);
    let open = seq![COps::JmpIfZ(0)];
    let take = seq![COps::Add(-1i32)];
    let give = seq![COps::Add(1i32)];
    let p = mv(0, s) + open;
    lemma_regroup(mv(0, s), open, take);
    lemma_regroup(p, take, mv(s, d1));
    lemma_regroup(p, take + mv(s, d1), give);
    lemma_regroup(p, take + mv(s, d1) + give, mv(d1, d2));
    lemma_regroup(p, take + mv(s, d1) + give + mv(d1, d2), give);
    lemma_regroup(p, take + mv(s, d1) + give + mv(d1, d2) + give, mv(d2, s));
    lemma_plain_balanced(drain2_body(s, d1, d2));
    lemma_mv_plain(0, s);
    lemma_mv_plain(s, 0);
    lemma_plain_balanced(mv(0, s));
    lemma_loop_balanced(mv(0, s), drain2_body(s, d1, d2));
    lemma_line_balanced(
        mv(0, s) + open + drain2_body(s, d1, d2) + seq![COps::JmpIfNZ(0)],
        mv(s, 0),
    );
}

/// A drain into two cells.
pub proof fn lemma_drain2_alone(s: nat, d1: nat, d2: nat, c: Cells, fuel: nat)
    requires
        s != d1,
        s != d2,
        d1 != d2,
        0 <= c.mp,
        c.mp + s < c.tape.len(),
        c.mp + d1 < c.tape.len(),
        c.mp + d2 < c.tape.len(),
        c.tape[c.mp + d1] + c.tape[c.mp + s] <= 255,
        c.tape[c.mp + d2] + c.tape[c.mp + s] <= 255,
        fuel >= 255,
    ensures
        sem(parse(drain2(s, d1, d2)), c, fuel) == Effect::Done(drained2(c, c.mp, s, d1, d2)),
{
    let h = c.mp;
    lemma_parse_drain2(s, d1, d2);
    let body = drain2_body(s, d1, d2);
    lemma_plain_balanced(body);
    let e = Seq::<COps>::empty();
    assert(sem(e, c, fuel) == Effect::Done(c));
    lemma_then_mv(e, 0, s, c, fuel);
    let x1 = mv(0, s);
    assert(e + x1 =~= x1);
    let c1 = moved(c, s as int);
    lemma_then_loop(x1, body, c, fuel);
    lemma_drain2_rounds(c1, h, s, d1, d2, fuel);
    let x2 = x1 + seq![COps::JmpIfZ(0)] + body + seq![COps::JmpIfNZ(0)];
    let c2 = drained2(c1, h, s, d1, d2);
    assert(sem(x2, c, fuel) == Effect::Done(c2));
    lemma_then_mv(x2, s, 0, c, fuel);
    assert(moved(c2, 0 - s) == drained2(c, h, s, d1, d2));
}

/// A copy by way of a scratch cell.
pub proof fn lemma_copy_alone(s: nat, d: nat, t: nat, c: Cells, fuel: nat)
    requires
        s != d,
        s != t,
        d != t,
        0 <= c.mp,
        c.mp + s < c.tape.len(),
        c.mp + d < c.tape.len(),
        c.mp + t < c.tape.len(),
        fuel >= 255,
    ensures
        sem(parse(carry2(s, d, t) + carry(t, s)), c, fuel) == Effect::Done(
            with_cell(with_cell(c, c.mp + d, c.tape[c.mp + s] as int), c.mp + t, 0),
        ),
        balanced(parse(carry2(s, d, t) + carry(t, s))),
{
    let h = c.mp;
    lemma_parse_join(carry2(s, d, t), carry(t, s));
    lemma_carry2_alone(s, d, t, c, fuel);
    let x1 = parse(carry2(s, d, t));
    let c1 = carried2(c, h, s, d, t);
    lemma_then_carry(x1, t, s, c, fuel);
    let c2 = carried(c1, h, t, s);
    assert(c2.tape =~= with_cell(with_cell(c, h + d, c.tape[h + s] as int), h + t, 0).tape);
    let e = Seq::<COps>::empty();
    lemma_carry2_balanced(e, s, d, t);
    assert(e + x1 =~= x1);
    lemma_carry_balanced(x1, t, s);
}

/// Setting the flags of a conditional branch.
pub proof fn lemma_cond_alone(x: nat, t: nat, f: nat, c: Cells, fuel: nat)
    requires
        x != t,
        x != f,
        t != f,
        0 <= c.mp,
        c.mp + x < c.tape.len(),
        c.mp + t < c.tape.len(),
        c.mp + f < c.tape.len(),
        fuel >= 256,
    ensures
        sem(
            parse(carry2(x, t, f) + carry(f, x) + test_cell(x, f, seq!['+'], '-')),
            c,
            fuel,
        ) == Effect::Done(
            with_cell(
                with_cell(with_cell(c, c.mp + t, c.tape[c.mp + x] as int), c.mp + x, 0),
                c.mp + f,
                if c.tape[c.mp + x] == 0 {
                    1int
                } else {
                    0int
                },
            ),
        ),
        balanced(parse(carry2(x, t, f) + carry(f, x) + test_cell(x, f, seq!['+'], '-'))),
{
    let h = c.mp;
    let test = test_cell(x, f, seq!['+'], '-');
    lemma_parse_join(carry2(x, t, f) + carry(f, x), test);
    lemma_parse_join(carry2(x, t, f), carry(f, x));
    lemma_carry2_alone(x, t, f, c, fuel);
    let x1 = parse(carry2(x, t, f));
    let c1 = carried2(c, h, x, t, f);
    lemma_then_carry(x1, f, x, c, fuel);
    let x2 = x1 + parse(carry(f, x));
    let c2 = carried(c1, h, f, x);
    assert(flag_text(true) == seq!['+']);
    assert(sign_char(false) == '-');
    let e = Seq::<COps>::empty();
    lemma_carry2_balanced(e, x, t, f);
    assert(e + x1 =~= x1);
    lemma_carry_balanced(x1, f, x);
    lemma_then_test(x2, x, f, true, c, fuel);
    let c3 = tested(c2, h, x, f, true);
    let want = with_cell(
        with_cell(with_cell(c, h + t, c.tape[h + x] as int), h + x, 0),
        h + f,
        if c.tape[h + x] == 0 {
            1int
        } else {
            0int
        },
    );
    assert(c3.tape =~= want.tape);
}

/// A template that sets one cell of the frame: the cell is cleared and
/// counted up to `n`.
pub proof fn lemma_set_alone(n: nat, d: nat, c: Cells, fuel: nat)
    requires
        0 <= c.mp,
        c.mp + d < c.tape.len(),
        n <= 255,
        fuel >= 255,
    ensures
        sem(parse(at_cell(d, clear_loop() + repeated('+', n))), c, fuel) == Effect::Done(
            with_cell(c, c.mp + d, n as int),
        ),
        sem(parse(at_cell(d, clear_loop())), c, fuel) == Effect::Done(with_cell(c, c.mp + d, 0)),
        balanced(parse(at_cell(d, clear_loop() + repeated('+', n)))),
        balanced(parse(at_cell(d, clear_loop()))),
{
    let there = moved(c, d as int);
    lemma_set_here(n, there, fuel);
    lemma_at_cell(d, clear_loop() + repeated('+', n), c, fuel);
    lemma_at_cell(d, clear_loop(), c, fuel);
}

/// A template that counts one cell of the frame up or down.
pub proof fn lemma_count_alone(up: bool, n: nat, d: nat, c: Cells, fuel: nat)
    requires
        0 <= c.mp,
        c.mp + d < c.tape.len(),
        up ==> c.tape[c.mp + d] + n <= 255,
        !up ==> c.tape[c.mp + d] - n >= 0,
    ensures
        sem(parse(at_cell(d, repeated(sign_char(up), n))), c, fuel) == Effect::Done(
            with_cell(
                c,
                c.mp + d,
                c.tape[c.mp + d] + if up {
                    n as int
                } else {
                    -(n as int)
                },
            ),
        ),
        balanced(parse(at_cell(d, repeated(sign_char(up), n)))),
{
    let there = moved(c, d as int);
    lemma_count_here(up, n, there, fuel);
    lemma_at_cell(d, repeated(sign_char(up), n), c, fuel);
}

/// The template that prints one cell of the frame.
pub proof fn lemma_putc_alone(a: nat, c: Cells, fuel: nat)
    requires
        0 <= c.mp,
        c.mp + a < c.tape.len(),
    ensures
        sem(parse(at_cell(a, seq!['.'])), c, fuel) == Effect::Done(
            Cells { output: c.output.push(c.tape[c.mp + a]), ..c },
        ),
        balanced(parse(at_cell(a, seq!['.']))),
{
    let there = moved(c, a as int);
    lemma_print_here(there, fuel);
    lemma_at_cell(a, seq!['.'], c, fuel);
}

/// A drain on its own.
pub proof fn lemma_drain_alone(s: nat, d: nat, up: bool, c: Cells, fuel: nat)
    requires
        s != d,
        0 <= c.mp,
        c.mp + s < c.tape.len(),
        c.mp + d < c.tape.len(),
        up ==> c.tape[c.mp + d] + c.tape[c.mp + s] <= 255,
        !up ==> c.tape[c.mp + d] - c.tape[c.mp + s] >= 0,
        fuel >= 255,
    ensures
        sem(parse(drain(s, d, sign_char(up))), c, fuel) == Effect::Done(
            drained(c, c.mp, s, d, up),
        ),
        balanced(parse(drain(s, d, sign_char(up)))),
{
    let e = Seq::<COps>::empty();
    assert(sem(e, c, fuel) == Effect::Done(c));
    assert(balanced(e));
    lemma_then_drain(e, s, d, up, c, fuel);
    assert(e + parse(drain(s, d, sign_char(up))) =~= parse(drain(s, d, sign_char(up))));
}

/// A test on its own.
pub proof fn lemma_test_alone(s: nat, d: nat, negate: bool, c: Cells, fuel: nat)
    requires
        s != d,
        0 <= c.mp,
        c.mp + s < c.tape.len(),
        c.mp + d < c.tape.len(),
        fuel >= 256,
    ensures
        sem(parse(test_cell(s, d, flag_text(negate), sign_char(!negate))), c, fuel)
            == Effect::Done(tested(c, c.mp, s, d, negate)),
        balanced(parse(test_cell(s, d, flag_text(negate), sign_char(!negate)))),
{
    let e = Seq::<COps>::empty();
    assert(sem(e, c, fuel) == Effect::Done(c));
    assert(balanced(e));
    lemma_then_test(e, s, d, negate, c, fuel);
    let text = test_cell(s, d, flag_text(negate), sign_char(!negate));
    assert(e + parse(text) =~= parse(text));
}

/// Every template does to the cells what the table says, where it can be run
/// on them without a fault, and its brackets balance.
pub proof fn lemma_template_effect(op: Op, c: Cells, fuel: nat)
    requires
        defined(op, c),
        fuel >= 600,
    ensures
        sem(parse(template(op)), c, fuel) == Effect::Done(effect(op, c)),
        balanced(parse(template(op))),
{
    assert(sign_char(true) == '+');
    assert(sign_char(false) == '-');
    assert(flag_text(true) == seq!['+']);
    assert(flag_text(false) == Seq::<char>::empty());
    match op {
        Op::LoadInd(p, d) => {
            lemma_load_alone(p as nat, d as nat, c, fuel);
        },
        Op::StoreInd(v, p) => {
            lemma_store_alone(v as nat, p as nat, c, fuel);
        },
        Op::ClearImm(d) => {
            lemma_set_alone(0, d as nat, c, fuel);
        },
        Op::StoreImm(v, d) => {
            lemma_set_alone(v as nat, d as nat, c, fuel);
        },
        Op::StoreAddr(a, d) => {
            lemma_set_alone(a as nat, d as nat, c, fuel);
        },
        Op::Move(s, d) => {
            lemma_drain_alone(s as nat, d as nat, true, c, fuel);
        },
        Op::Move2(s, d1, d2) => {
            lemma_drain2_alone(s as nat, d1 as nat, d2 as nat, c, fuel);
            lemma_parse_drain2(s as nat, d1 as nat, d2 as nat);
        },
        Op::Copy(s, d, t) => {
            lemma_copy_alone(s as nat, d as nat, t as nat, c, fuel);
        },
        Op::Add(s, d) => {
            lemma_drain_alone(s as nat, d as nat, true, c, fuel);
        },
        Op::Sub(s, d) => {
            lemma_drain_alone(s as nat, d as nat, false, c, fuel);
        },
        Op::AddImm(v, d) => {
            lemma_count_alone(true, v as nat, d as nat, c, fuel);
        },
        Op::SubImm(v, d) => {
            lemma_count_alone(false, v as nat, d as nat, c, fuel);
        },
        Op::Not(s, d) => {
            lemma_test_alone(s as nat, d as nat, true, c, fuel);
        },
        Op::Bitcast(s, d) => {
            lemma_test_alone(s as nat, d as nat, false, c, fuel);
        },
        Op::Ret(a) => {
            assert(repeated('-', 1) =~= seq!['-']);
            lemma_count_alone(false, 1, a as nat, c, fuel);
        },
        Op::Putc(a) => {
            lemma_putc_alone(a as nat, c, fuel);
        },
        Op::Getc(a) => {},
        Op::Branch(a) => {
            lemma_set_alone(1, a as nat, c, fuel);
        },
        Op::Cond(x, t, f) => {
            lemma_cond_alone(x as nat, t as nat, f as nat, c, fuel);
        },
    }
}

/// The operations that a text is read as, before its brackets are
/// resolved.
pub open spec fn program(text: Seq<char>) -> Seq<COps> {
    fuse(parse(text))
}

/// A text whose structure says that it ends with cells `end` is run to its
/// end by the interpreter, with those cells.
pub proof fn lemma_text_runs(text: Seq<char>, ops: Seq<COps>, c: Cells, end: Cells, fuel: nat) -> (k:
    nat)
    requires
        balanced(parse(text)),
        c.valid(),
        sem(parse(text), c, fuel) == Effect::Done(end),
        resolved(program(text), ops),
    ensures
        run(ops, at(0, c, 0), k) is Halted,
        cells_of(run(ops, at(0, c, 0), k)->Halted_0) == end,
{
    lemma_fused_sem(parse(text), c, fuel);
    lemma_fuse_balanced(parse(text));
    lemma_structure_to_run(program(text), ops, c, fuel)
}

/// The table of templates holds of the programs that the interpreter runs:
/// where `ops` is what the text of a template is read as, and the
/// template can be run on the cells `c` without a fault, the run from `c`
/// ends, after `k` operations, with the cells that the table gives, and with
/// the head where it started.
pub proof fn law_template_table(op: Op, c: Cells, ops: Seq<COps>) -> (k: nat)
    requires
        defined(op, c),
        resolved(program(template(op)), ops),
    ensures
        run(ops, at(0, c, 0), k) is Halted,
        cells_of(run(ops, at(0, c, 0), k)->Halted_0) == effect(op, c),
        effect(op, c).mp == c.mp,
{
    lemma_template_effect(op, c, 600);
    lemma_text_runs(template(op), ops, c, effect(op, c), 600)
}

/// Two templates in a row do what the table says of the first and then of
/// the second.
pub proof fn law_template_sequence(first: Op, second: Op, c: Cells, ops: Seq<COps>) -> (k: nat)
    requires
        defined(first, c),
        defined(second, effect(first, c)),
        resolved(program(template(first) + template(second)), ops),
    ensures
        run(ops, at(0, c, 0), k) is Halted,
        cells_of(run(ops, at(0, c, 0), k)->Halted_0) == effect(second, effect(first, c)),
{
    let fuel = 600nat;
    lemma_template_effect(first, c, fuel);
    lemma_template_effect(second, effect(first, c), fuel);
    lemma_parse_join(template(first), template(second));
    lemma_sem_join(parse(template(first)), parse(template(second)), c, fuel);
    lemma_join_balanced(parse(template(first)), parse(template(second)));
    lemma_text_runs(
        template(first) + template(second),
        ops,
        c,
        effect(second, effect(first, c)),
        fuel,
    )
}

} // verus!
