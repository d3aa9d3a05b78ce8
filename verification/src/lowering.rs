//! What the prelude and the lowering of an instruction or a terminator do to
//! the cells of a frame, worked out from the text that the emitter writes for
//! them.
use vstd::prelude::*;
use crate::balance::{lemma_parse_arm, lemma_parse_line, names_quiet, reg_at};
use crate::discipline::{
    lemma_parse_counted, lemma_parse_named_numbered, lemma_parse_numbered, lemma_quiet_decimal,
    lemma_quiet_repeated, quiet,
};
use crate::effects::{
    drained, drained_once, lemma_mv_plain, lemma_parse_move, lemma_then_mv, mv, sign_op, with_cell,
};
use crate::emit::{
    block_index, const_of, flag, function_index, lemma_block_index, lemma_function_index, lower_add,
    lower_alloca, lower_br, lower_condbr, lower_enter, lower_load, lower_putchar, lower_ret,
    lower_store, prelude, reg,
};
use crate::interp::{balanced, parse, COps, TAPE_SIZE};
use crate::ir::{CallView, FunctionView, ModuleView, Operand, Ty};
use crate::layout::{
    frame_width, goto_block, goto_func, goto_text, lemma_layout_wf, tabs, Layout,
};
use crate::literals::{
    lemma_lit_add_by, lemma_lit_add_name, lemma_lit_alloca, lemma_lit_arm, lemma_lit_at_main,
    lemma_lit_call_func, lemma_lit_call_main, lemma_lit_clear_lead, lemma_lit_clear_line,
    lemma_lit_close_line, lemma_lit_dead_func, lemma_lit_entry_block, lemma_lit_entry_flag,
    lemma_lit_first_frame, lemma_lit_frame_flag, lemma_lit_frame_tail, lemma_lit_indent,
    lemma_lit_load_name, lemma_lit_load_temp, lemma_lit_load_to, lemma_lit_minus_line,
    lemma_lit_newline, lemma_lit_next_frame, lemma_lit_open_line, lemma_lit_plus_line,
    lemma_lit_prev_frame, lemma_lit_print_clear, lemma_lit_putchar_note, lemma_lit_runtime_init,
    lemma_lit_uncall,
};
use crate::reasoning::{
    lemma_join_balanced, lemma_line_balanced, lemma_loop_balanced, lemma_parse_join,
    lemma_parse_one, lemma_parse_repeated, lemma_plain_balanced, lemma_regroup, lemma_sem_join,
    lemma_then_loop, lemma_then_op, moved, put, run_of,
};
use crate::semantics::{iterate, sem, Cells, Effect};
use crate::table::{lemma_count_here, lemma_set_here};
use crate::tape::clear_loop;
use crate::text::{decimal, repeated};

verus! {

/// A visit of a cell of the frame as operations: the way there, what is done
/// there, the way back.
pub proof fn lemma_parse_goto(indent: nat, k: nat, body: Seq<char>)
    ensures
        parse(goto_text(indent, k, body)) == mv(0, k) + parse(body) + mv(k, 0),
{
    let t1 = tabs(indent);
    let t2 = t1 + repeated('>', k);
    let t3 = t2 + seq!['\n'];
    let t4 = t3 + body;
    let t5 = t4 + tabs(indent);
    let t6 = t5 + repeated('<', k);
    let t7 = t6 + seq!['\n'];
    assert(goto_text(indent, k, body) == t7);
    lemma_quiet_repeated('\t', indent);
    lemma_parse_one('\n');
    lemma_parse_join(t6, seq!['\n']);
    lemma_parse_join(t5, repeated('<', k));
    lemma_parse_join(t4, tabs(indent));
    lemma_parse_join(t3, body);
    lemma_parse_join(t2, seq!['\n']);
    lemma_parse_join(t1, repeated('>', k));
    lemma_parse_repeated('>', k);
    lemma_parse_repeated('<', k);
    let e = Seq::<COps>::empty();
    assert(e + mv(0, k) =~= mv(0, k));
    assert(mv(0, k) + e =~= mv(0, k));
    assert(mv(0, k) + parse(body) + e =~= mv(0, k) + parse(body));
    assert(mv(0, k) + parse(body) + mv(k, 0) + e =~= mv(0, k) + parse(body) + mv(k, 0));
}

/// A visit whose body is balanced code that leaves the head where it found
/// it, behind some code: the body runs on the cell, and the head comes back.
pub proof fn lemma_then_visit(
    x: Seq<COps>,
    indent: nat,
    k: nat,
    body: Seq<char>,
    c: Cells,
    fuel: nat,
)
    requires
        sem(x, c, fuel) is Done,
        ({
            let c1 = sem(x, c, fuel)->Done_0;
            &&& 0 <= c1.mp
            &&& c1.mp + k < c1.tape.len()
            &&& balanced(parse(body))
            &&& sem(parse(body), moved(c1, k as int), fuel) is Done
            &&& (sem(parse(body), moved(c1, k as int), fuel)->Done_0).mp == c1.mp + k
            &&& (sem(parse(body), moved(c1, k as int), fuel)->Done_0).tape.len() == c1.tape.len()
        }),
    ensures
        sem(x + parse(goto_text(indent, k, body)), c, fuel) == Effect::Done(
            moved(
                sem(parse(body), moved(sem(x, c, fuel)->Done_0, k as int), fuel)->Done_0,
                -(k as int),
            ),
        ),
        balanced(x) ==> balanced(x + parse(goto_text(indent, k, body))),
{
    let c1 = sem(x, c, fuel)->Done_0;
    lemma_parse_goto(indent, k, body);
    let x1 = x + mv(0, k);
    lemma_then_mv(x, 0, k, c, fuel);
    lemma_sem_join(x1, parse(body), c, fuel);
    let x2 = x1 + parse(body);
    lemma_then_mv(x2, k, 0, c, fuel);
    lemma_regroup(x, mv(0, k), parse(body));
    lemma_regroup(x, mv(0, k) + parse(body), mv(k, 0));
    if balanced(x) {
        lemma_mv_plain(0, k);
        lemma_mv_plain(k, 0);
        lemma_line_balanced(x, mv(0, k));
        lemma_join_balanced(x1, parse(body));
        lemma_line_balanced(x2, mv(k, 0));
    }
}

/// A visit that does nothing on the cell.
pub proof fn lemma_then_look(x: Seq<COps>, indent: nat, k: nat, body: Seq<char>, c: Cells, fuel: nat)
    requires
        sem(x, c, fuel) is Done,
        0 <= (sem(x, c, fuel)->Done_0).mp,
        (sem(x, c, fuel)->Done_0).mp + k < (sem(x, c, fuel)->Done_0).tape.len(),
        quiet(body),
    ensures
        sem(x + parse(goto_text(indent, k, body)), c, fuel) == Effect::Done(
            sem(x, c, fuel)->Done_0,
        ),
        balanced(x) ==> balanced(x + parse(goto_text(indent, k, body))),
{
    let c1 = sem(x, c, fuel)->Done_0;
    assert(sem(parse(body), moved(c1, k as int), fuel) == Effect::Done(moved(c1, k as int)));
    lemma_then_visit(x, indent, k, body, c, fuel);
}

/// A visit that counts the cell up or down by one.
pub proof fn lemma_then_step(
    x: Seq<COps>,
    indent: nat,
    k: nat,
    body: Seq<char>,
    up: bool,
    c: Cells,
    fuel: nat,
)
    requires
        sem(x, c, fuel) is Done,
        ({
            let c1 = sem(x, c, fuel)->Done_0;
            &&& 0 <= c1.mp
            &&& c1.mp + k < c1.tape.len()
            &&& up ==> c1.tape[c1.mp + k] <= 254
            &&& !up ==> c1.tape[c1.mp + k] >= 1
        }),
        parse(body) == seq![
            COps::Add(
                if up {
                    1i32
                } else {
                    -1i32
                },
            ),
        ],
    ensures
        sem(x + parse(goto_text(indent, k, body)), c, fuel) == Effect::Done(
            with_cell(
                sem(x, c, fuel)->Done_0,
                (sem(x, c, fuel)->Done_0).mp + k,
                (sem(x, c, fuel)->Done_0).tape[(sem(x, c, fuel)->Done_0).mp + k] + if up {
                    1int
                } else {
                    -1int
                },
            ),
        ),
        balanced(x) ==> balanced(x + parse(goto_text(indent, k, body))),
{
    let c1 = sem(x, c, fuel)->Done_0;
    let there = moved(c1, k as int);
    let op = COps::Add(
        if up {
            1i32
        } else {
            -1i32
        },
    );
    let e = Seq::<COps>::empty();
    assert(sem(e, there, fuel) == Effect::Done(there));
    lemma_then_op(e, op, there, fuel);
    assert(e.push(op) =~= seq![op]);
    lemma_plain_balanced(seq![op]);
    lemma_then_visit(x, indent, k, body, c, fuel);
}

// ---------------------------------------------------------------------------
// Loops that are opened on one visit of a cell and closed on another
// ---------------------------------------------------------------------------

/// The body of a loop on the cell `s` of the frame that takes one from the
/// cell, goes home, does `mid` from there, and comes back to the cell.
pub open spec fn span_body(s: nat, mid: Seq<char>) -> Seq<COps> {
    seq![COps::Add(-1i32)] + mv(s, 0) + parse(mid) + mv(0, s)
}

/// A loop that is opened on a visit of its cell, with one taken from the
/// cell, and closed on a later visit of the same cell, as operations.
pub proof fn lemma_parse_span(
    indent: nat,
    s: nat,
    open: Seq<char>,
    mid: Seq<char>,
    close: Seq<char>,
)
    requires
        parse(open) == seq![COps::JmpIfZ(0), COps::Add(-1i32)],
        parse(close) == seq![COps::JmpIfNZ(0)],
    ensures
        parse(goto_text(indent, s, open) + mid + goto_text(indent, s, close)) == mv(0, s) + seq![
            COps::JmpIfZ(0),
        ] + span_body(s, mid) + seq![COps::JmpIfNZ(0)] + mv(s, 0),
        balanced(parse(mid)) ==> balanced(span_body(s, mid)),
{
    let first = goto_text(indent, s, open);
    let last = goto_text(indent, s, close);
    lemma_parse_join(first + mid, last);
    lemma_parse_join(first, mid);
    lemma_parse_goto(indent, s, open);
    lemma_parse_goto(indent, s, close);
    let jz = seq![COps::JmpIfZ(0)];
    let dec = seq![COps::Add(-1i32)];
    let jnz = seq![COps::JmpIfNZ(0)];
    assert(parse(open) =~= jz + dec);
    let p = mv(0, s) + jz;
    let body = span_body(s, mid);
    // the first visit
    lemma_regroup(mv(0, s), jz, dec);
    assert(parse(first) == p + dec + mv(s, 0));
    // the whole, grouped from the left
    let whole = p + dec + mv(s, 0) + parse(mid) + (mv(0, s) + jnz + mv(s, 0));
    assert(parse(first + mid + last) == whole);
    lemma_regroup(p + dec + mv(s, 0) + parse(mid), mv(0, s) + jnz, mv(s, 0));
    lemma_regroup(p + dec + mv(s, 0) + parse(mid), mv(0, s), jnz);
    lemma_regroup(p, dec, mv(s, 0));
    lemma_regroup(p, dec + mv(s, 0), parse(mid));
    lemma_regroup(p, dec + mv(s, 0) + parse(mid), mv(0, s));
    if balanced(parse(mid)) {
        lemma_mv_plain(s, 0);
        lemma_mv_plain(0, s);
        lemma_plain_balanced(dec + mv(s, 0));
        lemma_join_balanced(dec + mv(s, 0), parse(mid));
        lemma_line_balanced(dec + mv(s, 0) + parse(mid), mv(0, s));
    }
}

/// Such a loop behind some code: the rounds of its body run with the head on
/// the loop's cell, and the head comes home.
pub proof fn lemma_then_span(
    x: Seq<COps>,
    indent: nat,
    s: nat,
    open: Seq<char>,
    mid: Seq<char>,
    close: Seq<char>,
    c: Cells,
    fuel: nat,
)
    requires
        parse(open) == seq![COps::JmpIfZ(0), COps::Add(-1i32)],
        parse(close) == seq![COps::JmpIfNZ(0)],
        balanced(parse(mid)),
        sem(x, c, fuel) is Done,
        ({
            let c1 = sem(x, c, fuel)->Done_0;
            &&& 0 <= c1.mp
            &&& c1.mp + s < c1.tape.len()
            &&& iterate(span_body(s, mid), moved(c1, s as int), fuel) is Done
            &&& (iterate(span_body(s, mid), moved(c1, s as int), fuel)->Done_0).mp == c1.mp + s
            &&& (iterate(span_body(s, mid), moved(c1, s as int), fuel)->Done_0).tape.len()
                == c1.tape.len()
        }),
    ensures
        sem(
            x + parse(goto_text(indent, s, open) + mid + goto_text(indent, s, close)),
            c,
            fuel,
        ) == Effect::Done(
            moved(
                iterate(span_body(s, mid), moved(sem(x, c, fuel)->Done_0, s as int), fuel)->Done_0,
                -(s as int),
            ),
        ),
        balanced(x) ==> balanced(
            x + parse(goto_text(indent, s, open) + mid + goto_text(indent, s, close)),
        ),
{
    let c1 = sem(x, c, fuel)->Done_0;
    let body = span_body(s, mid);
    let jz = seq![COps::JmpIfZ(0)];
    let jnz = seq![COps::JmpIfNZ(0)];
    lemma_parse_span(indent, s, open, mid, close);
    let x1 = x + mv(0, s);
    lemma_then_mv(x, 0, s, c, fuel);
    lemma_then_loop(x1, body, c, fuel);
    let x2 = x1 + jz + body + jnz;
    lemma_then_mv(x2, s, 0, c, fuel);
    let text = goto_text(indent, s, open) + mid + goto_text(indent, s, close);
    lemma_regroup(x, mv(0, s), jz);
    lemma_regroup(x, mv(0, s) + jz, body);
    lemma_regroup(x, mv(0, s) + jz + body, jnz);
    lemma_regroup(x, mv(0, s) + jz + body + jnz, mv(s, 0));
    if balanced(x) {
        lemma_mv_plain(0, s);
        lemma_mv_plain(s, 0);
        lemma_line_balanced(x, mv(0, s));
        lemma_loop_balanced(x1, body);
        lemma_line_balanced(x2, mv(s, 0));
    }
}

/// One round of a loop that carries its cell `s` over to the cell `d`, one
/// at a time: one is taken from `s`, and `d` is counted up, or down, by one.
pub proof fn lemma_carry_round(
    indent: nat,
    s: nat,
    d: nat,
    step: Seq<char>,
    up: bool,
    c: Cells,
    h: int,
    fuel: nat,
)
    requires
        s != d,
        0 <= h,
        h + s < c.tape.len(),
        h + d < c.tape.len(),
        c.mp == h + s,
        c.tape[h + s] >= 1,
        up ==> c.tape[h + d] <= 254,
        !up ==> c.tape[h + d] >= 1,
        parse(step) == seq![sign_op(up)],
    ensures
        sem(span_body(s, goto_text(indent, d, step)), c, fuel) == Effect::Done(
            drained_once(c, h, s, d, up),
        ),
        balanced(parse(goto_text(indent, d, step))),
{
    let e = Seq::<COps>::empty();
    let mid = goto_text(indent, d, step);
    let x1 = e.push(COps::Add(-1i32));
    lemma_then_op(e, COps::Add(-1i32), c, fuel);
    let c1 = with_cell(c, h + s, c.tape[h + s] - 1);
    assert(sem(x1, c, fuel) == Effect::Done(c1));
    assert(x1 =~= seq![COps::Add(-1i32)]);
    let x2 = x1 + mv(s, 0);
    lemma_then_mv(x1, s, 0, c, fuel);
    let c2 = moved(c1, 0 - s);
    lemma_then_step(x2, indent, d, step, up, c, fuel);
    let x3 = x2 + parse(mid);
    let c3 = with_cell(
        c2,
        h + d,
        c2.tape[h + d] + if up {
            1int
        } else {
            -1int
        },
    );
    assert(sem(x3, c, fuel) == Effect::Done(c3));
    lemma_then_mv(x3, 0, s, c, fuel);
    assert(moved(c3, s as int).tape =~= drained_once(c, h, s, d, up).tape);
    assert(balanced(e));
    assert(sem(e, c, fuel) == Effect::Done(c));
    lemma_then_step_balanced(indent, d, step, up);
}

/// A visit that counts a cell up or down is balanced code.
pub proof fn lemma_then_step_balanced(indent: nat, d: nat, step: Seq<char>, up: bool)
    requires
        parse(step) == seq![sign_op(up)],
    ensures
        balanced(parse(goto_text(indent, d, step))),
{
    lemma_parse_goto(indent, d, step);
    lemma_mv_plain(0, d);
    lemma_mv_plain(d, 0);
    lemma_plain_balanced(mv(0, d) + parse(step) + mv(d, 0));
}

/// All rounds of a loop that carries its cell `s` over to the cell `d`: `s`
/// is added to `d`, or taken from it, and ends as 0.
pub proof fn lemma_carry_rounds(
    indent: nat,
    s: nat,
    d: nat,
    step: Seq<char>,
    up: bool,
    c: Cells,
    h: int,
    fuel: nat,
)
    requires
        s != d,
        0 <= h,
        h + s < c.tape.len(),
        h + d < c.tape.len(),
        c.mp == h + s,
        up ==> c.tape[h + d] + c.tape[h + s] <= 255,
        !up ==> c.tape[h + d] - c.tape[h + s] >= 0,
        fuel >= c.tape[h + s],
        parse(step) == seq![sign_op(up)],
    ensures
        iterate(span_body(s, goto_text(indent, d, step)), c, fuel) == Effect::Done(
            drained(c, h, s, d, up),
        ),
    decreases c.tape[h + s],
{
    if c.tape[h + s] == 0 {
        assert(drained(c, h, s, d, up).tape =~= c.tape);
    } else {
        let f = (fuel - 1) as nat;
        lemma_carry_round(indent, s, d, step, up, c, h, f);
        let c1 = drained_once(c, h, s, d, up);
        lemma_carry_rounds(indent, s, d, step, up, c1, h, f);
        assert(drained(c1, h, s, d, up).tape =~= drained(c, h, s, d, up).tape);
    }
}

/// A loop that carries its cell `s` over to the cell `d`, behind some code.
pub proof fn lemma_then_carry_over(
    x: Seq<COps>,
    indent: nat,
    s: nat,
    d: nat,
    open: Seq<char>,
    step: Seq<char>,
    close: Seq<char>,
    up: bool,
    c: Cells,
    fuel: nat,
)
    requires
        parse(open) == seq![COps::JmpIfZ(0), COps::Add(-1i32)],
        parse(close) == seq![COps::JmpIfNZ(0)],
        parse(step) == seq![sign_op(up)],
        s != d,
        sem(x, c, fuel) is Done,
        ({
            let c1 = sem(x, c, fuel)->Done_0;
            &&& 0 <= c1.mp
            &&& c1.mp + s < c1.tape.len()
            &&& c1.mp + d < c1.tape.len()
            &&& up ==> c1.tape[c1.mp + d] + c1.tape[c1.mp + s] <= 255
            &&& !up ==> c1.tape[c1.mp + d] - c1.tape[c1.mp + s] >= 0
        }),
        fuel >= 255,
    ensures
        sem(
            x + parse(
                goto_text(indent, s, open) + goto_text(indent, d, step) + goto_text(
                    indent,
                    s,
                    close,
                ),
            ),
            c,
            fuel,
        ) == Effect::Done(
            drained(sem(x, c, fuel)->Done_0, (sem(x, c, fuel)->Done_0).mp, s, d, up),
        ),
        balanced(x) ==> balanced(
            x + parse(
                goto_text(indent, s, open) + goto_text(indent, d, step) + goto_text(
                    indent,
                    s,
                    close,
                ),
            ),
        ),
{
    let c1 = sem(x, c, fuel)->Done_0;
    let h = c1.mp;
    let mid = goto_text(indent, d, step);
    lemma_then_step_balanced(indent, d, step, up);
    lemma_carry_rounds(indent, s, d, step, up, moved(c1, s as int), h, fuel);
    lemma_then_span(x, indent, s, open, mid, close, c, fuel);
    assert(moved(drained(moved(c1, s as int), h, s, d, up), -(s as int)) == drained(
        c1,
        h,
        s,
        d,
        up,
    ));
}

/// The cells after one round of a loop that carries its cell over to two
/// cells.
pub open spec fn shared_once(c: Cells, h: int, s: nat, d1: nat, up1: bool, d2: nat, up2: bool) -> Cells {
    with_cell(
        with_cell(
            with_cell(c, h + s, c.tape[h + s] - 1),
            h + d1,
            c.tape[h + d1] + if up1 {
                1int
            } else {
                -1int
            },
        ),
        h + d2,
        c.tape[h + d2] + if up2 {
            1int
        } else {
            -1int
        },
    )
}

/// The cells after a loop that carries its cell over to two cells: the cell
/// is added to each, or taken from it, and ends as 0.
pub open spec fn shared(c: Cells, h: int, s: nat, d1: nat, up1: bool, d2: nat, up2: bool) -> Cells {
    with_cell(
        with_cell(
            with_cell(c, h + s, 0),
            h + d1,
            if up1 {
                c.tape[h + d1] + c.tape[h + s]
            } else {
                c.tape[h + d1] - c.tape[h + s]
            },
        ),
        h + d2,
        if up2 {
            c.tape[h + d2] + c.tape[h + s]
        } else {
            c.tape[h + d2] - c.tape[h + s]
        },
    )
}

/// One round of a loop that carries its cell over to two cells.
pub proof fn lemma_share_round(
    indent: nat,
    s: nat,
    d1: nat,
    step1: Seq<char>,
    up1: bool,
    d2: nat,
    step2: Seq<char>,
    up2: bool,
    c: Cells,
    h: int,
    fuel: nat,
)
    requires
        s != d1,
        s != d2,
        d1 != d2,
        0 <= h,
        h + s < c.tape.len(),
        h + d1 < c.tape.len(),
        h + d2 < c.tape.len(),
        c.mp == h + s,
        c.tape[h + s] >= 1,
        up1 ==> c.tape[h + d1] <= 254,
        !up1 ==> c.tape[h + d1] >= 1,
        up2 ==> c.tape[h + d2] <= 254,
        !up2 ==> c.tape[h + d2] >= 1,
        parse(step1) == seq![sign_op(up1)],
        parse(step2) == seq![sign_op(up2)],
    ensures
        sem(
            span_body(s, goto_text(indent, d1, step1) + goto_text(indent, d2, step2)),
            c,
            fuel,
        ) == Effect::Done(shared_once(c, h, s, d1, up1, d2, up2)),
        balanced(parse(goto_text(indent, d1, step1) + goto_text(indent, d2, step2))),
{
    let e = Seq::<COps>::empty();
    let v1 = goto_text(indent, d1, step1);
    let v2 = goto_text(indent, d2, step2);
    lemma_parse_join(v1, v2);
    let x1 = e.push(COps::Add(-1i32));
    lemma_then_op(e, COps::Add(-1i32), c, fuel);
    let c1 = with_cell(c, h + s, c.tape[h + s] - 1);
    assert(sem(x1, c, fuel) == Effect::Done(c1));
    assert(x1 =~= seq![COps::Add(-1i32)]);
    let x2 = x1 + mv(s, 0);
    lemma_then_mv(x1, s, 0, c, fuel);
    let c2 = moved(c1, 0 - s);
    lemma_then_step(x2, indent, d1, step1, up1, c, fuel);
    let x3 = x2 + parse(v1);
    let c3 = with_cell(
        c2,
        h + d1,
        c2.tape[h + d1] + if up1 {
            1int
        } else {
            -1int
        },
    );
    assert(sem(x3, c, fuel) == Effect::Done(c3));
    lemma_then_step(x3, indent, d2, step2, up2, c, fuel);
    let x4 = x3 + parse(v2);
    let c4 = with_cell(
        c3,
        h + d2,
        c3.tape[h + d2] + if up2 {
            1int
        } else {
            -1int
        },
    );
    assert(sem(x4, c, fuel) == Effect::Done(c4));
    lemma_then_mv(x4, 0, s, c, fuel);
    lemma_regroup(x2, parse(v1), parse(v2));
    assert(moved(c4, s as int).tape =~= shared_once(c, h, s, d1, up1, d2, up2).tape);
    lemma_then_step_balanced(indent, d1, step1, up1);
    lemma_then_step_balanced(indent, d2, step2, up2);
    lemma_join_balanced(parse(v1), parse(v2));
}

/// All rounds of a loop that carries its cell over to two cells.
pub proof fn lemma_share_rounds(
    indent: nat,
    s: nat,
    d1: nat,
    step1: Seq<char>,
    up1: bool,
    d2: nat,
    step2: Seq<char>,
    up2: bool,
    c: Cells,
    h: int,
    fuel: nat,
)
    requires
        s != d1,
        s != d2,
        d1 != d2,
        0 <= h,
        h + s < c.tape.len(),
        h + d1 < c.tape.len(),
        h + d2 < c.tape.len(),
        c.mp == h + s,
        up1 ==> c.tape[h + d1] + c.tape[h + s] <= 255,
        !up1 ==> c.tape[h + d1] - c.tape[h + s] >= 0,
        up2 ==> c.tape[h + d2] + c.tape[h + s] <= 255,
        !up2 ==> c.tape[h + d2] - c.tape[h + s] >= 0,
        fuel >= c.tape[h + s],
        parse(step1) == seq![sign_op(up1)],
        parse(step2) == seq![sign_op(up2)],
    ensures
        iterate(
            span_body(s, goto_text(indent, d1, step1) + goto_text(indent, d2, step2)),
            c,
            fuel,
        ) == Effect::Done(shared(c, h, s, d1, up1, d2, up2)),
    decreases c.tape[h + s],
{
    if c.tape[h + s] == 0 {
        assert(shared(c, h, s, d1, up1, d2, up2).tape =~= c.tape);
    } else {
        let f = (fuel - 1) as nat;
        lemma_share_round(indent, s, d1, step1, up1, d2, step2, up2, c, h, f);
        let c1 = shared_once(c, h, s, d1, up1, d2, up2);
        lemma_share_rounds(indent, s, d1, step1, up1, d2, step2, up2, c1, h, f);
        assert(shared(c1, h, s, d1, up1, d2, up2).tape =~= shared(
            c,
            h,
            s,
            d1,
            up1,
            d2,
            up2,
        ).tape);
    }
}

/// A loop that carries its cell over to two cells, behind some code.
pub proof fn lemma_then_share(
    x: Seq<COps>,
    indent: nat,
    s: nat,
    open: Seq<char>,
    d1: nat,
    step1: Seq<char>,
    up1: bool,
    d2: nat,
    step2: Seq<char>,
    up2: bool,
    close: Seq<char>,
    c: Cells,
    fuel: nat,
)
    requires
        parse(open) == seq![COps::JmpIfZ(0), COps::Add(-1i32)],
        parse(close) == seq![COps::JmpIfNZ(0)],
        parse(step1) == seq![sign_op(up1)],
        parse(step2) == seq![sign_op(up2)],
        s != d1,
        s != d2,
        d1 != d2,
        sem(x, c, fuel) is Done,
        ({
            let c1 = sem(x, c, fuel)->Done_0;
            &&& 0 <= c1.mp
            &&& c1.mp + s < c1.tape.len()
            &&& c1.mp + d1 < c1.tape.len()
            &&& c1.mp + d2 < c1.tape.len()
            &&& up1 ==> c1.tape[c1.mp + d1] + c1.tape[c1.mp + s] <= 255
            &&& !up1 ==> c1.tape[c1.mp + d1] - c1.tape[c1.mp + s] >= 0
            &&& up2 ==> c1.tape[c1.mp + d2] + c1.tape[c1.mp + s] <= 255
            &&& !up2 ==> c1.tape[c1.mp + d2] - c1.tape[c1.mp + s] >= 0
        }),
        fuel >= 255,
    ensures
        sem(
            x + parse(
                goto_text(indent, s, open) + (goto_text(indent, d1, step1) + goto_text(
                    indent,
                    d2,
                    step2,
                )) + goto_text(indent, s, close),
            ),
            c,
            fuel,
        ) == Effect::Done(
            shared(
                sem(x, c, fuel)->Done_0,
                (sem(x, c, fuel)->Done_0).mp,
                s,
                d1,
                up1,
                d2,
                up2,
            ),
        ),
        balanced(x) ==> balanced(
            x + parse(
                goto_text(indent, s, open) + (goto_text(indent, d1, step1) + goto_text(
                    indent,
                    d2,
                    step2,
                )) + goto_text(indent, s, close),
            ),
        ),
{
    let c1 = sem(x, c, fuel)->Done_0;
    let h = c1.mp;
    let mid = goto_text(indent, d1, step1) + goto_text(indent, d2, step2);
    lemma_then_step_balanced(indent, d1, step1, up1);
    lemma_then_step_balanced(indent, d2, step2, up2);
    lemma_parse_join(goto_text(indent, d1, step1), goto_text(indent, d2, step2));
    lemma_join_balanced(
        parse(goto_text(indent, d1, step1)),
        parse(goto_text(indent, d2, step2)),
    );
    lemma_share_rounds(
        indent,
        s,
        d1,
        step1,
        up1,
        d2,
        step2,
        up2,
        moved(c1, s as int),
        h,
        fuel,
    );
    lemma_then_span(x, indent, s, open, mid, close, c, fuel);
    assert(moved(
        shared(moved(c1, s as int), h, s, d1, up1, d2, up2),
        -(s as int),
    ) == shared(c1, h, s, d1, up1, d2, up2));
}

// ---------------------------------------------------------------------------
// Instructions
// ---------------------------------------------------------------------------

/// The frame that starts under the head lies on the tape.
pub open spec fn on_tape(l: Layout, c: Cells) -> bool {
    &&& l.wf()
    &&& 0 <= c.mp
    &&& c.mp + l.width <= c.tape.len()
}

/// The cell of register `r` in the frame that starts under the head.
pub open spec fn reg_cell(l: Layout, c: Cells, r: int) -> int {
    c.mp + reg_at(l, r)
}

/// An allocation leaves the cells as they are.
pub proof fn lemma_alloca_does(l: Layout, ty: Ty, dest: usize, c: Cells, fuel: nat)
    requires
        on_tape(l, c),
        dest < l.scratch,
        lower_alloca(l, ty, dest) is Ok,
    ensures
        sem(parse(lower_alloca(l, ty, dest)->Ok_0), c, fuel) == Effect::Done(c),
        balanced(parse(lower_alloca(l, ty, dest)->Ok_0)),
{
    lemma_lit_alloca();
    lemma_lit_newline();
    lemma_parse_numbered("\t\t#alloca_%"@, dest as nat, "\n"@);
    let e = Seq::<COps>::empty();
    assert(sem(e, c, fuel) == Effect::Done(c));
    assert(balanced(e));
    let body = "\t\t#alloca_%"@ + decimal(dest as nat) + "\n"@;
    lemma_then_look(e, 2, reg_at(l, dest as int) as nat, body, c, fuel);
    assert(e + parse(reg(l, dest as int, body)) =~= parse(reg(l, dest as int, body)));
}

/// A store of a constant sets the addressed register to the constant.
pub proof fn lemma_store_const_does(l: Layout, v: u64, a: usize, c: Cells, fuel: nat)
    requires
        on_tape(l, c),
        a < l.scratch,
        v <= 255,
        fuel >= 255,
    ensures
        sem(
            parse(lower_store(l, Operand::Const(v), Operand::Local(a))->Ok_0),
            c,
            fuel,
        ) == Effect::Done(with_cell(c, reg_cell(l, c, a as int), v as int)),
        balanced(parse(lower_store(l, Operand::Const(v), Operand::Local(a))->Ok_0)),
{
    let k = reg_at(l, a as int) as nat;
    let body = "\t\t[-]"@ + repeated('+', v as nat) + "\n"@;
    lemma_parse_counted("\t\t[-]"@, v as nat, "\n"@);
    lemma_lit_clear_lead();
    lemma_lit_newline();
    lemma_parse_join(clear_loop(), repeated('+', v as nat));
    crate::effects::lemma_parse_clear();
    crate::reasoning::lemma_parse_repeated('+', v as nat);
    let clear = seq![COps::JmpIfZ(0), COps::Add(-1i32), COps::JmpIfNZ(0)];
    assert(parse(clear_loop()) =~= clear);
    assert(parse(body) =~= parse(clear_loop() + repeated('+', v as nat)));
    let there = moved(c, k as int);
    lemma_set_here(v as nat, there, fuel);
    let e = Seq::<COps>::empty();
    assert(sem(e, c, fuel) == Effect::Done(c));
    assert(balanced(e));
    lemma_then_visit(e, 2, k, body, c, fuel);
    assert(e + parse(reg(l, a as int, body)) =~= parse(reg(l, a as int, body)));
}

/// A store of a local value moves it to the addressed register: the register
/// holds what the value held, and the value's register is 0.
pub proof fn lemma_store_local_does(l: Layout, n: usize, a: usize, c: Cells, fuel: nat)
    requires
        on_tape(l, c),
        a < l.scratch,
        n < l.scratch,
        a != n,
        fuel >= 255,
    ensures
        sem(
            parse(lower_store(l, Operand::Local(n), Operand::Local(a))->Ok_0),
            c,
            fuel,
        ) == Effect::Done(
            with_cell(
                with_cell(
                    c,
                    reg_cell(l, c, a as int),
                    c.tape[reg_cell(l, c, n as int)] as int,
                ),
                reg_cell(l, c, n as int),
                0,
            ),
        ),
        balanced(parse(lower_store(l, Operand::Local(n), Operand::Local(a))->Ok_0)),
{
    let h = c.mp;
    let ka = reg_at(l, a as int) as nat;
    let kn = reg_at(l, n as int) as nat;
    lemma_lit_clear_line();
    lemma_lit_open_line();
    lemma_lit_plus_line();
    lemma_lit_close_line();
    let ln1 = reg(l, a as int, "\t\t[-]\n"@);
    let ln2 = reg(l, n as int, "\t\t[-\n"@);
    let ln3 = reg(l, a as int, "\t\t+\n"@);
    let ln4 = reg(l, n as int, "\t\t]\n"@);
    let text = lower_store(l, Operand::Local(n), Operand::Local(a))->Ok_0;
    assert(text == ln1 + ln2 + ln3 + ln4);
    // the whole as the clearing and the loop
    lemma_parse_join(ln1 + ln2 + ln3, ln4);
    lemma_parse_join(ln1 + ln2, ln3);
    lemma_parse_join(ln1, ln2);
    lemma_parse_join(ln2 + ln3, ln4);
    lemma_parse_join(ln2, ln3);
    lemma_regroup(parse(ln1), parse(ln2), parse(ln3));
    lemma_regroup(parse(ln1), parse(ln2) + parse(ln3), parse(ln4));
    assert(parse(text) == parse(ln1) + parse(ln2 + ln3 + ln4));
    // the clearing
    crate::effects::lemma_parse_clear();
    let clear = seq![COps::JmpIfZ(0), COps::Add(-1i32), COps::JmpIfNZ(0)];
    assert(parse(clear_loop()) =~= clear);
    let there = moved(c, ka as int);
    lemma_set_here(0, there, fuel);
    let e = Seq::<COps>::empty();
    assert(sem(e, c, fuel) == Effect::Done(c));
    assert(balanced(e));
    lemma_then_visit(e, 2, ka, "\t\t[-]\n"@, c, fuel);
    assert(e + parse(ln1) =~= parse(ln1));
    let c1 = with_cell(c, h + ka, 0);
    assert(sem(parse(ln1), c, fuel) == Effect::Done(c1));
    // the loop
    lemma_then_carry_over(
        parse(ln1),
        2,
        kn,
        ka,
        "\t\t[-\n"@,
        "\t\t+\n"@,
        "\t\t]\n"@,
        true,
        c,
        fuel,
    );
    let want = with_cell(with_cell(c, h + ka, c.tape[h + kn] as int), h + kn, 0);
    assert(drained(c1, h, kn, ka, true).tape =~= want.tape);
}

/// A load adds the addressed register to the destination, by way of the first
/// scratch cell: the destination grows by what the register holds, the
/// scratch cell ends as 0, and the register holds what it and the scratch
/// cell held together.
pub proof fn lemma_load_does(l: Layout, a: usize, dest: usize, c: Cells, fuel: nat)
    requires
        on_tape(l, c),
        a < l.scratch,
        dest < l.scratch,
        a != dest,
        c.tape[reg_cell(l, c, dest as int)] + c.tape[reg_cell(l, c, a as int)] <= 255,
        c.tape[reg_cell(l, c, l.scratch as int)] + c.tape[reg_cell(l, c, a as int)] <= 255,
        fuel >= 255,
    ensures
        sem(parse(lower_load(l, Operand::Local(a), dest)->Ok_0), c, fuel) == Effect::Done(
            with_cell(
                with_cell(
                    with_cell(
                        c,
                        reg_cell(l, c, dest as int),
                        c.tape[reg_cell(l, c, dest as int)] + c.tape[reg_cell(l, c, a as int)],
                    ),
                    reg_cell(l, c, l.scratch as int),
                    0,
                ),
                reg_cell(l, c, a as int),
                c.tape[reg_cell(l, c, a as int)] + c.tape[reg_cell(l, c, l.scratch as int)],
            ),
        ),
        balanced(parse(lower_load(l, Operand::Local(a), dest)->Ok_0)),
{
    let h = c.mp;
    let ka = reg_at(l, a as int) as nat;
    let kd = reg_at(l, dest as int) as nat;
    let kt = reg_at(l, l.scratch as int) as nat;
    let t = l.scratch as int;
    lemma_lit_load_name();
    lemma_lit_load_to();
    lemma_lit_newline();
    lemma_lit_load_temp();
    lemma_lit_open_line();
    lemma_lit_plus_line();
    lemma_lit_close_line();
    let name = "\t\t #load_%"@ + decimal(a as nat) + "_to_%"@ + decimal(dest as nat) + "\n"@;
    lemma_quiet_decimal(a as nat);
    lemma_parse_named_numbered("\t\t #load_%"@, decimal(a as nat), "_to_%"@, dest as nat, "\n"@);
    assert(quiet(name));
    let ln1 = reg(l, dest as int, name);
    let ln2 = reg(l, t, "\t\t #load_temp0\n"@);
    let ln3 = reg(l, a as int, "\t\t[-\n"@);
    let ln4 = reg(l, dest as int, "\t\t+\n"@);
    let ln5 = reg(l, t, "\t\t+\n"@);
    let ln6 = reg(l, a as int, "\t\t]\n"@);
    let ln7 = reg(l, t, "\t\t[-\n"@);
    let ln8 = reg(l, a as int, "\t\t+\n"@);
    let ln9 = reg(l, t, "\t\t]\n"@);
    let text = lower_load(l, Operand::Local(a), dest)->Ok_0;
    assert(text == ln1 + ln2 + ln3 + ln4 + ln5 + ln6 + ln7 + ln8 + ln9);
    let first = ln3 + (ln4 + ln5) + ln6;
    let second = ln7 + ln8 + ln9;
    // the whole as two visits and two loops
    lemma_parse_join(ln1 + ln2 + ln3 + ln4 + ln5 + ln6 + ln7 + ln8, ln9);
    lemma_parse_join(ln1 + ln2 + ln3 + ln4 + ln5 + ln6 + ln7, ln8);
    lemma_parse_join(ln1 + ln2 + ln3 + ln4 + ln5 + ln6, ln7);
    lemma_parse_join(ln1 + ln2 + ln3 + ln4 + ln5, ln6);
    lemma_parse_join(ln1 + ln2 + ln3 + ln4, ln5);
    lemma_parse_join(ln1 + ln2 + ln3, ln4);
    lemma_parse_join(ln1 + ln2, ln3);
    lemma_parse_join(ln1, ln2);
    lemma_parse_join(ln3 + (ln4 + ln5), ln6);
    lemma_parse_join(ln3, ln4 + ln5);
    lemma_parse_join(ln4, ln5);
    lemma_parse_join(ln7 + ln8, ln9);
    lemma_parse_join(ln7, ln8);
    let q = parse(ln1) + parse(ln2);
    lemma_regroup(q + parse(ln3), parse(ln4), parse(ln5));
    lemma_regroup(q, parse(ln3), parse(ln4) + parse(ln5));
    lemma_regroup(q, parse(ln3) + (parse(ln4) + parse(ln5)), parse(ln6));
    let q2 = q + parse(first);
    lemma_regroup(q2, parse(ln7), parse(ln8));
    lemma_regroup(q2, parse(ln7) + parse(ln8), parse(ln9));
    assert(parse(text) == q2 + parse(second));
    // the visits
    let e = Seq::<COps>::empty();
    assert(sem(e, c, fuel) == Effect::Done(c));
    assert(balanced(e));
    lemma_then_look(e, 2, kd, name, c, fuel);
    assert(e + parse(ln1) =~= parse(ln1));
    lemma_then_look(parse(ln1), 2, kt, "\t\t #load_temp0\n"@, c, fuel);
    // the loops
    lemma_then_share(
        q,
        2,
        ka,
        "\t\t[-\n"@,
        kd,
        "\t\t+\n"@,
        true,
        kt,
        "\t\t+\n"@,
        true,
        "\t\t]\n"@,
        c,
        fuel,
    );
    let c1 = shared(c, h, ka, kd, true, kt, true);
    lemma_then_carry_over(q2, 2, kt, ka, "\t\t[-\n"@, "\t\t+\n"@, "\t\t]\n"@, true, c, fuel);
    let want = with_cell(
        with_cell(with_cell(c, h + kd, c.tape[h + kd] + c.tape[h + ka]), h + kt, 0),
        h + ka,
        c.tape[h + ka] + c.tape[h + kt],
    );
    assert(drained(c1, h, kt, ka, true).tape =~= want.tape);
}

/// An addition moves the first operand and the constant into the
/// destination: the destination grows by what the operand's register and the
/// first scratch cell hold and by the constant, and both end as 0.
pub proof fn lemma_add_does(l: Layout, x: usize, y: u64, dest: usize, c: Cells, fuel: nat)
    requires
        on_tape(l, c),
        x < l.scratch,
        dest < l.scratch,
        x != dest,
        y <= 255,
        c.tape[reg_cell(l, c, dest as int)] + c.tape[reg_cell(l, c, x as int)] + c.tape[reg_cell(
            l,
            c,
            l.scratch as int,
        )] + y <= 255,
        fuel >= 255,
    ensures
        sem(
            parse(lower_add(l, Operand::Local(x), Operand::Const(y), dest)->Ok_0),
            c,
            fuel,
        ) == Effect::Done(
            with_cell(
                with_cell(
                    with_cell(
                        c,
                        reg_cell(l, c, dest as int),
                        c.tape[reg_cell(l, c, dest as int)] + c.tape[reg_cell(l, c, x as int)]
                            + c.tape[reg_cell(l, c, l.scratch as int)] + y,
                    ),
                    reg_cell(l, c, x as int),
                    0,
                ),
                reg_cell(l, c, l.scratch as int),
                0,
            ),
        ),
        balanced(parse(lower_add(l, Operand::Local(x), Operand::Const(y), dest)->Ok_0)),
{
    let h = c.mp;
    let kx = reg_at(l, x as int) as nat;
    let kd = reg_at(l, dest as int) as nat;
    let kt = reg_at(l, l.scratch as int) as nat;
    let t = l.scratch as int;
    lemma_lit_add_name();
    lemma_lit_add_by();
    lemma_lit_newline();
    lemma_lit_indent();
    lemma_lit_open_line();
    lemma_lit_plus_line();
    lemma_lit_close_line();
    let name = "\t\t#add_%"@ + decimal(x as nat) + "_c"@ + decimal(y as nat) + "\n"@;
    lemma_quiet_decimal(x as nat);
    lemma_parse_named_numbered("\t\t#add_%"@, decimal(x as nat), "_c"@, y as nat, "\n"@);
    assert(quiet(name));
    let count = "\t\t"@ + repeated('+', y as nat) + "\n"@;
    lemma_parse_counted("\t\t"@, y as nat, "\n"@);
    crate::reasoning::lemma_parse_repeated('+', y as nat);
    assert(parse(count) =~= parse(repeated('+', y as nat)));
    let ln1 = reg(l, dest as int, name);
    let ln2 = reg(l, t, count);
    let ln3 = reg(l, x as int, "\t\t[-\n"@);
    let ln4 = reg(l, dest as int, "\t\t+\n"@);
    let ln5 = reg(l, x as int, "\t\t]\n"@);
    let ln6 = reg(l, t, "\t\t[-\n"@);
    let ln7 = reg(l, dest as int, "\t\t+\n"@);
    let ln8 = reg(l, t, "\t\t]\n"@);
    let text = lower_add(l, Operand::Local(x), Operand::Const(y), dest)->Ok_0;
    assert(text == ln1 + ln2 + ln3 + ln4 + ln5 + ln6 + ln7 + ln8);
    let first = ln3 + ln4 + ln5;
    let second = ln6 + ln7 + ln8;
    lemma_parse_join(ln1 + ln2 + ln3 + ln4 + ln5 + ln6 + ln7, ln8);
    lemma_parse_join(ln1 + ln2 + ln3 + ln4 + ln5 + ln6, ln7);
    lemma_parse_join(ln1 + ln2 + ln3 + ln4 + ln5, ln6);
    lemma_parse_join(ln1 + ln2 + ln3 + ln4, ln5);
    lemma_parse_join(ln1 + ln2 + ln3, ln4);
    lemma_parse_join(ln1 + ln2, ln3);
    lemma_parse_join(ln1, ln2);
    lemma_parse_join(ln3 + ln4, ln5);
    lemma_parse_join(ln3, ln4);
    lemma_parse_join(ln6 + ln7, ln8);
    lemma_parse_join(ln6, ln7);
    let q = parse(ln1) + parse(ln2);
    lemma_regroup(q, parse(ln3), parse(ln4));
    lemma_regroup(q, parse(ln3) + parse(ln4), parse(ln5));
    let q2 = q + parse(first);
    lemma_regroup(q2, parse(ln6), parse(ln7));
    lemma_regroup(q2, parse(ln6) + parse(ln7), parse(ln8));
    assert(parse(text) == q2 + parse(second));
    let e = Seq::<COps>::empty();
    assert(sem(e, c, fuel) == Effect::Done(c));
    assert(balanced(e));
    lemma_then_look(e, 2, kd, name, c, fuel);
    assert(e + parse(ln1) =~= parse(ln1));
    lemma_count_here(true, y as nat, moved(c, kt as int), fuel);
    lemma_then_visit(parse(ln1), 2, kt, count, c, fuel);
    let c2 = with_cell(c, h + kt, c.tape[h + kt] + y);
    assert(sem(q, c, fuel) == Effect::Done(c2));
    lemma_then_carry_over(q, 2, kx, kd, "\t\t[-\n"@, "\t\t+\n"@, "\t\t]\n"@, true, c, fuel);
    let c3 = drained(c2, h, kx, kd, true);
    lemma_then_carry_over(q2, 2, kt, kd, "\t\t[-\n"@, "\t\t+\n"@, "\t\t]\n"@, true, c, fuel);
    let want = with_cell(
        with_cell(
            with_cell(c, h + kd, c.tape[h + kd] + c.tape[h + kx] + c.tape[h + kt] + y),
            h + kx,
            0,
        ),
        h + kt,
        0,
    );
    assert(drained(c3, h, kt, kd, true).tape =~= want.tape);
}

/// A call of the output intrinsic prints its constant, by way of the first
/// scratch cell: what is printed is the constant on top of what the scratch
/// cell holds, and the scratch cell ends as 0.
pub proof fn lemma_putchar_does(l: Layout, call: CallView, c: Cells, fuel: nat)
    requires
        on_tape(l, c),
        lower_putchar(l, call) is Ok,
        c.tape[reg_cell(l, c, l.scratch as int)] + const_of(call.args[0])->Ok_0 <= 255,
        fuel >= 255,
    ensures
        sem(parse(lower_putchar(l, call)->Ok_0), c, fuel) == Effect::Done(
            Cells {
                output: c.output.push(
                    (c.tape[reg_cell(l, c, l.scratch as int)] + const_of(call.args[0])->Ok_0) as u8,
                ),
                ..with_cell(c, reg_cell(l, c, l.scratch as int), 0)
            },
        ),
        balanced(parse(lower_putchar(l, call)->Ok_0)),
{
    let h = c.mp;
    let v = const_of(call.args[0])->Ok_0 as nat;
    let kt = reg_at(l, l.scratch as int) as nat;
    lemma_lit_putchar_note();
    lemma_lit_indent();
    lemma_lit_print_clear();
    let body = "\t\t"@ + repeated('+', v) + " .[-]\n"@;
    lemma_parse_counted("\t\t"@, v, " .[-]\n"@);
    let note = "\t\tputchar intrinsic\n"@;
    let text = lower_putchar(l, call)->Ok_0;
    assert(text == note + reg(l, l.scratch as int, body));
    lemma_parse_join(note, reg(l, l.scratch as int, body));
    // what is done on the scratch cell
    let there = moved(c, kt as int);
    let up = run_of(COps::Add(1i32), v);
    let print = seq![COps::Putchar];
    let clear = seq![COps::JmpIfZ(0), COps::Add(-1i32), COps::JmpIfNZ(0)];
    assert(parse(body) =~= up + print + clear);
    crate::reasoning::lemma_parse_repeated('+', v);
    crate::effects::lemma_parse_clear();
    assert(parse(clear_loop()) =~= clear);
    lemma_count_here(true, v, there, fuel);
    let c1 = put(there, there.cell() + v);
    lemma_then_op(up, COps::Putchar, there, fuel);
    assert(up.push(COps::Putchar) =~= up + print);
    let c2 = Cells { output: c1.output.push(c1.cell()), ..c1 };
    crate::effects::lemma_then_clear(up + print, there, fuel);
    assert(up + print + parse(clear_loop()) =~= parse(body));
    lemma_plain_balanced(up + print);
    let e = Seq::<COps>::empty();
    assert(sem(e, c, fuel) == Effect::Done(c));
    assert(balanced(e));
    assert(e + parse(note) =~= e);
    lemma_then_visit(e, 2, kt, body, c, fuel);
    assert(e + parse(reg(l, l.scratch as int, body)) =~= parse(text));
    let want = Cells {
        output: c.output.push((c.tape[h + kt] + v) as u8),
        ..with_cell(c, h + kt, 0)
    };
    assert(moved(put(c2, 0), -(kt as int)).tape =~= want.tape);
}

/// The cell of the flag of block `b` in the frame that starts under the
/// head.
pub open spec fn flag_cell(l: Layout, c: Cells, b: int) -> int {
    c.mp + 1 + b + l.funcns
}

/// A branch raises the flag of the block it names.
pub proof fn lemma_br_does(f: FunctionView, l: Layout, dest: usize, c: Cells, fuel: nat)
    requires
        on_tape(l, c),
        l.blockns == f.blocks.len(),
        quiet(f.name),
        lower_br(f, l, dest) is Ok,
        c.tape[flag_cell(l, c, block_index(f.blocks, dest)->0)] <= 254,
    ensures
        sem(parse(lower_br(f, l, dest)->Ok_0), c, fuel) == Effect::Done(
            with_cell(
                c,
                flag_cell(l, c, block_index(f.blocks, dest)->0),
                c.tape[flag_cell(l, c, block_index(f.blocks, dest)->0)] + 1,
            ),
        ),
        balanced(parse(lower_br(f, l, dest)->Ok_0)),
{
    lemma_block_index(f.blocks, dest);
    let to = block_index(f.blocks, dest)->0;
    lemma_lit_arm();
    lemma_parse_arm("\t\t+ #"@, f.name, dest as nat);
    let line = "\t\t+ #"@ + f.name + "/"@ + decimal(dest as nat) + "\n"@;
    let e = Seq::<COps>::empty();
    assert(sem(e, c, fuel) == Effect::Done(c));
    assert(balanced(e));
    lemma_then_step(e, 2, (1 + to + l.funcns) as nat, line, true, c, fuel);
    assert(e + parse(flag(l, to, line)) =~= parse(flag(l, to, line)));
}

/// A conditional branch on a condition that is 0 or 1, with the first
/// scratch cell free: the flag of the one block is raised if the condition is
/// 1, the flag of the other if it is 0, and the condition's register and the
/// scratch cell end as 0.
pub proof fn lemma_condbr_does(
    f: FunctionView,
    l: Layout,
    cond: usize,
    true_dest: usize,
    false_dest: usize,
    c: Cells,
    fuel: nat,
)
    requires
        on_tape(l, c),
        l.blockns == f.blocks.len(),
        quiet(f.name),
        cond < l.scratch,
        lower_condbr(f, l, Operand::Local(cond), true_dest, false_dest) is Ok,
        c.tape[reg_cell(l, c, cond as int)] <= 1,
        c.tape[reg_cell(l, c, l.scratch as int)] == 0,
        c.tape[flag_cell(l, c, block_index(f.blocks, true_dest)->0)] <= 253,
        c.tape[flag_cell(l, c, block_index(f.blocks, false_dest)->0)] <= 253,
        fuel >= 255,
    ensures
        sem(
            parse(lower_condbr(f, l, Operand::Local(cond), true_dest, false_dest)->Ok_0),
            c,
            fuel,
        ) == Effect::Done(
            with_cell(
                with_cell(
                    c,
                    reg_cell(l, c, cond as int),
                    0,
                ),
                flag_cell(
                    l,
                    c,
                    if c.tape[reg_cell(l, c, cond as int)] == 1 {
                        block_index(f.blocks, true_dest)->0
                    } else {
                        block_index(f.blocks, false_dest)->0
                    },
                ),
                c.tape[flag_cell(
                    l,
                    c,
                    if c.tape[reg_cell(l, c, cond as int)] == 1 {
                        block_index(f.blocks, true_dest)->0
                    } else {
                        block_index(f.blocks, false_dest)->0
                    },
                )] + 1,
            ),
        ),
        balanced(parse(lower_condbr(f, l, Operand::Local(cond), true_dest, false_dest)->Ok_0)),
{
    let h = c.mp;
    lemma_block_index(f.blocks, true_dest);
    lemma_block_index(f.blocks, false_dest);
    let yes = block_index(f.blocks, true_dest)->0;
    let no = block_index(f.blocks, false_dest)->0;
    let t = l.scratch as int;
    let kc = reg_at(l, cond as int) as nat;
    let kt = reg_at(l, t) as nat;
    let ky = (1 + yes + l.funcns) as nat;
    let kn = (1 + no + l.funcns) as nat;
    lemma_lit_arm();
    lemma_lit_plus_line();
    lemma_lit_minus_line();
    lemma_lit_open_line();
    lemma_lit_close_line();
    let arm_yes = "\t\t+ #"@ + f.name + "/"@ + decimal(true_dest as nat) + "\n"@;
    let arm_no = "\t\t+ #"@ + f.name + "/"@ + decimal(false_dest as nat) + "\n"@;
    lemma_parse_arm("\t\t+ #"@, f.name, true_dest as nat);
    lemma_parse_arm("\t\t+ #"@, f.name, false_dest as nat);
    let ln1 = reg(l, t, "\t\t+\n"@);
    let ln2 = reg(l, cond as int, "\t\t[-\n"@);
    let ln3 = reg(l, t, "\t\t-\n"@);
    let ln4 = flag(l, yes, arm_yes);
    let ln5 = reg(l, cond as int, "\t\t]\n"@);
    let ln6 = reg(l, t, "\t\t[-\n"@);
    let ln7 = flag(l, no, arm_no);
    let ln8 = reg(l, t, "\t\t]\n"@);
    let text = lower_condbr(f, l, Operand::Local(cond), true_dest, false_dest)->Ok_0;
    assert(text == ln1 + ln2 + ln3 + ln4 + ln5 + ln6 + ln7 + ln8);
    let first = ln2 + (ln3 + ln4) + ln5;
    let second = ln6 + ln7 + ln8;
    lemma_parse_join(ln1 + ln2 + ln3 + ln4 + ln5 + ln6 + ln7, ln8);
    lemma_parse_join(ln1 + ln2 + ln3 + ln4 + ln5 + ln6, ln7);
    lemma_parse_join(ln1 + ln2 + ln3 + ln4 + ln5, ln6);
    lemma_parse_join(ln1 + ln2 + ln3 + ln4, ln5);
    lemma_parse_join(ln1 + ln2 + ln3, ln4);
    lemma_parse_join(ln1 + ln2, ln3);
    lemma_parse_join(ln1, ln2);
    lemma_parse_join(ln2 + (ln3 + ln4), ln5);
    lemma_parse_join(ln2, ln3 + ln4);
    lemma_parse_join(ln3, ln4);
    lemma_parse_join(ln6 + ln7, ln8);
    lemma_parse_join(ln6, ln7);
    let q = parse(ln1);
    lemma_regroup(q + parse(ln2), parse(ln3), parse(ln4));
    lemma_regroup(q, parse(ln2), parse(ln3) + parse(ln4));
    lemma_regroup(q, parse(ln2) + (parse(ln3) + parse(ln4)), parse(ln5));
    let q2 = q + parse(first);
    lemma_regroup(q2, parse(ln6), parse(ln7));
    lemma_regroup(q2, parse(ln6) + parse(ln7), parse(ln8));
    assert(parse(text) == q2 + parse(second));
    let e = Seq::<COps>::empty();
    assert(sem(e, c, fuel) == Effect::Done(c));
    assert(balanced(e));
    lemma_then_step(e, 2, kt, "\t\t+\n"@, true, c, fuel);
    assert(e + parse(ln1) =~= parse(ln1));
    let c1 = with_cell(c, h + kt, 1);
    assert(sem(q, c, fuel) == Effect::Done(c1));
    lemma_then_share(
        q,
        2,
        kc,
        "\t\t[-\n"@,
        kt,
        "\t\t-\n"@,
        false,
        ky,
        arm_yes,
        true,
        "\t\t]\n"@,
        c,
        fuel,
    );
    let c2 = shared(c1, h, kc, kt, false, ky, true);
    lemma_then_carry_over(q2, 2, kt, kn, "\t\t[-\n"@, arm_no, "\t\t]\n"@, true, c, fuel);
    let taken = if c.tape[h + kc] == 1 {
        yes
    } else {
        no
    };
    let want = with_cell(
        with_cell(c, h + kc, 0),
        h + 1 + taken + l.funcns,
        c.tape[h + 1 + taken + l.funcns] + 1,
    );
    assert(drained(c2, h, kt, kn, true).tape =~= want.tape);
}

/// A return takes the entry flag of the frame and the flag of the function
/// down, and moves the head back by one frame.
pub proof fn lemma_ret_does(f: FunctionView, l: Layout, fid: int, c: Cells, fuel: nat)
    requires
        l.wf(),
        0 <= fid < l.funcns,
        quiet(f.name),
        l.width <= c.mp,
        c.mp + l.width <= c.tape.len(),
        c.tape[c.mp] >= 1,
        c.tape[c.mp + 1 + fid] >= 1,
    ensures
        sem(parse(lower_ret(f, l, fid)), c, fuel) == Effect::Done(
            moved(
                with_cell(
                    with_cell(c, c.mp, c.tape[c.mp] - 1),
                    c.mp + 1 + fid,
                    c.tape[c.mp + 1 + fid] - 1,
                ),
                -(l.width as int),
            ),
        ),
        balanced(parse(lower_ret(f, l, fid))),
{
    let h = c.mp;
    let w = l.width as nat;
    lemma_lit_dead_func();
    lemma_lit_uncall();
    lemma_lit_newline();
    lemma_lit_indent();
    lemma_lit_prev_frame();
    let dead = "\t\t- #ded_func_"@ + f.name + "\n"@;
    let uncall = "\t\t- uncall func "@ + f.name + "\n"@;
    let back = "\t\t"@ + repeated('<', w) + " prev frame\n"@;
    lemma_parse_line("\t\t- #ded_func_"@, f.name, "\n"@, COps::Add(-1i32));
    lemma_parse_line("\t\t- uncall func "@, f.name, "\n"@, COps::Add(-1i32));
    lemma_parse_join("\t\t"@ + repeated('<', w), " prev frame\n"@);
    lemma_parse_join("\t\t"@, repeated('<', w));
    crate::reasoning::lemma_parse_repeated('<', w);
    lemma_parse_move(w, 0);
    assert(parse(back) =~= mv(w, 0));
    let text = lower_ret(f, l, fid);
    assert(text == dead + goto_func(2, fid as nat, uncall) + back);
    lemma_parse_join(dead + goto_func(2, fid as nat, uncall), back);
    lemma_parse_join(dead, goto_func(2, fid as nat, uncall));
    let e = Seq::<COps>::empty();
    assert(sem(e, c, fuel) == Effect::Done(c));
    assert(balanced(e));
    lemma_then_op(e, COps::Add(-1i32), c, fuel);
    assert(e.push(COps::Add(-1i32)) =~= parse(dead));
    let c1 = with_cell(c, h, c.tape[h] - 1);
    assert(sem(parse(dead), c, fuel) == Effect::Done(c1));
    lemma_plain_balanced(parse(dead));
    lemma_then_step(parse(dead), 2, (1 + fid) as nat, uncall, false, c, fuel);
    let x2 = parse(dead) + parse(goto_func(2, fid as nat, uncall));
    lemma_then_mv(x2, w, 0, c, fuel);
    lemma_mv_plain(w, 0);
    lemma_line_balanced(x2, mv(w, 0));
}

/// A call of a function of the module moves the head on by one frame and
/// raises, in the frame there, the entry flag, the flag of the callee, and
/// the flag of the callee's entry block.
pub proof fn lemma_enter_does(
    functions: Seq<FunctionView>,
    l: Layout,
    callee: Seq<char>,
    c: Cells,
    fuel: nat,
)
    requires
        l.wf(),
        l.funcns == functions.len(),
        names_quiet(functions),
        lower_enter(functions, l, callee) is Ok,
        0 <= c.mp,
        c.mp + 2 * l.width <= c.tape.len(),
        c.tape[c.mp + l.width] <= 254,
        c.tape[c.mp + l.width + 1 + function_index(functions, callee)->0] <= 254,
        c.tape[c.mp + l.width + 1 + l.funcns] <= 254,
    ensures
        sem(parse(lower_enter(functions, l, callee)->Ok_0), c, fuel) == Effect::Done(
            moved(
                with_cell(
                    with_cell(
                        with_cell(c, c.mp + l.width, c.tape[c.mp + l.width] + 1),
                        c.mp + l.width + 1 + function_index(functions, callee)->0,
                        c.tape[c.mp + l.width + 1 + function_index(functions, callee)->0] + 1,
                    ),
                    c.mp + l.width + 1 + l.funcns,
                    c.tape[c.mp + l.width + 1 + l.funcns] + 1,
                ),
                l.width as int,
            ),
        ),
        balanced(parse(lower_enter(functions, l, callee)->Ok_0)),
{
    let h = c.mp;
    let w = l.width as nat;
    lemma_function_index(functions, callee);
    let id = function_index(functions, callee)->0;
    assert(quiet(functions[id].name));
    lemma_lit_indent();
    lemma_lit_next_frame();
    lemma_lit_frame_flag();
    lemma_lit_frame_tail();
    lemma_lit_call_func();
    lemma_lit_newline();
    lemma_lit_arm();
    lemma_lit_entry_block();
    let t1 = "\t\t"@;
    let t2 = t1 + repeated('>', w);
    let t3 = t2 + " next frame\n"@;
    let raise = "\t\t+ #__FRAME_"@ + callee + "__\n"@;
    let t4 = t3 + raise;
    let call = "\t\t+ call func #"@ + callee + "\n"@;
    let t5 = t4 + goto_func(2, id as nat, call);
    let entry = "\t\t+ #"@ + callee + "/b0\n"@;
    let t6 = t5 + flag(l, 0, entry);
    assert(lower_enter(functions, l, callee)->Ok_0 == t6);
    lemma_parse_join(t5, flag(l, 0, entry));
    lemma_parse_join(t4, goto_func(2, id as nat, call));
    lemma_parse_join(t3, raise);
    lemma_parse_join(t2, " next frame\n"@);
    lemma_parse_join(t1, repeated('>', w));
    crate::reasoning::lemma_parse_repeated('>', w);
    lemma_parse_move(0, w);
    assert(parse(t3) =~= mv(0, w));
    lemma_parse_line("\t\t+ #__FRAME_"@, callee, "__\n"@, COps::Add(1i32));
    lemma_parse_line("\t\t+ call func #"@, callee, "\n"@, COps::Add(1i32));
    lemma_parse_line("\t\t+ #"@, callee, "/b0\n"@, COps::Add(1i32));
    let e = Seq::<COps>::empty();
    assert(sem(e, c, fuel) == Effect::Done(c));
    assert(balanced(e));
    lemma_then_mv(e, 0, w, c, fuel);
    assert(e + mv(0, w) =~= mv(0, w));
    let c1 = moved(c, w as int);
    lemma_mv_plain(0, w);
    lemma_plain_balanced(mv(0, w));
    lemma_then_op(parse(t3), COps::Add(1i32), c, fuel);
    assert(parse(t3).push(COps::Add(1i32)) =~= parse(t4));
    let c2 = with_cell(c1, h + w, c.tape[h + w] + 1);
    assert(sem(parse(t4), c, fuel) == Effect::Done(c2));
    lemma_line_balanced(parse(t3), seq![COps::Add(1i32)]);
    assert(parse(t3) + seq![COps::Add(1i32)] =~= parse(t4));
    lemma_then_step(parse(t4), 2, (1 + id) as nat, call, true, c, fuel);
    lemma_then_step(parse(t5), 2, (1 + l.funcns) as nat, entry, true, c, fuel);
}

/// The prelude opens the first frame: it moves the head on by one frame and
/// raises, in the frame there, the entry flag, the flag of `main`, and the
/// flag of the entry block.
pub proof fn lemma_prelude_does(m: ModuleView, main: int, c: Cells, fuel: nat)
    requires
        0 <= main < m.functions.len(),
        frame_width(m) <= TAPE_SIZE,
        0 <= c.mp,
        c.mp + 2 * frame_width(m) <= c.tape.len(),
        c.tape[c.mp + frame_width(m)] <= 254,
        c.tape[c.mp + frame_width(m) + 1 + main] <= 254,
        c.tape[c.mp + frame_width(m) + 1 + m.functions.len()] <= 254,
    ensures
        sem(parse(prelude(m, main)), c, fuel) == Effect::Done(
            moved(
                with_cell(
                    with_cell(
                        with_cell(c, c.mp + frame_width(m), c.tape[c.mp + frame_width(m)] + 1),
                        c.mp + frame_width(m) + 1 + main,
                        c.tape[c.mp + frame_width(m) + 1 + main] + 1,
                    ),
                    c.mp + frame_width(m) + 1 + m.functions.len(),
                    c.tape[c.mp + frame_width(m) + 1 + m.functions.len()] + 1,
                ),
                frame_width(m),
            ),
        ),
        balanced(parse(prelude(m, main))),
{
    let h = c.mp;
    let w = frame_width(m) as nat;
    let n = m.functions.len();
    lemma_layout_wf(m, main);
    lemma_lit_first_frame();
    lemma_lit_runtime_init();
    lemma_lit_entry_flag();
    lemma_lit_call_main();
    lemma_lit_at_main();
    lemma_lit_newline();
    let t1 = repeated('>', w) + " first frame\n"@;
    let t2 = t1 + "runtime init: \n"@;
    let t3 = t2 + "+ #__FRAME__ENTRY__\n"@;
    let t4 = t3 + goto_func(0, main as nat, "+ call #main\n"@);
    let t5 = t4 + goto_block(0, 0, n, "+ at #main/b0\n"@);
    let t6 = t5 + "\n"@;
    assert(prelude(m, main) == t6);
    lemma_parse_join(t5, "\n"@);
    lemma_parse_join(t4, goto_block(0, 0, n, "+ at #main/b0\n"@));
    lemma_parse_join(t3, goto_func(0, main as nat, "+ call #main\n"@));
    lemma_parse_join(t2, "+ #__FRAME__ENTRY__\n"@);
    lemma_parse_join(t1, "runtime init: \n"@);
    lemma_parse_join(repeated('>', w), " first frame\n"@);
    crate::reasoning::lemma_parse_repeated('>', w);
    lemma_parse_move(0, w);
    let none = Seq::<COps>::empty();
    assert(parse(t2) =~= mv(0, w));
    assert(parse(t6) =~= parse(t5));
    let e = Seq::<COps>::empty();
    assert(sem(e, c, fuel) == Effect::Done(c));
    assert(balanced(e));
    lemma_then_mv(e, 0, w, c, fuel);
    assert(e + mv(0, w) =~= mv(0, w));
    let c1 = moved(c, w as int);
    lemma_mv_plain(0, w);
    lemma_plain_balanced(mv(0, w));
    lemma_then_op(parse(t2), COps::Add(1i32), c, fuel);
    assert(parse(t2).push(COps::Add(1i32)) =~= parse(t3));
    let c2 = with_cell(c1, h + w, c.tape[h + w] + 1);
    assert(sem(parse(t3), c, fuel) == Effect::Done(c2));
    lemma_line_balanced(parse(t2), seq![COps::Add(1i32)]);
    assert(parse(t2) + seq![COps::Add(1i32)] =~= parse(t3));
    lemma_then_step(parse(t3), 0, (1 + main) as nat, "+ call #main\n"@, true, c, fuel);
    lemma_then_step(parse(t4), 0, (1 + n) as nat, "+ at #main/b0\n"@, true, c, fuel);
}

} // verus!
