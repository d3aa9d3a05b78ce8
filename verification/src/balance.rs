//! Every piece of an emitted program can be walked: it leaves the head on the
//! first cell of the live frame, and the loops that were open as they were.
use vstd::prelude::*;
use crate::discipline::{
    here, lemma_parse_counted, lemma_parse_named, lemma_parse_named_numbered, lemma_parse_numbered,
    lemma_quiet_beside, lemma_quiet_decimal, lemma_stroll_goto, lemma_stroll_join,
    lemma_stroll_quiet, lemma_walk_count, lemma_walk_join, lemma_walk_left, lemma_walk_one,
    lemma_walk_right, quiet, strolls, walk,
};
use crate::emit::{
    block_index, const_of, flag, function_index, has_call, lemma_block_index, lemma_function_index,
    listed, local_of, lower_add, lower_alloca, lower_block, lower_blocks, lower_body, lower_br,
    lower_call, lower_condbr, lower_enter, lower_function, lower_functions, lower_instr,
    lower_instrs, lower_kind, lower_load, lower_module, lower_putchar, lower_ret, lower_store,
    lower_term, prelude, reg,
};
use crate::interp::{op_of_char, parse, COps, TAPE_SIZE};
use crate::ir::{
    br_text, br_to, BlockView, CallView, FunctionView, InstrKindView, InstrView, ModuleView,
    Operand, TermKind, TermView, Ty,
};
use crate::layout::{
    block_reach, blocks_reach, frame_width, goto_block, goto_func, instr_reach, layout_of,
    lemma_block_within, lemma_instr_within, lemma_layout_wf, operand_reach, term_reach, Layout,
    SCRATCH_CELLS,
};
use crate::literals::{
    lemma_lit_add_by, lemma_lit_add_name, lemma_lit_alloca, lemma_lit_arm, lemma_lit_at_main,
    lemma_lit_block_close, lemma_lit_block_lead, lemma_lit_block_open, lemma_lit_br_label,
    lemma_lit_call_func, lemma_lit_call_main, lemma_lit_clear_lead, lemma_lit_clear_line,
    lemma_lit_close_line, lemma_lit_dead_func, lemma_lit_enable_next, lemma_lit_entry_block,
    lemma_lit_entry_flag, lemma_lit_first_frame, lemma_lit_frame_flag, lemma_lit_frame_tail,
    lemma_lit_func_close, lemma_lit_func_lead, lemma_lit_func_open, lemma_lit_indent,
    lemma_lit_load_name, lemma_lit_load_temp, lemma_lit_load_to, lemma_lit_loop_close,
    lemma_lit_loop_open, lemma_lit_minus_line, lemma_lit_newline, lemma_lit_next_frame,
    lemma_lit_open_line, lemma_lit_plus_line, lemma_lit_prev_frame, lemma_lit_print_clear,
    lemma_lit_putchar_note, lemma_lit_runtime_init, lemma_lit_slash, lemma_lit_term_lead,
    lemma_lit_uncall,
};
use crate::normalize::{
    extras, guard_block, guard_function, guard_module, head_of, lemma_first_call, max_name,
    needs_guard, split_block, split_blocks, split_function, split_module, split_point, tail_of,
};
use crate::reasoning::{lemma_parse_join, lemma_parse_push, lemma_parse_repeated, run_of};
use crate::text::{decimal, repeated, sanitized};

verus! {

/// The text of an instruction or terminator holds no instruction of the tape
/// language once its commas are replaced.
pub open spec fn hushed(text: Seq<char>) -> bool {
    quiet(sanitized(text))
}

// ---------------------------------------------------------------------------
// Walks through what is done on a cell
// ---------------------------------------------------------------------------

/// An increment, or a decrement, of a cell that is no entry flag.
pub proof fn lemma_walk_touch(w: int, op: COps, k: int, loops: Seq<int>)
    requires
        op is Add,
        k != 0,
        k != w,
    ensures
        walk(w, seq![op], here(k, loops)) == Some(here(k, loops)),
{
    lemma_walk_one(w, op, here(k, loops));
}

/// The opening of a loop that takes one from its cell.
pub proof fn lemma_walk_open(w: int, k: int, loops: Seq<int>)
    requires
        k != 0,
        k != w,
    ensures
        walk(w, seq![COps::JmpIfZ(0), COps::Add(-1i32)], here(k, loops)) == Some(
            here(k, loops.push(k)),
        ),
{
    let code = seq![COps::JmpIfZ(0), COps::Add(-1i32)];
    assert(code =~= seq![COps::JmpIfZ(0)] + seq![COps::Add(-1i32)]);
    lemma_walk_join(w, seq![COps::JmpIfZ(0)], seq![COps::Add(-1i32)], here(k, loops));
    lemma_walk_one(w, COps::JmpIfZ(0), here(k, loops));
    lemma_walk_one(w, COps::Add(-1i32), here(k, loops.push(k)));
}

/// The opening of a loop.
pub proof fn lemma_walk_enter(w: int, k: int, loops: Seq<int>)
    ensures
        walk(w, seq![COps::JmpIfZ(0)], here(k, loops)) == Some(here(k, loops.push(k))),
{
    lemma_walk_one(w, COps::JmpIfZ(0), here(k, loops));
}

/// The closing of a loop on the cell on which it was opened.
pub proof fn lemma_walk_close(w: int, k: int, loops: Seq<int>)
    ensures
        walk(w, seq![COps::JmpIfNZ(0)], here(k, loops.push(k))) == Some(here(k, loops)),
{
    lemma_walk_one(w, COps::JmpIfNZ(0), here(k, loops.push(k)));
    assert(loops.push(k).drop_last() =~= loops);
}

/// A loop that clears its cell.
pub proof fn lemma_walk_clear(w: int, k: int, loops: Seq<int>)
    requires
        k != 0,
        k != w,
    ensures
        walk(w, seq![COps::JmpIfZ(0), COps::Add(-1i32), COps::JmpIfNZ(0)], here(k, loops)) == Some(
            here(k, loops),
        ),
{
    let code = seq![COps::JmpIfZ(0), COps::Add(-1i32), COps::JmpIfNZ(0)];
    assert(code =~= seq![COps::JmpIfZ(0), COps::Add(-1i32)] + seq![COps::JmpIfNZ(0)]);
    lemma_walk_join(
        w,
        seq![COps::JmpIfZ(0), COps::Add(-1i32)],
        seq![COps::JmpIfNZ(0)],
        here(k, loops),
    );
    lemma_walk_open(w, k, loops);
    lemma_walk_close(w, k, loops);
}

/// The entry flag of the frame above the live one is raised: that frame is
/// the live one now.
pub proof fn lemma_walk_raise(w: int, loops: Seq<int>)
    requires
        w > 0,
    ensures
        walk(w, seq![COps::Add(1i32)], here(w, loops)) == Some(here(0, loops)),
{
    lemma_walk_one(w, COps::Add(1i32), here(w, loops));
}

/// The entry flag of the live frame is taken down: the frame below is the
/// live one now.
pub proof fn lemma_walk_lower(w: int, loops: Seq<int>)
    requires
        w > 0,
    ensures
        walk(w, seq![COps::Add(-1i32)], here(0, loops)) == Some(here(w, loops)),
{
    lemma_walk_one(w, COps::Add(-1i32), here(0, loops));
}

// ---------------------------------------------------------------------------
// Walks to a register
// ---------------------------------------------------------------------------

/// The distance of register `r` from the first cell of the frame.
pub open spec fn reg_at(l: Layout, r: int) -> int {
    1 + l.funcns + l.blockns + r
}

/// What is done on a register, scratch cells included, with the walk there
/// and back.
pub proof fn lemma_reg(
    l: Layout,
    r: int,
    body: Seq<char>,
    ops: Seq<COps>,
    before: Seq<int>,
    after: Seq<int>,
)
    requires
        l.wf(),
        0 <= r < l.scratch + SCRATCH_CELLS,
        parse(body) == ops,
        walk(l.width as int, ops, here(reg_at(l, r), before)) == Some(here(reg_at(l, r), after)),
    ensures
        strolls(l.width as int, reg(l, r, body), here(0, before), here(0, after)),
{
    lemma_stroll_goto(l.width as int, 2, reg_at(l, r) as nat, body, 0, before, after);
}

/// A register is visited and nothing is done there.
pub proof fn lemma_reg_quiet(l: Layout, r: int, body: Seq<char>, loops: Seq<int>)
    requires
        l.wf(),
        0 <= r < l.scratch + SCRATCH_CELLS,
        quiet(body),
    ensures
        strolls(l.width as int, reg(l, r, body), here(0, loops), here(0, loops)),
{
    lemma_reg(l, r, body, Seq::empty(), loops, loops);
}

/// A register is counted up or down by one.
pub proof fn lemma_reg_touch(l: Layout, r: int, body: Seq<char>, op: COps, loops: Seq<int>)
    requires
        l.wf(),
        0 <= r < l.scratch + SCRATCH_CELLS,
        op is Add,
        parse(body) == seq![op],
    ensures
        strolls(l.width as int, reg(l, r, body), here(0, loops), here(0, loops)),
{
    lemma_walk_touch(l.width as int, op, reg_at(l, r), loops);
    lemma_reg(l, r, body, seq![op], loops, loops);
}

/// A loop is opened on a register.
pub proof fn lemma_reg_open(l: Layout, r: int, body: Seq<char>, loops: Seq<int>)
    requires
        l.wf(),
        0 <= r < l.scratch + SCRATCH_CELLS,
        parse(body) == seq![COps::JmpIfZ(0), COps::Add(-1i32)],
    ensures
        strolls(
            l.width as int,
            reg(l, r, body),
            here(0, loops),
            here(0, loops.push(reg_at(l, r))),
        ),
{
    lemma_walk_open(l.width as int, reg_at(l, r), loops);
    lemma_reg(l, r, body, parse(body), loops, loops.push(reg_at(l, r)));
}

/// A loop is closed on the register on which it was opened.
pub proof fn lemma_reg_close(l: Layout, r: int, body: Seq<char>, loops: Seq<int>)
    requires
        l.wf(),
        0 <= r < l.scratch + SCRATCH_CELLS,
        parse(body) == seq![COps::JmpIfNZ(0)],
    ensures
        strolls(
            l.width as int,
            reg(l, r, body),
            here(0, loops.push(reg_at(l, r))),
            here(0, loops),
        ),
{
    lemma_walk_close(l.width as int, reg_at(l, r), loops);
    lemma_reg(l, r, body, parse(body), loops.push(reg_at(l, r)), loops);
}

/// A register is cleared and counted up.
pub proof fn lemma_reg_set(l: Layout, r: int, v: nat, loops: Seq<int>)
    requires
        l.wf(),
        0 <= r < l.scratch + SCRATCH_CELLS,
    ensures
        strolls(
            l.width as int,
            reg(l, r, "\t\t[-]"@ + repeated('+', v) + "\n"@),
            here(0, loops),
            here(0, loops),
        ),
{
    let w = l.width as int;
    let k = reg_at(l, r);
    let body = "\t\t[-]"@ + repeated('+', v) + "\n"@;
    lemma_parse_counted("\t\t[-]"@, v, "\n"@);
    lemma_lit_clear_lead();
    lemma_lit_newline();
    let clear = seq![COps::JmpIfZ(0), COps::Add(-1i32), COps::JmpIfNZ(0)];
    let ops = clear + run_of(COps::Add(1i32), v);
    assert(parse(body) =~= ops);
    lemma_walk_join(w, clear, run_of(COps::Add(1i32), v), here(k, loops));
    lemma_walk_clear(w, k, loops);
    lemma_walk_count(w, v, here(k, loops));
    lemma_reg(l, r, body, ops, loops, loops);
}

/// A register is counted up.
pub proof fn lemma_reg_count(l: Layout, r: int, v: nat, loops: Seq<int>)
    requires
        l.wf(),
        0 <= r < l.scratch + SCRATCH_CELLS,
    ensures
        strolls(
            l.width as int,
            reg(l, r, "\t\t"@ + repeated('+', v) + "\n"@),
            here(0, loops),
            here(0, loops),
        ),
{
    let w = l.width as int;
    let k = reg_at(l, r);
    let body = "\t\t"@ + repeated('+', v) + "\n"@;
    lemma_parse_counted("\t\t"@, v, "\n"@);
    lemma_lit_indent();
    lemma_lit_newline();
    let ops = run_of(COps::Add(1i32), v);
    assert(parse(body) =~= ops);
    lemma_walk_count(w, v, here(k, loops));
    lemma_reg(l, r, body, ops, loops, loops);
}

// ---------------------------------------------------------------------------
// Instructions
// ---------------------------------------------------------------------------

/// An allocation can be walked.
pub proof fn lemma_alloca_walks(l: Layout, ty: Ty, dest: usize, loops: Seq<int>)
    requires
        l.wf(),
        dest < l.scratch,
        lower_alloca(l, ty, dest) is Ok,
    ensures
        strolls(l.width as int, lower_alloca(l, ty, dest)->Ok_0, here(0, loops), here(0, loops)),
{
    lemma_lit_alloca();
    lemma_lit_newline();
    lemma_parse_numbered("\t\t#alloca_%"@, dest as nat, "\n"@);
    lemma_reg_quiet(l, dest as int, "\t\t#alloca_%"@ + decimal(dest as nat) + "\n"@, loops);
}

/// A store can be walked.
pub proof fn lemma_store_walks(l: Layout, value: Operand, addr: Operand, loops: Seq<int>)
    requires
        l.wf(),
        operand_reach(value) <= l.scratch,
        operand_reach(addr) <= l.scratch,
        lower_store(l, value, addr) is Ok,
    ensures
        strolls(
            l.width as int,
            lower_store(l, value, addr)->Ok_0,
            here(0, loops),
            here(0, loops),
        ),
{
    let w = l.width as int;
    let a = local_of(addr)->Ok_0 as int;
    match value {
        Operand::Local(n) => {
            lemma_lit_clear_line();
            lemma_lit_open_line();
            lemma_lit_plus_line();
            lemma_lit_close_line();
            let ln1 = reg(l, a, "\t\t[-]\n"@);
            let ln2 = reg(l, n as int, "\t\t[-\n"@);
            let ln3 = reg(l, a, "\t\t+\n"@);
            let ln4 = reg(l, n as int, "\t\t]\n"@);
            let inside = loops.push(reg_at(l, n as int));
            lemma_walk_clear(w, reg_at(l, a), loops);
            lemma_reg(l, a, "\t\t[-]\n"@, parse("\t\t[-]\n"@), loops, loops);
            lemma_reg_open(l, n as int, "\t\t[-\n"@, loops);
            lemma_reg_touch(l, a, "\t\t+\n"@, COps::Add(1i32), inside);
            lemma_reg_close(l, n as int, "\t\t]\n"@, loops);
            lemma_stroll_join(w, ln1, ln2, here(0, loops), here(0, loops), here(0, inside));
            lemma_stroll_join(w, ln1 + ln2, ln3, here(0, loops), here(0, inside), here(0, inside));
            lemma_stroll_join(w, ln1 + ln2 + ln3, ln4, here(0, loops), here(0, inside), here(0, loops));
        },
        Operand::Const(v) => {
            lemma_reg_set(l, a, v as nat, loops);
        },
        Operand::Other => {},
    }
}

/// A load can be walked.
pub proof fn lemma_load_walks(l: Layout, addr: Operand, dest: usize, loops: Seq<int>)
    requires
        l.wf(),
        operand_reach(addr) <= l.scratch,
        dest < l.scratch,
        lower_load(l, addr, dest) is Ok,
    ensures
        strolls(l.width as int, lower_load(l, addr, dest)->Ok_0, here(0, loops), here(0, loops)),
{
    let w = l.width as int;
    let a = local_of(addr)->Ok_0 as int;
    let d = dest as int;
    let t = l.scratch as int;
    lemma_lit_load_name();
    lemma_lit_load_to();
    lemma_lit_newline();
    lemma_lit_load_temp();
    lemma_lit_open_line();
    lemma_lit_plus_line();
    lemma_lit_close_line();
    let name = "\t\t #load_%"@ + decimal(a as nat) + "_to_%"@ + decimal(dest as nat) + "\n"@;
    lemma_quiet_decimal(a as nat);
    lemma_parse_named_numbered("\t\t #load_%"@, decimal(a as nat), "_to_%"@, dest as nat, "\n"@);
    assert(quiet(name));
    let ln1 = reg(l, d, name);
    let ln2 = ln1 + reg(l, t, "\t\t #load_temp0\n"@);
    let ln3 = ln2 + reg(l, a, "\t\t[-\n"@);
    let ln4 = ln3 + reg(l, d, "\t\t+\n"@);
    let ln5 = ln4 + reg(l, t, "\t\t+\n"@);
    let ln6 = ln5 + reg(l, a, "\t\t]\n"@);
    let ln7 = ln6 + reg(l, t, "\t\t[-\n"@);
    let ln8 = ln7 + reg(l, a, "\t\t+\n"@);
    let ln9 = ln8 + reg(l, t, "\t\t]\n"@);
    let s0 = here(0, loops);
    let in_a = here(0, loops.push(reg_at(l, a)));
    let in_t = here(0, loops.push(reg_at(l, t)));
    lemma_reg_quiet(l, d, name, loops);
    lemma_reg_quiet(l, t, "\t\t #load_temp0\n"@, loops);
    lemma_reg_open(l, a, "\t\t[-\n"@, loops);
    lemma_reg_touch(l, d, "\t\t+\n"@, COps::Add(1i32), in_a.loops);
    lemma_reg_touch(l, t, "\t\t+\n"@, COps::Add(1i32), in_a.loops);
    lemma_reg_close(l, a, "\t\t]\n"@, loops);
    lemma_reg_open(l, t, "\t\t[-\n"@, loops);
    lemma_reg_touch(l, a, "\t\t+\n"@, COps::Add(1i32), in_t.loops);
    lemma_reg_close(l, t, "\t\t]\n"@, loops);
    lemma_stroll_join(w, ln1, reg(l, t, "\t\t #load_temp0\n"@), s0, s0, s0);
    lemma_stroll_join(w, ln2, reg(l, a, "\t\t[-\n"@), s0, s0, in_a);
    lemma_stroll_join(w, ln3, reg(l, d, "\t\t+\n"@), s0, in_a, in_a);
    lemma_stroll_join(w, ln4, reg(l, t, "\t\t+\n"@), s0, in_a, in_a);
    lemma_stroll_join(w, ln5, reg(l, a, "\t\t]\n"@), s0, in_a, s0);
    lemma_stroll_join(w, ln6, reg(l, t, "\t\t[-\n"@), s0, s0, in_t);
    lemma_stroll_join(w, ln7, reg(l, a, "\t\t+\n"@), s0, in_t, in_t);
    lemma_stroll_join(w, ln8, reg(l, t, "\t\t]\n"@), s0, in_t, s0);
}

/// An addition can be walked.
pub proof fn lemma_add_walks(l: Layout, op0: Operand, op1: Operand, dest: usize, loops: Seq<int>)
    requires
        l.wf(),
        operand_reach(op0) <= l.scratch,
        dest < l.scratch,
        lower_add(l, op0, op1, dest) is Ok,
    ensures
        strolls(
            l.width as int,
            lower_add(l, op0, op1, dest)->Ok_0,
            here(0, loops),
            here(0, loops),
        ),
{
    let w = l.width as int;
    let x = local_of(op0)->Ok_0 as int;
    let y = const_of(op1)->Ok_0;
    let d = dest as int;
    let t = l.scratch as int;
    lemma_lit_add_name();
    lemma_lit_add_by();
    lemma_lit_newline();
    lemma_lit_open_line();
    lemma_lit_plus_line();
    lemma_lit_close_line();
    let name = "\t\t#add_%"@ + decimal(x as nat) + "_c"@ + decimal(y as nat) + "\n"@;
    lemma_quiet_decimal(x as nat);
    lemma_parse_named_numbered("\t\t#add_%"@, decimal(x as nat), "_c"@, y as nat, "\n"@);
    assert(quiet(name));
    let count = "\t\t"@ + repeated('+', y as nat) + "\n"@;
    let ln1 = reg(l, d, name);
    let ln2 = ln1 + reg(l, t, count);
    let ln3 = ln2 + reg(l, x, "\t\t[-\n"@);
    let ln4 = ln3 + reg(l, d, "\t\t+\n"@);
    let ln5 = ln4 + reg(l, x, "\t\t]\n"@);
    let ln6 = ln5 + reg(l, t, "\t\t[-\n"@);
    let ln7 = ln6 + reg(l, d, "\t\t+\n"@);
    let ln8 = ln7 + reg(l, t, "\t\t]\n"@);
    let s0 = here(0, loops);
    let in_x = here(0, loops.push(reg_at(l, x)));
    let in_t = here(0, loops.push(reg_at(l, t)));
    lemma_reg_quiet(l, d, name, loops);
    lemma_reg_count(l, t, y as nat, loops);
    lemma_reg_open(l, x, "\t\t[-\n"@, loops);
    lemma_reg_touch(l, d, "\t\t+\n"@, COps::Add(1i32), in_x.loops);
    lemma_reg_close(l, x, "\t\t]\n"@, loops);
    lemma_reg_open(l, t, "\t\t[-\n"@, loops);
    lemma_reg_touch(l, d, "\t\t+\n"@, COps::Add(1i32), in_t.loops);
    lemma_reg_close(l, t, "\t\t]\n"@, loops);
    lemma_stroll_join(w, ln1, reg(l, t, count), s0, s0, s0);
    lemma_stroll_join(w, ln2, reg(l, x, "\t\t[-\n"@), s0, s0, in_x);
    lemma_stroll_join(w, ln3, reg(l, d, "\t\t+\n"@), s0, in_x, in_x);
    lemma_stroll_join(w, ln4, reg(l, x, "\t\t]\n"@), s0, in_x, s0);
    lemma_stroll_join(w, ln5, reg(l, t, "\t\t[-\n"@), s0, s0, in_t);
    lemma_stroll_join(w, ln6, reg(l, d, "\t\t+\n"@), s0, in_t, in_t);
    lemma_stroll_join(w, ln7, reg(l, t, "\t\t]\n"@), s0, in_t, s0);
}

/// A call of the output intrinsic can be walked.
pub proof fn lemma_putchar_walks(l: Layout, c: CallView, loops: Seq<int>)
    requires
        l.wf(),
        lower_putchar(l, c) is Ok,
    ensures
        strolls(l.width as int, lower_putchar(l, c)->Ok_0, here(0, loops), here(0, loops)),
{
    let w = l.width as int;
    let v = const_of(c.args[0])->Ok_0 as nat;
    let t = l.scratch as int;
    let k = reg_at(l, t);
    lemma_lit_putchar_note();
    lemma_lit_indent();
    lemma_lit_print_clear();
    let body = "\t\t"@ + repeated('+', v) + " .[-]\n"@;
    lemma_parse_counted("\t\t"@, v, " .[-]\n"@);
    let tail = seq![COps::Putchar, COps::JmpIfZ(0), COps::Add(-1i32), COps::JmpIfNZ(0)];
    let ops = run_of(COps::Add(1i32), v) + tail;
    assert(parse(body) =~= ops);
    lemma_walk_join(w, run_of(COps::Add(1i32), v), tail, here(k, loops));
    lemma_walk_count(w, v, here(k, loops));
    let clear = seq![COps::JmpIfZ(0), COps::Add(-1i32), COps::JmpIfNZ(0)];
    assert(tail =~= seq![COps::Putchar] + clear);
    lemma_walk_join(w, seq![COps::Putchar], clear, here(k, loops));
    lemma_walk_one(w, COps::Putchar, here(k, loops));
    lemma_walk_clear(w, k, loops);
    lemma_reg(l, t, body, ops, loops, loops);
    lemma_stroll_quiet(w, "\t\tputchar intrinsic\n"@, here(0, loops));
    lemma_stroll_join(
        w,
        "\t\tputchar intrinsic\n"@,
        reg(l, t, body),
        here(0, loops),
        here(0, loops),
        here(0, loops),
    );
}

// ---------------------------------------------------------------------------
// Flags
// ---------------------------------------------------------------------------

/// The flag of a block is set, inside the code of a block.
pub proof fn lemma_flag_set(l: Layout, bid: int, body: Seq<char>, loops: Seq<int>)
    requires
        l.wf(),
        0 <= bid <= l.blockns,
        parse(body) == seq![COps::Add(1i32)],
    ensures
        strolls(l.width as int, flag(l, bid, body), here(0, loops), here(0, loops)),
{
    let k = 1 + bid + l.funcns;
    lemma_walk_touch(l.width as int, COps::Add(1i32), k, loops);
    lemma_stroll_goto(l.width as int, 2, k as nat, body, 0, loops, loops);
}

/// The line that sets the flag of a block of the function as operations.
pub proof fn lemma_parse_arm(lead: Seq<char>, name: Seq<char>, n: nat)
    requires
        quiet(name),
        parse(lead) == seq![COps::Add(1i32)],
    ensures
        parse(lead + name + "/"@ + decimal(n) + "\n"@) == seq![COps::Add(1i32)],
{
    lemma_lit_slash();
    lemma_lit_newline();
    lemma_parse_named_numbered(lead, name, "/"@, n, "\n"@);
    assert(parse(lead) + parse("/"@) + parse("\n"@) =~= seq![COps::Add(1i32)]);
}

/// A line with a name between two fixed parts, of which the first holds one
/// instruction and the second none.
pub proof fn lemma_parse_line(lead: Seq<char>, name: Seq<char>, tail: Seq<char>, op: COps)
    requires
        quiet(name),
        parse(lead) == seq![op],
        quiet(tail),
    ensures
        parse(lead + name + tail) == seq![op],
{
    lemma_parse_named(lead, name, tail);
    assert(parse(lead) + parse(tail) =~= seq![op]);
}

/// The line that lists an instruction or terminator holds no instruction of
/// the tape language.
pub proof fn lemma_listed_quiet(lead: Seq<char>, text: Seq<char>)
    requires
        quiet(lead),
        hushed(text),
    ensures
        quiet(listed(lead, text)),
{
    lemma_lit_newline();
    lemma_parse_named(lead, sanitized(text), "\n"@);
    assert(parse(lead) + parse("\n"@) =~= Seq::<COps>::empty());
}

// ---------------------------------------------------------------------------
// Calls
// ---------------------------------------------------------------------------

/// Every function of the module has a name without instructions.
pub open spec fn names_quiet(functions: Seq<FunctionView>) -> bool {
    forall|i: int| 0 <= i < functions.len() ==> quiet((#[trigger] functions[i]).name)
}

/// A call of a function of the module can be walked: the walk goes to the
/// frame above, raises its entry flag, and stands in that frame from then on.
pub proof fn lemma_enter_walks(
    functions: Seq<FunctionView>,
    l: Layout,
    callee: Seq<char>,
    loops: Seq<int>,
)
    requires
        l.wf(),
        l.funcns == functions.len(),
        names_quiet(functions),
        lower_enter(functions, l, callee) is Ok,
    ensures
        strolls(
            l.width as int,
            lower_enter(functions, l, callee)->Ok_0,
            here(0, loops),
            here(0, loops),
        ),
{
    let w = l.width as int;
    lemma_function_index(functions, callee);
    let id = function_index(functions, callee)->0;
    assert(quiet(functions[id].name));
    lemma_lit_indent();
    lemma_lit_next_frame();
    lemma_lit_frame_flag();
    lemma_lit_frame_tail();
    lemma_lit_call_func();
    lemma_lit_newline();
    lemma_lit_arm();
    lemma_lit_entry_block();
    let s0 = here(0, loops);
    let up = here(w, loops);
    let t1 = "\t\t"@;
    let t2 = t1 + repeated('>', l.width as nat);
    let t3 = t2 + " next frame\n"@;
    let raise = "\t\t+ #__FRAME_"@ + callee + "__\n"@;
    let t4 = t3 + raise;
    let call = "\t\t+ call func #"@ + callee + "\n"@;
    let t5 = t4 + goto_func(2, id as nat, call);
    let entry = "\t\t+ #"@ + callee + "/b0\n"@;
    let t6 = t5 + flag(l, 0, entry);
    assert(lower_enter(functions, l, callee)->Ok_0 == t6);
    lemma_parse_repeated('>', l.width as nat);
    lemma_walk_right(w, l.width as nat, s0);
    lemma_stroll_join(w, t1, repeated('>', l.width as nat), s0, s0, up);
    lemma_stroll_join(w, t2, " next frame\n"@, s0, up, up);
    lemma_parse_line("\t\t+ #__FRAME_"@, callee, "__\n"@, COps::Add(1i32));
    lemma_walk_raise(w, loops);
    lemma_stroll_join(w, t3, raise, s0, up, s0);
    lemma_parse_line("\t\t+ call func #"@, callee, "\n"@, COps::Add(1i32));
    lemma_walk_touch(w, COps::Add(1i32), 1 + id, loops);
    lemma_stroll_goto(w, 2, (1 + id) as nat, call, 0, loops, loops);
    lemma_stroll_join(w, t4, goto_func(2, id as nat, call), s0, s0, s0);
    lemma_parse_line("\t\t+ #"@, callee, "/b0\n"@, COps::Add(1i32));
    lemma_flag_set(l, 0, entry, loops);
    lemma_stroll_join(w, t5, flag(l, 0, entry), s0, s0, s0);
}

/// A call can be walked.
pub proof fn lemma_call_walks(
    functions: Seq<FunctionView>,
    f: FunctionView,
    l: Layout,
    term: TermView,
    c: CallView,
    loops: Seq<int>,
)
    requires
        l.wf(),
        l.funcns == functions.len(),
        l.blockns == f.blocks.len(),
        names_quiet(functions),
        quiet(f.name),
        lower_call(functions, f, l, term, c) is Ok,
    ensures
        strolls(
            l.width as int,
            lower_call(functions, f, l, term, c)->Ok_0,
            here(0, loops),
            here(0, loops),
        ),
{
    let w = l.width as int;
    let dest = term.kind->Br_dest;
    let callee = c.callee->0;
    lemma_block_index(f.blocks, dest);
    let next = block_index(f.blocks, dest)->0;
    let line = "\t\t+ enable next #"@ + f.name + "/"@ + decimal(dest as nat) + "\n"@;
    lemma_lit_enable_next();
    lemma_parse_arm("\t\t+ enable next #"@, f.name, dest as nat);
    lemma_flag_set(l, next, line, loops);
    let s0 = here(0, loops);
    if callee == "putchar"@ {
        lemma_putchar_walks(l, c, loops);
        lemma_stroll_join(w, flag(l, next, line), lower_putchar(l, c)->Ok_0, s0, s0, s0);
    } else {
        lemma_enter_walks(functions, l, callee, loops);
        lemma_stroll_join(
            w,
            flag(l, next, line),
            lower_enter(functions, l, callee)->Ok_0,
            s0,
            s0,
            s0,
        );
    }
}

/// An instruction that is no comparison can be walked.
pub proof fn lemma_instr_walks(
    functions: Seq<FunctionView>,
    f: FunctionView,
    l: Layout,
    term: TermView,
    i: InstrView,
    loops: Seq<int>,
)
    requires
        l.wf(),
        l.funcns == functions.len(),
        l.blockns == f.blocks.len(),
        names_quiet(functions),
        quiet(f.name),
        hushed(i.text),
        !(i.kind is ICmp),
        instr_reach(i) <= l.scratch,
        lower_instr(functions, f, l, term, i) is Ok,
    ensures
        strolls(
            l.width as int,
            lower_instr(functions, f, l, term, i)->Ok_0,
            here(0, loops),
            here(0, loops),
        ),
{
    reveal(lower_kind);
    let w = l.width as int;
    let s0 = here(0, loops);
    lemma_lit_indent();
    lemma_listed_quiet("\t\t"@, i.text);
    let text = lower_kind(functions, f, l, term, i.kind)->Ok_0;
    match i.kind {
        InstrKindView::Alloca { ty, dest } => {
            lemma_alloca_walks(l, ty, dest, loops);
        },
        InstrKindView::Store { value, addr } => {
            lemma_store_walks(l, value, addr, loops);
        },
        InstrKindView::Load { addr, dest } => {
            lemma_load_walks(l, addr, dest, loops);
        },
        InstrKindView::Add { op0, op1, dest } => {
            lemma_add_walks(l, op0, op1, dest, loops);
        },
        InstrKindView::ICmp { pred, op0, op1, dest } => {},
        InstrKindView::Call(c) => {
            lemma_call_walks(functions, f, l, term, c, loops);
        },
        InstrKindView::Other => {},
    }
    lemma_stroll_quiet(w, listed("\t\t"@, i.text), s0);
    lemma_stroll_join(w, listed("\t\t"@, i.text), text, s0, s0, s0);
}

/// The instructions of a block are listed without instructions of the tape
/// language, and none is a comparison.
pub open spec fn calm_instrs(instrs: Seq<InstrView>) -> bool {
    forall|k: int|
        0 <= k < instrs.len() ==> hushed((#[trigger] instrs[k]).text) && !(instrs[k].kind is ICmp)
}

/// The first `n` instructions of a block can be walked.
pub proof fn lemma_instrs_walk(
    functions: Seq<FunctionView>,
    f: FunctionView,
    l: Layout,
    b: BlockView,
    n: nat,
    loops: Seq<int>,
)
    requires
        l.wf(),
        l.funcns == functions.len(),
        l.blockns == f.blocks.len(),
        names_quiet(functions),
        quiet(f.name),
        calm_instrs(b.instrs),
        block_reach(b) <= l.scratch,
        n <= b.instrs.len(),
        lower_instrs(functions, f, l, b, n) is Ok,
    ensures
        strolls(
            l.width as int,
            lower_instrs(functions, f, l, b, n)->Ok_0,
            here(0, loops),
            here(0, loops),
        ),
    decreases n,
{
    let w = l.width as int;
    let s0 = here(0, loops);
    if n == 0 {
        assert(parse(Seq::<char>::empty()) =~= Seq::<COps>::empty());
    } else {
        lemma_instrs_walk(functions, f, l, b, (n - 1) as nat, loops);
        lemma_instr_within(b.instrs, n - 1);
        lemma_instr_walks(functions, f, l, b.term, b.instrs[n - 1], loops);
        lemma_stroll_join(
            w,
            lower_instrs(functions, f, l, b, (n - 1) as nat)->Ok_0,
            lower_instr(functions, f, l, b.term, b.instrs[n - 1])->Ok_0,
            s0,
            s0,
            s0,
        );
    }
}

// ---------------------------------------------------------------------------
// Terminators
// ---------------------------------------------------------------------------

/// A branch can be walked.
pub proof fn lemma_br_walks(f: FunctionView, l: Layout, dest: usize, loops: Seq<int>)
    requires
        l.wf(),
        l.blockns == f.blocks.len(),
        quiet(f.name),
        lower_br(f, l, dest) is Ok,
    ensures
        strolls(l.width as int, lower_br(f, l, dest)->Ok_0, here(0, loops), here(0, loops)),
{
    lemma_block_index(f.blocks, dest);
    let to = block_index(f.blocks, dest)->0;
    lemma_lit_arm();
    lemma_parse_arm("\t\t+ #"@, f.name, dest as nat);
    lemma_flag_set(l, to, "\t\t+ #"@ + f.name + "/"@ + decimal(dest as nat) + "\n"@, loops);
}

/// A conditional branch can be walked.
pub proof fn lemma_condbr_walks(
    f: FunctionView,
    l: Layout,
    cond: Operand,
    true_dest: usize,
    false_dest: usize,
    loops: Seq<int>,
)
    requires
        l.wf(),
        l.blockns == f.blocks.len(),
        quiet(f.name),
        operand_reach(cond) <= l.scratch,
        lower_condbr(f, l, cond, true_dest, false_dest) is Ok,
    ensures
        strolls(
            l.width as int,
            lower_condbr(f, l, cond, true_dest, false_dest)->Ok_0,
            here(0, loops),
            here(0, loops),
        ),
{
    let w = l.width as int;
    let c = local_of(cond)->Ok_0 as int;
    lemma_block_index(f.blocks, true_dest);
    lemma_block_index(f.blocks, false_dest);
    let yes = block_index(f.blocks, true_dest)->0;
    let no = block_index(f.blocks, false_dest)->0;
    let t = l.scratch as int;
    lemma_lit_arm();
    lemma_lit_plus_line();
    lemma_lit_minus_line();
    lemma_lit_open_line();
    lemma_lit_close_line();
    let arm_yes = "\t\t+ #"@ + f.name + "/"@ + decimal(true_dest as nat) + "\n"@;
    let arm_no = "\t\t+ #"@ + f.name + "/"@ + decimal(false_dest as nat) + "\n"@;
    lemma_parse_arm("\t\t+ #"@, f.name, true_dest as nat);
    lemma_parse_arm("\t\t+ #"@, f.name, false_dest as nat);
    let ln1 = reg(l, t, "\t\t+\n"@);
    let ln2 = ln1 + reg(l, c, "\t\t[-\n"@);
    let ln3 = ln2 + reg(l, t, "\t\t-\n"@);
    let ln4 = ln3 + flag(l, yes, arm_yes);
    let ln5 = ln4 + reg(l, c, "\t\t]\n"@);
    let ln6 = ln5 + reg(l, t, "\t\t[-\n"@);
    let ln7 = ln6 + flag(l, no, arm_no);
    let ln8 = ln7 + reg(l, t, "\t\t]\n"@);
    let s0 = here(0, loops);
    let in_c = here(0, loops.push(reg_at(l, c)));
    let in_t = here(0, loops.push(reg_at(l, t)));
    lemma_reg_touch(l, t, "\t\t+\n"@, COps::Add(1i32), loops);
    lemma_reg_open(l, c, "\t\t[-\n"@, loops);
    lemma_reg_touch(l, t, "\t\t-\n"@, COps::Add(-1i32), in_c.loops);
    lemma_flag_set(l, yes, arm_yes, in_c.loops);
    lemma_reg_close(l, c, "\t\t]\n"@, loops);
    lemma_reg_open(l, t, "\t\t[-\n"@, loops);
    lemma_flag_set(l, no, arm_no, in_t.loops);
    lemma_reg_close(l, t, "\t\t]\n"@, loops);
    lemma_stroll_join(w, ln1, reg(l, c, "\t\t[-\n"@), s0, s0, in_c);
    lemma_stroll_join(w, ln2, reg(l, t, "\t\t-\n"@), s0, in_c, in_c);
    lemma_stroll_join(w, ln3, flag(l, yes, arm_yes), s0, in_c, in_c);
    lemma_stroll_join(w, ln4, reg(l, c, "\t\t]\n"@), s0, in_c, s0);
    lemma_stroll_join(w, ln5, reg(l, t, "\t\t[-\n"@), s0, s0, in_t);
    lemma_stroll_join(w, ln6, flag(l, no, arm_no), s0, in_t, in_t);
    lemma_stroll_join(w, ln7, reg(l, t, "\t\t]\n"@), s0, in_t, s0);
}

/// A return can be walked: the walk takes the entry flag of the live frame
/// down, and stands in the frame below from then on.
pub proof fn lemma_ret_walks(f: FunctionView, l: Layout, fid: int, loops: Seq<int>)
    requires
        l.wf(),
        0 <= fid < l.funcns,
        quiet(f.name),
    ensures
        strolls(l.width as int, lower_ret(f, l, fid), here(0, loops), here(0, loops)),
{
    let w = l.width as int;
    lemma_lit_dead_func();
    lemma_lit_uncall();
    lemma_lit_newline();
    lemma_lit_indent();
    lemma_lit_prev_frame();
    let s0 = here(0, loops);
    let up = here(w, loops);
    let dead = "\t\t- #ded_func_"@ + f.name + "\n"@;
    let uncall = "\t\t- uncall func "@ + f.name + "\n"@;
    let back = "\t\t"@ + repeated('<', l.width as nat) + " prev frame\n"@;
    lemma_parse_line("\t\t- #ded_func_"@, f.name, "\n"@, COps::Add(-1i32));
    lemma_walk_lower(w, loops);
    lemma_parse_line("\t\t- uncall func "@, f.name, "\n"@, COps::Add(-1i32));
    lemma_walk_touch(w, COps::Add(-1i32), w + 1 + fid, loops);
    lemma_stroll_goto(w, 2, (1 + fid) as nat, uncall, w, loops, loops);
    lemma_parse_repeated('<', l.width as nat);
    lemma_walk_left(w, l.width as nat, up);
    lemma_stroll_join(w, "\t\t"@, repeated('<', l.width as nat), up, up, s0);
    lemma_stroll_join(
        w,
        "\t\t"@ + repeated('<', l.width as nat),
        " prev frame\n"@,
        up,
        s0,
        s0,
    );
    lemma_stroll_join(w, dead, goto_func(2, fid as nat, uncall), s0, up, up);
    lemma_stroll_join(w, dead + goto_func(2, fid as nat, uncall), back, s0, up, s0);
}

/// A terminator can be walked.
pub proof fn lemma_term_walks(f: FunctionView, l: Layout, fid: int, t: TermView, loops: Seq<int>)
    requires
        l.wf(),
        l.blockns == f.blocks.len(),
        0 <= fid < l.funcns,
        quiet(f.name),
        hushed(t.text),
        term_reach(t) <= l.scratch,
        lower_term(f, l, fid, t) is Ok,
    ensures
        strolls(l.width as int, lower_term(f, l, fid, t)->Ok_0, here(0, loops), here(0, loops)),
{
    reveal(lower_term);
    let w = l.width as int;
    let s0 = here(0, loops);
    lemma_lit_term_lead();
    lemma_listed_quiet("\t\tE "@, t.text);
    lemma_stroll_quiet(w, listed("\t\tE "@, t.text), s0);
    match t.kind {
        TermKind::Br { dest } => {
            lemma_br_walks(f, l, dest, loops);
            lemma_stroll_join(w, listed("\t\tE "@, t.text), lower_br(f, l, dest)->Ok_0, s0, s0, s0);
        },
        TermKind::CondBr { cond, true_dest, false_dest } => {
            lemma_condbr_walks(f, l, cond, true_dest, false_dest, loops);
            lemma_stroll_join(
                w,
                listed("\t\tE "@, t.text),
                lower_condbr(f, l, cond, true_dest, false_dest)->Ok_0,
                s0,
                s0,
                s0,
            );
        },
        TermKind::Ret => {
            lemma_ret_walks(f, l, fid, loops);
            lemma_stroll_join(w, listed("\t\tE "@, t.text), lower_ret(f, l, fid), s0, s0, s0);
        },
        TermKind::Other => {},
    }
}

// ---------------------------------------------------------------------------
// Blocks, functions, the module
// ---------------------------------------------------------------------------

/// A block is listed without instructions of the tape language, and holds no
/// comparison.
pub open spec fn calm_block(b: BlockView) -> bool {
    calm_instrs(b.instrs) && hushed(b.term.text)
}

/// Every block of the function is calm, and the function's name holds no
/// instruction of the tape language.
pub open spec fn calm_function(f: FunctionView) -> bool {
    &&& quiet(f.name)
    &&& forall|k: int| 0 <= k < f.blocks.len() ==> calm_block(#[trigger] f.blocks[k])
}

/// Every function of the module is calm.
pub open spec fn calm(m: ModuleView) -> bool {
    forall|i: int| 0 <= i < m.functions.len() ==> calm_function(#[trigger] m.functions[i])
}

/// What stands between the opening and the closing of a block's loop can be
/// walked.
pub proof fn lemma_body_walks(
    functions: Seq<FunctionView>,
    f: FunctionView,
    l: Layout,
    fid: int,
    b: BlockView,
    loops: Seq<int>,
)
    requires
        l.wf(),
        l.funcns == functions.len(),
        l.blockns == f.blocks.len(),
        0 <= fid < l.funcns,
        names_quiet(functions),
        quiet(f.name),
        calm_block(b),
        block_reach(b) <= l.scratch,
        lower_body(functions, f, l, fid, b) is Ok,
    ensures
        strolls(
            l.width as int,
            lower_body(functions, f, l, fid, b)->Ok_0,
            here(0, loops),
            here(0, loops),
        ),
{
    reveal(lower_body);
    let w = l.width as int;
    let s0 = here(0, loops);
    lemma_instrs_walk(functions, f, l, b, b.instrs.len(), loops);
    if !has_call(b) {
        lemma_term_walks(f, l, fid, b.term, loops);
        lemma_stroll_join(
            w,
            lower_instrs(functions, f, l, b, b.instrs.len())->Ok_0,
            lower_term(f, l, fid, b.term)->Ok_0,
            s0,
            s0,
            s0,
        );
    }
}

/// A block can be walked: its loop is opened on the block's flag, and
/// closed there.
pub proof fn lemma_block_walks(
    functions: Seq<FunctionView>,
    f: FunctionView,
    l: Layout,
    fid: int,
    bid: int,
    b: BlockView,
    loops: Seq<int>,
)
    requires
        l.wf(),
        l.funcns == functions.len(),
        l.blockns == f.blocks.len(),
        0 <= fid < l.funcns,
        0 <= bid < l.blockns,
        names_quiet(functions),
        quiet(f.name),
        calm_block(b),
        block_reach(b) <= l.scratch,
        lower_block(functions, f, l, fid, bid, b) is Ok,
    ensures
        strolls(
            l.width as int,
            lower_block(functions, f, l, fid, bid, b)->Ok_0,
            here(0, loops),
            here(0, loops),
        ),
{
    let w = l.width as int;
    let k = 1 + bid + l.funcns;
    let s0 = here(0, loops);
    let inside = here(0, loops.push(k));
    let body = lower_body(functions, f, l, fid, b)->Ok_0;
    let opening = "t#"@ + f.name + "/"@ + decimal(b.name as nat) + " [-\n"@;
    let closing = "\t] b"@ + decimal(b.name as nat) + "\n"@;
    lemma_lit_block_lead();
    lemma_lit_slash();
    lemma_lit_block_open();
    lemma_lit_block_close();
    lemma_lit_newline();
    lemma_parse_named_numbered("t#"@, f.name, "/"@, b.name as nat, " [-\n"@);
    assert(parse(opening) =~= seq![COps::JmpIfZ(0), COps::Add(-1i32)]);
    lemma_parse_numbered("\t] b"@, b.name as nat, "\n"@);
    assert(parse(closing) =~= seq![COps::JmpIfNZ(0)]);
    lemma_walk_open(w, k, loops);
    lemma_stroll_goto(w, 1, k as nat, opening, 0, loops, loops.push(k));
    lemma_body_walks(functions, f, l, fid, b, loops.push(k));
    lemma_walk_close(w, k, loops);
    lemma_stroll_goto(w, 1, k as nat, closing, 0, loops.push(k), loops);
    let first = goto_block(1, bid as nat, l.funcns as nat, opening);
    let last = goto_block(1, bid as nat, l.funcns as nat, closing);
    lemma_stroll_join(w, first, body, s0, inside, inside);
    lemma_stroll_join(w, first + body, last, s0, inside, s0);
}

/// The first `n` blocks of a function can be walked.
pub proof fn lemma_blocks_walk(
    functions: Seq<FunctionView>,
    f: FunctionView,
    l: Layout,
    fid: int,
    n: nat,
    loops: Seq<int>,
)
    requires
        l.wf(),
        l.funcns == functions.len(),
        l.blockns == f.blocks.len(),
        0 <= fid < l.funcns,
        names_quiet(functions),
        calm_function(f),
        blocks_reach(f.blocks) <= l.scratch,
        n <= f.blocks.len(),
        lower_blocks(functions, f, l, fid, n) is Ok,
    ensures
        strolls(
            l.width as int,
            lower_blocks(functions, f, l, fid, n)->Ok_0,
            here(0, loops),
            here(0, loops),
        ),
    decreases n,
{
    let w = l.width as int;
    let s0 = here(0, loops);
    if n == 0 {
        assert(parse(Seq::<char>::empty()) =~= Seq::<COps>::empty());
    } else {
        lemma_blocks_walk(functions, f, l, fid, (n - 1) as nat, loops);
        lemma_block_within(f.blocks, n - 1);
        assert(calm_block(f.blocks[n - 1]));
        lemma_block_walks(functions, f, l, fid, n - 1, f.blocks[n - 1], loops);
        lemma_stroll_join(
            w,
            lower_blocks(functions, f, l, fid, (n - 1) as nat)->Ok_0,
            lower_block(functions, f, l, fid, n - 1, f.blocks[n - 1])->Ok_0,
            s0,
            s0,
            s0,
        );
    }
}

/// A function can be walked: its loop is opened on the function's flag, and
/// closed there.
pub proof fn lemma_function_walks(m: ModuleView, fid: int, loops: Seq<int>)
    requires
        0 <= fid < m.functions.len(),
        frame_width(m) <= TAPE_SIZE,
        calm(m),
        lower_function(m, fid) is Ok,
    ensures
        strolls(
            frame_width(m),
            lower_function(m, fid)->Ok_0,
            here(0, loops),
            here(0, loops),
        ),
{
    reveal(lower_function);
    let f = m.functions[fid];
    let l = layout_of(m, f);
    lemma_layout_wf(m, fid);
    let w = frame_width(m);
    let k = 1 + fid;
    let s0 = here(0, loops);
    let inside = here(0, loops.push(k));
    assert(calm_function(f));
    assert(names_quiet(m.functions)) by {
        assert forall|i: int| 0 <= i < m.functions.len() implies quiet(
            (#[trigger] m.functions[i]).name,
        ) by {
            assert(calm_function(m.functions[i]));
        }
    }
    let blocks = lower_blocks(m.functions, f, l, fid, f.blocks.len())->Ok_0;
    let opening = "#"@ + f.name + " [\n"@;
    let closing = "] "@ + f.name + "\n"@;
    lemma_lit_func_lead();
    lemma_lit_func_open();
    lemma_lit_func_close();
    lemma_lit_newline();
    lemma_parse_named("#"@, f.name, " [\n"@);
    assert(parse(opening) =~= seq![COps::JmpIfZ(0)]);
    lemma_parse_named("] "@, f.name, "\n"@);
    assert(parse(closing) =~= seq![COps::JmpIfNZ(0)]);
    lemma_walk_enter(w, k, loops);
    lemma_stroll_goto(w, 0, k as nat, opening, 0, loops, loops.push(k));
    lemma_blocks_walk(m.functions, f, l, fid, f.blocks.len(), loops.push(k));
    lemma_walk_close(w, k, loops);
    lemma_stroll_goto(w, 0, k as nat, closing, 0, loops.push(k), loops);
    let first = goto_func(0, fid as nat, opening);
    let last = goto_func(0, fid as nat, closing);
    lemma_stroll_join(w, first, blocks, s0, inside, inside);
    lemma_stroll_join(w, first + blocks, last, s0, inside, s0);
}

/// The first `n` functions of a module can be walked.
pub proof fn lemma_functions_walk(m: ModuleView, n: nat, loops: Seq<int>)
    requires
        n <= m.functions.len(),
        frame_width(m) <= TAPE_SIZE,
        calm(m),
        lower_functions(m, n) is Ok,
    ensures
        strolls(frame_width(m), lower_functions(m, n)->Ok_0, here(0, loops), here(0, loops)),
    decreases n,
{
    let w = frame_width(m);
    let s0 = here(0, loops);
    if n == 0 {
        assert(parse(Seq::<char>::empty()) =~= Seq::<COps>::empty());
    } else {
        lemma_functions_walk(m, (n - 1) as nat, loops);
        lemma_function_walks(m, n - 1, loops);
        lemma_stroll_join(
            w,
            lower_functions(m, (n - 1) as nat)->Ok_0,
            lower_function(m, n - 1)->Ok_0,
            s0,
            s0,
            s0,
        );
    }
}

/// What sets the first frame up can be walked: the walk goes one frame to the
/// right and raises the entry flag there.
pub proof fn lemma_prelude_walks(m: ModuleView, main: int)
    requires
        0 <= main < m.functions.len(),
        frame_width(m) <= TAPE_SIZE,
    ensures
        strolls(
            frame_width(m),
            prelude(m, main),
            here(0, Seq::empty()),
            here(0, Seq::empty()),
        ),
{
    let w = frame_width(m);
    let width = frame_width(m) as nat;
    let none = Seq::<int>::empty();
    let s0 = here(0, none);
    let up = here(w, none);
    lemma_layout_wf(m, main);
    crate::layout::lemma_function_within(m.functions, main);
    lemma_lit_first_frame();
    lemma_lit_runtime_init();
    lemma_lit_entry_flag();
    lemma_lit_call_main();
    lemma_lit_at_main();
    lemma_lit_newline();
    let t1 = repeated('>', width) + " first frame\n"@;
    let t2 = t1 + "runtime init: \n"@;
    let t3 = t2 + "+ #__FRAME__ENTRY__\n"@;
    let t4 = t3 + goto_func(0, main as nat, "+ call #main\n"@);
    let t5 = t4 + goto_block(0, 0, m.functions.len(), "+ at #main/b0\n"@);
    let t6 = t5 + "\n"@;
    assert(prelude(m, main) == t6);
    lemma_parse_repeated('>', width);
    lemma_walk_right(w, width, s0);
    lemma_stroll_join(w, repeated('>', width), " first frame\n"@, s0, up, up);
    lemma_stroll_join(w, t1, "runtime init: \n"@, s0, up, up);
    lemma_walk_raise(w, none);
    lemma_stroll_join(w, t2, "+ #__FRAME__ENTRY__\n"@, s0, up, s0);
    lemma_walk_touch(w, COps::Add(1i32), 1 + main, none);
    lemma_stroll_goto(w, 0, (1 + main) as nat, "+ call #main\n"@, 0, none, none);
    lemma_stroll_join(w, t3, goto_func(0, main as nat, "+ call #main\n"@), s0, s0, s0);
    lemma_walk_touch(w, COps::Add(1i32), (1 + m.functions.len()) as int, none);
    lemma_stroll_goto(w, 0, (1 + m.functions.len()) as nat, "+ at #main/b0\n"@, 0, none, none);
    lemma_stroll_join(
        w,
        t4,
        goto_block(0, 0, m.functions.len(), "+ at #main/b0\n"@),
        s0,
        s0,
        s0,
    );
    lemma_stroll_join(w, t5, "\n"@, s0, s0, s0);
}

/// The whole text of a calm module can be walked, from the first cell of the
/// tape and back to it, with the dispatch loop as its last part.
pub proof fn lemma_module_walks(m: ModuleView)
    requires
        calm(m),
        lower_module(m) is Ok,
    ensures
        strolls(
            frame_width(m),
            lower_module(m)->Ok_0,
            here(0, Seq::empty()),
            here(0, Seq::empty()),
        ),
        parse(lower_module(m)->Ok_0).len() > 0,
        parse(lower_module(m)->Ok_0).last() is JmpIfNZ,
        frame_width(m) > 0,
{
    let w = frame_width(m);
    let none = Seq::<int>::empty();
    let s0 = here(0, none);
    let inside = here(0, none.push(0));
    lemma_function_index(m.functions, "main"@);
    let main = function_index(m.functions, "main"@)->0;
    let functions = lower_functions(m, m.functions.len())->Ok_0;
    lemma_layout_wf(m, main);
    lemma_prelude_walks(m, main);
    lemma_lit_loop_open();
    lemma_lit_loop_close();
    lemma_walk_enter(w, 0, none);
    lemma_functions_walk(m, m.functions.len(), none.push(0));
    lemma_walk_close(w, 0, none);
    let t1 = prelude(m, main);
    let t2 = t1 + "[\n"@;
    let t3 = t2 + functions;
    let t4 = t3 + "]\n"@;
    assert(lower_module(m)->Ok_0 == t4);
    lemma_stroll_join(w, t1, "[\n"@, s0, s0, inside);
    lemma_stroll_join(w, t2, functions, s0, inside, inside);
    lemma_stroll_join(w, t3, "]\n"@, s0, inside, s0);
    lemma_parse_join(t3, "]\n"@);
}

// ---------------------------------------------------------------------------
// Normalizing keeps a module calm
// ---------------------------------------------------------------------------

/// Text without instructions holds no instruction character.
pub proof fn lemma_quiet_chars(t: Seq<char>)
    requires
        quiet(t),
    ensures
        forall|i: int| 0 <= i < t.len() ==> op_of_char(#[trigger] t[i]) is None,
    decreases t.len(),
{
    if t.len() > 0 {
        let front = t.drop_last();
        assert(front.push(t.last()) =~= t);
        lemma_parse_push(front, t.last());
        match op_of_char(t.last()) {
            Some(op) => {
                assert(parse(front).push(op).len() > 0);
            },
            None => {},
        }
        lemma_quiet_chars(front);
        assert forall|i: int| 0 <= i < t.len() implies op_of_char(#[trigger] t[i]) is None by {
            if i < t.len() - 1 {
                assert(t[i] == front[i]);
            }
        }
    }
}

/// Text without instructions stays without instructions when its commas are
/// replaced: it has none.
pub proof fn lemma_quiet_hushed(t: Seq<char>)
    requires
        quiet(t),
    ensures
        hushed(t),
{
    lemma_quiet_chars(t);
    assert(sanitized(t) =~= t);
}

/// An unconditional branch is listed without instructions of the tape
/// language.
pub proof fn lemma_branch_hushed(dest: usize)
    ensures
        hushed(br_to(dest).text),
{
    lemma_lit_br_label();
    lemma_quiet_decimal(dest as nat);
    lemma_quiet_beside("br label %"@, decimal(dest as nat));
    lemma_quiet_hushed(br_text(dest));
}

/// Every piece of a calm block that is cut is calm.
pub proof fn lemma_split_block_calm(b: BlockView, fresh: int)
    requires
        calm_block(b),
    ensures
        forall|k: int|
            0 <= k < split_block(b, fresh).len() ==> calm_block(#[trigger] split_block(b, fresh)[k]),
    decreases b.instrs.len(),
{
    lemma_first_call(b.instrs);
    match split_point(b) {
        None => {},
        Some(c) => {
            let head = head_of(b, c, fresh);
            let tail = tail_of(b, c, fresh);
            lemma_branch_hushed(fresh as usize);
            assert(calm_block(head)) by {
                assert forall|k: int| 0 <= k < head.instrs.len() implies hushed(
                    (#[trigger] head.instrs[k]).text,
                ) && !(head.instrs[k].kind is ICmp) by {
                    assert(head.instrs[k] == b.instrs[k]);
                }
            }
            assert(calm_block(tail)) by {
                assert forall|k: int| 0 <= k < tail.instrs.len() implies hushed(
                    (#[trigger] tail.instrs[k]).text,
                ) && !(tail.instrs[k].kind is ICmp) by {
                    assert(tail.instrs[k] == b.instrs[k + c + 1]);
                }
            }
            lemma_split_block_calm(tail, fresh + 1);
            let rest = split_block(tail, fresh + 1);
            assert forall|k: int| 0 <= k < split_block(b, fresh).len() implies calm_block(
                #[trigger] split_block(b, fresh)[k],
            ) by {
                if k > 0 {
                    assert(split_block(b, fresh)[k] == rest[k - 1]);
                }
            }
        },
    }
}

/// Calm blocks, cut, are calm blocks.
pub proof fn lemma_split_blocks_calm(blocks: Seq<BlockView>, fresh: int)
    requires
        forall|k: int| 0 <= k < blocks.len() ==> calm_block(#[trigger] blocks[k]),
    ensures
        forall|k: int|
            0 <= k < split_blocks(blocks, fresh).len() ==> calm_block(
                #[trigger] split_blocks(blocks, fresh)[k],
            ),
    decreases blocks.len(),
{
    if blocks.len() > 0 {
        let front = blocks.drop_last();
        assert forall|k: int| 0 <= k < front.len() implies calm_block(#[trigger] front[k]) by {
            assert(front[k] == blocks[k]);
        }
        lemma_split_blocks_calm(front, fresh);
        assert(calm_block(blocks[blocks.len() - 1]));
        lemma_split_block_calm(blocks.last(), fresh + extras(front));
        let done = split_blocks(front, fresh);
        let last = split_block(blocks.last(), fresh + extras(front));
        assert forall|k: int| 0 <= k < (done + last).len() implies calm_block(
            #[trigger] (done + last)[k],
        ) by {
            if k < done.len() {
                assert((done + last)[k] == done[k]);
            } else {
                assert((done + last)[k] == last[k - done.len()]);
            }
        }
    }
}

/// A calm module is calm when it is normalized.
pub proof fn lemma_calm_normalized(m: ModuleView)
    requires
        calm(m),
    ensures
        calm(guard_module(split_module(m))),
{
    let done = guard_module(split_module(m));
    assert forall|i: int| 0 <= i < done.functions.len() implies calm_function(
        #[trigger] done.functions[i],
    ) by {
        let f = m.functions[i];
        assert(calm_function(f));
        let cut = split_function(f);
        let g = guard_function(cut);
        assert(done.functions[i] == g);
        lemma_split_blocks_calm(f.blocks, max_name(f.blocks) + 1);
        if needs_guard(cut) {
            let entry = guard_block(max_name(cut.blocks) + 1, cut.blocks[0].name);
            lemma_branch_hushed(cut.blocks[0].name);
            assert(calm_block(entry));
            assert forall|k: int| 0 <= k < g.blocks.len() implies calm_block(
                #[trigger] g.blocks[k],
            ) by {
                if k > 0 {
                    assert(g.blocks[k] == cut.blocks[k - 1]);
                } else {
                    assert(g.blocks[0] == entry);
                }
            }
        }
    }
}

} // verus!
