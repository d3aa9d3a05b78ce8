//! Laws of the templates, of the lowering of instructions and of compiled
//! programs, stated of the programs that the interpreter runs.
use vstd::prelude::*;
use crate::balance::{calm, lemma_calm_normalized, lemma_module_walks, names_quiet};
use crate::discipline::{
    flags, frame, here, lemma_ends_on_zero, lemma_frames, lemma_walk_balanced, lemma_walk_fused,
    lemma_walk_sound, quiet, stands,
};
use crate::effects::with_cell;
use crate::emit::{
    block_index, compile_spec, const_of, function_index, local_of, lower_br, lower_condbr,
    lower_enter, lower_kind, lower_putchar, lower_ret, prelude,
};
use crate::fusion::{lemma_fuse_balanced, lemma_fuse_end};
use crate::interp::{balanced, fuse, initial, parse, resolved, run, COps, TAPE_SIZE};
use crate::ir::{CallView, CompileError, FunctionView, InstrKindView, ModuleView, Operand, TermView};
use crate::layout::{frame_width, Layout};
use crate::less_than::lemma_compare_does;
use crate::lowering::{
    flag_cell, lemma_add_does, lemma_alloca_does, lemma_br_does, lemma_condbr_does,
    lemma_enter_does, lemma_load_does, lemma_prelude_does, lemma_putchar_does, lemma_ret_does,
    lemma_store_const_does, lemma_store_local_does, on_tape, reg_cell,
};
use crate::normalize::{guard_module, split_module};
use crate::reasoning::moved;
use crate::semantics::{at, cells_of, lemma_run_to_structure, sem, Cells};
use crate::table::{
    defined, effect, in_frame, law_template_sequence, law_template_table, lemma_text_runs, program,
};
use crate::tape::{template, Op};

verus! {

/// `Move(s, d)` followed by `Move(d, s)` leaves the tape, the head and the
/// output as they were, where `d` is 0 at the start: the program ends, after
/// `k` operations, with the cells it started from.
pub proof fn law_move_there_and_back(s: usize, d: usize, c: Cells, ops: Seq<COps>) -> (k: nat)
    requires
        s != d,
        c.valid(),
        in_frame(c, s),
        in_frame(c, d),
        c.tape[c.mp + d] == 0,
        resolved(program(template(Op::Move(s, d)) + template(Op::Move(d, s))), ops),
    ensures
        run(ops, at(0, c, 0), k) is Halted,
        cells_of(run(ops, at(0, c, 0), k)->Halted_0) == c,
{
    let there = Op::Move(s, d);
    let back = Op::Move(d, s);
    assert(defined(there, c));
    assert(defined(back, effect(there, c)));
    assert(effect(back, effect(there, c)).tape =~= c.tape);
    law_template_sequence(there, back, c, ops)
}

/// `Not` of `Not` is `Bitcast`: where `t` and `d` are distinct cells beside
/// `s`, and `t` is 0 at the start, `Not(s, t)` followed by `Not(t, d)` ends
/// with the same cells as `Bitcast(s, d)` does: `d` is 1 if `s` was not 0,
/// else 0, and `s` is 0. Both programs end, after `k.0` and `k.1`
/// operations. This holds of every value of `s`, not only of 0 and 1.
pub proof fn law_not_not_is_bitcast(
    s: usize,
    t: usize,
    d: usize,
    c: Cells,
    twice: Seq<COps>,
    once: Seq<COps>,
) -> (k: (nat, nat))
    requires
        s != t,
        t != d,
        s != d,
        c.valid(),
        in_frame(c, s),
        in_frame(c, t),
        in_frame(c, d),
        c.tape[c.mp + t] == 0,
        resolved(program(template(Op::Not(s, t)) + template(Op::Not(t, d))), twice),
        resolved(program(template(Op::Bitcast(s, d))), once),
    ensures
        run(twice, at(0, c, 0), k.0) is Halted,
        run(once, at(0, c, 0), k.1) is Halted,
        cells_of(run(twice, at(0, c, 0), k.0)->Halted_0) == cells_of(
            run(once, at(0, c, 0), k.1)->Halted_0,
        ),
        cells_of(run(once, at(0, c, 0), k.1)->Halted_0) == effect(Op::Bitcast(s, d), c),
{
    let first = Op::Not(s, t);
    let second = Op::Not(t, d);
    let cast = Op::Bitcast(s, d);
    assert(defined(first, c));
    assert(defined(second, effect(first, c)));
    assert(defined(cast, c));
    assert(effect(second, effect(first, c)).tape =~= effect(cast, c).tape);
    let k0 = law_template_sequence(first, second, c, twice);
    let k1 = law_template_table(cast, c, once);
    (k0, k1)
}

/// `StoreImm(v, d)` followed by `LoadInd(p, r)`, where `p` points to `d`,
/// yields `r = v`: with the three cells of the train station free and `p`
/// holding the number of the cell `d`, the program ends, after `k`
/// operations, with `v` in `d` and in `r` and everything else as it was.
pub proof fn law_store_then_load(v: u8, d: usize, p: usize, r: usize, c: Cells, ops: Seq<COps>) -> (k:
    nat)
    requires
        c.valid(),
        3 <= d <= 255,
        3 <= p,
        3 <= r,
        p != d,
        in_frame(c, d),
        in_frame(c, p),
        in_frame(c, r),
        c.tape[c.mp + p] == d,
        c.tape[c.mp] == 0,
        c.tape[c.mp + 1] == 0,
        c.tape[c.mp + 2] == 0,
        resolved(program(template(Op::StoreImm(v, d)) + template(Op::LoadInd(p, r))), ops),
    ensures
        run(ops, at(0, c, 0), k) is Halted,
        cells_of(run(ops, at(0, c, 0), k)->Halted_0) == with_cell(
            with_cell(c, c.mp + d, v as int),
            c.mp + r,
            v as int,
        ),
        cells_of(run(ops, at(0, c, 0), k)->Halted_0).tape[c.mp + r] == v,
{
    let store = Op::StoreImm(v, d);
    let load = Op::LoadInd(p, r);
    assert(defined(store, c));
    assert(defined(load, effect(store, c)));
    law_template_sequence(store, load, c, ops)
}

/// Calls and returns balance: where a program compiled from a calm module (no
/// name and no listing text holds an instruction of the tape language, and no
/// instruction is a comparison) is run by the interpreter and comes to its
/// end, the head stands where it stood at the start, on the first cell of the
/// tape, and no frame is live: every entry flag is 0. Every call that raised
/// the entry flag of a frame was matched by a return that took it down.
pub proof fn law_calls_and_returns_balance(
    m: ModuleView,
    text: Seq<char>,
    ops: Seq<COps>,
    fuel: nat,
)
    requires
        calm(m),
        compile_spec(m) == Ok::<Seq<char>, CompileError>(text),
        resolved(program(text), ops),
        run(ops, initial(), fuel) is Halted,
    ensures
        (run(ops, initial(), fuel)->Halted_0).mp == 0,
        flags(
            cells_of(run(ops, initial(), fuel)->Halted_0),
            0,
            frame_width(guard_module(split_module(m))),
        ),
{
    let n = guard_module(split_module(m));
    let w = frame_width(n);
    lemma_calm_normalized(m);
    lemma_module_walks(n);
    let code = parse(text);
    let none = Seq::<int>::empty();
    let s0 = here(0, none);
    lemma_walk_balanced(w, code, 0);
    lemma_walk_fused(w, code, s0);
    lemma_fuse_balanced(code);
    lemma_fuse_end(code);
    let fused = fuse(code);
    let c0 = cells_of(initial());
    assert(at(0, c0, 0) == initial());
    lemma_run_to_structure(fused, ops, c0, fuel);
    let end = sem(fused, c0, fuel)->Done_0;
    lemma_frames(0, 0, w);
    assert(stands(c0, 0, w, 0));
    let live = lemma_walk_sound(w, fused, s0, c0, 0, fuel);
    lemma_ends_on_zero(fused, c0, fuel);
    lemma_frames(live, 0, w);
    assert(end.tape[frame(live, w)] == 0);
    assert(live == 0);
}

/// What the compiler writes, the interpreter reads: the brackets of a program
/// compiled from a calm module balance, so that `interp::compile` does not
/// refuse it.
pub proof fn law_compiled_text_is_balanced(m: ModuleView, text: Seq<char>)
    requires
        calm(m),
        compile_spec(m) == Ok::<Seq<char>, CompileError>(text),
    ensures
        balanced(parse(text)),
{
    let n = guard_module(split_module(m));
    lemma_calm_normalized(m);
    lemma_module_walks(n);
    lemma_walk_balanced(frame_width(n), parse(text), 0);
}

// ---------------------------------------------------------------------------
// What the lowering of an instruction does
// ---------------------------------------------------------------------------

/// The cells on which the lowering of an instruction that is no call is
/// stated: the frame lies on the tape, the registers that the instruction
/// names are registers of the frame and distinct, and no cell is counted
/// past 255. A comparison finds its destination and five scratch cells at 0.
pub open spec fn ready(l: Layout, kind: InstrKindView, c: Cells) -> bool {
    let s = l.scratch as int;
    on_tape(l, c) && match kind {
        InstrKindView::Alloca { ty, dest } => dest < l.scratch,
        InstrKindView::Store { value, addr } => match (value, addr) {
            (Operand::Const(v), Operand::Local(a)) => a < l.scratch,
            (Operand::Local(n), Operand::Local(a)) => a < l.scratch && n < l.scratch && a != n,
            _ => false,
        },
        InstrKindView::Load { addr, dest } => match addr {
            Operand::Local(a) => {
                &&& a < l.scratch
                &&& dest < l.scratch
                &&& a != dest
                &&& c.tape[reg_cell(l, c, dest as int)] + c.tape[reg_cell(l, c, a as int)] <= 255
                &&& c.tape[reg_cell(l, c, s)] + c.tape[reg_cell(l, c, a as int)] <= 255
            },
            _ => false,
        },
        InstrKindView::Add { op0, op1, dest } => match (op0, op1) {
            (Operand::Local(x), Operand::Const(y)) => {
                &&& x < l.scratch
                &&& dest < l.scratch
                &&& x != dest
                &&& c.tape[reg_cell(l, c, dest as int)] + c.tape[reg_cell(l, c, x as int)]
                    + c.tape[reg_cell(l, c, s)] + y <= 255
            },
            _ => false,
        },
        InstrKindView::ICmp { pred, op0, op1, dest } => match (op0, op1) {
            (Operand::Local(x), Operand::Const(y)) => {
                &&& x < l.scratch
                &&& dest < l.scratch
                &&& x != dest
                &&& c.tape[reg_cell(l, c, dest as int)] == 0
                &&& forall|i: int| 0 <= i < 5 ==> c.tape[#[trigger] reg_cell(l, c, s + i)] == 0
            },
            _ => false,
        },
        _ => false,
    }
}

/// The cells after the lowering of an instruction that is no call.
pub open spec fn outcome(l: Layout, kind: InstrKindView, c: Cells) -> Cells {
    let s = reg_cell(l, c, l.scratch as int);
    match kind {
        InstrKindView::Store { value: Operand::Const(v), addr: Operand::Local(a) } => with_cell(
            c,
            reg_cell(l, c, a as int),
            v as int,
        ),
        InstrKindView::Store { value: Operand::Local(n), addr: Operand::Local(a) } => with_cell(
            with_cell(c, reg_cell(l, c, a as int), c.tape[reg_cell(l, c, n as int)] as int),
            reg_cell(l, c, n as int),
            0,
        ),
        InstrKindView::Load { addr: Operand::Local(a), dest } => with_cell(
            with_cell(
                with_cell(
                    c,
                    reg_cell(l, c, dest as int),
                    c.tape[reg_cell(l, c, dest as int)] + c.tape[reg_cell(l, c, a as int)],
                ),
                s,
                0,
            ),
            reg_cell(l, c, a as int),
            c.tape[reg_cell(l, c, a as int)] + c.tape[s],
        ),
        InstrKindView::Add { op0: Operand::Local(x), op1: Operand::Const(y), dest } => with_cell(
            with_cell(
                with_cell(
                    c,
                    reg_cell(l, c, dest as int),
                    c.tape[reg_cell(l, c, dest as int)] + c.tape[reg_cell(l, c, x as int)]
                        + c.tape[s] + y,
                ),
                reg_cell(l, c, x as int),
                0,
            ),
            s,
            0,
        ),
        InstrKindView::ICmp { pred, op0: Operand::Local(x), op1: Operand::Const(y), dest } => with_cell(
            c,
            reg_cell(l, c, dest as int),
            if c.tape[reg_cell(l, c, x as int)] < y {
                1
            } else {
                0
            },
        ),
        _ => c,
    }
}

/// The table of instructions holds of the programs that the interpreter
/// runs. Where `ops` is what the lowering of an instruction that is no call
/// is read as, and the cells are ready for it, the run ends, after `k`
/// operations, with the head where it started and the cells that the table
/// gives: an allocation changes nothing; a store sets the addressed register
/// to the constant, or moves the value's register into it; a load adds the
/// addressed register to the destination and keeps it; an addition moves the
/// operand, the first scratch cell and the constant into the destination; a
/// comparison sets the destination to 1 where the operand is less than the
/// constant and to 0 where it is not, and keeps the operand.
pub proof fn law_instruction_table(
    functions: Seq<FunctionView>,
    f: FunctionView,
    l: Layout,
    term: TermView,
    kind: InstrKindView,
    c: Cells,
    ops: Seq<COps>,
) -> (k: nat)
    requires
        ready(l, kind, c),
        lower_kind(functions, f, l, term, kind) is Ok,
        resolved(program(lower_kind(functions, f, l, term, kind)->Ok_0), ops),
    ensures
        run(ops, at(0, c, 0), k) is Halted,
        cells_of(run(ops, at(0, c, 0), k)->Halted_0) == outcome(l, kind, c),
        outcome(l, kind, c).mp == c.mp,
{
    reveal(lower_kind);
    let fuel = 600nat;
    let text = lower_kind(functions, f, l, term, kind)->Ok_0;
    match kind {
        InstrKindView::Alloca { ty, dest } => {
            lemma_alloca_does(l, ty, dest, c, fuel);
        },
        InstrKindView::Store { value, addr } => {
            let a = local_of(addr)->Ok_0;
            match value {
                Operand::Const(v) => {
                    lemma_store_const_does(l, v, a, c, fuel);
                },
                Operand::Local(n) => {
                    lemma_store_local_does(l, n, a, c, fuel);
                },
                _ => {},
            }
        },
        InstrKindView::Load { addr, dest } => {
            lemma_load_does(l, local_of(addr)->Ok_0, dest, c, fuel);
        },
        InstrKindView::Add { op0, op1, dest } => {
            lemma_add_does(l, local_of(op0)->Ok_0, const_of(op1)->Ok_0, dest, c, fuel);
        },
        InstrKindView::ICmp { pred, op0, op1, dest } => {
            lemma_compare_does(l, local_of(op0)->Ok_0, const_of(op1)->Ok_0, dest, c, fuel);
        },
        _ => {},
    }
    lemma_text_runs(text, ops, c, outcome(l, kind, c), fuel)
}

/// A call of the output intrinsic prints its constant, on top of what the
/// first scratch cell holds, and leaves the scratch cell at 0: the run of
/// its lowering ends, after `k` operations, with the one byte more in the
/// output and everything else as it was.
pub proof fn law_putchar_prints(l: Layout, call: CallView, c: Cells, ops: Seq<COps>) -> (k: nat)
    requires
        on_tape(l, c),
        lower_putchar(l, call) is Ok,
        c.tape[reg_cell(l, c, l.scratch as int)] + const_of(call.args[0])->Ok_0 <= 255,
        resolved(program(lower_putchar(l, call)->Ok_0), ops),
    ensures
        run(ops, at(0, c, 0), k) is Halted,
        cells_of(run(ops, at(0, c, 0), k)->Halted_0) == (Cells {
            output: c.output.push(
                (c.tape[reg_cell(l, c, l.scratch as int)] + const_of(call.args[0])->Ok_0) as u8,
            ),
            ..with_cell(c, reg_cell(l, c, l.scratch as int), 0)
        }),
{
    let fuel = 600nat;
    lemma_putchar_does(l, call, c, fuel);
    let end = Cells {
        output: c.output.push(
            (c.tape[reg_cell(l, c, l.scratch as int)] + const_of(call.args[0])->Ok_0) as u8,
        ),
        ..with_cell(c, reg_cell(l, c, l.scratch as int), 0)
    };
    lemma_text_runs(lower_putchar(l, call)->Ok_0, ops, c, end, fuel)
}

/// A call of a function of the module opens the next frame: the run of its
/// lowering ends, after `k` operations, with the head one frame on and, in
/// the frame there, the entry flag, the flag of the callee and the flag of
/// the callee's entry block each raised by one.
pub proof fn law_call_opens_frame(
    functions: Seq<FunctionView>,
    l: Layout,
    callee: Seq<char>,
    c: Cells,
    ops: Seq<COps>,
) -> (k: nat)
    requires
        l.wf(),
        l.funcns == functions.len(),
        names_quiet(functions),
        lower_enter(functions, l, callee) is Ok,
        0 <= c.mp,
        c.mp + 2 * l.width <= c.tape.len(),
        c.tape[c.mp + l.width] <= 254,
        c.tape[c.mp + l.width + 1 + function_index(functions, callee)->0] <= 254,
        c.tape[c.mp + l.width + 1 + l.funcns] <= 254,
        resolved(program(lower_enter(functions, l, callee)->Ok_0), ops),
    ensures
        run(ops, at(0, c, 0), k) is Halted,
        cells_of(run(ops, at(0, c, 0), k)->Halted_0) == moved(
            with_cell(
                with_cell(
                    with_cell(c, c.mp + l.width, c.tape[c.mp + l.width] + 1),
                    c.mp + l.width + 1 + function_index(functions, callee)->0,
                    c.tape[c.mp + l.width + 1 + function_index(functions, callee)->0] + 1,
                ),
                c.mp + l.width + 1 + l.funcns,
                c.tape[c.mp + l.width + 1 + l.funcns] + 1,
            ),
            l.width as int,
        ),
{
    let fuel = 600nat;
    lemma_enter_does(functions, l, callee, c, fuel);
    let end = sem(parse(lower_enter(functions, l, callee)->Ok_0), c, fuel)->Done_0;
    lemma_text_runs(lower_enter(functions, l, callee)->Ok_0, ops, c, end, fuel)
}

/// A return closes the frame: the run of its lowering ends, after `k`
/// operations, with the entry flag of the frame and the flag of the function
/// each taken down by one, and the head one frame back.
pub proof fn law_return_closes_frame(
    f: FunctionView,
    l: Layout,
    fid: int,
    c: Cells,
    ops: Seq<COps>,
) -> (k: nat)
    requires
        l.wf(),
        0 <= fid < l.funcns,
        quiet(f.name),
        l.width <= c.mp,
        c.mp + l.width <= c.tape.len(),
        c.tape[c.mp] >= 1,
        c.tape[c.mp + 1 + fid] >= 1,
        resolved(program(lower_ret(f, l, fid)), ops),
    ensures
        run(ops, at(0, c, 0), k) is Halted,
        cells_of(run(ops, at(0, c, 0), k)->Halted_0) == moved(
            with_cell(
                with_cell(c, c.mp, c.tape[c.mp] - 1),
                c.mp + 1 + fid,
                c.tape[c.mp + 1 + fid] - 1,
            ),
            -(l.width as int),
        ),
{
    let fuel = 600nat;
    lemma_ret_does(f, l, fid, c, fuel);
    let end = sem(parse(lower_ret(f, l, fid)), c, fuel)->Done_0;
    lemma_text_runs(lower_ret(f, l, fid), ops, c, end, fuel)
}

/// A branch raises the flag of the block it names: the run of its lowering
/// ends, after `k` operations, with that flag one higher and everything else
/// as it was.
pub proof fn law_branch_raises_flag(
    f: FunctionView,
    l: Layout,
    dest: usize,
    c: Cells,
    ops: Seq<COps>,
) -> (k: nat)
    requires
        on_tape(l, c),
        l.blockns == f.blocks.len(),
        quiet(f.name),
        lower_br(f, l, dest) is Ok,
        c.tape[flag_cell(l, c, block_index(f.blocks, dest)->0)] <= 254,
        resolved(program(lower_br(f, l, dest)->Ok_0), ops),
    ensures
        run(ops, at(0, c, 0), k) is Halted,
        cells_of(run(ops, at(0, c, 0), k)->Halted_0) == with_cell(
            c,
            flag_cell(l, c, block_index(f.blocks, dest)->0),
            c.tape[flag_cell(l, c, block_index(f.blocks, dest)->0)] + 1,
        ),
{
    let fuel = 600nat;
    lemma_br_does(f, l, dest, c, fuel);
    let end = sem(parse(lower_br(f, l, dest)->Ok_0), c, fuel)->Done_0;
    lemma_text_runs(lower_br(f, l, dest)->Ok_0, ops, c, end, fuel)
}

/// The block whose flag a conditional branch raises: the one where the
/// condition is 1, the other where it is 0.
pub open spec fn chosen(f: FunctionView, cond: int, true_dest: usize, false_dest: usize) -> int {
    if cond == 1 {
        block_index(f.blocks, true_dest)->0
    } else {
        block_index(f.blocks, false_dest)->0
    }
}

/// A conditional branch picks one block: on a condition that is 0 or 1, with
/// the first scratch cell at 0, the run of its lowering ends, after `k`
/// operations, with the flag of the chosen block one higher, the
/// condition's register at 0, and everything else as it was.
pub proof fn law_conditional_branch_picks(
    f: FunctionView,
    l: Layout,
    cond: usize,
    true_dest: usize,
    false_dest: usize,
    c: Cells,
    ops: Seq<COps>,
) -> (k: nat)
    requires
        on_tape(l, c),
        l.blockns == f.blocks.len(),
        quiet(f.name),
        cond < l.scratch,
        lower_condbr(f, l, Operand::Local(cond), true_dest, false_dest) is Ok,
        c.tape[reg_cell(l, c, cond as int)] <= 1,
        c.tape[reg_cell(l, c, l.scratch as int)] == 0,
        c.tape[flag_cell(l, c, block_index(f.blocks, true_dest)->0)] <= 253,
        c.tape[flag_cell(l, c, block_index(f.blocks, false_dest)->0)] <= 253,
        resolved(
            program(lower_condbr(f, l, Operand::Local(cond), true_dest, false_dest)->Ok_0),
            ops,
        ),
    ensures
        run(ops, at(0, c, 0), k) is Halted,
        cells_of(run(ops, at(0, c, 0), k)->Halted_0) == with_cell(
            with_cell(c, reg_cell(l, c, cond as int), 0),
            flag_cell(
                l,
                c,
                chosen(f, c.tape[reg_cell(l, c, cond as int)] as int, true_dest, false_dest),
            ),
            c.tape[flag_cell(
                l,
                c,
                chosen(f, c.tape[reg_cell(l, c, cond as int)] as int, true_dest, false_dest),
            )] + 1,
        ),
{
    let fuel = 600nat;
    lemma_condbr_does(f, l, cond, true_dest, false_dest, c, fuel);
    let text = lower_condbr(f, l, Operand::Local(cond), true_dest, false_dest)->Ok_0;
    let end = sem(parse(text), c, fuel)->Done_0;
    lemma_text_runs(text, ops, c, end, fuel)
}

/// The start of every compiled program opens the first frame: the run of the
/// prelude from the state in which every run starts ends, after `k`
/// operations, with the head one frame on and, in the frame there, the entry
/// flag, the flag of `main` and the flag of the entry block at 1; every other
/// cell is 0, so that one function and one block are to be run.
pub proof fn law_start_opens_first_frame(m: ModuleView, main: int, ops: Seq<COps>) -> (k: nat)
    requires
        0 <= main < m.functions.len(),
        2 * frame_width(m) <= TAPE_SIZE,
        resolved(program(prelude(m, main)), ops),
    ensures
        run(ops, initial(), k) is Halted,
        (run(ops, initial(), k)->Halted_0).mp == frame_width(m),
        (run(ops, initial(), k)->Halted_0).output == Seq::<u8>::empty(),
        forall|i: int|
            0 <= i < TAPE_SIZE ==> #[trigger] (run(ops, initial(), k)->Halted_0).tape[i] == if i
                == frame_width(m) || i == frame_width(m) + 1 + main || i == frame_width(m) + 1
                + m.functions.len() {
                1u8
            } else {
                0u8
            },
{
    let fuel = 600nat;
    let c = cells_of(initial());
    assert(at(0, c, 0) == initial());
    crate::layout::lemma_layout_wf(m, main);
    lemma_prelude_does(m, main, c, fuel);
    let end = sem(parse(prelude(m, main)), c, fuel)->Done_0;
    lemma_text_runs(prelude(m, main), ops, c, end, fuel)
}

} // verus!
