//! The code emitter: the dispatch loop, and the lowering of every instruction
//! and terminator to tape-language text.
use vstd::prelude::*;
use vstd::string::StringExecFns;
use crate::ir::{
    BasicBlock, BlockView, Call, CallView, Callee, CompileError, Function, FunctionView, InstrKind,
    InstrKindView, InstrView, Module, ModuleView, Operand, Pred, TermKind, TermView, Terminator, Ty,
};
use crate::layout::{
    block_reach, blocks_reach, frame_width, goto_block, goto_func, goto_reg, instr_reach,
    layout_of, lemma_block_within, lemma_instr_within, operand_reach, plan_function, plan_width,
    term_reach, Layout,
};
use crate::interp::TAPE_SIZE;
use crate::normalize::{
    all_settled, calls_never_in_first_block, calls_terminate_blocks, find_call, first_call,
    guard_module, guard_module_fits, lemma_normalized, lemma_settled, normalized, settled,
    split_module, split_module_fits,
};
use crate::text::{bfsan, decimal, repeated, sanitized, Writer};

verus! {

// ---------------------------------------------------------------------------
// Operands and names
// ---------------------------------------------------------------------------

/// The register that an operand names.
pub open spec fn local_of(op: Operand) -> Result<usize, CompileError> {
    match op {
        Operand::Local(n) => Ok(n),
        _ => Err(CompileError::UnsupportedOperand),
    }
}

/// The constant that an operand is, where it fits a cell.
pub open spec fn const_of(op: Operand) -> Result<u64, CompileError> {
    match op {
        Operand::Const(v) => if v <= 255 {
            Ok(v)
        } else {
            Err(CompileError::UnsupportedOperand)
        },
        _ => Err(CompileError::UnsupportedOperand),
    }
}

/// The register that a local operand names; any other operand is refused.
pub fn unlop(op: &Operand) -> (r: Result<usize, CompileError>)
    ensures
        r == local_of(*op),
{
    match op {
        Operand::Local(n) => Ok(*n),
        _ => Err(CompileError::UnsupportedOperand),
    }
}

/// The value of a constant operand of at most 255; any other operand is
/// refused.
pub fn uncop(op: &Operand) -> (r: Result<u64, CompileError>)
    ensures
        r == const_of(*op),
{
    match op {
        Operand::Const(v) => if *v <= 255 {
            Ok(*v)
        } else {
            Err(CompileError::UnsupportedOperand)
        },
        _ => Err(CompileError::UnsupportedOperand),
    }
}

/// The index of the last block of that name.
pub open spec fn block_index(blocks: Seq<BlockView>, name: usize) -> Option<int>
    decreases blocks.len(),
{
    if blocks.len() == 0 {
        None
    } else if blocks.last().name == name {
        Some(blocks.len() - 1)
    } else {
        block_index(blocks.drop_last(), name)
    }
}

/// The index of the last function of that name.
pub open spec fn function_index(functions: Seq<FunctionView>, name: Seq<char>) -> Option<int>
    decreases functions.len(),
{
    if functions.len() == 0 {
        None
    } else if functions.last().name == name {
        Some(functions.len() - 1)
    } else {
        function_index(functions.drop_last(), name)
    }
}

/// A block that is found is a block of the function, and has the name that
/// was looked for.
pub proof fn lemma_block_index(blocks: Seq<BlockView>, name: usize)
    ensures
        match block_index(blocks, name) {
            Some(i) => 0 <= i < blocks.len() && blocks[i].name == name,
            None => true,
        },
    decreases blocks.len(),
{
    if blocks.len() > 0 && blocks.last().name != name {
        lemma_block_index(blocks.drop_last(), name);
    }
}

/// A function that is found is a function of the module, and has the name
/// that was looked for.
pub proof fn lemma_function_index(functions: Seq<FunctionView>, name: Seq<char>)
    ensures
        match function_index(functions, name) {
            Some(i) => 0 <= i < functions.len() && functions[i].name == name,
            None => true,
        },
    decreases functions.len(),
{
    if functions.len() > 0 && functions.last().name != name {
        lemma_function_index(functions.drop_last(), name);
    }
}

/// Looks a block up by its name.
pub fn find_block(f: &Function, name: usize) -> (r: Option<usize>)
    ensures
        match r {
            Some(i) => block_index(f@.blocks, name) == Some(i as int) && i < f.basic_blocks.len(),
            None => block_index(f@.blocks, name) is None,
        },
{
    let ghost views = f@.blocks;
    let mut i: usize = f.basic_blocks.len();
    assert(views.take(i as int) =~= views);
    while i > 0
        invariant
            i <= f.basic_blocks.len(),
            views == f@.blocks,
            block_index(views, name) == block_index(views.take(i as int), name),
        decreases i,
    {
        i -= 1;
        assert(views.take(i + 1).drop_last() =~= views.take(i as int));
        if f.basic_blocks[i].name == name {
            return Some(i);
        }
    }
    None
}

/// Looks a function up by its name.
pub fn find_function(module: &Module, name: &String) -> (r: Option<usize>)
    ensures
        match r {
            Some(i) => function_index(module@.functions, name@) == Some(i as int) && i
                < module.functions.len(),
            None => function_index(module@.functions, name@) is None,
        },
{
    let ghost views = module@.functions;
    let mut i: usize = module.functions.len();
    assert(views.take(i as int) =~= views);
    while i > 0
        invariant
            i <= module.functions.len(),
            views == module@.functions,
            function_index(views, name@) == function_index(views.take(i as int), name@),
        decreases i,
    {
        i -= 1;
        assert(views.take(i + 1).drop_last() =~= views.take(i as int));
        if module.functions[i].name == *name {
            return Some(i);
        }
    }
    None
}

// ---------------------------------------------------------------------------
// Lines
// ---------------------------------------------------------------------------

fn line3(a: &str, b: &str, c: &str) -> (r: String)
    ensures
        r@ == a@ + b@ + c@,
{
    let mut w = Writer::new();
    let mark = w.open();
    w.text(a);
    w.text(b);
    w.text(c);
    w.close(mark);
    let r = w.finish();
    assert(r@ =~= a@ + b@ + c@);
    r
}

fn line_name_num(a: &str, name: &str, b: &str, n: usize, c: &str) -> (r: String)
    ensures
        r@ == a@ + name@ + b@ + decimal(n as nat) + c@,
{
    let mut w = Writer::new();
    let mark = w.open();
    w.text(a);
    w.text(name);
    w.text(b);
    w.number(n as u64);
    w.text(c);
    w.close(mark);
    let r = w.finish();
    assert(r@ =~= a@ + name@ + b@ + decimal(n as nat) + c@);
    r
}

fn line_num(a: &str, n: usize, b: &str) -> (r: String)
    ensures
        r@ == a@ + decimal(n as nat) + b@,
{
    let mut w = Writer::new();
    let mark = w.open();
    w.text(a);
    w.number(n as u64);
    w.text(b);
    w.close(mark);
    let r = w.finish();
    assert(r@ =~= a@ + decimal(n as nat) + b@);
    r
}

fn line_run(a: &str, c: char, n: u64, b: &str) -> (r: String)
    requires
        n <= 255,
    ensures
        r@ == a@ + repeated(c, n as nat) + b@,
{
    let mut w = Writer::new();
    let mark = w.open();
    w.text(a);
    w.repeat(c, n as usize);
    w.text(b);
    w.close(mark);
    let r = w.finish();
    assert(r@ =~= a@ + repeated(c, n as nat) + b@);
    r
}

fn line_num2(a: &str, n1: usize, b: &str, n2: u64, c: &str) -> (r: String)
    ensures
        r@ == a@ + decimal(n1 as nat) + b@ + decimal(n2 as nat) + c@,
{
    let mut w = Writer::new();
    let mark = w.open();
    w.text(a);
    w.number(n1 as u64);
    w.text(b);
    w.number(n2);
    w.text(c);
    w.close(mark);
    let r = w.finish();
    assert(r@ =~= a@ + decimal(n1 as nat) + b@ + decimal(n2 as nat) + c@);
    r
}

fn line_num3(a: &str, n1: usize, b: &str, n2: usize, c: &str, n3: u64, d: &str) -> (r: String)
    ensures
        r@ == a@ + decimal(n1 as nat) + b@ + decimal(n2 as nat) + c@ + decimal(n3 as nat) + d@,
{
    let mut w = Writer::new();
    let mark = w.open();
    w.text(a);
    w.number(n1 as u64);
    w.text(b);
    w.number(n2 as u64);
    w.text(c);
    w.number(n3);
    w.text(d);
    w.close(mark);
    let r = w.finish();
    assert(r@ =~= a@ + decimal(n1 as nat) + b@ + decimal(n2 as nat) + c@ + decimal(n3 as nat)
        + d@);
    r
}

// ---------------------------------------------------------------------------
// Instructions, as text
// ---------------------------------------------------------------------------

/// `body` on register `r` of a frame laid out as `l`.
pub open spec fn reg(l: Layout, r: int, body: Seq<char>) -> Seq<char> {
    goto_reg(2, r as nat, l.funcns as nat, l.blockns as nat, body)
}

/// `body` on the flag of block `bid`, inside a block's code.
pub open spec fn flag(l: Layout, bid: int, body: Seq<char>) -> Seq<char> {
    goto_block(2, bid as nat, l.funcns as nat, body)
}

/// An allocation reserves its register and writes no instruction.
pub open spec fn lower_alloca(l: Layout, ty: Ty, dest: usize) -> Result<Seq<char>, CompileError> {
    if ty == Ty::Int(8) {
        Ok(reg(l, dest as int, "\t\t#alloca_%"@ + decimal(dest as nat) + "\n"@))
    } else {
        Err(CompileError::UnsupportedType)
    }
}

/// A store clears the addressed register, then moves a local value into it or
/// counts a constant up in it.
pub open spec fn lower_store(l: Layout, value: Operand, addr: Operand) -> Result<
    Seq<char>,
    CompileError,
> {
    match local_of(addr) {
        Err(e) => Err(e),
        Ok(a) => match value {
            Operand::Local(n) => Ok(
                reg(l, a as int, "\t\t[-]\n"@) + reg(l, n as int, "\t\t[-\n"@) + reg(
                    l,
                    a as int,
                    "\t\t+\n"@,
                ) + reg(l, n as int, "\t\t]\n"@),
            ),
            Operand::Const(v) => if v <= 255 {
                Ok(reg(l, a as int, "\t\t[-]"@ + repeated('+', v as nat) + "\n"@))
            } else {
                Err(CompileError::UnsupportedOperand)
            },
            Operand::Other => Err(CompileError::UnsupportedOperand),
        },
    }
}

/// A load doubles the addressed register into the destination and the first
/// scratch cell, then moves the scratch cell back.
pub open spec fn lower_load(l: Layout, addr: Operand, dest: usize) -> Result<
    Seq<char>,
    CompileError,
> {
    match local_of(addr) {
        Err(e) => Err(e),
        Ok(a) => {
            let t = l.scratch as int;
            Ok(
                reg(
                    l,
                    dest as int,
                    "\t\t #load_%"@ + decimal(a as nat) + "_to_%"@ + decimal(dest as nat) + "\n"@,
                ) + reg(l, t, "\t\t #load_temp0\n"@) + reg(l, a as int, "\t\t[-\n"@) + reg(
                    l,
                    dest as int,
                    "\t\t+\n"@,
                ) + reg(l, t, "\t\t+\n"@) + reg(l, a as int, "\t\t]\n"@) + reg(l, t, "\t\t[-\n"@)
                    + reg(l, a as int, "\t\t+\n"@) + reg(l, t, "\t\t]\n"@),
            )
        },
    }
}

/// An addition moves the first operand into the destination, then the
/// constant by way of the first scratch cell.
pub open spec fn lower_add(l: Layout, op0: Operand, op1: Operand, dest: usize) -> Result<
    Seq<char>,
    CompileError,
> {
    match local_of(op0) {
        Err(e) => Err(e),
        Ok(x) => match const_of(op1) {
            Err(e) => Err(e),
            Ok(y) => {
                let t = l.scratch as int;
                Ok(
                    reg(
                        l,
                        dest as int,
                        "\t\t#add_%"@ + decimal(x as nat) + "_c"@ + decimal(y as nat) + "\n"@,
                    ) + reg(l, t, "\t\t"@ + repeated('+', y as nat) + "\n"@) + reg(
                        l,
                        x as int,
                        "\t\t[-\n"@,
                    ) + reg(l, dest as int, "\t\t+\n"@) + reg(l, x as int, "\t\t]\n"@) + reg(
                        l,
                        t,
                        "\t\t[-\n"@,
                    ) + reg(l, dest as int, "\t\t+\n"@) + reg(l, t, "\t\t]\n"@),
                )
            },
        },
    }
}

/// The first half of a comparison: the cells are named, the first operand is
/// doubled into the destination, and the constant is counted up in the first
/// scratch cell.
#[verifier::opaque]
pub open spec fn compare_setup(l: Layout, x: usize, y: u64, dest: usize) -> Seq<char> {
    let s = l.scratch as int;
    reg(l, x as int, "\t\t#op0\n"@) + reg(l, s, "\t\t#op1\n"@) + reg(l, s + 1, "\t\t#temp0\n"@)
        + reg(l, s + 2, "\t\t#temp1_a\n"@) + reg(l, s + 3, "\t\t#temp1_b\n"@) + reg(
        l,
        s + 4,
        "\t\t#temp1_c\n"@,
    ) + reg(
        l,
        dest as int,
        "\t\t #%"@ + decimal(dest as nat) + "_icmp_%"@ + decimal(x as nat) + "_lt_"@ + decimal(
            y as nat,
        ) + "\n"@,
    ) + reg(l, x as int, "\t\t[\n"@) + reg(l, s, "\t\t+\n"@) + reg(l, dest as int, "\t\t+\n"@)
        + reg(l, x as int, "\t\t-]\n"@) + reg(l, s, "\t\t[\n"@) + reg(l, x as int, "\t\t+\n"@)
        + reg(l, s, "\t\t-]\n"@) + reg(l, s, "\t\t"@ + repeated('+', y as nat) + "\n"@)
}

/// The second half of a comparison: the five-cell less-than idiom, which
/// leaves 0 or 1 in the destination, and the clearing of the cells it used.
#[verifier::opaque]
pub open spec fn compare_less(l: Layout, dest: usize) -> Seq<char> {
    let s = l.scratch as int;
    let d = dest as int;
    reg(l, s + 2, "\t\ttemp1 >+ > <<\n"@) + reg(l, s, "\t\ty[\n"@) + reg(l, s + 1, "\t\t+\n"@)
        + reg(l, s + 2, "\t\t+\n"@) + reg(l, s, "\t\t-]\n"@) + reg(l, s + 1, "\t\ttemp0[\n"@)
        + reg(l, s, "\t\ty+\n"@) + reg(l, s + 1, "\t\ttemp0-]\n"@) + reg(l, d, "\t\t[\n"@) + reg(
        l,
        s + 1,
        "\t\ttemp0+\n"@,
    ) + reg(l, d, "\t\tx-]+\n"@) + reg(l, s + 2, "\t\t[>-]> [<\n"@) + reg(l, d, "\t\t-\n"@)
        + reg(l, s + 1, "\t\t[-]\n"@) + reg(l, s + 2, "\t\t>->]<+<\n"@) + reg(
        l,
        s + 1,
        "\t\t[\n"@,
    ) + reg(l, s + 2, "\t\t- [>-]> [<\n"@) + reg(l, d, "\t\t-\n"@) + reg(
        l,
        s + 1,
        "\t\t[-]+\n"@,
    ) + reg(l, s + 2, "\t\t>->]<+<\n"@) + reg(l, s + 1, "\t\t-]\n"@) + reg(l, s, "\t\t[-]\n"@)
        + reg(l, s + 1, "\t\t[-]\n"@) + reg(l, s + 2, "\t\t[-]\n"@) + reg(
        l,
        s + 3,
        "\t\t[-]\n"@,
    ) + reg(l, s + 4, "\t\t[-]\n"@)
}

/// A comparison of a register with a constant; only signed less-than is
/// supported.
pub open spec fn lower_compare(l: Layout, pred: Pred, op0: Operand, op1: Operand, dest: usize) -> Result<
    Seq<char>,
    CompileError,
> {
    match local_of(op0) {
        Err(e) => Err(e),
        Ok(x) => match const_of(op1) {
            Err(e) => Err(e),
            Ok(y) => if pred == Pred::SignedLess {
                Ok(compare_setup(l, x, y, dest) + compare_less(l, dest))
            } else {
                Err(CompileError::UnsupportedPredicate)
            },
        },
    }
}

/// The line that lists an instruction or terminator, commas replaced.
pub open spec fn listed(lead: Seq<char>, text: Seq<char>) -> Seq<char> {
    lead + sanitized(text) + "\n"@
}

/// A call of the output intrinsic: its one constant argument is counted up in
/// the first scratch cell, printed, and cleared.
pub open spec fn lower_putchar(l: Layout, c: CallView) -> Result<Seq<char>, CompileError> {
    if c.dest is Some || c.args.len() != 1 {
        Err(CompileError::BadPutchar)
    } else {
        match const_of(c.args[0]) {
            Err(e) => Err(e),
            Ok(v) => Ok(
                "\t\tputchar intrinsic\n"@ + reg(
                    l,
                    l.scratch as int,
                    "\t\t"@ + repeated('+', v as nat) + " .[-]\n"@,
                ),
            ),
        }
    }
}

/// A call of a function of the module: the head advances by one frame, and
/// the new frame gets its entry flag, the flag of the callee, and the flag of
/// the callee's entry block.
pub open spec fn lower_enter(functions: Seq<FunctionView>, l: Layout, callee: Seq<char>) -> Result<
    Seq<char>,
    CompileError,
> {
    match function_index(functions, callee) {
        None => Err(CompileError::UnknownFunction),
        Some(id) => Ok(
            "\t\t"@ + repeated('>', l.width as nat) + " next frame\n"@ + ("\t\t+ #__FRAME_"@
                + callee + "__\n"@) + goto_func(2, id as nat, "\t\t+ call func #"@ + callee + "\n"@)
                + flag(l, 0, "\t\t+ #"@ + callee + "/b0\n"@),
        ),
    }
}

/// A call, which ends its block in front of a branch: the flag of the block
/// that the branch names is set in the current frame, then the call is made.
pub open spec fn lower_call(
    functions: Seq<FunctionView>,
    f: FunctionView,
    l: Layout,
    term: TermView,
    c: CallView,
) -> Result<Seq<char>, CompileError> {
    match term.kind {
        TermKind::Br { dest } => match c.callee {
            None => Err(CompileError::UnsupportedCallee),
            Some(callee) => match block_index(f.blocks, dest) {
                None => Err(CompileError::UnknownBlock),
                Some(next) => {
                    let arm = flag(
                        l,
                        next,
                        "\t\t+ enable next #"@ + f.name + "/"@ + decimal(dest as nat) + "\n"@,
                    );
                    let call = if callee == "putchar"@ {
                        lower_putchar(l, c)
                    } else {
                        lower_enter(functions, l, callee)
                    };
                    match call {
                        Err(e) => Err(e),
                        Ok(text) => Ok(arm + text),
                    }
                },
            },
        },
        _ => Err(CompileError::UnsupportedTerminator),
    }
}

/// What an instruction lowers to, behind the line that lists it.
#[verifier::opaque]
pub open spec fn lower_kind(
    functions: Seq<FunctionView>,
    f: FunctionView,
    l: Layout,
    term: TermView,
    kind: InstrKindView,
) -> Result<Seq<char>, CompileError> {
    match kind {
        InstrKindView::Alloca { ty, dest } => lower_alloca(l, ty, dest),
        InstrKindView::Store { value, addr } => lower_store(l, value, addr),
        InstrKindView::Load { addr, dest } => lower_load(l, addr, dest),
        InstrKindView::Add { op0, op1, dest } => lower_add(l, op0, op1, dest),
        InstrKindView::ICmp { pred, op0, op1, dest } => lower_compare(l, pred, op0, op1, dest),
        InstrKindView::Call(c) => lower_call(functions, f, l, term, c),
        InstrKindView::Other => Err(CompileError::UnsupportedInstruction),
    }
}

/// An instruction as text: the line that lists it, then what it lowers to.
pub open spec fn lower_instr(
    functions: Seq<FunctionView>,
    f: FunctionView,
    l: Layout,
    term: TermView,
    i: InstrView,
) -> Result<Seq<char>, CompileError> {
    match lower_kind(functions, f, l, term, i.kind) {
        Err(e) => Err(e),
        Ok(text) => Ok(listed("\t\t"@, i.text) + text),
    }
}

/// The first `n` instructions of a block as text; the first one that is
/// refused decides.
pub open spec fn lower_instrs(
    functions: Seq<FunctionView>,
    f: FunctionView,
    l: Layout,
    b: BlockView,
    n: nat,
) -> Result<Seq<char>, CompileError>
    decreases n,
{
    if n == 0 {
        Ok(Seq::empty())
    } else {
        match lower_instrs(functions, f, l, b, (n - 1) as nat) {
            Err(e) => Err(e),
            Ok(done) => match lower_instr(functions, f, l, b.term, b.instrs[n - 1]) {
                Err(e) => Err(e),
                Ok(text) => Ok(done + text),
            },
        }
    }
}

/// A branch sets the flag of the block it names.
pub open spec fn lower_br(f: FunctionView, l: Layout, dest: usize) -> Result<
    Seq<char>,
    CompileError,
> {
    match block_index(f.blocks, dest) {
        None => Err(CompileError::UnknownBlock),
        Some(to) => Ok(flag(l, to, "\t\t+ #"@ + f.name + "/"@ + decimal(dest as nat) + "\n"@)),
    }
}

/// A conditional branch sets a scratch cell to 1; where the condition holds
/// it takes the scratch cell down and sets the flag of the one block, and
/// where the scratch cell is still 1 it takes it down and sets the flag of
/// the other.
pub open spec fn lower_condbr(
    f: FunctionView,
    l: Layout,
    cond: Operand,
    true_dest: usize,
    false_dest: usize,
) -> Result<Seq<char>, CompileError> {
    match local_of(cond) {
        Err(e) => Err(e),
        Ok(c) => match block_index(f.blocks, true_dest) {
            None => Err(CompileError::UnknownBlock),
            Some(yes) => match block_index(f.blocks, false_dest) {
                None => Err(CompileError::UnknownBlock),
                Some(no) => {
                    let t = l.scratch as int;
                    Ok(
                        reg(l, t, "\t\t+\n"@) + reg(l, c as int, "\t\t[-\n"@) + reg(
                            l,
                            t,
                            "\t\t-\n"@,
                        ) + flag(
                            l,
                            yes,
                            "\t\t+ #"@ + f.name + "/"@ + decimal(true_dest as nat) + "\n"@,
                        ) + reg(l, c as int, "\t\t]\n"@) + reg(l, t, "\t\t[-\n"@) + flag(
                            l,
                            no,
                            "\t\t+ #"@ + f.name + "/"@ + decimal(false_dest as nat) + "\n"@,
                        ) + reg(l, t, "\t\t]\n"@),
                    )
                },
            },
        },
    }
}

/// A return takes down the entry flag and the flag of the function, and
/// moves the head back by one frame.
pub open spec fn lower_ret(f: FunctionView, l: Layout, fid: int) -> Seq<char> {
    ("\t\t- #ded_func_"@ + f.name + "\n"@) + goto_func(
        2,
        fid as nat,
        "\t\t- uncall func "@ + f.name + "\n"@,
    ) + ("\t\t"@ + repeated('<', l.width as nat) + " prev frame\n"@)
}

/// A terminator as text: the line that lists it, then what it lowers to.
#[verifier::opaque]
pub open spec fn lower_term(f: FunctionView, l: Layout, fid: int, t: TermView) -> Result<
    Seq<char>,
    CompileError,
> {
    let body = match t.kind {
        TermKind::Br { dest } => lower_br(f, l, dest),
        TermKind::CondBr { cond, true_dest, false_dest } => lower_condbr(
            f,
            l,
            cond,
            true_dest,
            false_dest,
        ),
        TermKind::Ret => Ok(lower_ret(f, l, fid)),
        TermKind::Other => Err(CompileError::UnsupportedTerminator),
    };
    match body {
        Err(e) => Err(e),
        Ok(text) => Ok(listed("\t\tE "@, t.text) + text),
    }
}

/// The block holds a call.
pub open spec fn has_call(b: BlockView) -> bool {
    first_call(b.instrs) < b.instrs.len()
}

/// What stands between the opening and the closing of a block's loop: its
/// instructions, and its terminator unless the block ends in a call, whose
/// lowering covers the branch behind it.
#[verifier::opaque]
pub open spec fn lower_body(
    functions: Seq<FunctionView>,
    f: FunctionView,
    l: Layout,
    fid: int,
    b: BlockView,
) -> Result<Seq<char>, CompileError> {
    match lower_instrs(functions, f, l, b, b.instrs.len()) {
        Err(e) => Err(e),
        Ok(instrs) => if has_call(b) {
            Ok(instrs)
        } else {
            match lower_term(f, l, fid, b.term) {
                Err(e) => Err(e),
                Ok(term) => Ok(instrs + term),
            }
        },
    }
}

/// A block as text: a loop on the block's flag that takes the flag down and
/// runs the block's code.
pub open spec fn lower_block(
    functions: Seq<FunctionView>,
    f: FunctionView,
    l: Layout,
    fid: int,
    bid: int,
    b: BlockView,
) -> Result<Seq<char>, CompileError> {
    match lower_body(functions, f, l, fid, b) {
        Err(e) => Err(e),
        Ok(body) => Ok(
            goto_block(
                1,
                bid as nat,
                l.funcns as nat,
                "t#"@ + f.name + "/"@ + decimal(b.name as nat) + " [-\n"@,
            ) + body + goto_block(
                1,
                bid as nat,
                l.funcns as nat,
                "\t] b"@ + decimal(b.name as nat) + "\n"@,
            ),
        ),
    }
}

/// The first `n` blocks of a function as text; the first one that is refused
/// decides.
pub open spec fn lower_blocks(
    functions: Seq<FunctionView>,
    f: FunctionView,
    l: Layout,
    fid: int,
    n: nat,
) -> Result<Seq<char>, CompileError>
    decreases n,
{
    if n == 0 {
        Ok(Seq::empty())
    } else {
        match lower_blocks(functions, f, l, fid, (n - 1) as nat) {
            Err(e) => Err(e),
            Ok(done) => match lower_block(functions, f, l, fid, n - 1, f.blocks[n - 1]) {
                Err(e) => Err(e),
                Ok(text) => Ok(done + text),
            },
        }
    }
}

/// A function as text: a loop on the function's flag around its blocks.
#[verifier::opaque]
pub open spec fn lower_function(m: ModuleView, fid: int) -> Result<Seq<char>, CompileError> {
    let f = m.functions[fid];
    let l = layout_of(m, f);
    match lower_blocks(m.functions, f, l, fid, f.blocks.len()) {
        Err(e) => Err(e),
        Ok(blocks) => Ok(
            goto_func(0, fid as nat, "#"@ + f.name + " [\n"@) + blocks + goto_func(
                0,
                fid as nat,
                "] "@ + f.name + "\n"@,
            ),
        ),
    }
}

/// The first `n` functions of a module as text; the first one that is refused
/// decides.
pub open spec fn lower_functions(m: ModuleView, n: nat) -> Result<Seq<char>, CompileError>
    decreases n,
{
    if n == 0 {
        Ok(Seq::empty())
    } else {
        match lower_functions(m, (n - 1) as nat) {
            Err(e) => Err(e),
            Ok(done) => match lower_function(m, n - 1) {
                Err(e) => Err(e),
                Ok(text) => Ok(done + text),
            },
        }
    }
}

/// What sets the first frame up: the head moves one frame to the right, and
/// the frame there gets its entry flag, the flag of `main`, and the flag of
/// the entry block.
pub open spec fn prelude(m: ModuleView, main: int) -> Seq<char> {
    (repeated('>', frame_width(m) as nat) + " first frame\n"@) + "runtime init: \n"@
        + "+ #__FRAME__ENTRY__\n"@ + goto_func(0, main as nat, "+ call #main\n"@) + goto_block(
        0,
        0,
        m.functions.len(),
        "+ at #main/b0\n"@,
    ) + "\n"@
}

/// A normalized module as text: the prelude, then the dispatch loop on the
/// entry flag around all functions.
pub open spec fn lower_module(m: ModuleView) -> Result<Seq<char>, CompileError> {
    match function_index(m.functions, "main"@) {
        None => Err(CompileError::NoMain),
        Some(main) => if frame_width(m) > TAPE_SIZE {
            Err(CompileError::FrameTooWide)
        } else {
            match lower_functions(m, m.functions.len()) {
                Err(e) => Err(e),
                Ok(functions) => Ok(prelude(m, main) + "[\n"@ + functions + "]\n"@),
            }
        },
    }
}

/// What compiling a module gives: the module is normalized, then written out.
pub open spec fn compile_spec(m: ModuleView) -> Result<Seq<char>, CompileError> {
    if !split_module_fits(m) {
        Err(CompileError::NameOverflow)
    } else if !guard_module_fits(split_module(m)) {
        Err(CompileError::NameOverflow)
    } else {
        lower_module(guard_module(split_module(m)))
    }
}

// ---------------------------------------------------------------------------
// Writing
// ---------------------------------------------------------------------------

/// `r` and the writer are what `want` asks for: the text written, or the
/// refusal.
pub(crate) open spec fn emitted(
    before: &Writer,
    after: &Writer,
    r: Result<(), CompileError>,
    want: Result<Seq<char>, CompileError>,
) -> bool {
    match want {
        Ok(text) => r is Ok && before.wrote(after, text),
        Err(e) => r == Err::<(), CompileError>(e),
    }
}

fn emit_alloca(w: &mut Writer, l: Layout, ty: Ty, dest: usize) -> (r: Result<(), CompileError>)
    requires
        old(w).wf(),
        l.wf(),
        dest < l.scratch,
    ensures
        emitted(old(w), final(w), r, lower_alloca(l, ty, dest)),
{
    match ty {
        Ty::Int(bits) => {
            if bits != 8 {
                return Err(CompileError::UnsupportedType);
            }
        },
        Ty::Other => {
            return Err(CompileError::UnsupportedType);
        },
    }
    let mark = w.open();
    let body = line_num("\t\t#alloca_%", dest, "\n");
    w.on_reg(l, dest, body.as_str());
    w.close(mark);
    Ok(())
}

fn emit_store(w: &mut Writer, l: Layout, value: Operand, addr: Operand) -> (r: Result<
    (),
    CompileError,
>)
    requires
        old(w).wf(),
        l.wf(),
        operand_reach(value) <= l.scratch,
        operand_reach(addr) <= l.scratch,
    ensures
        emitted(old(w), final(w), r, lower_store(l, value, addr)),
{
    let a = match unlop(&addr) {
        Ok(a) => a,
        Err(e) => {
            return Err(e);
        },
    };
    let mark = w.open();
    match value {
        Operand::Local(n) => {
            w.on_reg(l, a, "\t\t[-]\n");
            w.on_reg(l, n, "\t\t[-\n");
            w.on_reg(l, a, "\t\t+\n");
            w.on_reg(l, n, "\t\t]\n");
        },
        Operand::Const(v) => {
            if v > 255 {
                return Err(CompileError::UnsupportedOperand);
            }
            let body = line_run("\t\t[-]", '+', v, "\n");
            w.on_reg(l, a, body.as_str());
        },
        Operand::Other => {
            return Err(CompileError::UnsupportedOperand);
        },
    }
    w.close(mark);
    Ok(())
}

fn emit_load(w: &mut Writer, l: Layout, addr: Operand, dest: usize) -> (r: Result<(), CompileError>)
    requires
        old(w).wf(),
        l.wf(),
        operand_reach(addr) <= l.scratch,
        dest < l.scratch,
    ensures
        emitted(old(w), final(w), r, lower_load(l, addr, dest)),
{
    let a = match unlop(&addr) {
        Ok(a) => a,
        Err(e) => {
            return Err(e);
        },
    };
    let t = l.scratch;
    let mark = w.open();
    let body = line_num2("\t\t #load_%", a, "_to_%", dest as u64, "\n");
    w.on_reg(l, dest, body.as_str());
    w.on_reg(l, t, "\t\t #load_temp0\n");
    w.on_reg(l, a, "\t\t[-\n");
    w.on_reg(l, dest, "\t\t+\n");
    w.on_reg(l, t, "\t\t+\n");
    w.on_reg(l, a, "\t\t]\n");
    w.on_reg(l, t, "\t\t[-\n");
    w.on_reg(l, a, "\t\t+\n");
    w.on_reg(l, t, "\t\t]\n");
    w.close(mark);
    Ok(())
}

fn emit_add(w: &mut Writer, l: Layout, op0: Operand, op1: Operand, dest: usize) -> (r: Result<
    (),
    CompileError,
>)
    requires
        old(w).wf(),
        l.wf(),
        operand_reach(op0) <= l.scratch,
        dest < l.scratch,
    ensures
        emitted(old(w), final(w), r, lower_add(l, op0, op1, dest)),
{
    let x = match unlop(&op0) {
        Ok(x) => x,
        Err(e) => {
            return Err(e);
        },
    };
    let y = match uncop(&op1) {
        Ok(y) => y,
        Err(e) => {
            return Err(e);
        },
    };
    let t = l.scratch;
    let mark = w.open();
    let name = line_num2("\t\t#add_%", x, "_c", y, "\n");
    w.on_reg(l, dest, name.as_str());
    let count = line_run("\t\t", '+', y, "\n");
    w.on_reg(l, t, count.as_str());
    w.on_reg(l, x, "\t\t[-\n");
    w.on_reg(l, dest, "\t\t+\n");
    w.on_reg(l, x, "\t\t]\n");
    w.on_reg(l, t, "\t\t[-\n");
    w.on_reg(l, dest, "\t\t+\n");
    w.on_reg(l, t, "\t\t]\n");
    w.close(mark);
    Ok(())
}

fn emit_compare_setup(w: &mut Writer, l: Layout, x: usize, y: u64, dest: usize)
    requires
        old(w).wf(),
        l.wf(),
        x < l.scratch,
        dest < l.scratch,
        y <= 255,
    ensures
        old(w).wrote(final(w), compare_setup(l, x, y, dest)),
{
    proof {
        reveal(compare_setup);
    }
    let s = l.scratch;
    let mark = w.open();
    w.on_reg(l, x, "\t\t#op0\n");
    w.on_reg(l, s, "\t\t#op1\n");
    w.on_reg(l, s + 1, "\t\t#temp0\n");
    w.on_reg(l, s + 2, "\t\t#temp1_a\n");
    w.on_reg(l, s + 3, "\t\t#temp1_b\n");
    w.on_reg(l, s + 4, "\t\t#temp1_c\n");
    let name = line_num3("\t\t #%", dest, "_icmp_%", x, "_lt_", y, "\n");
    w.on_reg(l, dest, name.as_str());
    w.on_reg(l, x, "\t\t[\n");
    w.on_reg(l, s, "\t\t+\n");
    w.on_reg(l, dest, "\t\t+\n");
    w.on_reg(l, x, "\t\t-]\n");
    w.on_reg(l, s, "\t\t[\n");
    w.on_reg(l, x, "\t\t+\n");
    w.on_reg(l, s, "\t\t-]\n");
    let count = line_run("\t\t", '+', y, "\n");
    w.on_reg(l, s, count.as_str());
    w.close(mark);
}

fn emit_compare_less(w: &mut Writer, l: Layout, dest: usize)
    requires
        old(w).wf(),
        l.wf(),
        dest < l.scratch,
    ensures
        old(w).wrote(final(w), compare_less(l, dest)),
{
    proof {
        reveal(compare_less);
    }
    let s = l.scratch;
    let d = dest;
    let mark = w.open();
    w.on_reg(l, s + 2, "\t\ttemp1 >+ > <<\n");
    w.on_reg(l, s, "\t\ty[\n");
    w.on_reg(l, s + 1, "\t\t+\n");
    w.on_reg(l, s + 2, "\t\t+\n");
    w.on_reg(l, s, "\t\t-]\n");
    w.on_reg(l, s + 1, "\t\ttemp0[\n");
    w.on_reg(l, s, "\t\ty+\n");
    w.on_reg(l, s + 1, "\t\ttemp0-]\n");
    w.on_reg(l, d, "\t\t[\n");
    w.on_reg(l, s + 1, "\t\ttemp0+\n");
    w.on_reg(l, d, "\t\tx-]+\n");
    w.on_reg(l, s + 2, "\t\t[>-]> [<\n");
    w.on_reg(l, d, "\t\t-\n");
    w.on_reg(l, s + 1, "\t\t[-]\n");
    w.on_reg(l, s + 2, "\t\t>->]<+<\n");
    w.on_reg(l, s + 1, "\t\t[\n");
    w.on_reg(l, s + 2, "\t\t- [>-]> [<\n");
    w.on_reg(l, d, "\t\t-\n");
    w.on_reg(l, s + 1, "\t\t[-]+\n");
    w.on_reg(l, s + 2, "\t\t>->]<+<\n");
    w.on_reg(l, s + 1, "\t\t-]\n");
    w.on_reg(l, s, "\t\t[-]\n");
    w.on_reg(l, s + 1, "\t\t[-]\n");
    w.on_reg(l, s + 2, "\t\t[-]\n");
    w.on_reg(l, s + 3, "\t\t[-]\n");
    w.on_reg(l, s + 4, "\t\t[-]\n");
    w.close(mark);
}

fn emit_compare(w: &mut Writer, l: Layout, pred: Pred, op0: Operand, op1: Operand, dest: usize) -> (r:
    Result<(), CompileError>)
    requires
        old(w).wf(),
        l.wf(),
        operand_reach(op0) <= l.scratch,
        dest < l.scratch,
    ensures
        emitted(old(w), final(w), r, lower_compare(l, pred, op0, op1, dest)),
{
    let x = match unlop(&op0) {
        Ok(x) => x,
        Err(e) => {
            return Err(e);
        },
    };
    let y = match uncop(&op1) {
        Ok(y) => y,
        Err(e) => {
            return Err(e);
        },
    };
    match pred {
        Pred::SignedLess => {},
        _ => {
            return Err(CompileError::UnsupportedPredicate);
        },
    }
    let mark = w.open();
    emit_compare_setup(w, l, x, y, dest);
    emit_compare_less(w, l, dest);
    w.close(mark);
    Ok(())
}

fn emit_putchar(w: &mut Writer, l: Layout, c: &Call) -> (r: Result<(), CompileError>)
    requires
        old(w).wf(),
        l.wf(),
    ensures
        emitted(old(w), final(w), r, lower_putchar(l, c@)),
{
    if c.dest.is_some() || c.args.len() != 1 {
        return Err(CompileError::BadPutchar);
    }
    let v = match uncop(&c.args[0]) {
        Ok(v) => v,
        Err(e) => {
            return Err(e);
        },
    };
    let mark = w.open();
    w.text("\t\tputchar intrinsic\n");
    let body = line_run("\t\t", '+', v, " .[-]\n");
    w.on_reg(l, l.scratch, body.as_str());
    w.close(mark);
    Ok(())
}

fn emit_enter(w: &mut Writer, module: &Module, l: Layout, callee: &String) -> (r: Result<
    (),
    CompileError,
>)
    requires
        old(w).wf(),
        l.wf(),
        l.funcns == module.functions.len(),
        l.blockns > 0,
    ensures
        emitted(old(w), final(w), r, lower_enter(module@.functions, l, callee@)),
{
    let id = match find_function(module, callee) {
        Some(id) => id,
        None => {
            return Err(CompileError::UnknownFunction);
        },
    };
    let mark = w.open();
    w.text("\t\t");
    w.repeat('>', l.width);
    w.text(" next frame\n");
    let frame = line3("\t\t+ #__FRAME_", callee.as_str(), "__\n");
    w.text(frame.as_str());
    let call = line3("\t\t+ call func #", callee.as_str(), "\n");
    w.on_func(l, 2, id, call.as_str());
    let entry = line3("\t\t+ #", callee.as_str(), "/b0\n");
    w.on_block(l, 2, 0, entry.as_str());
    w.close(mark);
    Ok(())
}

fn emit_call(w: &mut Writer, module: &Module, f: &Function, l: Layout, term: &Terminator, c: &Call) -> (r:
    Result<(), CompileError>)
    requires
        old(w).wf(),
        l.wf(),
        l.funcns == module.functions.len(),
        l.blockns == f.basic_blocks.len(),
        term@.kind is Br,
    ensures
        emitted(old(w), final(w), r, lower_call(module@.functions, f@, l, term@, c@)),
{
    let dest = match term.kind {
        TermKind::Br { dest } => dest,
        _ => {
            return Err(CompileError::UnsupportedTerminator);
        },
    };
    let callee = match &c.callee {
        Callee::Named(name) => name,
        Callee::Other => {
            return Err(CompileError::UnsupportedCallee);
        },
    };
    let next = match find_block(f, dest) {
        Some(next) => next,
        None => {
            return Err(CompileError::UnknownBlock);
        },
    };
    let mark = w.open();
    let arm = line_name_num("\t\t+ enable next #", f.name.as_str(), "/", dest, "\n");
    w.on_block(l, 2, next, arm.as_str());
    let putchar = String::from_str("putchar");
    let made = if *callee == putchar {
        emit_putchar(w, l, c)
    } else {
        emit_enter(w, module, l, callee)
    };
    match made {
        Ok(_) => {},
        Err(e) => {
            return Err(e);
        },
    }
    w.close(mark);
    Ok(())
}

fn emit_kind(w: &mut Writer, module: &Module, f: &Function, l: Layout, b: &BasicBlock, idx: usize) -> (r:
    Result<(), CompileError>)
    requires
        old(w).wf(),
        l.wf(),
        l.funcns == module.functions.len(),
        l.blockns == f.basic_blocks.len(),
        idx < b.instrs.len(),
        settled(b@),
        instr_reach(b.instrs[idx as int]@) <= l.scratch,
    ensures
        emitted(
            old(w),
            final(w),
            r,
            lower_kind(module@.functions, f@, l, b.term@, b.instrs[idx as int]@.kind),
        ),
{
    proof {
        reveal(lower_kind);
    }
    let i = &b.instrs[idx];
    match &i.kind {
        InstrKind::Alloca { ty, dest } => emit_alloca(w, l, *ty, *dest),
        InstrKind::Store { value, addr } => emit_store(w, l, *value, *addr),
        InstrKind::Load { addr, dest } => emit_load(w, l, *addr, *dest),
        InstrKind::Add { op0, op1, dest } => emit_add(w, l, *op0, *op1, *dest),
        InstrKind::ICmp { pred, op0, op1, dest } => emit_compare(w, l, *pred, *op0, *op1, *dest),
        InstrKind::Call(c) => {
            proof {
                lemma_settled(b@);
                assert(b@.instrs[idx as int] == i@);
            }
            emit_call(w, module, f, l, &b.term, c)
        },
        InstrKind::Other => Err(CompileError::UnsupportedInstruction),
    }
}

fn emit_instr(w: &mut Writer, module: &Module, f: &Function, l: Layout, b: &BasicBlock, idx: usize) -> (r:
    Result<(), CompileError>)
    requires
        old(w).wf(),
        l.wf(),
        l.funcns == module.functions.len(),
        l.blockns == f.basic_blocks.len(),
        idx < b.instrs.len(),
        settled(b@),
        instr_reach(b.instrs[idx as int]@) <= l.scratch,
    ensures
        emitted(
            old(w),
            final(w),
            r,
            lower_instr(module@.functions, f@, l, b.term@, b.instrs[idx as int]@),
        ),
{
    let mark = w.open();
    let words = bfsan(b.instrs[idx].text.clone());
    let line = line3("\t\t", words.as_str(), "\n");
    w.text(line.as_str());
    match emit_kind(w, module, f, l, b, idx) {
        Ok(_) => {},
        Err(e) => {
            return Err(e);
        },
    }
    w.close(mark);
    Ok(())
}

/// Once an instruction is refused, the block is.
pub proof fn lemma_instrs_refused(
    functions: Seq<FunctionView>,
    f: FunctionView,
    l: Layout,
    b: BlockView,
    n: nat,
    m: nat,
)
    requires
        n <= m,
        lower_instrs(functions, f, l, b, n) is Err,
    ensures
        lower_instrs(functions, f, l, b, m) == lower_instrs(functions, f, l, b, n),
    decreases m,
{
    if n < m {
        lemma_instrs_refused(functions, f, l, b, n, (m - 1) as nat);
    }
}

/// Once a block is refused, the function is.
pub proof fn lemma_blocks_refused(
    functions: Seq<FunctionView>,
    f: FunctionView,
    l: Layout,
    fid: int,
    n: nat,
    m: nat,
)
    requires
        n <= m,
        lower_blocks(functions, f, l, fid, n) is Err,
    ensures
        lower_blocks(functions, f, l, fid, m) == lower_blocks(functions, f, l, fid, n),
    decreases m,
{
    if n < m {
        lemma_blocks_refused(functions, f, l, fid, n, (m - 1) as nat);
    }
}

/// Once a function is refused, the module is.
pub proof fn lemma_functions_refused(mv: ModuleView, n: nat, m: nat)
    requires
        n <= m,
        lower_functions(mv, n) is Err,
    ensures
        lower_functions(mv, m) == lower_functions(mv, n),
    decreases m,
{
    if n < m {
        lemma_functions_refused(mv, n, (m - 1) as nat);
    }
}

fn emit_instrs(w: &mut Writer, module: &Module, f: &Function, l: Layout, b: &BasicBlock) -> (r:
    Result<(), CompileError>)
    requires
        old(w).wf(),
        l.wf(),
        l.funcns == module.functions.len(),
        l.blockns == f.basic_blocks.len(),
        settled(b@),
        block_reach(b@) <= l.scratch,
    ensures
        emitted(
            old(w),
            final(w),
            r,
            lower_instrs(module@.functions, f@, l, b@, b@.instrs.len()),
        ),
{
    let mark = w.open_loop();
    let mut i: usize = 0;
    while i < b.instrs.len()
        invariant
            i <= b.instrs.len(),
            w.wf(),
            !w.fresh@,
            w.outer@ == mark@.outer + mark@.piece,
            mark@ == old(w).scope(),
            old(w).wf(),
            l.wf(),
            l.funcns == module.functions.len(),
            l.blockns == f.basic_blocks.len(),
            settled(b@),
            block_reach(b@) <= l.scratch,
            lower_instrs(module@.functions, f@, l, b@, i as nat) == Ok::<
                Seq<char>,
                CompileError,
            >(w.piece@),
        decreases b.instrs.len() - i,
    {
        proof {
            lemma_instr_within(b@.instrs, i as int);
            assert(b@.instrs[i as int] == b.instrs[i as int]@);
            assert(b@.term == b.term@);
        }
        let ghost done = w.piece@;
        let ghost step = lower_instr(module@.functions, f@, l, b@.term, b@.instrs[i as int]);
        assert(lower_instrs(module@.functions, f@, l, b@, (i + 1) as nat) == match step {
            Err(e) => Err::<Seq<char>, CompileError>(e),
            Ok(text) => Ok(done + text),
        });
        match emit_instr(w, module, f, l, b, i) {
            Ok(_) => {},
            Err(e) => {
                proof {
                    lemma_instrs_refused(
                        module@.functions,
                        f@,
                        l,
                        b@,
                        (i + 1) as nat,
                        b@.instrs.len(),
                    );
                }
                return Err(e);
            },
        }
        i += 1;
    }
    w.close(mark);
    Ok(())
}

fn emit_term(w: &mut Writer, f: &Function, l: Layout, fid: usize, t: &Terminator) -> (r: Result<
    (),
    CompileError,
>)
    requires
        old(w).wf(),
        l.wf(),
        l.blockns == f.basic_blocks.len(),
        fid < l.funcns,
        term_reach(t@) <= l.scratch,
    ensures
        emitted(old(w), final(w), r, lower_term(f@, l, fid as int, t@)),
{
    proof {
        reveal(lower_term);
    }
    let mark = w.open();
    let words = bfsan(t.text.clone());
    let line = line3("\t\tE ", words.as_str(), "\n");
    w.text(line.as_str());
    match t.kind {
        TermKind::Br { dest } => {
            let to = match find_block(f, dest) {
                Some(to) => to,
                None => {
                    return Err(CompileError::UnknownBlock);
                },
            };
            let arm = line_name_num("\t\t+ #", f.name.as_str(), "/", dest, "\n");
            w.on_block(l, 2, to, arm.as_str());
        },
        TermKind::CondBr { cond, true_dest, false_dest } => {
            let c = match unlop(&cond) {
                Ok(c) => c,
                Err(e) => {
                    return Err(e);
                },
            };
            let yes = match find_block(f, true_dest) {
                Some(yes) => yes,
                None => {
                    return Err(CompileError::UnknownBlock);
                },
            };
            let no = match find_block(f, false_dest) {
                Some(no) => no,
                None => {
                    return Err(CompileError::UnknownBlock);
                },
            };
            let t = l.scratch;
            let inner = w.open();
            w.on_reg(l, t, "\t\t+\n");
            w.on_reg(l, c, "\t\t[-\n");
            w.on_reg(l, t, "\t\t-\n");
            let arm_yes = line_name_num("\t\t+ #", f.name.as_str(), "/", true_dest, "\n");
            w.on_block(l, 2, yes, arm_yes.as_str());
            w.on_reg(l, c, "\t\t]\n");
            w.on_reg(l, t, "\t\t[-\n");
            let arm_no = line_name_num("\t\t+ #", f.name.as_str(), "/", false_dest, "\n");
            w.on_block(l, 2, no, arm_no.as_str());
            w.on_reg(l, t, "\t\t]\n");
            w.close(inner);
        },
        TermKind::Ret => {
            let inner = w.open();
            let dead = line3("\t\t- #ded_func_", f.name.as_str(), "\n");
            w.text(dead.as_str());
            let uncall = line3("\t\t- uncall func ", f.name.as_str(), "\n");
            w.on_func(l, 2, fid, uncall.as_str());
            let back = w.open();
            w.text("\t\t");
            w.repeat('<', l.width);
            w.text(" prev frame\n");
            w.close(back);
            w.close(inner);
        },
        TermKind::Other => {
            return Err(CompileError::UnsupportedTerminator);
        },
    }
    w.close(mark);
    Ok(())
}

/// `r` is what `want` asks for: the text, or the refusal.
pub open spec fn compiled(r: Result<String, CompileError>, want: Result<Seq<char>, CompileError>) -> bool {
    match want {
        Ok(text) => match r {
            Ok(s) => s@ == text,
            Err(_) => false,
        },
        Err(e) => match r {
            Ok(_) => false,
            Err(got) => got == e,
        },
    }
}

fn emit_body(w: &mut Writer, module: &Module, f: &Function, l: Layout, fid: usize, b: &BasicBlock) -> (r:
    Result<(), CompileError>)
    requires
        old(w).wf(),
        l.wf(),
        l.funcns == module.functions.len(),
        l.blockns == f.basic_blocks.len(),
        fid < l.funcns,
        settled(b@),
        block_reach(b@) <= l.scratch,
    ensures
        emitted(old(w), final(w), r, lower_body(module@.functions, f@, l, fid as int, b@)),
{
    proof {
        reveal(lower_body);
    }
    let mark = w.open();
    match emit_instrs(w, module, f, l, b) {
        Ok(_) => {},
        Err(e) => {
            return Err(e);
        },
    }
    assert(b@.instrs.skip(0) =~= b@.instrs);
    let called = find_call(&b.instrs, 0) < b.instrs.len();
    if !called {
        match emit_term(w, f, l, fid, &b.term) {
            Ok(_) => {},
            Err(e) => {
                return Err(e);
            },
        }
    }
    w.close(mark);
    Ok(())
}

fn emit_block(
    w: &mut Writer,
    module: &Module,
    f: &Function,
    l: Layout,
    fid: usize,
    bid: usize,
) -> (r: Result<(), CompileError>)
    requires
        old(w).wf(),
        l.wf(),
        l.funcns == module.functions.len(),
        l.blockns == f.basic_blocks.len(),
        fid < l.funcns,
        bid < f.basic_blocks.len(),
        settled(f@.blocks[bid as int]),
        block_reach(f@.blocks[bid as int]) <= l.scratch,
    ensures
        emitted(
            old(w),
            final(w),
            r,
            lower_block(module@.functions, f@, l, fid as int, bid as int, f@.blocks[bid as int]),
        ),
{
    let b = &f.basic_blocks[bid];
    assert(f@.blocks[bid as int] == b@);
    let mark = w.open();
    let opening = line_name_num("t#", f.name.as_str(), "/", b.name, " [-\n");
    w.on_block(l, 1, bid, opening.as_str());
    match emit_body(w, module, f, l, fid, b) {
        Ok(_) => {},
        Err(e) => {
            return Err(e);
        },
    }
    let closing = line_num("\t] b", b.name, "\n");
    w.on_block(l, 1, bid, closing.as_str());
    w.close(mark);
    Ok(())
}

fn emit_blocks(w: &mut Writer, module: &Module, f: &Function, l: Layout, fid: usize) -> (r: Result<
    (),
    CompileError,
>)
    requires
        old(w).wf(),
        l.wf(),
        l.funcns == module.functions.len(),
        l.blockns == f.basic_blocks.len(),
        fid < l.funcns,
        all_settled(f@.blocks),
        blocks_reach(f@.blocks) <= l.scratch,
    ensures
        emitted(
            old(w),
            final(w),
            r,
            lower_blocks(module@.functions, f@, l, fid as int, f@.blocks.len()),
        ),
{
    let mark = w.open_loop();
    let mut i: usize = 0;
    while i < f.basic_blocks.len()
        invariant
            i <= f.basic_blocks.len(),
            w.wf(),
            !w.fresh@,
            w.outer@ == mark@.outer + mark@.piece,
            mark@ == old(w).scope(),
            old(w).wf(),
            l.wf(),
            l.funcns == module.functions.len(),
            l.blockns == f.basic_blocks.len(),
            fid < l.funcns,
            all_settled(f@.blocks),
            blocks_reach(f@.blocks) <= l.scratch,
            lower_blocks(module@.functions, f@, l, fid as int, i as nat) == Ok::<
                Seq<char>,
                CompileError,
            >(w.piece@),
        decreases f.basic_blocks.len() - i,
    {
        proof {
            lemma_block_within(f@.blocks, i as int);
            assert(settled(f@.blocks[i as int]));
        }
        let ghost done = w.piece@;
        let ghost step = lower_block(
            module@.functions,
            f@,
            l,
            fid as int,
            i as int,
            f@.blocks[i as int],
        );
        assert(lower_blocks(module@.functions, f@, l, fid as int, (i + 1) as nat) == match step {
            Err(e) => Err::<Seq<char>, CompileError>(e),
            Ok(text) => Ok(done + text),
        });
        match emit_block(w, module, f, l, fid, i) {
            Ok(_) => {},
            Err(e) => {
                proof {
                    lemma_blocks_refused(
                        module@.functions,
                        f@,
                        l,
                        fid as int,
                        (i + 1) as nat,
                        f@.blocks.len(),
                    );
                }
                return Err(e);
            },
        }
        i += 1;
    }
    w.close(mark);
    Ok(())
}

fn emit_function(w: &mut Writer, module: &Module, fid: usize, width: usize) -> (r: Result<
    (),
    CompileError,
>)
    requires
        old(w).wf(),
        fid < module.functions.len(),
        width == frame_width(module@),
        width <= TAPE_SIZE,
        normalized(module@),
    ensures
        emitted(old(w), final(w), r, lower_function(module@, fid as int)),
{
    proof {
        reveal(lower_function);
    }
    let l = plan_function(module, fid, width);
    let f = &module.functions[fid];
    proof {
        crate::layout::lemma_layout_wf(module@, fid as int);
    }
    assert(module@.functions[fid as int] == f@);
    let mark = w.open();
    let opening = line3("#", f.name.as_str(), " [\n");
    w.on_func(l, 0, fid, opening.as_str());
    match emit_blocks(w, module, f, l, fid) {
        Ok(_) => {},
        Err(e) => {
            return Err(e);
        },
    }
    let closing = line3("] ", f.name.as_str(), "\n");
    w.on_func(l, 0, fid, closing.as_str());
    w.close(mark);
    Ok(())
}

fn emit_functions(w: &mut Writer, module: &Module, width: usize) -> (r: Result<(), CompileError>)
    requires
        old(w).wf(),
        width == frame_width(module@),
        width <= TAPE_SIZE,
        normalized(module@),
    ensures
        emitted(old(w), final(w), r, lower_functions(module@, module@.functions.len())),
{
    let mark = w.open_loop();
    let mut i: usize = 0;
    while i < module.functions.len()
        invariant
            i <= module.functions.len(),
            w.wf(),
            !w.fresh@,
            w.outer@ == mark@.outer + mark@.piece,
            mark@ == old(w).scope(),
            old(w).wf(),
            width == frame_width(module@),
            width <= TAPE_SIZE,
            normalized(module@),
            lower_functions(module@, i as nat) == Ok::<Seq<char>, CompileError>(w.piece@),
        decreases module.functions.len() - i,
    {
        let ghost done = w.piece@;
        let ghost step = lower_function(module@, i as int);
        assert(lower_functions(module@, (i + 1) as nat) == match step {
            Err(e) => Err::<Seq<char>, CompileError>(e),
            Ok(text) => Ok(done + text),
        });
        match emit_function(w, module, i, width) {
            Ok(_) => {},
            Err(e) => {
                proof {
                    lemma_functions_refused(module@, (i + 1) as nat, module@.functions.len());
                }
                return Err(e);
            },
        }
        i += 1;
    }
    w.close(mark);
    Ok(())
}

fn emit_prelude(w: &mut Writer, module: &Module, main: usize, width: usize)
    requires
        old(w).wf(),
        main < module.functions.len(),
        width == frame_width(module@),
        width <= TAPE_SIZE,
    ensures
        old(w).wrote(final(w), prelude(module@, main as int)),
{
    proof {
        crate::layout::lemma_function_within(module@.functions, main as int);
    }
    let mark = w.open();
    let first = w.open();
    w.repeat('>', width);
    w.text(" first frame\n");
    w.close(first);
    w.text("runtime init: \n");
    w.text("+ #__FRAME__ENTRY__\n");
    w.on_cell(0, 1 + main, "+ call #main\n");
    w.on_cell(0, 1 + module.functions.len(), "+ at #main/b0\n");
    w.text("\n");
    w.close(mark);
}

/// Writes a normalized module out.
fn emit_module(module: &Module) -> (r: Result<String, CompileError>)
    requires
        normalized(module@),
    ensures
        compiled(r, lower_module(module@)),
{
    let name = String::from_str("main");
    let main = match find_function(module, &name) {
        Some(main) => main,
        None => {
            return Err(CompileError::NoMain);
        },
    };
    let width = match plan_width(module) {
        Some(width) => width,
        None => {
            return Err(CompileError::FrameTooWide);
        },
    };
    let mut w = Writer::new();
    let mark = w.open();
    emit_prelude(&mut w, module, main, width);
    w.text("[\n");
    match emit_functions(&mut w, module, width) {
        Ok(_) => {},
        Err(e) => {
            return Err(e);
        },
    }
    w.text("]\n");
    w.close(mark);
    let text = w.finish();
    assert(text@ =~= lower_module(module@)->Ok_0);
    Ok(text)
}

/// Compiles a module to tape-language text. The module is first normalized:
/// every block is cut behind its calls, and a function whose entry block holds
/// a call gets an empty entry block in front. Then the frames are laid out and
/// the dispatch loop is written, with every instruction and terminator lowered
/// in order. A module that needs a block name beyond the largest number, has
/// no `main`, needs a frame wider than the tape, or holds a shape that is not
/// supported is refused; the first such finding, in that order and then in the
/// order of the text, decides.
pub fn compile(module: Module) -> (r: Result<String, CompileError>)
    ensures
        compiled(r, compile_spec(module@)),
{
    let mut m = module;
    match calls_terminate_blocks(&mut m) {
        Ok(_) => {},
        Err(e) => {
            return Err(e);
        },
    }
    match calls_never_in_first_block(&mut m) {
        Ok(_) => {},
        Err(e) => {
            return Err(e);
        },
    }
    proof {
        lemma_normalized(module@);
    }
    emit_module(&m)
}

} // verus!
