//! The tape layout of a frame and the head motion that reaches its cells.
//!
//! A frame is one entry flag, one flag per function of the module, one flag
//! per block of the function that owns the frame, that function's registers,
//! and a few scratch cells behind the highest register. All frames of a module
//! have the same width.
use vstd::prelude::*;
use crate::ir::{
    block_views, function_views, instr_views, BasicBlock, BlockView, Function, FunctionView,
    InstrKind, InstrKindView, InstrView, Instruction, Module, ModuleView, Operand, TermKind,
    TermView, Terminator,
};
use crate::interp::TAPE_SIZE;
use crate::text::{push_repeat, push_text, repeated, Writer};

verus! {

/// Scratch cells of a frame: five for the comparison idiom, three to work in.
pub const SCRATCH_CELLS: usize = 8;

/// Where the parts of a frame lie, for the function that owns it.
#[derive(Clone, Copy, Debug, PartialEq, Eq, Structural)]
pub struct Layout {
    /// Functions in the module.
    pub funcns: usize,
    /// Blocks in the function.
    pub blockns: usize,
    /// Number of the first scratch cell, counted as a register: one past the
    /// highest register of the function.
    pub scratch: usize,
    /// Width of every frame of the module.
    pub width: usize,
}

impl Layout {
    /// The frame has room for its flags, registers and scratch cells, and fits
    /// the tape.
    pub open spec fn wf(self) -> bool {
        1 + self.funcns + self.blockns + self.scratch + SCRATCH_CELLS <= self.width <= TAPE_SIZE
    }
}

// ---------------------------------------------------------------------------
// Head motion
// ---------------------------------------------------------------------------

/// `indent` tabs.
pub open spec fn tabs(indent: nat) -> Seq<char> {
    repeated('\t', indent)
}

/// A line that moves the head `k` cells to the right, then `body`, then a line
/// that moves the head back.
pub open spec fn goto_text(indent: nat, k: nat, body: Seq<char>) -> Seq<char> {
    tabs(indent) + repeated('>', k) + seq!['\n'] + body + tabs(indent) + repeated('<', k) + seq![
        '\n',
    ]
}

/// `body` with the head on the flag of function `fid`.
pub open spec fn goto_func(indent: nat, fid: nat, body: Seq<char>) -> Seq<char> {
    goto_text(indent, 1 + fid, body)
}

/// `body` with the head on the flag of block `bid`.
pub open spec fn goto_block(indent: nat, bid: nat, funcns: nat, body: Seq<char>) -> Seq<char> {
    goto_text(indent, 1 + bid + funcns, body)
}

/// `body` with the head on register `reg`.
pub open spec fn goto_reg(indent: nat, reg: nat, funcns: nat, blockns: nat, body: Seq<char>) -> Seq<
    char,
> {
    goto_text(indent, 1 + funcns + blockns + reg, body)
}

fn goto_raw(out: &mut String, indent: usize, k: usize, body: &str)
    ensures
        final(out)@ == old(out)@ + goto_text(indent as nat, k as nat, body@),
{
    push_repeat(out, '\t', indent);
    push_repeat(out, '>', k);
    out.push('\n');
    push_text(out, body);
    push_repeat(out, '\t', indent);
    push_repeat(out, '<', k);
    out.push('\n');
    assert(out@ =~= old(out)@ + goto_text(indent as nat, k as nat, body@));
}

/// Appends `body`, framed by the head motion to register `reg` and back, at
/// `i` tabs.
pub fn gotoreg(out: &mut String, i: usize, reg: usize, funcns: usize, blockns: usize, body: &str)
    requires
        1 + funcns + blockns + reg <= usize::MAX,
    ensures
        final(out)@ == old(out)@ + goto_reg(
            i as nat,
            reg as nat,
            funcns as nat,
            blockns as nat,
            body@,
        ),
{
    goto_raw(out, i, 1 + funcns + blockns + reg, body);
}

/// Appends `body`, framed by the head motion to the flag of block `bid` and
/// back, at `i` tabs.
pub fn gotoblock(out: &mut String, i: usize, bid: usize, funcns: usize, body: &str)
    requires
        1 + bid + funcns <= usize::MAX,
    ensures
        final(out)@ == old(out)@ + goto_block(i as nat, bid as nat, funcns as nat, body@),
{
    goto_raw(out, i, 1 + bid + funcns, body);
}

/// Appends `body`, framed by the head motion to the flag of function `fid`
/// and back, at `i` tabs.
pub fn gotofunc(out: &mut String, i: usize, fid: usize, body: &str)
    requires
        1 + fid <= usize::MAX,
    ensures
        final(out)@ == old(out)@ + goto_func(i as nat, fid as nat, body@),
{
    goto_raw(out, i, 1 + fid, body);
}

impl Writer {
    /// Writes `body` with the head `k` cells to the right.
    pub(crate) fn on_cell(&mut self, indent: usize, k: usize, body: &str)
        requires
            old(self).wf(),
        ensures
            old(self).wrote(final(self), goto_text(indent as nat, k as nat, body@)),
    {
        let ghost before = self.scope();
        goto_raw(&mut self.buf, indent, k, body);
        proof {
            self.piece@ = before.grown(goto_text(indent as nat, k as nat, body@));
            self.fresh@ = false;
            assert(self.buf@ =~= self.outer@ + self.piece@);
        }
    }

    /// Writes `body` on register `reg`.
    pub(crate) fn on_reg(&mut self, l: Layout, reg: usize, body: &str)
        requires
            old(self).wf(),
            l.wf(),
            reg < l.scratch + SCRATCH_CELLS,
        ensures
            old(self).wrote(
                final(self),
                goto_reg(2, reg as nat, l.funcns as nat, l.blockns as nat, body@),
            ),
    {
        let ghost before = self.scope();
        gotoreg(&mut self.buf, 2, reg, l.funcns, l.blockns, body);
        proof {
            self.piece@ = before.grown(
                goto_reg(2, reg as nat, l.funcns as nat, l.blockns as nat, body@),
            );
            self.fresh@ = false;
            assert(self.buf@ =~= self.outer@ + self.piece@);
        }
    }

    /// Writes `body` on the flag of block `bid`.
    pub(crate) fn on_block(&mut self, l: Layout, indent: usize, bid: usize, body: &str)
        requires
            old(self).wf(),
            l.wf(),
            bid < l.blockns,
        ensures
            old(self).wrote(
                final(self),
                goto_block(indent as nat, bid as nat, l.funcns as nat, body@),
            ),
    {
        let ghost before = self.scope();
        gotoblock(&mut self.buf, indent, bid, l.funcns, body);
        proof {
            self.piece@ = before.grown(
                goto_block(indent as nat, bid as nat, l.funcns as nat, body@),
            );
            self.fresh@ = false;
            assert(self.buf@ =~= self.outer@ + self.piece@);
        }
    }

    /// Writes `body` on the flag of function `fid`.
    pub(crate) fn on_func(&mut self, l: Layout, indent: usize, fid: usize, body: &str)
        requires
            old(self).wf(),
            l.wf(),
            fid < l.funcns,
        ensures
            old(self).wrote(final(self), goto_func(indent as nat, fid as nat, body@)),
    {
        let ghost before = self.scope();
        gotofunc(&mut self.buf, indent, fid, body);
        proof {
            self.piece@ = before.grown(goto_func(indent as nat, fid as nat, body@));
            self.fresh@ = false;
            assert(self.buf@ =~= self.outer@ + self.piece@);
        }
    }
}

// ---------------------------------------------------------------------------
// Registers in use
// ---------------------------------------------------------------------------

/// One past the register that an operand names, 0 if it names none.
pub open spec fn operand_reach(op: Operand) -> int {
    match op {
        Operand::Local(n) => n + 1,
        _ => 0,
    }
}

/// The larger of two numbers.
pub open spec fn larger(a: int, b: int) -> int {
    if a >= b {
        a
    } else {
        b
    }
}

/// One past the highest register that an instruction names.
pub open spec fn instr_reach(i: InstrView) -> int {
    match i.kind {
        InstrKindView::Alloca { ty, dest } => dest + 1,
        InstrKindView::Store { value, addr } => larger(operand_reach(value), operand_reach(addr)),
        InstrKindView::Load { addr, dest } => larger(operand_reach(addr), dest + 1),
        InstrKindView::Add { op0, op1, dest } => larger(
            larger(operand_reach(op0), operand_reach(op1)),
            dest + 1,
        ),
        InstrKindView::ICmp { pred, op0, op1, dest } => larger(
            larger(operand_reach(op0), operand_reach(op1)),
            dest + 1,
        ),
        InstrKindView::Call(c) => match c.dest {
            Some(d) => d + 1,
            None => 0,
        },
        InstrKindView::Other => 0,
    }
}

/// One past the register that a terminator names.
pub open spec fn term_reach(t: TermView) -> int {
    match t.kind {
        TermKind::CondBr { cond, true_dest, false_dest } => operand_reach(cond),
        _ => 0,
    }
}

/// One past the highest register that the instructions name.
pub open spec fn instrs_reach(instrs: Seq<InstrView>) -> int
    decreases instrs.len(),
{
    if instrs.len() == 0 {
        0
    } else {
        larger(instrs_reach(instrs.drop_last()), instr_reach(instrs.last()))
    }
}

/// One past the highest register that a block names.
pub open spec fn block_reach(b: BlockView) -> int {
    larger(instrs_reach(b.instrs), term_reach(b.term))
}

/// One past the highest register that the blocks name.
pub open spec fn blocks_reach(blocks: Seq<BlockView>) -> int
    decreases blocks.len(),
{
    if blocks.len() == 0 {
        0
    } else {
        larger(blocks_reach(blocks.drop_last()), block_reach(blocks.last()))
    }
}

/// What a function needs of a frame behind the function flags: its block
/// flags, its registers and the scratch cells.
pub open spec fn footprint(f: FunctionView) -> int {
    f.blocks.len() + blocks_reach(f.blocks) + SCRATCH_CELLS
}

/// The largest footprint among the functions.
pub open spec fn widest(functions: Seq<FunctionView>) -> int
    decreases functions.len(),
{
    if functions.len() == 0 {
        0
    } else {
        larger(widest(functions.drop_last()), footprint(functions.last()))
    }
}

/// The width of every frame: the entry flag, the function flags, and room for
/// the function with the largest footprint.
pub open spec fn frame_width(m: ModuleView) -> int {
    1 + m.functions.len() + widest(m.functions)
}

/// The layout of the frames that function `f` of module `m` runs in.
pub open spec fn layout_of(m: ModuleView, f: FunctionView) -> Layout {
    Layout {
        funcns: m.functions.len() as usize,
        blockns: f.blocks.len() as usize,
        scratch: blocks_reach(f.blocks) as usize,
        width: frame_width(m) as usize,
    }
}

/// The reach of instructions is not negative.
pub proof fn lemma_reach_nonnegative(instrs: Seq<InstrView>)
    ensures
        instrs_reach(instrs) >= 0,
    decreases instrs.len(),
{
    if instrs.len() > 0 {
        lemma_reach_nonnegative(instrs.drop_last());
    }
}

/// The reach of blocks is not negative.
pub proof fn lemma_blocks_reach_nonnegative(blocks: Seq<BlockView>)
    ensures
        blocks_reach(blocks) >= 0,
    decreases blocks.len(),
{
    if blocks.len() > 0 {
        lemma_blocks_reach_nonnegative(blocks.drop_last());
        lemma_reach_nonnegative(blocks.last().instrs);
    }
}

/// No instruction names a register beyond the reach of its block.
pub proof fn lemma_instr_within(instrs: Seq<InstrView>, k: int)
    requires
        0 <= k < instrs.len(),
    ensures
        instr_reach(instrs[k]) <= instrs_reach(instrs),
    decreases instrs.len(),
{
    if k < instrs.len() - 1 {
        lemma_instr_within(instrs.drop_last(), k);
    }
}

/// No block names a register beyond the reach of its function.
pub proof fn lemma_block_within(blocks: Seq<BlockView>, k: int)
    requires
        0 <= k < blocks.len(),
    ensures
        block_reach(blocks[k]) <= blocks_reach(blocks),
    decreases blocks.len(),
{
    if k < blocks.len() - 1 {
        lemma_block_within(blocks.drop_last(), k);
    }
}

/// No function has a footprint beyond the widest.
pub proof fn lemma_function_within(functions: Seq<FunctionView>, k: int)
    requires
        0 <= k < functions.len(),
    ensures
        0 <= footprint(functions[k]) <= widest(functions),
    decreases functions.len(),
{
    lemma_blocks_reach_nonnegative(functions[k].blocks);
    if k < functions.len() - 1 {
        lemma_function_within(functions.drop_last(), k);
    }
}

/// Where the frame fits the tape, every function's layout is sound.
pub proof fn lemma_layout_wf(m: ModuleView, k: int)
    requires
        0 <= k < m.functions.len(),
        frame_width(m) <= TAPE_SIZE,
    ensures
        layout_of(m, m.functions[k]).wf(),
        layout_of(m, m.functions[k]).funcns == m.functions.len(),
        layout_of(m, m.functions[k]).blockns == m.functions[k].blocks.len(),
        layout_of(m, m.functions[k]).scratch == blocks_reach(m.functions[k].blocks),
        layout_of(m, m.functions[k]).width == frame_width(m),
{
    lemma_function_within(m.functions, k);
    lemma_blocks_reach_nonnegative(m.functions[k].blocks);
}

// ---------------------------------------------------------------------------
// Measuring
// ---------------------------------------------------------------------------

/// One more than the tape size: every measure is cut off there.
pub const MEASURE_LIMIT: usize = 10001;

/// `x`, cut off at the measure limit.
pub open spec fn clipped(x: int) -> int {
    if x > MEASURE_LIMIT {
        MEASURE_LIMIT as int
    } else {
        x
    }
}

fn clip(x: usize) -> (r: usize)
    ensures
        r == clipped(x as int),
{
    if x > MEASURE_LIMIT {
        MEASURE_LIMIT
    } else {
        x
    }
}

fn clip_add(a: usize, b: usize) -> (r: usize)
    requires
        a <= MEASURE_LIMIT,
        b <= MEASURE_LIMIT,
    ensures
        r == clipped(a + b),
{
    clip(a + b)
}

fn clip_max(a: usize, b: usize) -> (r: usize)
    ensures
        r == larger(a as int, b as int),
{
    if a >= b {
        a
    } else {
        b
    }
}

fn operand_measure(op: Operand) -> (r: usize)
    ensures
        r == clipped(operand_reach(op)),
{
    match op {
        Operand::Local(n) => clip_add(clip(n), 1),
        _ => 0,
    }
}

fn dest_measure(dest: usize) -> (r: usize)
    ensures
        r == clipped(dest + 1),
{
    clip_add(clip(dest), 1)
}

fn instr_measure(i: &Instruction) -> (r: usize)
    ensures
        r == clipped(instr_reach(i@)),
{
    match &i.kind {
        InstrKind::Alloca { ty, dest } => dest_measure(*dest),
        InstrKind::Store { value, addr } => clip_max(operand_measure(*value), operand_measure(*addr)),
        InstrKind::Load { addr, dest } => clip_max(operand_measure(*addr), dest_measure(*dest)),
        InstrKind::Add { op0, op1, dest } => clip_max(
            clip_max(operand_measure(*op0), operand_measure(*op1)),
            dest_measure(*dest),
        ),
        InstrKind::ICmp { pred, op0, op1, dest } => clip_max(
            clip_max(operand_measure(*op0), operand_measure(*op1)),
            dest_measure(*dest),
        ),
        InstrKind::Call(c) => match c.dest {
            Some(d) => dest_measure(d),
            None => 0,
        },
        InstrKind::Other => 0,
    }
}

fn term_measure(t: &Terminator) -> (r: usize)
    ensures
        r == clipped(term_reach(t@)),
{
    match t.kind {
        TermKind::CondBr { cond, true_dest, false_dest } => operand_measure(cond),
        _ => 0,
    }
}

fn block_measure(b: &BasicBlock) -> (r: usize)
    ensures
        r == clipped(block_reach(b@)),
{
    let mut r: usize = 0;
    let mut i: usize = 0;
    let ghost views = instr_views(b.instrs@);
    assert(views.take(0) =~= Seq::<InstrView>::empty());
    while i < b.instrs.len()
        invariant
            i <= b.instrs.len(),
            views == instr_views(b.instrs@),
            r == clipped(instrs_reach(views.take(i as int))),
        decreases b.instrs.len() - i,
    {
        assert(views.take(i + 1).drop_last() =~= views.take(i as int));
        r = clip_max(r, instr_measure(&b.instrs[i]));
        i += 1;
    }
    assert(views.take(b.instrs@.len() as int) =~= views);
    clip_max(r, term_measure(&b.term))
}

fn function_measure(f: &Function) -> (r: usize)
    ensures
        r == clipped(blocks_reach(f@.blocks)),
{
    let mut r: usize = 0;
    let mut i: usize = 0;
    let ghost views = block_views(f.basic_blocks@);
    assert(views.take(0) =~= Seq::<BlockView>::empty());
    while i < f.basic_blocks.len()
        invariant
            i <= f.basic_blocks.len(),
            views == block_views(f.basic_blocks@),
            r == clipped(blocks_reach(views.take(i as int))),
        decreases f.basic_blocks.len() - i,
    {
        assert(views.take(i + 1).drop_last() =~= views.take(i as int));
        r = clip_max(r, block_measure(&f.basic_blocks[i]));
        i += 1;
    }
    assert(views.take(f.basic_blocks@.len() as int) =~= views);
    r
}

fn footprint_measure(f: &Function) -> (r: usize)
    ensures
        r == clipped(footprint(f@)),
{
    proof {
        lemma_blocks_reach_nonnegative(f@.blocks);
    }
    let blocks = clip(f.basic_blocks.len());
    let regs = function_measure(f);
    clip_add(clip_add(blocks, regs), SCRATCH_CELLS)
}

/// The width of the module's frames, or `None` where a frame would be wider
/// than the tape.
pub fn plan_width(module: &Module) -> (r: Option<usize>)
    ensures
        match r {
            Some(w) => w == frame_width(module@) && w <= TAPE_SIZE,
            None => frame_width(module@) > TAPE_SIZE,
        },
{
    let mut widest_so_far: usize = 0;
    let mut i: usize = 0;
    let ghost views = function_views(module.functions@);
    assert(views.take(0) =~= Seq::<FunctionView>::empty());
    while i < module.functions.len()
        invariant
            i <= module.functions.len(),
            views == function_views(module.functions@),
            widest_so_far == clipped(widest(views.take(i as int))),
            widest(views.take(i as int)) >= 0,
        decreases module.functions.len() - i,
    {
        assert(views.take(i + 1).drop_last() =~= views.take(i as int));
        proof {
            lemma_blocks_reach_nonnegative(views[i as int].blocks);
        }
        widest_so_far = clip_max(widest_so_far, footprint_measure(&module.functions[i]));
        i += 1;
    }
    assert(views.take(module.functions@.len() as int) =~= views);
    let width = clip_add(clip_add(clip(module.functions.len()), 1), widest_so_far);
    if width > TAPE_SIZE {
        None
    } else {
        Some(width)
    }
}

/// The layout for function `fid` of a module whose frames are `width` wide.
pub fn plan_function(module: &Module, fid: usize, width: usize) -> (l: Layout)
    requires
        fid < module.functions.len(),
        width == frame_width(module@),
        width <= TAPE_SIZE,
    ensures
        l == layout_of(module@, module@.functions[fid as int]),
        l.wf(),
{
    proof {
        lemma_layout_wf(module@, fid as int);
    }
    let f = &module.functions[fid];
    Layout {
        funcns: module.functions.len(),
        blockns: f.basic_blocks.len(),
        scratch: function_measure(f),
        width,
    }
}

} // verus!
