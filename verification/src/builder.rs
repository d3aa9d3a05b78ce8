//! A function builder that keeps a register map and lowers allocations and
//! stores to templates, with a listing of what it did.
use vstd::prelude::*;
use crate::interp::TAPE_SIZE;
use crate::ir::{
    block_views, dup_instrs, instr_views, BasicBlock, BlockView, CompileError, Function,
    FunctionView, InstrKind, InstrKindView, InstrView, Instruction, Module, ModuleView, Operand, Ty,
};
use crate::tape::{listing, tape_move, Op};
use crate::text::{decimal, padded, push_decimal, push_padded, push_text};

verus! {

/// What a cell of the register map was reserved for.
#[derive(Debug)]
pub enum CellFrom {
    /// The value of an instruction.
    Inst(Instruction),
    /// A flag or a station cell.
    Block,
    /// The storage of an allocation.
    Alloc,
}

/// A reserved cell. One without an origin is a temporary.
#[derive(Debug)]
pub struct Cell {
    pub address: usize,
    pub from: Option<CellFrom>,
}

/// The cells in use, in the order of their addresses.
#[derive(Debug)]
pub struct RegMap(pub Vec<Cell>);

/// What a cell was reserved for, as a mathematical value.
pub enum OriginView {
    Inst(InstrView),
    Block,
    Alloc,
}

/// A reserved cell as a mathematical value.
pub struct CellView {
    pub address: usize,
    pub from: Option<OriginView>,
}

impl View for CellFrom {
    type V = OriginView;

    open spec fn view(&self) -> OriginView {
        match self {
            CellFrom::Inst(i) => OriginView::Inst(i@),
            CellFrom::Block => OriginView::Block,
            CellFrom::Alloc => OriginView::Alloc,
        }
    }
}

/// The origin as a mathematical value.
pub open spec fn origin_view(from: Option<CellFrom>) -> Option<OriginView> {
    match from {
        Some(f) => Some(f@),
        None => None,
    }
}

impl View for Cell {
    type V = CellView;

    open spec fn view(&self) -> CellView {
        CellView { address: self.address, from: origin_view(self.from) }
    }
}

impl View for RegMap {
    type V = Seq<CellView>;

    open spec fn view(&self) -> Seq<CellView> {
        self.0@.map_values(|c: Cell| c@)
    }
}

impl CellFrom {
    /// A copy with the same view.
    pub fn dup(&self) -> (r: CellFrom)
        ensures
            r@ == self@,
    {
        match self {
            CellFrom::Inst(i) => CellFrom::Inst(i.dup()),
            CellFrom::Block => CellFrom::Block,
            CellFrom::Alloc => CellFrom::Alloc,
        }
    }
}

impl Cell {
    /// A copy with the same view.
    pub fn dup(&self) -> (r: Cell)
        ensures
            r@ == self@,
    {
        let from = match &self.from {
            Some(f) => Some(f.dup()),
            None => None,
        };
        Cell { address: self.address, from }
    }
}

/// The address that the next cell gets: one past the last, 0 in an empty map.
pub open spec fn next_address(cells: Seq<CellView>) -> int {
    if cells.len() == 0 {
        0
    } else {
        cells.last().address + 1
    }
}

/// The addresses rise from cell to cell and stay on the tape.
pub open spec fn cells_wf(cells: Seq<CellView>) -> bool {
    &&& forall|i: int, j: int| 0 <= i < j < cells.len() ==> cells[i].address < cells[j].address
    &&& forall|i: int| 0 <= i < cells.len() ==> cells[i].address < TAPE_SIZE
}

/// The index of the first cell at that address, or the number of cells.
pub open spec fn position(cells: Seq<CellView>, address: usize) -> int
    decreases cells.len(),
{
    if cells.len() == 0 {
        0
    } else if cells[0].address == address {
        0
    } else {
        1 + position(cells.drop_first(), address)
    }
}

/// The index of the first cell reserved for that instruction, or the number
/// of cells.
pub open spec fn position_of(cells: Seq<CellView>, inst: InstrView) -> int
    decreases cells.len(),
{
    if cells.len() == 0 {
        0
    } else if cells[0].from == Some(OriginView::Inst(inst)) {
        0
    } else {
        1 + position_of(cells.drop_first(), inst)
    }
}

/// What reserving a cell gives: the map with the new cell at its end, or a
/// refusal where the cell would lie beyond the tape.
pub open spec fn reserved(cells: Seq<CellView>, from: Option<OriginView>) -> Result<
    Seq<CellView>,
    CompileError,
> {
    if next_address(cells) < TAPE_SIZE {
        Ok(cells.push(CellView { address: next_address(cells) as usize, from }))
    } else {
        Err(CompileError::FrameTooWide)
    }
}

/// `position` is the first index of a cell at that address.
pub proof fn lemma_position(cells: Seq<CellView>, address: usize)
    ensures
        0 <= position(cells, address) <= cells.len(),
        position(cells, address) < cells.len() ==> cells[position(cells, address)].address
            == address,
        forall|k: int| 0 <= k < position(cells, address) ==> cells[k].address != address,
    decreases cells.len(),
{
    if cells.len() > 0 && cells[0].address != address {
        let rest = cells.drop_first();
        lemma_position(rest, address);
        assert forall|k: int| 0 <= k < position(cells, address) implies cells[k].address
            != address by {
            if k > 0 {
                assert(cells[k] == rest[k - 1]);
            }
        }
    }
}

/// `position_of` is the first index of a cell reserved for that instruction.
pub proof fn lemma_position_of(cells: Seq<CellView>, inst: InstrView)
    ensures
        0 <= position_of(cells, inst) <= cells.len(),
        position_of(cells, inst) < cells.len() ==> cells[position_of(cells, inst)].from == Some(
            OriginView::Inst(inst),
        ),
        forall|k: int|
            0 <= k < position_of(cells, inst) ==> cells[k].from != Some(OriginView::Inst(inst)),
    decreases cells.len(),
{
    if cells.len() > 0 && cells[0].from != Some(OriginView::Inst(inst)) {
        let rest = cells.drop_first();
        lemma_position_of(rest, inst);
        assert forall|k: int| 0 <= k < position_of(cells, inst) implies cells[k].from != Some(
            OriginView::Inst(inst),
        ) by {
            if k > 0 {
                assert(cells[k] == rest[k - 1]);
            }
        }
    }
}

/// The first index with that property is the position.
pub proof fn lemma_position_is(cells: Seq<CellView>, address: usize, i: int)
    requires
        0 <= i <= cells.len(),
        i < cells.len() ==> cells[i].address == address,
        forall|k: int| 0 <= k < i ==> cells[k].address != address,
    ensures
        position(cells, address) == i,
{
    lemma_position(cells, address);
    let p = position(cells, address);
    if p < i {
        assert(cells[p].address == address);
    } else if i < p {
        assert(cells[i].address != address);
    }
}

/// The first index with that property is the position.
pub proof fn lemma_position_of_is(cells: Seq<CellView>, inst: InstrView, i: int)
    requires
        0 <= i <= cells.len(),
        i < cells.len() ==> cells[i].from == Some(OriginView::Inst(inst)),
        forall|k: int| 0 <= k < i ==> cells[k].from != Some(OriginView::Inst(inst)),
    ensures
        position_of(cells, inst) == i,
{
    lemma_position_of(cells, inst);
    let p = position_of(cells, inst);
    if p < i {
        assert(cells[p].from == Some(OriginView::Inst(inst)));
    } else if i < p {
        assert(cells[i].from != Some(OriginView::Inst(inst)));
    }
}

impl RegMap {
    /// The map is in order and on the tape.
    pub open spec fn wf(&self) -> bool {
        cells_wf(self@)
    }

    /// An empty map.
    pub fn empty() -> (m: RegMap)
        ensures
            m@ == Seq::<CellView>::empty(),
            m.wf(),
    {
        let m = RegMap(Vec::new());
        assert(m@ =~= Seq::<CellView>::empty());
        m
    }

    fn reserve(&mut self, from: Option<CellFrom>) -> (r: Result<Cell, CompileError>)
        requires
            old(self).wf(),
        ensures
            final(self).wf(),
            match r {
                Ok(cell) => reserved(old(self)@, origin_view(from)) == Ok::<
                    Seq<CellView>,
                    CompileError,
                >(final(self)@) && cell@ == final(self)@.last(),
                Err(e) => reserved(old(self)@, origin_view(from)) == Err::<
                    Seq<CellView>,
                    CompileError,
                >(e) && final(self)@ == old(self)@,
            },
    {
        let next = if self.0.len() == 0 {
            0
        } else {
            assert(self@.last() == self.0@.last()@);
            self.0[self.0.len() - 1].address + 1
        };
        if next >= TAPE_SIZE {
            return Err(CompileError::FrameTooWide);
        }
        let ent = Cell { address: next, from };
        let copy = ent.dup();
        let ghost before = self@;
        self.0.push(ent);
        assert(self@ =~= before.push(copy@));
        Ok(copy)
    }

    /// Reserves the next cell for the value of an instruction.
    pub fn for_inst(&mut self, from: Instruction) -> (r: Result<Cell, CompileError>)
        requires
            old(self).wf(),
        ensures
            final(self).wf(),
            match r {
                Ok(cell) => reserved(old(self)@, Some(OriginView::Inst(from@))) == Ok::<
                    Seq<CellView>,
                    CompileError,
                >(final(self)@) && cell@ == final(self)@.last(),
                Err(e) => e == CompileError::FrameTooWide && next_address(old(self)@) >= TAPE_SIZE
                    && final(self)@ == old(self)@,
            },
    {
        self.new(CellFrom::Inst(from))
    }

    /// Reserves the next cell for a flag or a station cell.
    pub fn for_block(&mut self) -> (r: Result<Cell, CompileError>)
        requires
            old(self).wf(),
        ensures
            final(self).wf(),
            match r {
                Ok(cell) => reserved(old(self)@, Some(OriginView::Block)) == Ok::<
                    Seq<CellView>,
                    CompileError,
                >(final(self)@) && cell@ == final(self)@.last(),
                Err(e) => e == CompileError::FrameTooWide && next_address(old(self)@) >= TAPE_SIZE
                    && final(self)@ == old(self)@,
            },
    {
        self.new(CellFrom::Block)
    }

    /// Reserves the next cell for the storage of an allocation.
    pub fn for_alloc(&mut self) -> (r: Result<Cell, CompileError>)
        requires
            old(self).wf(),
        ensures
            final(self).wf(),
            match r {
                Ok(cell) => reserved(old(self)@, Some(OriginView::Alloc)) == Ok::<
                    Seq<CellView>,
                    CompileError,
                >(final(self)@) && cell@ == final(self)@.last(),
                Err(e) => e == CompileError::FrameTooWide && next_address(old(self)@) >= TAPE_SIZE
                    && final(self)@ == old(self)@,
            },
    {
        self.new(CellFrom::Alloc)
    }

    /// Reserves the next cell as a temporary.
    pub fn new_tmp(&mut self) -> (r: Result<Cell, CompileError>)
        requires
            old(self).wf(),
        ensures
            final(self).wf(),
            match r {
                Ok(cell) => reserved(old(self)@, None) == Ok::<Seq<CellView>, CompileError>(
                    final(self)@,
                ) && cell@ == final(self)@.last(),
                Err(e) => e == CompileError::FrameTooWide && next_address(old(self)@) >= TAPE_SIZE
                    && final(self)@ == old(self)@,
            },
    {
        self.reserve(None)
    }

    /// Reserves the next cell, one past the last cell of the map, for `from`.
    pub fn new(&mut self, from: CellFrom) -> (r: Result<Cell, CompileError>)
        requires
            old(self).wf(),
        ensures
            final(self).wf(),
            match r {
                Ok(cell) => reserved(old(self)@, Some(from@)) == Ok::<Seq<CellView>, CompileError>(
                    final(self)@,
                ) && cell@ == final(self)@.last(),
                Err(e) => e == CompileError::FrameTooWide && next_address(old(self)@) >= TAPE_SIZE
                    && final(self)@ == old(self)@,
            },
    {
        self.reserve(Some(from))
    }

    /// Gives the cell at the address of `e` up.
    pub fn discard(&mut self, e: Cell)
        requires
            old(self).wf(),
            position(old(self)@, e.address) < old(self)@.len(),
        ensures
            final(self)@ == old(self)@.remove(position(old(self)@, e.address)),
            final(self).wf(),
    {
        let ghost before = self@;
        let mut index: usize = 0;
        while index < self.0.len() && self.0[index].address != e.address
            invariant
                index <= self.0.len(),
                self@ == before,
                forall|k: int| 0 <= k < index ==> before[k].address != e.address,
            decreases self.0.len() - index,
        {
            assert(before[index as int] == self.0@[index as int]@);
            index += 1;
        }
        proof {
            if index < self.0.len() {
                assert(before[index as int] == self.0@[index as int]@);
            }
            lemma_position(before, e.address);
            lemma_position_is(before, e.address, index as int);
        }
        self.0.remove(index);
        assert(self@ =~= before.remove(index as int));
    }

    /// The first cell that was reserved for `inst`.
    pub fn from_inst(&self, inst: &Instruction) -> (r: Option<&Cell>)
        ensures
            match r {
                Some(cell) => position_of(self@, inst@) < self@.len() && cell@
                    == self@[position_of(self@, inst@)],
                None => position_of(self@, inst@) == self@.len(),
            },
    {
        let mut index: usize = 0;
        while index < self.0.len()
            invariant
                index <= self.0.len(),
                forall|k: int| 0 <= k < index ==> self@[k].from != Some(OriginView::Inst(inst@)),
            decreases self.0.len() - index,
        {
            assert(self@[index as int] == self.0@[index as int]@);
            let found = match &self.0[index].from {
                Some(CellFrom::Inst(i)) => i.same(inst),
                _ => false,
            };
            if found {
                proof {
                    lemma_position_of_is(self@, inst@, index as int);
                }
                return Some(&self.0[index]);
            }
            index += 1;
        }
        proof {
            lemma_position_of_is(self@, inst@, index as int);
        }
        None
    }
}

// ---------------------------------------------------------------------------
// Blocks
// ---------------------------------------------------------------------------

/// A block under construction: the cell of its flag, the templates written
/// for it so far, and the block it is built from.
#[derive(Debug)]
pub struct Block {
    pub address: usize,
    pub ops: Vec<Op>,
    pub bblock: BasicBlock,
}

/// A block under construction as a mathematical value.
pub struct BuildBlockView {
    pub address: usize,
    pub ops: Seq<Op>,
    pub bblock: BlockView,
}

impl View for Block {
    type V = BuildBlockView;

    open spec fn view(&self) -> BuildBlockView {
        BuildBlockView { address: self.address, ops: self.ops@, bblock: self.bblock@ }
    }
}

/// Width of the column that holds the description of a block's loop.
pub const CHECK_WIDTH: usize = 15;

/// The opening of a block's loop: on the flag, enter and clear.
pub open spec fn begin_text(address: usize) -> Seq<char> {
    tape_move(0, address as nat) + "[[-]"@ + tape_move(address as nat, 0)
}

/// The closing of a block's loop.
pub open spec fn end_text(address: usize) -> Seq<char> {
    tape_move(0, address as nat) + "]"@ + tape_move(address as nat, 0)
}

/// The opening of a block's loop as a line of a listing.
pub open spec fn pretty_begin_text(address: usize) -> Seq<char> {
    padded("check clear #"@ + decimal(address as nat), CHECK_WIDTH as nat) + begin_text(address)
}

/// The closing of a block's loop as a line of a listing.
pub open spec fn pretty_end_text(address: usize) -> Seq<char> {
    padded("check #"@ + decimal(address as nat), CHECK_WIDTH as nat) + end_text(address)
}

fn put_bracketed(out: &mut String, address: usize, bracket: &str)
    ensures
        final(out)@ == old(out)@ + (tape_move(0, address as nat) + bracket@ + tape_move(
            address as nat,
            0,
        )),
{
    let there = crate::tape::print_tape_move(0, address);
    let back = crate::tape::print_tape_move(address, 0);
    push_text(out, there.as_str());
    push_text(out, bracket);
    push_text(out, back.as_str());
    assert(out@ =~= old(out)@ + (tape_move(0, address as nat) + bracket@ + tape_move(
        address as nat,
        0,
    )));
}

fn put_labelled(out: &mut String, label: &str, address: usize, bracket: &str)
    ensures
        final(out)@ == old(out)@ + (padded(label@ + decimal(address as nat), CHECK_WIDTH as nat)
            + (tape_move(0, address as nat) + bracket@ + tape_move(address as nat, 0))),
{
    let mut words = String::new();
    push_text(&mut words, label);
    push_decimal(&mut words, address as u64);
    assert(words@ =~= label@ + decimal(address as nat));
    let ghost before = out@;
    push_padded(out, words.as_str(), CHECK_WIDTH);
    put_bracketed(out, address, bracket);
    assert(out@ =~= before + (padded(label@ + decimal(address as nat), CHECK_WIDTH as nat) + (
    tape_move(0, address as nat) + bracket@ + tape_move(address as nat, 0))));
}

impl Block {
    /// The opening of the block's loop.
    pub fn print_begin(&self) -> (r: String)
        ensures
            r@ == begin_text(self.address),
    {
        let mut out = String::new();
        put_bracketed(&mut out, self.address, "[[-]");
        assert(out@ =~= begin_text(self.address));
        out
    }

    /// The closing of the block's loop.
    pub fn print_end(&self) -> (r: String)
        ensures
            r@ == end_text(self.address),
    {
        let mut out = String::new();
        put_bracketed(&mut out, self.address, "]");
        assert(out@ =~= end_text(self.address));
        out
    }

    /// The opening of the block's loop, with its description in front.
    pub fn pretty_print_begin(&self) -> (r: String)
        ensures
            r@ == pretty_begin_text(self.address),
    {
        let mut out = String::new();
        put_labelled(&mut out, "check clear #", self.address, "[[-]");
        assert(out@ =~= pretty_begin_text(self.address));
        out
    }

    /// The closing of the block's loop, with its description in front.
    pub fn pretty_print_end(&self) -> (r: String)
        ensures
            r@ == pretty_end_text(self.address),
    {
        let mut out = String::new();
        put_labelled(&mut out, "check #", self.address, "]");
        assert(out@ =~= pretty_end_text(self.address));
        out
    }
}

// ---------------------------------------------------------------------------
// The function builder
// ---------------------------------------------------------------------------

/// A function under construction.
#[derive(Debug)]
pub struct BuildFunc {
    /// The cell of the function's flag.
    pub address: usize,
    pub rmap: RegMap,
    pub blocks: Vec<Block>,
    /// Index of the block that templates are written for.
    pub cblock: usize,
    /// The templates that set the frame up.
    pub prelude: Vec<Op>,
    /// The listing of what was done.
    pub log: String,
}

/// A function under construction as a mathematical value.
pub struct BuildView {
    pub address: usize,
    pub rmap: Seq<CellView>,
    pub blocks: Seq<BuildBlockView>,
    pub cblock: usize,
    pub prelude: Seq<Op>,
    pub log: Seq<char>,
}

/// The blocks under construction as mathematical values.
pub open spec fn build_views(blocks: Seq<Block>) -> Seq<BuildBlockView> {
    blocks.map_values(|b: Block| b@)
}

impl View for BuildFunc {
    type V = BuildView;

    open spec fn view(&self) -> BuildView {
        BuildView {
            address: self.address,
            rmap: self.rmap@,
            blocks: build_views(self.blocks@),
            cblock: self.cblock,
            prelude: self.prelude@,
            log: self.log@,
        }
    }
}

/// The builder with `line` added to its listing.
pub open spec fn logged(b: BuildView, line: Seq<char>) -> BuildView {
    BuildView { log: b.log + line, ..b }
}

/// The builder with `op` written for its current block and listed.
pub open spec fn op_pushed(b: BuildView, op: Op) -> BuildView {
    let block = b.blocks[b.cblock as int];
    BuildView {
        blocks: b.blocks.update(
            b.cblock as int,
            BuildBlockView { ops: block.ops.push(op), ..block },
        ),
        log: b.log + (listing(op) + "\n"@),
        ..b
    }
}

/// The builder with `op` written for the prelude and listed.
pub open spec fn prelude_pushed(b: BuildView, op: Op) -> BuildView {
    BuildView { prelude: b.prelude.push(op), log: b.log + (listing(op) + "\n"@), ..b }
}

/// An allocation: a cell for the storage, a cell for the pointer, and the
/// template that writes the address of the one into the other.
pub open spec fn alloca_done(b: BuildView, ty: Ty, inst: InstrView) -> Result<
    BuildView,
    CompileError,
> {
    if ty != Ty::Int(8) {
        Err(CompileError::UnsupportedType)
    } else {
        match reserved(b.rmap, Some(OriginView::Alloc)) {
            Err(e) => Err(e),
            Ok(r1) => match reserved(r1, Some(OriginView::Inst(inst))) {
                Err(e) => Err(e),
                Ok(r2) => Ok(
                    op_pushed(
                        BuildView { rmap: r2, ..b },
                        Op::StoreAddr(r1.last().address, r2.last().address),
                    ),
                ),
            },
        }
    }
}

/// A store to a constant address: a constant goes by way of a temporary cell,
/// which is given up again; a local value needs nothing.
pub open spec fn store_done(b: BuildView, value: Operand, addr: Operand) -> Result<
    BuildView,
    CompileError,
> {
    match addr {
        Operand::Const(a) => if a > usize::MAX {
            Err(CompileError::UnsupportedOperand)
        } else {
            match value {
                Operand::Const(v) => if v > 255 {
                    Err(CompileError::UnsupportedOperand)
                } else {
                    match reserved(b.rmap, None) {
                        Err(e) => Err(e),
                        Ok(r1) => Ok(
                            op_pushed(
                                op_pushed(b, Op::StoreImm(v as u8, r1.last().address)),
                                Op::StoreInd(r1.last().address, a as usize),
                            ),
                        ),
                    }
                },
                Operand::Local(_) => Ok(b),
                Operand::Other => Err(CompileError::UnsupportedOperand),
            }
        },
        _ => Err(CompileError::UnsupportedOperand),
    }
}

/// The line that lists an instruction.
pub open spec fn instr_line(i: InstrView) -> Seq<char> {
    "=== "@ + i.text + " ===================\n"@
}

/// One instruction of a block: it is listed, then lowered.
pub open spec fn instr_done(b: BuildView, i: InstrView) -> Result<BuildView, CompileError> {
    let listed = logged(b, instr_line(i));
    match i.kind {
        InstrKindView::Alloca { ty, dest } => alloca_done(listed, ty, i),
        InstrKindView::Store { value, addr } => store_done(listed, value, addr),
        _ => Err(CompileError::UnsupportedInstruction),
    }
}

/// The first `n` of the instructions, one after the other.
pub open spec fn instrs_done(b: BuildView, instrs: Seq<InstrView>, n: nat) -> Result<
    BuildView,
    CompileError,
>
    decreases n,
{
    if n == 0 {
        Ok(b)
    } else {
        match instrs_done(b, instrs, (n - 1) as nat) {
            Err(e) => Err(e),
            Ok(done) => instr_done(done, instrs[n - 1]),
        }
    }
}

/// The lines in front of a block's instructions.
pub open spec fn block_head(address: usize) -> Seq<char> {
    ("=== begin block #"@ + decimal(address as nat) + " =========\n"@) + (pretty_begin_text(address)
        + "\n"@)
}

/// The lines behind a block's instructions.
pub open spec fn block_foot(address: usize) -> Seq<char> {
    ("=== end block #"@ + decimal(address as nat) + " ===========\n"@) + (pretty_end_text(address)
        + "\n"@) + "\n"@
}

/// The current block, built: its head, its instructions, its foot.
pub open spec fn bblock_done(b: BuildView) -> Result<BuildView, CompileError> {
    let block = b.blocks[b.cblock as int];
    match instrs_done(
        logged(b, block_head(block.address)),
        block.bblock.instrs,
        block.bblock.instrs.len(),
    ) {
        Err(e) => Err(e),
        Ok(done) => Ok(logged(done, block_foot(block.address))),
    }
}

impl BuildFunc {
    /// The register map is sound and the current block exists.
    pub open spec fn wf(&self) -> bool {
        self.rmap.wf() && self.cblock < self.blocks.len()
    }

    /// The first block under construction that is built from `b`.
    pub fn block_from_bblock(&self, b: &BasicBlock) -> (r: Option<&Block>)
        ensures
            match r {
                Some(block) => exists|i: int|
                    0 <= i < self.blocks.len() && #[trigger] self.blocks[i] == *block
                        && block.bblock@ == b@ && forall|k: int|
                        0 <= k < i ==> (#[trigger] self.blocks[k]).bblock@ != b@,
                None => forall|k: int|
                    0 <= k < self.blocks.len() ==> (#[trigger] self.blocks[k]).bblock@ != b@,
            },
    {
        let mut i: usize = 0;
        while i < self.blocks.len()
            invariant
                i <= self.blocks.len(),
                forall|k: int| 0 <= k < i ==> (#[trigger] self.blocks[k]).bblock@ != b@,
            decreases self.blocks.len() - i,
        {
            if self.blocks[i].bblock.same(b) {
                return Some(&self.blocks[i]);
            }
            i += 1;
        }
        None
    }

    fn note(&mut self, line: &str)
        ensures
            final(self)@ == logged(old(self)@, line@),
            final(self).rmap == old(self).rmap,
            final(self).blocks == old(self).blocks,
    {
        push_text(&mut self.log, line);
    }

    fn note_listing(&mut self, op: Op)
        ensures
            final(self)@ == logged(old(self)@, listing(op) + "\n"@),
            final(self).rmap == old(self).rmap,
            final(self).blocks == old(self).blocks,
    {
        let line = op.pretty_print();
        push_text(&mut self.log, line.as_str());
        push_text(&mut self.log, "\n");
        assert(self.log@ =~= old(self).log@ + (listing(op) + "\n"@));
    }

    /// Writes `op` for the current block and lists it.
    pub fn pushop(&mut self, op: Op)
        requires
            old(self).cblock < old(self).blocks.len(),
        ensures
            final(self)@ == op_pushed(old(self)@, op),
            final(self).rmap == old(self).rmap,
            final(self).blocks.len() == old(self).blocks.len(),
    {
        self.note_listing(op);
        let ghost before = self.blocks@;
        let mut block = self.blocks.remove(self.cblock);
        block.ops.push(op);
        let ghost after = block@;
        self.blocks.insert(self.cblock, block);
        assert(build_views(self.blocks@) =~= build_views(before).update(
            self.cblock as int,
            after,
        ));
    }

    /// Writes `op` for the prelude and lists it.
    pub fn pushprelude(&mut self, op: Op)
        ensures
            final(self)@ == prelude_pushed(old(self)@, op),
            final(self).rmap == old(self).rmap,
            final(self).blocks == old(self).blocks,
    {
        self.note_listing(op);
        self.prelude.push(op);
    }

    /// Makes block `i` the current block.
    pub fn setblock(&mut self, i: usize)
        requires
            i < old(self).blocks.len(),
        ensures
            *final(self) == (BuildFunc { cblock: i, ..*old(self) }),
    {
        self.cblock = i;
    }

    /// The current block.
    pub fn getblock(&self) -> (b: &Block)
        requires
            self.cblock < self.blocks.len(),
        ensures
            *b == self.blocks[self.cblock as int],
    {
        &self.blocks[self.cblock]
    }

    /// Lowers the allocation `inst` of type `ty`.
    pub fn gen_inst_alloca(&mut self, ty: Ty, inst: &Instruction) -> (r: Result<(), CompileError>)
        requires
            old(self).wf(),
        ensures
            final(self).wf(),
            final(self).blocks.len() == old(self).blocks.len(),
            final(self).cblock == old(self).cblock,
            match alloca_done(old(self)@, ty, inst@) {
                Ok(b) => r is Ok && final(self)@ == b,
                Err(e) => r == Err::<(), CompileError>(e),
            },
    {
        match ty {
            Ty::Int(bits) => {
                if bits != 8 {
                    return Err(CompileError::UnsupportedType);
                }
            },
            Ty::Other => {
                return Err(CompileError::UnsupportedType);
            },
        }
        let addr = match self.rmap.for_alloc() {
            Ok(cell) => cell.address,
            Err(e) => {
                return Err(e);
            },
        };
        let ptr = match self.rmap.for_inst(inst.dup()) {
            Ok(cell) => cell.address,
            Err(e) => {
                return Err(e);
            },
        };
        self.pushop(Op::StoreAddr(addr, ptr));
        Ok(())
    }

    /// Lowers a store of `value` to the address `addr`.
    pub fn gen_inst_store(&mut self, value: Operand, addr: Operand) -> (r: Result<
        (),
        CompileError,
    >)
        requires
            old(self).wf(),
        ensures
            final(self).wf(),
            final(self).blocks.len() == old(self).blocks.len(),
            final(self).cblock == old(self).cblock,
            match store_done(old(self)@, value, addr) {
                Ok(b) => r is Ok && final(self)@ == b,
                Err(e) => r == Err::<(), CompileError>(e),
            },
    {
        let dest = match addr {
            Operand::Const(a) => {
                if a > usize::MAX as u64 {
                    return Err(CompileError::UnsupportedOperand);
                }
                a as usize
            },
            _ => {
                return Err(CompileError::UnsupportedOperand);
            },
        };
        match value {
            Operand::Const(v) => {
                if v > 255 {
                    return Err(CompileError::UnsupportedOperand);
                }
                let ghost before = self.rmap@;
                let tmp = match self.rmap.new_tmp() {
                    Ok(tmp) => tmp,
                    Err(e) => {
                        return Err(e);
                    },
                };
                self.pushop(Op::StoreImm(v as u8, tmp.address));
                self.pushop(Op::StoreInd(tmp.address, dest));
                proof {
                    let r1 = self.rmap@;
                    lemma_position_is(r1, tmp.address, r1.len() - 1);
                    assert(r1.remove(r1.len() - 1) =~= before);
                }
                self.rmap.discard(tmp);
                Ok(())
            },
            Operand::Local(_) => Ok(()),
            Operand::Other => Err(CompileError::UnsupportedOperand),
        }
    }
}

/// No cell of the map is a temporary.
pub open spec fn no_temporaries(cells: Seq<CellView>) -> bool {
    forall|i: int| 0 <= i < cells.len() ==> (#[trigger] cells[i]).from is Some
}

/// Lowering an instruction leaves no temporary behind.
pub proof fn lemma_instr_leaves_none(b: BuildView, i: InstrView)
    requires
        no_temporaries(b.rmap),
        instr_done(b, i) is Ok,
    ensures
        no_temporaries((instr_done(b, i)->Ok_0).rmap),
{
}

/// Once an instruction is refused, the block is.
pub proof fn lemma_instrs_done_refused(b: BuildView, instrs: Seq<InstrView>, n: nat, m: nat)
    requires
        n <= m,
        instrs_done(b, instrs, n) is Err,
    ensures
        instrs_done(b, instrs, m) == instrs_done(b, instrs, n),
    decreases m,
{
    if n < m {
        lemma_instrs_done_refused(b, instrs, n, (m - 1) as nat);
    }
}

fn head_lines(address: usize, block: &Block) -> (r: String)
    requires
        block.address == address,
    ensures
        r@ == block_head(address),
{
    let mut out = String::new();
    push_text(&mut out, "=== begin block #");
    push_decimal(&mut out, address as u64);
    push_text(&mut out, " =========\n");
    let pretty = block.pretty_print_begin();
    push_text(&mut out, pretty.as_str());
    push_text(&mut out, "\n");
    assert(out@ =~= block_head(address));
    out
}

fn foot_lines(address: usize, block: &Block) -> (r: String)
    requires
        block.address == address,
    ensures
        r@ == block_foot(address),
{
    let mut out = String::new();
    push_text(&mut out, "=== end block #");
    push_decimal(&mut out, address as u64);
    push_text(&mut out, " ===========\n");
    let pretty = block.pretty_print_end();
    push_text(&mut out, pretty.as_str());
    push_text(&mut out, "\n");
    push_text(&mut out, "\n");
    assert(out@ =~= block_foot(address));
    out
}

fn instr_header(i: &Instruction) -> (r: String)
    ensures
        r@ == instr_line(i@),
{
    let mut out = String::new();
    push_text(&mut out, "=== ");
    push_text(&mut out, i.text.as_str());
    push_text(&mut out, " ===================\n");
    assert(out@ =~= instr_line(i@));
    out
}

impl BuildFunc {
    fn gen_instr(&mut self, i: &Instruction) -> (r: Result<(), CompileError>)
        requires
            old(self).wf(),
        ensures
            final(self).wf(),
            final(self).blocks.len() == old(self).blocks.len(),
            final(self).cblock == old(self).cblock,
            match instr_done(old(self)@, i@) {
                Ok(b) => r is Ok && final(self)@ == b,
                Err(e) => r == Err::<(), CompileError>(e),
            },
    {
        let header = instr_header(i);
        self.note(header.as_str());
        match &i.kind {
            InstrKind::Alloca { ty, dest } => self.gen_inst_alloca(*ty, i),
            InstrKind::Store { value, addr } => self.gen_inst_store(*value, *addr),
            _ => Err(CompileError::UnsupportedInstruction),
        }
    }

    /// Builds the current block: its instructions are lowered one after the
    /// other, between a head and a foot in the listing. No temporary cell is
    /// left behind.
    pub fn gen_bblock(&mut self) -> (r: Result<(), CompileError>)
        requires
            old(self).wf(),
            no_temporaries(old(self).rmap@),
        ensures
            final(self).wf(),
            final(self).blocks.len() == old(self).blocks.len(),
            final(self).cblock == old(self).cblock,
            match bblock_done(old(self)@) {
                Ok(b) => r is Ok && final(self)@ == b && no_temporaries(final(self).rmap@),
                Err(e) => r == Err::<(), CompileError>(e),
            },
    {
        let address = self.getblock().address;
        let head = head_lines(address, self.getblock());
        let foot = foot_lines(address, self.getblock());
        let block = self.getblock();
        let instrs = dup_instrs(&block.bblock.instrs, 0, block.bblock.instrs.len());
        let ghost views = block.bblock@.instrs;
        assert(views.subrange(0, views.len() as int) =~= views);
        assert(old(self)@.blocks[old(self).cblock as int] == block@);
        self.note(head.as_str());
        let ghost start = self@;
        let mut i: usize = 0;
        while i < instrs.len()
            invariant
                i <= instrs.len(),
                instr_views(instrs@) == views,
                self.wf(),
                self.blocks.len() == old(self).blocks.len(),
                self.cblock == old(self).cblock,
                no_temporaries(self.rmap@),
                old(self).cblock < old(self).blocks.len(),
                views == old(self)@.blocks[old(self).cblock as int].bblock.instrs,
                start == logged(
                    old(self)@,
                    block_head(old(self)@.blocks[old(self).cblock as int].address),
                ),
                foot@ == block_foot(old(self)@.blocks[old(self).cblock as int].address),
                instrs_done(start, views, i as nat) == Ok::<BuildView, CompileError>(self@),
            decreases instrs.len() - i,
        {
            assert(views[i as int] == instrs@[i as int]@);
            let ghost before = self@;
            match self.gen_instr(&instrs[i]) {
                Ok(_) => {
                    proof {
                        lemma_instr_leaves_none(before, views[i as int]);
                    }
                },
                Err(e) => {
                    proof {
                        lemma_instrs_done_refused(start, views, (i + 1) as nat, views.len());
                    }
                    return Err(e);
                },
            }
            i += 1;
        }
        self.note(foot.as_str());
        Ok(())
    }
}

/// Where the builder starts from.
pub open spec fn fresh_build() -> BuildView {
    BuildView {
        address: 0,
        rmap: Seq::empty(),
        blocks: Seq::empty(),
        cblock: 0,
        prelude: Seq::empty(),
        log: "pointer train station\n"@,
    }
}

/// The builder with one more cell for a flag or a station cell.
pub open spec fn flag_reserved(b: BuildView) -> Result<BuildView, CompileError> {
    match reserved(b.rmap, Some(OriginView::Block)) {
        Err(e) => Err(e),
        Ok(r1) => Ok(BuildView { rmap: r1, ..b }),
    }
}

/// The first `n` cells of the train station: each is reserved and cleared in
/// the prelude.
pub open spec fn station_done(b: BuildView, n: nat) -> Result<BuildView, CompileError>
    decreases n,
{
    if n == 0 {
        Ok(b)
    } else {
        match station_done(b, (n - 1) as nat) {
            Err(e) => Err(e),
            Ok(d) => match flag_reserved(d) {
                Err(e) => Err(e),
                Ok(r) => Ok(prelude_pushed(r, Op::StoreImm(0, r.rmap.last().address))),
            },
        }
    }
}

/// The first `n` blocks of the function, each with a cell for its flag.
pub open spec fn blocks_reserved(b: BuildView, blocks: Seq<BlockView>, n: nat) -> Result<
    BuildView,
    CompileError,
>
    decreases n,
{
    if n == 0 {
        Ok(b)
    } else {
        match blocks_reserved(b, blocks, (n - 1) as nat) {
            Err(e) => Err(e),
            Ok(d) => match flag_reserved(d) {
                Err(e) => Err(e),
                Ok(r) => Ok(
                    BuildView {
                        blocks: r.blocks.push(
                            BuildBlockView {
                                address: r.rmap.last().address,
                                ops: Seq::empty(),
                                bblock: blocks[n - 1],
                            },
                        ),
                        ..r
                    },
                ),
            },
        }
    }
}

/// The flag of block `i`, set in the prelude: the entry block is to run, the
/// others are not.
pub open spec fn flag_set(d: BuildView, i: nat) -> BuildView {
    let first = i == 0;
    prelude_pushed(
        BuildView {
            cblock: i as usize,
            ..logged(
                d,
                if first {
                    "do block\n"@
                } else {
                    "skip block\n"@
                },
            )
        },
        Op::StoreImm(
            if first {
                1u8
            } else {
                0u8
            },
            d.blocks[i as int].address,
        ),
    )
}

/// The flags of the first `n` blocks, set in the prelude.
pub open spec fn flags_set(b: BuildView, n: nat) -> BuildView
    decreases n,
{
    if n == 0 {
        b
    } else {
        flag_set(flags_set(b, (n - 1) as nat), (n - 1) as nat)
    }
}

/// The first `n` blocks, built one after the other.
pub open spec fn blocks_built(b: BuildView, n: nat) -> Result<BuildView, CompileError>
    decreases n,
{
    if n == 0 {
        Ok(b)
    } else {
        match blocks_built(b, (n - 1) as nat) {
            Err(e) => Err(e),
            Ok(d) => bblock_done(BuildView { cblock: (n - 1) as usize, ..d }),
        }
    }
}

/// The line that opens, or closes, the function's loop in the listing.
pub open spec fn loop_line(address: usize, bracket: Seq<char>, words: Seq<char>) -> Seq<char> {
    tape_move(0, address as nat) + bracket + tape_move(address as nat, 0) + words
}

/// The frame of a function, laid out: four station cells, the function's
/// flag, and one flag per block.
pub open spec fn frame_done(f: FunctionView) -> Result<BuildView, CompileError> {
    match station_done(fresh_build(), 4) {
        Err(e) => Err(e),
        Ok(s) => match flag_reserved(s) {
            Err(e) => Err(e),
            Ok(r) => blocks_reserved(
                BuildView { address: r.rmap.last().address, ..r },
                f.blocks,
                f.blocks.len(),
            ),
        },
    }
}

/// A function, built: its frame is laid out, the prelude sets the flags, and
/// the blocks are built inside the function's loop.
pub open spec fn func_done(f: FunctionView) -> Result<BuildView, CompileError> {
    match frame_done(f) {
        Err(e) => Err(e),
        Ok(laid) => {
            let announced = prelude_pushed(
                logged(logged(laid, "=== func prelude ============\n"@), "do func\n"@),
                Op::StoreImm(1, laid.address),
            );
            let set = flags_set(announced, laid.blocks.len());
            let opened = logged(
                set,
                loop_line(laid.address, "["@, " ; begin func block\n"@) + "\n"@,
            );
            match blocks_built(opened, laid.blocks.len()) {
                Err(e) => Err(e),
                Ok(built) => Ok(
                    logged(built, loop_line(laid.address, "]"@, " ; end func block\n"@)),
                ),
            }
        },
    }
}

/// Once a cell is refused, the station is.
pub proof fn lemma_station_refused(b: BuildView, n: nat, m: nat)
    requires
        n <= m,
        station_done(b, n) is Err,
    ensures
        station_done(b, m) == station_done(b, n),
    decreases m,
{
    if n < m {
        lemma_station_refused(b, n, (m - 1) as nat);
    }
}

/// Once a cell is refused, the frame is.
pub proof fn lemma_reserved_refused(b: BuildView, blocks: Seq<BlockView>, n: nat, m: nat)
    requires
        n <= m,
        blocks_reserved(b, blocks, n) is Err,
    ensures
        blocks_reserved(b, blocks, m) == blocks_reserved(b, blocks, n),
    decreases m,
{
    if n < m {
        lemma_reserved_refused(b, blocks, n, (m - 1) as nat);
    }
}

/// Once a block is refused, the function is.
pub proof fn lemma_built_refused(b: BuildView, n: nat, m: nat)
    requires
        n <= m,
        blocks_built(b, n) is Err,
    ensures
        blocks_built(b, m) == blocks_built(b, n),
    decreases m,
{
    if n < m {
        lemma_built_refused(b, n, (m - 1) as nat);
    }
}

fn loop_lines(address: usize, bracket: &str, words: &str, blank: bool) -> (r: String)
    ensures
        r@ == if blank {
            loop_line(address, bracket@, words@) + "\n"@
        } else {
            loop_line(address, bracket@, words@)
        },
{
    let there = crate::tape::print_tape_move(0, address);
    let back = crate::tape::print_tape_move(address, 0);
    let mut out = String::new();
    push_text(&mut out, there.as_str());
    push_text(&mut out, bracket);
    push_text(&mut out, back.as_str());
    push_text(&mut out, words);
    assert(out@ =~= loop_line(address, bracket@, words@));
    if blank {
        push_text(&mut out, "\n");
    }
    out
}

fn lay_frame(func: &Function) -> (r: Result<BuildFunc, CompileError>)
    ensures
        match frame_done(func@) {
            Ok(b) => match r {
                Ok(laid) => laid@ == b && laid.rmap.wf() && no_temporaries(laid.rmap@)
                    && laid.blocks.len() == func.basic_blocks.len(),
                Err(_) => false,
            },
            Err(e) => match r {
                Ok(_) => false,
                Err(got) => got == e,
            },
        },
{
    let mut bfunc = BuildFunc {
        address: 0,
        rmap: RegMap::empty(),
        blocks: Vec::new(),
        cblock: 0,
        prelude: Vec::new(),
        log: String::new(),
    };
    assert(build_views(bfunc.blocks@) =~= Seq::<BuildBlockView>::empty());
    bfunc.note("pointer train station\n");
    assert(bfunc.log@ =~= "pointer train station\n"@);
    assert(bfunc@ == fresh_build());
    let mut k: usize = 0;
    while k < 4
        invariant
            k <= 4,
            bfunc.rmap.wf(),
            no_temporaries(bfunc.rmap@),
            bfunc.blocks.len() == 0,
            station_done(fresh_build(), k as nat) == Ok::<BuildView, CompileError>(bfunc@),
        decreases 4 - k,
    {
        match bfunc.rmap.for_block() {
            Ok(cell) => {
                bfunc.pushprelude(Op::StoreImm(0, cell.address));
            },
            Err(e) => {
                proof {
                    lemma_station_refused(fresh_build(), (k + 1) as nat, 4);
                }
                return Err(e);
            },
        }
        k += 1;
    }
    let funcl = match bfunc.rmap.for_block() {
        Ok(cell) => cell,
        Err(e) => {
            return Err(e);
        },
    };
    bfunc.address = funcl.address;
    let ghost flagged = bfunc@;
    let ghost views = block_views(func.basic_blocks@);
    assert(frame_done(func@) == blocks_reserved(flagged, views, views.len()));
    let mut i: usize = 0;
    while i < func.basic_blocks.len()
        invariant
            i <= func.basic_blocks.len(),
            views == block_views(func.basic_blocks@),
            frame_done(func@) == blocks_reserved(flagged, views, views.len()),
            bfunc.rmap.wf(),
            no_temporaries(bfunc.rmap@),
            bfunc.blocks.len() == i,
            blocks_reserved(flagged, views, i as nat) == Ok::<BuildView, CompileError>(bfunc@),
        decreases func.basic_blocks.len() - i,
    {
        let cell = match bfunc.rmap.for_block() {
            Ok(cell) => cell,
            Err(e) => {
                proof {
                    lemma_reserved_refused(flagged, views, (i + 1) as nat, views.len());
                }
                return Err(e);
            },
        };
        let block = Block {
            address: cell.address,
            ops: Vec::new(),
            bblock: func.basic_blocks[i].dup(),
        };
        let ghost before = bfunc.blocks@;
        assert(block@.ops =~= Seq::<Op>::empty());
        bfunc.blocks.push(block);
        assert(build_views(bfunc.blocks@) =~= build_views(before).push(block@));
        i += 1;
    }
    Ok(bfunc)
}

impl BuildFunc {
    fn set_flag(&mut self, i: usize)
        requires
            i < old(self).blocks.len(),
        ensures
            final(self)@ == flag_set(old(self)@, i as nat),
            final(self).rmap == old(self).rmap,
            final(self).blocks == old(self).blocks,
    {
        let first = i == 0;
        if first {
            self.note("do block\n");
        } else {
            self.note("skip block\n");
        }
        self.setblock(i);
        let addr = self.getblock().address;
        assert(old(self)@.blocks[i as int] == self.blocks@[i as int]@);
        self.pushprelude(
            Op::StoreImm(
                if first {
                    1
                } else {
                    0
                },
                addr,
            ),
        );
    }

    fn set_flags(&mut self)
        ensures
            final(self)@ == flags_set(old(self)@, old(self).blocks.len() as nat),
            final(self).rmap == old(self).rmap,
            final(self).blocks == old(self).blocks,
    {
        let count = self.blocks.len();
        let mut i: usize = 0;
        while i < count
            invariant
                i <= count,
                count == self.blocks.len(),
                self.rmap == old(self).rmap,
                self.blocks == old(self).blocks,
                self@ == flags_set(old(self)@, i as nat),
            decreases count - i,
        {
            self.set_flag(i);
            i += 1;
        }
    }
}

/// Builds a function: lays its frame out (four station cells, the function's
/// flag, one flag per block), sets the flags in the prelude, and builds the
/// blocks one after the other. The builder that comes back holds the register
/// map, the templates of the prelude and of every block, and the listing.
pub fn gen_func(func: &Function) -> (r: Result<BuildFunc, CompileError>)
    ensures
        match func_done(func@) {
            Ok(b) => match r {
                Ok(built) => built@ == b,
                Err(_) => false,
            },
            Err(e) => match r {
                Ok(_) => false,
                Err(got) => got == e,
            },
        },
{
    let mut bfunc = match lay_frame(func) {
        Ok(laid) => laid,
        Err(e) => {
            return Err(e);
        },
    };
    let ghost laid = bfunc@;
    let funcl = bfunc.address;
    let count = bfunc.blocks.len();
    bfunc.note("=== func prelude ============\n");
    bfunc.note("do func\n");
    bfunc.pushprelude(Op::StoreImm(1, funcl));
    bfunc.set_flags();
    let opening = loop_lines(funcl, "[", " ; begin func block\n", true);
    bfunc.note(opening.as_str());
    let ghost opened = bfunc@;
    assert(func_done(func@) == match blocks_built(opened, count as nat) {
        Err(e) => Err::<BuildView, CompileError>(e),
        Ok(built) => Ok(logged(built, loop_line(funcl, "]"@, " ; end func block\n"@))),
    });
    let mut i: usize = 0;
    while i < count
        invariant
            i <= count,
            count == bfunc.blocks.len(),
            bfunc.rmap.wf(),
            no_temporaries(bfunc.rmap@),
            func_done(func@) == match blocks_built(opened, count as nat) {
                Err(e) => Err::<BuildView, CompileError>(e),
                Ok(built) => Ok(logged(built, loop_line(funcl, "]"@, " ; end func block\n"@))),
            },
            blocks_built(opened, i as nat) == Ok::<BuildView, CompileError>(bfunc@),
        decreases count - i,
    {
        bfunc.setblock(i);
        match bfunc.gen_bblock() {
            Ok(_) => {},
            Err(e) => {
                proof {
                    lemma_built_refused(opened, (i + 1) as nat, count as nat);
                }
                return Err(e);
            },
        }
        i += 1;
    }
    let closing = loop_lines(funcl, "]", " ; end func block\n", false);
    bfunc.note(closing.as_str());
    Ok(bfunc)
}

/// The lines that list a block: its name, its instructions, its terminator.
pub open spec fn block_listing(b: BlockView, n: nat) -> Seq<char>
    decreases n,
{
    if n == 0 {
        "\t"@ + decimal(b.name as nat) + ":\n"@
    } else {
        block_listing(b, (n - 1) as nat) + ("\t\t"@ + b.instrs[n - 1].text + "\n"@)
    }
}

/// The lines that list a function: its name, its parameter count and whether
/// it returns a value, then its blocks.
pub open spec fn function_listing(f: FunctionView, n: nat) -> Seq<char>
    decreases n,
{
    if n == 0 {
        f.name + " "@ + decimal(f.parameters as nat) + "\n"@
    } else {
        function_listing(f, (n - 1) as nat) + (block_listing(
            f.blocks[n - 1],
            f.blocks[n - 1].instrs.len(),
        ) + ("\t\t<- "@ + f.blocks[n - 1].term.text + "\n"@))
    }
}

/// The lines that list the first `n` functions of a module.
pub open spec fn module_listing(m: ModuleView, n: nat) -> Seq<char>
    decreases n,
{
    if n == 0 {
        Seq::empty()
    } else {
        module_listing(m, (n - 1) as nat) + function_listing(
            m.functions[n - 1],
            m.functions[n - 1].blocks.len(),
        )
    }
}

fn list_block(out: &mut String, b: &BasicBlock)
    ensures
        final(out)@ == old(out)@ + (block_listing(b@, b@.instrs.len()) + ("\t\t<- "@ + b@.term.text
            + "\n"@)),
{
    let mut lines = String::new();
    push_text(&mut lines, "\t");
    push_decimal(&mut lines, b.name as u64);
    push_text(&mut lines, ":\n");
    assert(lines@ =~= block_listing(b@, 0));
    let mut i: usize = 0;
    while i < b.instrs.len()
        invariant
            i <= b.instrs.len(),
            lines@ == block_listing(b@, i as nat),
        decreases b.instrs.len() - i,
    {
        let ghost before = lines@;
        assert(b@.instrs[i as int] == b.instrs@[i as int]@);
        push_text(&mut lines, "\t\t");
        push_text(&mut lines, b.instrs[i].text.as_str());
        push_text(&mut lines, "\n");
        assert(lines@ =~= before + ("\t\t"@ + b@.instrs[i as int].text + "\n"@));
        i += 1;
    }
    let ghost listed = lines@;
    push_text(&mut lines, "\t\t<- ");
    push_text(&mut lines, b.term.text.as_str());
    push_text(&mut lines, "\n");
    assert(lines@ =~= listed + ("\t\t<- "@ + b@.term.text + "\n"@));
    push_text(out, lines.as_str());
}

fn list_function(out: &mut String, f: &Function)
    ensures
        final(out)@ == old(out)@ + function_listing(f@, f@.blocks.len()),
{
    let mut lines = String::new();
    push_text(&mut lines, f.name.as_str());
    push_text(&mut lines, " ");
    push_decimal(&mut lines, f.parameters as u64);
    push_text(&mut lines, "\n");
    assert(lines@ =~= function_listing(f@, 0));
    let mut i: usize = 0;
    while i < f.basic_blocks.len()
        invariant
            i <= f.basic_blocks.len(),
            lines@ == function_listing(f@, i as nat),
        decreases f.basic_blocks.len() - i,
    {
        assert(f@.blocks[i as int] == f.basic_blocks@[i as int]@);
        list_block(&mut lines, &f.basic_blocks[i]);
        i += 1;
    }
    push_text(out, lines.as_str());
}

/// Lists a module: every function with its blocks, every block with its
/// instructions and its terminator.
pub fn ppmod(module: &Module) -> (r: String)
    ensures
        r@ == module_listing(module@, module@.functions.len()),
{
    let mut out = String::new();
    let mut i: usize = 0;
    assert(out@ =~= module_listing(module@, 0));
    while i < module.functions.len()
        invariant
            i <= module.functions.len(),
            out@ == module_listing(module@, i as nat),
        decreases module.functions.len() - i,
    {
        assert(module@.functions[i as int] == module.functions@[i as int]@);
        list_function(&mut out, &module.functions[i]);
        i += 1;
    }
    out
}

} // verus!
