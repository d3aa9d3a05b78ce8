//! The program representation that the compiler works on: modules of
//! functions, functions of basic blocks, blocks of instructions closed by one
//! terminator.
use vstd::prelude::*;
use crate::text::decimal;

verus! {

/// The type of an allocated value.
#[derive(Clone, Copy, Debug, PartialEq, Eq, Structural)]
pub enum Ty {
    /// An integer of so many bits.
    Int(u32),
    /// Anything else.
    Other,
}

/// The predicate of a comparison.
#[derive(Clone, Copy, Debug, PartialEq, Eq, Structural)]
pub enum Pred {
    /// Signed less-than.
    SignedLess,
    /// Equal.
    Equal,
    /// Not equal.
    NotEqual,
    /// Anything else.
    Other,
}

/// What an instruction or terminator reads.
#[derive(Clone, Copy, Debug, PartialEq, Eq, Structural)]
pub enum Operand {
    /// The local value of that number.
    Local(usize),
    /// A constant integer.
    Const(u64),
    /// Anything else.
    Other,
}

/// Whom a call calls.
#[derive(Clone, Debug, PartialEq, Eq)]
pub enum Callee {
    /// The function of that name.
    Named(String),
    /// Anything else: a computed address, inline assembly.
    Other,
}

/// A function call.
#[derive(Clone, Debug, PartialEq, Eq)]
pub struct Call {
    pub callee: Callee,
    pub args: Vec<Operand>,
    /// The number of the value the call produces, if it produces one.
    pub dest: Option<usize>,
}

/// What an instruction does.
#[derive(Clone, Debug, PartialEq, Eq)]
pub enum InstrKind {
    Alloca { ty: Ty, dest: usize },
    Store { value: Operand, addr: Operand },
    Load { addr: Operand, dest: usize },
    Add { op0: Operand, op1: Operand, dest: usize },
    ICmp { pred: Pred, op0: Operand, op1: Operand, dest: usize },
    Call(Call),
    /// An instruction outside the supported set.
    Other,
}

/// An instruction with the text it is listed by.
#[derive(Clone, Debug, PartialEq, Eq)]
pub struct Instruction {
    pub kind: InstrKind,
    pub text: String,
}

/// How a block ends. Blocks are named by number.
#[derive(Clone, Copy, Debug, PartialEq, Eq, Structural)]
pub enum TermKind {
    Br { dest: usize },
    CondBr { cond: Operand, true_dest: usize, false_dest: usize },
    Ret,
    /// A terminator outside the supported set.
    Other,
}

/// A terminator with the text it is listed by.
#[derive(Clone, Debug, PartialEq, Eq)]
pub struct Terminator {
    pub kind: TermKind,
    pub text: String,
}

/// A basic block: a numeric name, instructions, one terminator.
#[derive(Clone, Debug, PartialEq, Eq)]
pub struct BasicBlock {
    pub name: usize,
    pub instrs: Vec<Instruction>,
    pub term: Terminator,
}

/// A function: a name, its parameter count and return type (neither is used
/// by the generated code), and its blocks, the entry block first.
#[derive(Clone, Debug, PartialEq, Eq)]
pub struct Function {
    pub name: String,
    pub parameters: usize,
    pub return_type: Ty,
    pub basic_blocks: Vec<BasicBlock>,
}

/// A module: functions in source order. The one named `main` is where the
/// program starts.
#[derive(Clone, Debug, PartialEq, Eq)]
pub struct Module {
    pub functions: Vec<Function>,
}

/// Why a module was not compiled.
#[derive(Clone, Copy, Debug, PartialEq, Eq, Structural)]
pub enum CompileError {
    /// No function is named `main`.
    NoMain,
    /// A block would need a name beyond the largest number.
    NameOverflow,
    /// A frame would be wider than the tape.
    FrameTooWide,
    /// An instruction outside the supported set.
    UnsupportedInstruction,
    /// An allocation of anything but an 8-bit integer.
    UnsupportedType,
    /// An operand of the wrong shape, or a constant above 255.
    UnsupportedOperand,
    /// A comparison other than signed less-than.
    UnsupportedPredicate,
    /// A terminator outside the supported set.
    UnsupportedTerminator,
    /// A call of anything but a named function.
    UnsupportedCallee,
    /// A call of a function that the module does not define.
    UnknownFunction,
    /// A branch to a block that the function does not have.
    UnknownBlock,
    /// A `putchar` that produces a value or does not take exactly one argument.
    BadPutchar,
}

// ---------------------------------------------------------------------------
// Views: the same data as mathematical values
// ---------------------------------------------------------------------------

/// A call as a mathematical value.
pub struct CallView {
    pub callee: Option<Seq<char>>,
    pub args: Seq<Operand>,
    pub dest: Option<usize>,
}

/// What an instruction does, as a mathematical value.
pub enum InstrKindView {
    Alloca { ty: Ty, dest: usize },
    Store { value: Operand, addr: Operand },
    Load { addr: Operand, dest: usize },
    Add { op0: Operand, op1: Operand, dest: usize },
    ICmp { pred: Pred, op0: Operand, op1: Operand, dest: usize },
    Call(CallView),
    Other,
}

/// An instruction as a mathematical value.
pub struct InstrView {
    pub kind: InstrKindView,
    pub text: Seq<char>,
}

/// A terminator as a mathematical value.
pub struct TermView {
    pub kind: TermKind,
    pub text: Seq<char>,
}

/// A basic block as a mathematical value.
pub struct BlockView {
    pub name: usize,
    pub instrs: Seq<InstrView>,
    pub term: TermView,
}

/// A function as a mathematical value.
pub struct FunctionView {
    pub name: Seq<char>,
    pub parameters: usize,
    pub return_type: Ty,
    pub blocks: Seq<BlockView>,
}

/// A module as a mathematical value.
pub struct ModuleView {
    pub functions: Seq<FunctionView>,
}

impl View for Callee {
    type V = Option<Seq<char>>;

    open spec fn view(&self) -> Option<Seq<char>> {
        match self {
            Callee::Named(s) => Some(s@),
            Callee::Other => None,
        }
    }
}

impl View for Call {
    type V = CallView;

    open spec fn view(&self) -> CallView {
        CallView { callee: self.callee@, args: self.args@, dest: self.dest }
    }
}

impl View for InstrKind {
    type V = InstrKindView;

    open spec fn view(&self) -> InstrKindView {
        match self {
            InstrKind::Alloca { ty, dest } => InstrKindView::Alloca { ty: *ty, dest: *dest },
            InstrKind::Store { value, addr } => InstrKindView::Store { value: *value, addr: *addr },
            InstrKind::Load { addr, dest } => InstrKindView::Load { addr: *addr, dest: *dest },
            InstrKind::Add { op0, op1, dest } => InstrKindView::Add {
                op0: *op0,
                op1: *op1,
                dest: *dest,
            },
            InstrKind::ICmp { pred, op0, op1, dest } => InstrKindView::ICmp {
                pred: *pred,
                op0: *op0,
                op1: *op1,
                dest: *dest,
            },
            InstrKind::Call(c) => InstrKindView::Call(c@),
            InstrKind::Other => InstrKindView::Other,
        }
    }
}

impl View for Instruction {
    type V = InstrView;

    open spec fn view(&self) -> InstrView {
        InstrView { kind: self.kind@, text: self.text@ }
    }
}

impl View for Terminator {
    type V = TermView;

    open spec fn view(&self) -> TermView {
        TermView { kind: self.kind, text: self.text@ }
    }
}

/// The instructions as mathematical values.
pub open spec fn instr_views(instrs: Seq<Instruction>) -> Seq<InstrView> {
    instrs.map_values(|i: Instruction| i@)
}

impl View for BasicBlock {
    type V = BlockView;

    open spec fn view(&self) -> BlockView {
        BlockView { name: self.name, instrs: instr_views(self.instrs@), term: self.term@ }
    }
}

/// The blocks as mathematical values.
pub open spec fn block_views(blocks: Seq<BasicBlock>) -> Seq<BlockView> {
    blocks.map_values(|b: BasicBlock| b@)
}

impl View for Function {
    type V = FunctionView;

    open spec fn view(&self) -> FunctionView {
        FunctionView {
            name: self.name@,
            parameters: self.parameters,
            return_type: self.return_type,
            blocks: block_views(self.basic_blocks@),
        }
    }
}

/// The functions as mathematical values.
pub open spec fn function_views(functions: Seq<Function>) -> Seq<FunctionView> {
    functions.map_values(|f: Function| f@)
}

impl View for Module {
    type V = ModuleView;

    open spec fn view(&self) -> ModuleView {
        ModuleView { functions: function_views(self.functions@) }
    }
}

// ---------------------------------------------------------------------------
// Copies
// ---------------------------------------------------------------------------

impl Callee {
    /// A copy with the same view.
    pub fn dup(&self) -> (r: Callee)
        ensures
            r@ == self@,
    {
        match self {
            Callee::Named(s) => Callee::Named(s.clone()),
            Callee::Other => Callee::Other,
        }
    }
}

impl Call {
    /// A copy with the same view.
    pub fn dup(&self) -> (r: Call)
        ensures
            r@ == self@,
    {
        let mut args: Vec<Operand> = Vec::new();
        let mut i: usize = 0;
        while i < self.args.len()
            invariant
                i <= self.args.len(),
                args@ == self.args@.take(i as int),
            decreases self.args.len() - i,
        {
            args.push(self.args[i]);
            assert(self.args@.take(i as int).push(self.args@[i as int]) =~= self.args@.take(i + 1));
            i += 1;
        }
        assert(self.args@.take(self.args@.len() as int) =~= self.args@);
        Call { callee: self.callee.dup(), args, dest: self.dest }
    }
}

impl InstrKind {
    /// A copy with the same view.
    pub fn dup(&self) -> (r: InstrKind)
        ensures
            r@ == self@,
    {
        match self {
            InstrKind::Alloca { ty, dest } => InstrKind::Alloca { ty: *ty, dest: *dest },
            InstrKind::Store { value, addr } => InstrKind::Store { value: *value, addr: *addr },
            InstrKind::Load { addr, dest } => InstrKind::Load { addr: *addr, dest: *dest },
            InstrKind::Add { op0, op1, dest } => InstrKind::Add {
                op0: *op0,
                op1: *op1,
                dest: *dest,
            },
            InstrKind::ICmp { pred, op0, op1, dest } => InstrKind::ICmp {
                pred: *pred,
                op0: *op0,
                op1: *op1,
                dest: *dest,
            },
            InstrKind::Call(c) => InstrKind::Call(c.dup()),
            InstrKind::Other => InstrKind::Other,
        }
    }
}

impl Instruction {
    /// A copy with the same view.
    pub fn dup(&self) -> (r: Instruction)
        ensures
            r@ == self@,
    {
        Instruction { kind: self.kind.dup(), text: self.text.clone() }
    }

    /// Whether the instruction is a call.
    pub fn is_call(&self) -> (b: bool)
        ensures
            b == (self@.kind is Call),
    {
        match self.kind {
            InstrKind::Call(_) => true,
            _ => false,
        }
    }
}

impl Terminator {
    /// A copy with the same view.
    pub fn dup(&self) -> (r: Terminator)
        ensures
            r@ == self@,
    {
        Terminator { kind: self.kind, text: self.text.clone() }
    }

    /// Whether the terminator is an unconditional branch.
    pub fn is_br(&self) -> (b: bool)
        ensures
            b == (self@.kind is Br),
    {
        match self.kind {
            TermKind::Br { .. } => true,
            _ => false,
        }
    }
}

/// The text by which an unconditional branch to `dest` is listed.
pub open spec fn br_text(dest: usize) -> Seq<char> {
    "br label %"@ + decimal(dest as nat)
}

/// An unconditional branch to `dest`.
pub open spec fn br_to(dest: usize) -> TermView {
    TermView { kind: TermKind::Br { dest }, text: br_text(dest) }
}

/// An unconditional branch to the block named `dest`.
pub fn branch_to(dest: usize) -> (t: Terminator)
    ensures
        t@ == br_to(dest),
{
    let mut text = String::new();
    crate::text::push_text(&mut text, "br label %");
    crate::text::push_decimal(&mut text, dest as u64);
    assert(text@ =~= br_text(dest));
    Terminator { kind: TermKind::Br { dest }, text }
}

/// A copy of the instructions from `from` up to `to`.
pub fn dup_instrs(instrs: &Vec<Instruction>, from: usize, to: usize) -> (r: Vec<Instruction>)
    requires
        from <= to <= instrs.len(),
    ensures
        instr_views(r@) == instr_views(instrs@).subrange(from as int, to as int),
{
    let mut out: Vec<Instruction> = Vec::new();
    let mut i: usize = from;
    assert(instr_views(out@) =~= instr_views(instrs@).subrange(from as int, from as int));
    while i < to
        invariant
            from <= i <= to <= instrs.len(),
            instr_views(out@) == instr_views(instrs@).subrange(from as int, i as int),
        decreases to - i,
    {
        let ghost before = out@;
        out.push(instrs[i].dup());
        assert(instr_views(out@) =~= instr_views(before).push(instrs@[i as int]@));
        assert(instr_views(before).push(instrs@[i as int]@) =~= instr_views(instrs@).subrange(
            from as int,
            i + 1,
        ));
        i += 1;
    }
    out
}

impl BasicBlock {
    /// A copy with the same view.
    pub fn dup(&self) -> (r: BasicBlock)
        ensures
            r@ == self@,
    {
        let instrs = dup_instrs(&self.instrs, 0, self.instrs.len());
        assert(instr_views(self.instrs@).subrange(0, self.instrs@.len() as int) =~= instr_views(
            self.instrs@,
        ));
        BasicBlock { name: self.name, instrs, term: self.term.dup() }
    }
}

// ---------------------------------------------------------------------------
// Comparing
// ---------------------------------------------------------------------------

impl Callee {
    /// Whether two callees have the same view.
    pub fn same(&self, other: &Callee) -> (b: bool)
        ensures
            b == (self@ == other@),
    {
        match (self, other) {
            (Callee::Named(a), Callee::Named(b)) => *a == *b,
            (Callee::Other, Callee::Other) => true,
            _ => false,
        }
    }
}

fn same_operands(a: &Vec<Operand>, b: &Vec<Operand>) -> (r: bool)
    ensures
        r == (a@ == b@),
{
    if a.len() != b.len() {
        return false;
    }
    let mut i: usize = 0;
    while i < a.len()
        invariant
            i <= a.len(),
            a.len() == b.len(),
            forall|k: int| 0 <= k < i ==> a@[k] == b@[k],
        decreases a.len() - i,
    {
        if a[i] != b[i] {
            return false;
        }
        i += 1;
    }
    assert(a@ =~= b@);
    true
}

impl Call {
    /// Whether two calls have the same view.
    pub fn same(&self, other: &Call) -> (b: bool)
        ensures
            b == (self@ == other@),
    {
        self.callee.same(&other.callee) && same_operands(&self.args, &other.args) && self.dest
            == other.dest
    }
}

impl InstrKind {
    /// Whether two instructions do the same.
    pub fn same(&self, other: &InstrKind) -> (b: bool)
        ensures
            b == (self@ == other@),
    {
        match (self, other) {
            (InstrKind::Alloca { ty: t1, dest: d1 }, InstrKind::Alloca { ty: t2, dest: d2 }) => *t1
                == *t2 && *d1 == *d2,
            (
                InstrKind::Store { value: v1, addr: a1 },
                InstrKind::Store { value: v2, addr: a2 },
            ) => *v1 == *v2 && *a1 == *a2,
            (InstrKind::Load { addr: a1, dest: d1 }, InstrKind::Load { addr: a2, dest: d2 }) => *a1
                == *a2 && *d1 == *d2,
            (
                InstrKind::Add { op0: x1, op1: y1, dest: d1 },
                InstrKind::Add { op0: x2, op1: y2, dest: d2 },
            ) => *x1 == *x2 && *y1 == *y2 && *d1 == *d2,
            (
                InstrKind::ICmp { pred: pred1, op0: x1, op1: y1, dest: d1 },
                InstrKind::ICmp { pred: pred2, op0: x2, op1: y2, dest: d2 },
            ) => *pred1 == *pred2 && *x1 == *x2 && *y1 == *y2 && *d1 == *d2,
            (InstrKind::Call(c1), InstrKind::Call(c2)) => c1.same(c2),
            (InstrKind::Other, InstrKind::Other) => true,
            _ => false,
        }
    }
}

impl Instruction {
    /// Whether two instructions have the same view.
    pub fn same(&self, other: &Instruction) -> (b: bool)
        ensures
            b == (self@ == other@),
    {
        self.kind.same(&other.kind) && self.text == other.text
    }
}

impl Terminator {
    /// Whether two terminators have the same view.
    pub fn same(&self, other: &Terminator) -> (b: bool)
        ensures
            b == (self@ == other@),
    {
        self.kind == other.kind && self.text == other.text
    }
}

impl BasicBlock {
    /// Whether two blocks have the same view.
    pub fn same(&self, other: &BasicBlock) -> (b: bool)
        ensures
            b == (self@ == other@),
    {
        assert(self@.instrs.len() == self.instrs.len());
        assert(other@.instrs.len() == other.instrs.len());
        if self.name != other.name || self.instrs.len() != other.instrs.len() {
            return false;
        }
        let mut i: usize = 0;
        while i < self.instrs.len()
            invariant
                i <= self.instrs.len(),
                self.instrs.len() == other.instrs.len(),
                forall|k: int| 0 <= k < i ==> self@.instrs[k] == other@.instrs[k],
            decreases self.instrs.len() - i,
        {
            if !self.instrs[i].same(&other.instrs[i]) {
                assert(self@.instrs[i as int] != other@.instrs[i as int]);
                return false;
            }
            i += 1;
        }
        assert(self@.instrs =~= other@.instrs);
        self.term.same(&other.term)
    }
}

} // verus!
