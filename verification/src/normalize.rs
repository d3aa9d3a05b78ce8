//! The two passes that prepare a module for code generation: a call always
//! ends its block in front of an unconditional branch, and the entry block of
//! a function holds no call.
use vstd::prelude::*;
use crate::ir::{
    block_views, br_to, branch_to, dup_instrs, function_views, instr_views, BasicBlock, BlockView,
    CompileError, Function, FunctionView, InstrView, Instruction, Module, ModuleView,
};

verus! {

// ---------------------------------------------------------------------------
// What the passes produce
// ---------------------------------------------------------------------------

/// The index of the first call among the instructions, or their number if
/// there is none.
pub open spec fn first_call(instrs: Seq<InstrView>) -> int
    decreases instrs.len(),
{
    if instrs.len() == 0 {
        0
    } else if instrs[0].kind is Call {
        0
    } else {
        1 + first_call(instrs.drop_first())
    }
}

/// Where a block has to be cut: behind its first call, unless that call is the
/// block's last instruction and an unconditional branch follows it.
pub open spec fn split_point(b: BlockView) -> Option<int> {
    let c = first_call(b.instrs);
    if c < b.instrs.len() && (c + 1 < b.instrs.len() || !(b.term.kind is Br)) {
        Some(c)
    } else {
        None
    }
}

/// Nothing is left to cut: a call, if the block has one, is its last
/// instruction and an unconditional branch follows.
pub open spec fn settled(b: BlockView) -> bool {
    split_point(b) is None
}

/// The part of a block up to and including the call at `c`, closed by a branch
/// to the block named `fresh`.
pub open spec fn head_of(b: BlockView, c: int, fresh: int) -> BlockView {
    BlockView { name: b.name, instrs: b.instrs.take(c + 1), term: br_to(fresh as usize) }
}

/// The part of a block behind the call at `c`, under the name `fresh` and with
/// the block's own terminator.
pub open spec fn tail_of(b: BlockView, c: int, fresh: int) -> BlockView {
    BlockView { name: fresh as usize, instrs: b.instrs.skip(c + 1), term: b.term }
}

/// How many cuts a block takes.
pub open spec fn extra(b: BlockView) -> nat
    decreases b.instrs.len(),
{
    match split_point(b) {
        None => 0,
        Some(c) => {
            if 0 <= c < b.instrs.len() {
                1 + extra(tail_of(b, c, 0))
            } else {
                0
            }
        },
    }
}

/// The blocks that one block is cut into; new blocks are named `fresh`,
/// `fresh + 1` and so on.
pub open spec fn split_block(b: BlockView, fresh: int) -> Seq<BlockView>
    decreases b.instrs.len(),
{
    match split_point(b) {
        None => seq![b],
        Some(c) => {
            if 0 <= c < b.instrs.len() {
                seq![head_of(b, c, fresh)] + split_block(tail_of(b, c, fresh), fresh + 1)
            } else {
                seq![b]
            }
        },
    }
}

/// How many cuts the blocks take together.
pub open spec fn extras(blocks: Seq<BlockView>) -> nat
    decreases blocks.len(),
{
    if blocks.len() == 0 {
        0
    } else {
        extras(blocks.drop_last()) + extra(blocks.last())
    }
}

/// The blocks, each cut in turn, in their old order.
pub open spec fn split_blocks(blocks: Seq<BlockView>, fresh: int) -> Seq<BlockView>
    decreases blocks.len(),
{
    if blocks.len() == 0 {
        Seq::empty()
    } else {
        split_blocks(blocks.drop_last(), fresh) + split_block(
            blocks.last(),
            fresh + extras(blocks.drop_last()),
        )
    }
}

/// The largest block name, 0 where there is no block.
pub open spec fn max_name(blocks: Seq<BlockView>) -> int
    decreases blocks.len(),
{
    if blocks.len() == 0 {
        0
    } else if blocks.last().name > max_name(blocks.drop_last()) {
        blocks.last().name as int
    } else {
        max_name(blocks.drop_last())
    }
}

/// The function with every block cut behind its calls.
pub open spec fn split_function(f: FunctionView) -> FunctionView {
    FunctionView { blocks: split_blocks(f.blocks, max_name(f.blocks) + 1), ..f }
}

/// All the new names that cutting needs are numbers that a block can have.
pub open spec fn split_fits(f: FunctionView) -> bool {
    max_name(f.blocks) + extras(f.blocks) <= usize::MAX
}

/// The module with every function's blocks cut behind their calls.
pub open spec fn split_module(m: ModuleView) -> ModuleView {
    ModuleView { functions: m.functions.map_values(|f: FunctionView| split_function(f)) }
}

/// Cutting fits in every function.
pub open spec fn split_module_fits(m: ModuleView) -> bool {
    forall|i: int| 0 <= i < m.functions.len() ==> split_fits(#[trigger] m.functions[i])
}

/// The entry block holds a call.
pub open spec fn needs_guard(f: FunctionView) -> bool {
    f.blocks.len() > 0 && first_call(f.blocks[0].instrs) < f.blocks[0].instrs.len()
}

/// An empty block that only branches to `entry`.
pub open spec fn guard_block(name: int, entry: usize) -> BlockView {
    BlockView { name: name as usize, instrs: Seq::empty(), term: br_to(entry) }
}

/// The function with an empty entry block in front where the old entry block
/// holds a call.
pub open spec fn guard_function(f: FunctionView) -> FunctionView {
    if needs_guard(f) {
        FunctionView {
            blocks: seq![guard_block(max_name(f.blocks) + 1, f.blocks[0].name)] + f.blocks,
            ..f
        }
    } else {
        f
    }
}

/// The name of the new entry block is a number that a block can have.
pub open spec fn guard_fits(f: FunctionView) -> bool {
    needs_guard(f) ==> max_name(f.blocks) + 1 <= usize::MAX
}

/// The module with every function's entry block free of calls.
pub open spec fn guard_module(m: ModuleView) -> ModuleView {
    ModuleView { functions: m.functions.map_values(|f: FunctionView| guard_function(f)) }
}

/// A new entry block fits wherever one is needed.
pub open spec fn guard_module_fits(m: ModuleView) -> bool {
    forall|i: int| 0 <= i < m.functions.len() ==> guard_fits(#[trigger] m.functions[i])
}

/// Every block of the function is settled.
pub open spec fn all_settled(blocks: Seq<BlockView>) -> bool {
    forall|k: int| 0 <= k < blocks.len() ==> settled(#[trigger] blocks[k])
}

/// What code generation relies on: every call ends its block in front of an
/// unconditional branch, and no entry block holds a call.
pub open spec fn normalized(m: ModuleView) -> bool {
    forall|i: int|
        0 <= i < m.functions.len() ==> all_settled((#[trigger] m.functions[i]).blocks)
            && !needs_guard(m.functions[i])
}

// ---------------------------------------------------------------------------
// Facts about the passes
// ---------------------------------------------------------------------------

/// `first_call` is the least index of a call.
pub proof fn lemma_first_call(instrs: Seq<InstrView>)
    ensures
        0 <= first_call(instrs) <= instrs.len(),
        first_call(instrs) < instrs.len() ==> instrs[first_call(instrs)].kind is Call,
        forall|k: int| 0 <= k < first_call(instrs) ==> !((#[trigger] instrs[k]).kind is Call),
    decreases instrs.len(),
{
    if instrs.len() > 0 && !(instrs[0].kind is Call) {
        let rest = instrs.drop_first();
        lemma_first_call(rest);
        assert forall|k: int| 0 <= k < first_call(instrs) implies !((#[trigger] instrs[k]).kind is Call) by {
            if k > 0 {
                assert(instrs[k] == rest[k - 1]);
            }
        }
        if first_call(instrs) < instrs.len() {
            assert(instrs[first_call(instrs)] == rest[first_call(rest)]);
        }
    }
}

/// An index with a call at it and none before it is the first call; so is the
/// length where there is no call at all.
pub proof fn lemma_first_call_is(instrs: Seq<InstrView>, c: int)
    requires
        0 <= c <= instrs.len(),
        c < instrs.len() ==> instrs[c].kind is Call,
        forall|k: int| 0 <= k < c ==> !((#[trigger] instrs[k]).kind is Call),
    ensures
        first_call(instrs) == c,
{
    lemma_first_call(instrs);
    let f = first_call(instrs);
    if f < c {
        assert(instrs[f].kind is Call);
    } else if c < f {
        assert(!(instrs[c].kind is Call));
    }
}

/// A block is settled exactly when a call in it can only be its last
/// instruction, followed by an unconditional branch.
pub proof fn lemma_settled(b: BlockView)
    ensures
        settled(b) <==> (forall|i: int|
            0 <= i < b.instrs.len() && (#[trigger] b.instrs[i]).kind is Call ==> i + 1
                == b.instrs.len() && b.term.kind is Br),
{
    lemma_first_call(b.instrs);
    let c = first_call(b.instrs);
    if settled(b) {
        assert forall|i: int|
            0 <= i < b.instrs.len() && (#[trigger] b.instrs[i]).kind is Call implies i + 1
            == b.instrs.len() && b.term.kind is Br by {
            if i < c {
                assert(!(b.instrs[i].kind is Call));
            }
        }
    } else {
        assert(b.instrs[c].kind is Call);
    }
}

/// The number of cuts does not depend on what the block is called.
pub proof fn lemma_extra_ignores_name(a: BlockView, b: BlockView)
    requires
        a.instrs == b.instrs,
        a.term == b.term,
    ensures
        extra(a) == extra(b),
    decreases a.instrs.len(),
{
    lemma_first_call(a.instrs);
    match split_point(a) {
        None => {},
        Some(c) => {
            lemma_extra_ignores_name(tail_of(a, c, 0), tail_of(b, c, 0));
        },
    }
}

/// Every piece of a cut block is settled.
pub proof fn lemma_split_block_settled(b: BlockView, fresh: int)
    ensures
        all_settled(split_block(b, fresh)),
    decreases b.instrs.len(),
{
    lemma_first_call(b.instrs);
    match split_point(b) {
        None => {},
        Some(c) => {
            let head = head_of(b, c, fresh);
            let tail = tail_of(b, c, fresh);
            lemma_first_call_is(head.instrs, c);
            assert(settled(head));
            lemma_split_block_settled(tail, fresh + 1);
            let rest = split_block(tail, fresh + 1);
            assert forall|k: int| 0 <= k < split_block(b, fresh).len() implies settled(
                #[trigger] split_block(b, fresh)[k],
            ) by {
                if k > 0 {
                    assert(split_block(b, fresh)[k] == rest[k - 1]);
                }
            }
        },
    }
}

/// Every block is settled once the blocks are cut.
pub proof fn lemma_split_blocks_settled(blocks: Seq<BlockView>, fresh: int)
    ensures
        all_settled(split_blocks(blocks, fresh)),
    decreases blocks.len(),
{
    if blocks.len() > 0 {
        let done = split_blocks(blocks.drop_last(), fresh);
        let last = split_block(blocks.last(), fresh + extras(blocks.drop_last()));
        lemma_split_blocks_settled(blocks.drop_last(), fresh);
        lemma_split_block_settled(blocks.last(), fresh + extras(blocks.drop_last()));
        assert forall|k: int| 0 <= k < (done + last).len() implies settled(
            #[trigger] (done + last)[k],
        ) by {
            if k < done.len() {
                assert((done + last)[k] == done[k]);
            } else {
                assert((done + last)[k] == last[k - done.len()]);
            }
        }
    }
}

/// Cutting leaves settled blocks as they are.
pub proof fn lemma_split_settled_blocks(blocks: Seq<BlockView>, fresh: int)
    requires
        all_settled(blocks),
    ensures
        split_blocks(blocks, fresh) == blocks,
        extras(blocks) == 0,
    decreases blocks.len(),
{
    if blocks.len() > 0 {
        let front = blocks.drop_last();
        assert forall|k: int| 0 <= k < front.len() implies settled(#[trigger] front[k]) by {
            assert(front[k] == blocks[k]);
        }
        lemma_split_settled_blocks(front, fresh);
        assert(settled(blocks[blocks.len() - 1]));
        assert(front + seq![blocks.last()] =~= blocks);
    } else {
        assert(split_blocks(blocks, fresh) =~= blocks);
    }
}

/// Cutting a function twice gives what cutting it once gives.
pub proof fn lemma_split_function_idempotent(f: FunctionView)
    ensures
        split_function(split_function(f)) == split_function(f),
{
    let once = split_function(f);
    lemma_split_blocks_settled(f.blocks, max_name(f.blocks) + 1);
    lemma_split_settled_blocks(once.blocks, max_name(once.blocks) + 1);
}

/// Applying call-splitting twice produces the same module, and so the same
/// block list in every function, as applying it once.
pub proof fn law_split_idempotent(m: ModuleView)
    ensures
        split_module(split_module(m)) == split_module(m),
{
    let once = split_module(m);
    let twice = split_module(once);
    assert forall|i: int| 0 <= i < once.functions.len() implies twice.functions[i]
        == once.functions[i] by {
        lemma_split_function_idempotent(m.functions[i]);
    }
    assert(twice.functions =~= once.functions);
}

/// Guarding the entry blocks twice gives what guarding them once gives.
pub proof fn law_guard_idempotent(m: ModuleView)
    ensures
        guard_module(guard_module(m)) == guard_module(m),
{
    let once = guard_module(m);
    let twice = guard_module(once);
    assert forall|i: int| 0 <= i < once.functions.len() implies twice.functions[i]
        == once.functions[i] by {
        let f = m.functions[i];
        if needs_guard(f) {
            assert(guard_function(f).blocks[0].instrs.len() == 0);
        }
    }
    assert(twice.functions =~= once.functions);
}

// ---------------------------------------------------------------------------
// The passes
// ---------------------------------------------------------------------------

/// The part of `b` from instruction `start` on, under the name `name`.
pub open spec fn rest_of(b: BlockView, name: usize, start: int) -> BlockView {
    BlockView { name, instrs: b.instrs.skip(start), term: b.term }
}

/// The index of the first call at or behind `start`, or the number of
/// instructions if there is none.
pub(crate) fn find_call(instrs: &Vec<Instruction>, start: usize) -> (c: usize)
    requires
        start <= instrs.len(),
    ensures
        start <= c <= instrs.len(),
        c - start == first_call(instr_views(instrs@).skip(start as int)),
{
    let ghost rest = instr_views(instrs@).skip(start as int);
    let mut c: usize = start;
    while c < instrs.len() && !instrs[c].is_call()
        invariant
            start <= c <= instrs.len(),
            rest == instr_views(instrs@).skip(start as int),
            forall|k: int| 0 <= k < c - start ==> !((#[trigger] rest[k]).kind is Call),
        decreases instrs.len() - c,
    {
        c += 1;
    }
    proof {
        lemma_first_call_is(rest, c - start);
    }
    c
}

fn largest_name(blocks: &Vec<BasicBlock>) -> (m: usize)
    ensures
        m == max_name(block_views(blocks@)),
{
    let mut m: usize = 0;
    let mut i: usize = 0;
    assert(block_views(blocks@).take(0) =~= Seq::<BlockView>::empty());
    while i < blocks.len()
        invariant
            i <= blocks.len(),
            m == max_name(block_views(blocks@).take(i as int)),
        decreases blocks.len() - i,
    {
        assert(block_views(blocks@).take(i + 1).drop_last() =~= block_views(blocks@).take(i as int));
        if blocks[i].name > m {
            m = blocks[i].name;
        }
        i += 1;
    }
    assert(block_views(blocks@).take(blocks@.len() as int) =~= block_views(blocks@));
    m
}

proof fn lemma_push_block(blocks: Seq<BasicBlock>, b: BasicBlock)
    ensures
        block_views(blocks.push(b)) == block_views(blocks).push(b@),
{
    assert(block_views(blocks.push(b)) =~= block_views(blocks).push(b@));
}

fn split_from(
    b: &BasicBlock,
    name: usize,
    start: usize,
    out: &mut Vec<BasicBlock>,
    last: usize,
) -> (r: Result<usize, CompileError>)
    requires
        start <= b.instrs.len(),
    ensures
        match r {
            Ok(next) => next == last + extra(rest_of(b@, name, start as int)) && block_views(
                final(out)@,
            ) == block_views(old(out)@) + split_block(rest_of(b@, name, start as int), last + 1),
            Err(e) => e == CompileError::NameOverflow && last + extra(
                rest_of(b@, name, start as int),
            ) > usize::MAX,
        },
    decreases b.instrs.len() - start,
{
    let ghost rest = rest_of(b@, name, start as int);
    let c = find_call(&b.instrs, start);
    let n = b.instrs.len();
    if c < n && (c + 1 < n || !b.term.is_br()) {
        assert(split_point(rest) == Some(c - start));
        if last == usize::MAX {
            return Err(CompileError::NameOverflow);
        }
        let fresh = last + 1;
        let head = BasicBlock {
            name,
            instrs: dup_instrs(&b.instrs, start, c + 1),
            term: branch_to(fresh),
        };
        proof {
            assert(rest.instrs.take(c - start + 1) =~= b@.instrs.subrange(start as int, c + 1));
            assert(head@ == head_of(rest, c - start, fresh as int));
            assert(rest.instrs.skip(c - start + 1) =~= b@.instrs.skip(c + 1));
            assert(tail_of(rest, c - start, fresh as int) == rest_of(b@, fresh, c + 1));
            lemma_extra_ignores_name(tail_of(rest, c - start, 0), rest_of(b@, fresh, c + 1));
            lemma_push_block(out@, head);
        }
        out.push(head);
        let ghost mid = out@;
        let r = split_from(b, fresh, c + 1, out, fresh);
        proof {
            if r is Ok {
                assert(block_views(old(out)@).push(head@) + split_block(
                    rest_of(b@, fresh, c + 1),
                    fresh + 1,
                ) =~= block_views(old(out)@) + split_block(rest, last + 1));
            }
        }
        r
    } else {
        assert(split_point(rest) is None);
        let whole = BasicBlock { name, instrs: dup_instrs(&b.instrs, start, n), term: b.term.dup() };
        proof {
            assert(b@.instrs.subrange(start as int, n as int) =~= rest.instrs);
            assert(whole@ == rest);
            lemma_push_block(out@, whole);
            assert(block_views(old(out)@).push(rest) =~= block_views(old(out)@) + seq![rest]);
        }
        out.push(whole);
        Ok(last)
    }
}

fn split_blocks_of(f: &Function) -> (r: Result<Function, CompileError>)
    ensures
        match r {
            Ok(g) => split_fits(f@) && g@ == split_function(f@),
            Err(e) => e == CompileError::NameOverflow && !split_fits(f@),
        },
{
    let blocks = &f.basic_blocks;
    let ghost views = block_views(blocks@);
    let top = largest_name(blocks);
    let mut last: usize = top;
    let mut out: Vec<BasicBlock> = Vec::new();
    let mut i: usize = 0;
    assert(views.take(0) =~= Seq::<BlockView>::empty());
    assert(block_views(out@) =~= Seq::<BlockView>::empty());
    while i < blocks.len()
        invariant
            i <= blocks.len(),
            views == block_views(blocks@),
            views == f@.blocks,
            top == max_name(views),
            last == top + extras(views.take(i as int)),
            block_views(out@) == split_blocks(views.take(i as int), top + 1),
        decreases blocks.len() - i,
    {
        assert(views.take(i + 1).drop_last() =~= views.take(i as int));
        assert(views.take(i + 1).last() == blocks@[i as int]@);
        assert(blocks@[i as int]@.instrs.skip(0) =~= blocks@[i as int]@.instrs);
        assert(rest_of(blocks@[i as int]@, blocks@[i as int].name, 0) == blocks@[i as int]@);
        match split_from(&blocks[i], blocks[i].name, 0, &mut out, last) {
            Ok(next) => {
                last = next;
            },
            Err(e) => {
                proof {
                    lemma_extras_grow(views, i + 1);
                }
                return Err(e);
            },
        }
        i += 1;
    }
    assert(views.take(blocks@.len() as int) =~= views);
    let g = Function {
        name: f.name.clone(),
        parameters: f.parameters,
        return_type: f.return_type,
        basic_blocks: out,
    };
    Ok(g)
}

/// The cuts in a prefix of the blocks are among the cuts in all of them.
pub proof fn lemma_extras_grow(blocks: Seq<BlockView>, k: int)
    requires
        0 <= k <= blocks.len(),
    ensures
        extras(blocks.take(k)) <= extras(blocks),
    decreases blocks.len() - k,
{
    if k < blocks.len() {
        assert(blocks.take(k + 1).drop_last() =~= blocks.take(k));
        lemma_extras_grow(blocks, k + 1);
    } else {
        assert(blocks.take(k) =~= blocks);
    }
}

proof fn lemma_push_function(functions: Seq<Function>, f: Function)
    ensures
        function_views(functions.push(f)) == function_views(functions).push(f@),
{
    assert(function_views(functions.push(f)) =~= function_views(functions).push(f@));
}

/// Cuts every block of the module behind each call that is not already the
/// last instruction in front of an unconditional branch. The instructions
/// behind the call move to a new block, named one past the largest name in
/// the function, which takes over the old terminator; the old block branches
/// to it. Where a new name would not fit, nothing is changed.
pub fn calls_terminate_blocks(module: &mut Module) -> (r: Result<(), CompileError>)
    ensures
        match r {
            Ok(_) => split_module_fits(old(module)@) && final(module)@ == split_module(
                old(module)@,
            ),
            Err(e) => e == CompileError::NameOverflow && !split_module_fits(old(module)@)
                && *final(module) == *old(module),
        },
{
    let mut functions: Vec<Function> = Vec::new();
    let mut i: usize = 0;
    let ghost views = module@.functions;
    while i < module.functions.len()
        invariant
            i <= module.functions.len(),
            *module == *old(module),
            views == module@.functions,
            functions.len() == i,
            forall|k: int| 0 <= k < i ==> split_fits(#[trigger] views[k]),
            forall|k: int|
                0 <= k < i ==> (#[trigger] function_views(functions@)[k]) == split_function(
                    views[k],
                ),
        decreases module.functions.len() - i,
    {
        match split_blocks_of(&module.functions[i]) {
            Ok(g) => {
                proof {
                    lemma_push_function(functions@, g);
                }
                functions.push(g);
            },
            Err(e) => {
                assert(!split_fits(views[i as int]));
                return Err(e);
            },
        }
        i += 1;
    }
    module.functions = functions;
    assert(module@.functions =~= split_module(old(module)@).functions);
    Ok(())
}

fn guard_entry(f: &Function) -> (r: Result<Function, CompileError>)
    ensures
        match r {
            Ok(g) => guard_fits(f@) && g@ == guard_function(f@),
            Err(e) => e == CompileError::NameOverflow && !guard_fits(f@),
        },
{
    let blocks = &f.basic_blocks;
    let mut out: Vec<BasicBlock> = Vec::new();
    assert(block_views(out@) =~= Seq::<BlockView>::empty());
    if blocks.len() > 0 {
        assert(blocks@[0]@.instrs.skip(0) =~= blocks@[0]@.instrs);
        if find_call(&blocks[0].instrs, 0) < blocks[0].instrs.len() {
            let top = largest_name(blocks);
            if top == usize::MAX {
                return Err(CompileError::NameOverflow);
            }
            let entry = BasicBlock {
                name: top + 1,
                instrs: Vec::new(),
                term: branch_to(blocks[0].name),
            };
            proof {
                assert(entry@.instrs =~= Seq::<InstrView>::empty());
                lemma_push_block(out@, entry);
            }
            out.push(entry);
        }
    }
    let ghost front = block_views(out@);
    let mut i: usize = 0;
    assert(front + block_views(blocks@).take(0) =~= front);
    while i < blocks.len()
        invariant
            i <= blocks.len(),
            block_views(out@) == front + block_views(blocks@).take(i as int),
        decreases blocks.len() - i,
    {
        let b = blocks[i].dup();
        proof {
            lemma_push_block(out@, b);
            assert((front + block_views(blocks@).take(i as int)).push(b@) =~= front + block_views(
                blocks@,
            ).take(i + 1));
        }
        out.push(b);
        i += 1;
    }
    assert(block_views(blocks@).take(blocks@.len() as int) =~= block_views(blocks@));
    assert(Seq::<BlockView>::empty() + block_views(blocks@) =~= block_views(blocks@));
    Ok(
        Function {
            name: f.name.clone(),
            parameters: f.parameters,
            return_type: f.return_type,
            basic_blocks: out,
        },
    )
}

/// Puts an empty block, which only branches to the old entry block, in front
/// of every function whose entry block holds a call. The new block is named
/// one past the largest name in the function. Where that name would not fit,
/// nothing is changed.
pub fn calls_never_in_first_block(module: &mut Module) -> (r: Result<(), CompileError>)
    ensures
        match r {
            Ok(_) => guard_module_fits(old(module)@) && final(module)@ == guard_module(
                old(module)@,
            ),
            Err(e) => e == CompileError::NameOverflow && !guard_module_fits(old(module)@)
                && *final(module) == *old(module),
        },
{
    let mut functions: Vec<Function> = Vec::new();
    let mut i: usize = 0;
    let ghost views = module@.functions;
    while i < module.functions.len()
        invariant
            i <= module.functions.len(),
            *module == *old(module),
            views == module@.functions,
            functions.len() == i,
            forall|k: int| 0 <= k < i ==> guard_fits(#[trigger] views[k]),
            forall|k: int|
                0 <= k < i ==> (#[trigger] function_views(functions@)[k]) == guard_function(
                    views[k],
                ),
        decreases module.functions.len() - i,
    {
        match guard_entry(&module.functions[i]) {
            Ok(g) => {
                proof {
                    lemma_push_function(functions@, g);
                }
                functions.push(g);
            },
            Err(e) => {
                assert(!guard_fits(views[i as int]));
                return Err(e);
            },
        }
        i += 1;
    }
    module.functions = functions;
    assert(module@.functions =~= guard_module(old(module)@).functions);
    Ok(())
}

/// After both passes every call ends its block in front of an unconditional
/// branch, and no entry block holds a call.
pub proof fn lemma_normalized(m: ModuleView)
    ensures
        normalized(guard_module(split_module(m))),
{
    let done = guard_module(split_module(m));
    assert forall|i: int| 0 <= i < done.functions.len() implies all_settled(
        (#[trigger] done.functions[i]).blocks,
    ) && !needs_guard(done.functions[i]) by {
        let f = m.functions[i];
        let cut = split_function(f);
        let g = guard_function(cut);
        assert(done.functions[i] == g);
        lemma_split_blocks_settled(f.blocks, max_name(f.blocks) + 1);
        if needs_guard(cut) {
            let entry = guard_block(max_name(cut.blocks) + 1, cut.blocks[0].name);
            assert(settled(entry));
            assert forall|k: int| 0 <= k < g.blocks.len() implies settled(#[trigger] g.blocks[k]) by {
                if k > 0 {
                    assert(g.blocks[k] == cut.blocks[k - 1]);
                }
            }
            assert(g.blocks[0] == entry);
        }
    }
}

} // verus!
