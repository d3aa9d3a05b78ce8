use bfcc::ir::{
    branch_to, BasicBlock, Call, Callee, CompileError, Function, InstrKind, Instruction, Module,
    Operand, TermKind, Terminator, Ty,
};
use bfcc::normalize::{calls_never_in_first_block, calls_terminate_blocks};

fn call(name: &str) -> Instruction {
    Instruction {
        kind: InstrKind::Call(Call {
            callee: Callee::Named(name.to_string()),
            args: vec![],
            dest: None,
        }),
        text: format!("call void @{}()", name),
    }
}

fn store(v: u64, addr: usize) -> Instruction {
    Instruction {
        kind: InstrKind::Store { value: Operand::Const(v), addr: Operand::Local(addr) },
        text: format!("store i8 {}, i8* %{}", v, addr),
    }
}

fn ret() -> Terminator {
    Terminator { kind: TermKind::Ret, text: "ret void".to_string() }
}

fn block(name: usize, instrs: Vec<Instruction>, term: Terminator) -> BasicBlock {
    BasicBlock { name, instrs, term }
}

fn module(blocks: Vec<BasicBlock>) -> Module {
    Module {
        functions: vec![Function {
            name: "main".to_string(),
            parameters: 0,
            return_type: Ty::Int(32),
            basic_blocks: blocks,
        }],
    }
}

#[test]
fn a_branch_reads_as_a_branch() {
    let t = branch_to(12);
    assert_eq!(t.kind, TermKind::Br { dest: 12 });
    assert_eq!(t.text, "br label %12");
}

#[test]
fn a_block_is_cut_behind_each_call() {
    let mut m = module(vec![block(0, vec![call("a"), store(1, 2), call("b"), store(3, 4)], ret())]);
    assert_eq!(calls_terminate_blocks(&mut m), Ok(()));
    assert_eq!(
        m,
        module(vec![
            block(0, vec![call("a")], branch_to(1)),
            block(1, vec![store(1, 2), call("b")], branch_to(2)),
            block(2, vec![store(3, 4)], ret()),
        ])
    );
}

#[test]
fn a_call_in_front_of_a_return_gets_a_block_behind_it() {
    let mut m = module(vec![block(4, vec![store(1, 2), call("a")], ret())]);
    assert_eq!(calls_terminate_blocks(&mut m), Ok(()));
    assert_eq!(
        m,
        module(vec![block(4, vec![store(1, 2), call("a")], branch_to(5)), block(5, vec![], ret())])
    );
}

#[test]
fn a_call_in_front_of_a_branch_stays() {
    let before = module(vec![
        block(0, vec![store(1, 2), call("a")], branch_to(1)),
        block(1, vec![], ret()),
    ]);
    let mut m = before.clone();
    assert_eq!(calls_terminate_blocks(&mut m), Ok(()));
    assert_eq!(m, before);
}

#[test]
fn new_blocks_are_named_past_the_largest_name() {
    let mut m = module(vec![
        block(7, vec![call("a"), call("b")], ret()),
        block(3, vec![call("c"), store(1, 1)], branch_to(7)),
    ]);
    assert_eq!(calls_terminate_blocks(&mut m), Ok(()));
    assert_eq!(
        m,
        module(vec![
            block(7, vec![call("a")], branch_to(8)),
            block(8, vec![call("b")], branch_to(9)),
            block(9, vec![], ret()),
            block(3, vec![call("c")], branch_to(10)),
            block(10, vec![store(1, 1)], branch_to(7)),
        ])
    );
}

#[test]
fn splitting_twice_is_splitting_once() {
    let mut once = module(vec![
        block(0, vec![call("a"), store(1, 2), call("b"), store(3, 4)], ret()),
        block(1, vec![call("c")], ret()),
        block(2, vec![], ret()),
    ]);
    assert_eq!(calls_terminate_blocks(&mut once), Ok(()));
    let mut twice = once.clone();
    assert_eq!(calls_terminate_blocks(&mut twice), Ok(()));
    assert_eq!(once, twice);
    assert_eq!(once.functions[0].basic_blocks.len(), 6);
}

#[test]
fn a_module_without_calls_stays() {
    let before = module(vec![block(0, vec![store(1, 2)], ret())]);
    let mut m = before.clone();
    assert_eq!(calls_terminate_blocks(&mut m), Ok(()));
    assert_eq!(m, before);
    assert_eq!(calls_never_in_first_block(&mut m), Ok(()));
    assert_eq!(m, before);
}

#[test]
fn an_entry_block_with_a_call_gets_a_block_in_front() {
    let mut m = module(vec![block(5, vec![call("a")], branch_to(6)), block(6, vec![], ret())]);
    assert_eq!(calls_never_in_first_block(&mut m), Ok(()));
    assert_eq!(
        m,
        module(vec![
            block(7, vec![], branch_to(5)),
            block(5, vec![call("a")], branch_to(6)),
            block(6, vec![], ret()),
        ])
    );
    let once = m.clone();
    assert_eq!(calls_never_in_first_block(&mut m), Ok(()));
    assert_eq!(m, once);
}

#[test]
fn a_call_in_a_later_block_needs_no_block_in_front() {
    let before = module(vec![
        block(0, vec![store(1, 2)], branch_to(1)),
        block(1, vec![call("a")], branch_to(2)),
        block(2, vec![], ret()),
    ]);
    let mut m = before.clone();
    assert_eq!(calls_never_in_first_block(&mut m), Ok(()));
    assert_eq!(m, before);
}

#[test]
fn a_function_without_blocks_stays() {
    let before = module(vec![]);
    let mut m = before.clone();
    assert_eq!(calls_terminate_blocks(&mut m), Ok(()));
    assert_eq!(calls_never_in_first_block(&mut m), Ok(()));
    assert_eq!(m, before);
}

#[test]
fn a_name_beyond_the_largest_number_is_refused() {
    let before = module(vec![block(usize::MAX, vec![call("a"), store(1, 2)], ret())]);
    let mut m = before.clone();
    assert_eq!(calls_terminate_blocks(&mut m), Err(CompileError::NameOverflow));
    assert_eq!(m, before);
    let before = module(vec![block(usize::MAX, vec![call("a")], branch_to(usize::MAX))]);
    let mut m = before.clone();
    assert_eq!(calls_terminate_blocks(&mut m), Ok(()));
    assert_eq!(m, before);
    assert_eq!(calls_never_in_first_block(&mut m), Err(CompileError::NameOverflow));
    assert_eq!(m, before);
    // the second of two cuts does not fit
    let before =
        module(vec![block(usize::MAX - 1, vec![call("a"), call("b"), store(1, 2)], ret())]);
    let mut m = before.clone();
    assert_eq!(calls_terminate_blocks(&mut m), Err(CompileError::NameOverflow));
    assert_eq!(m, before);
}

#[test]
fn copies_and_comparisons() {
    let b = block(0, vec![call("a"), store(1, 2)], ret());
    assert!(b.same(&b.dup()));
    assert_eq!(b, b.dup());
    assert!(!b.same(&block(1, vec![call("a"), store(1, 2)], ret())));
    assert!(!b.same(&block(0, vec![call("a")], ret())));
    assert!(!b.same(&block(0, vec![call("a"), store(1, 3)], ret())));
    assert!(!b.same(&block(0, vec![call("x"), store(1, 2)], ret())));
    assert!(!b.same(&block(0, vec![call("a"), store(1, 2)], branch_to(1))));
    assert!(call("a").is_call());
    assert!(!store(1, 2).is_call());
    assert!(branch_to(1).is_br());
    assert!(!ret().is_br());
}
