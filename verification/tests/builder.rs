use bfcc::builder::{gen_func, ppmod, Block, BuildFunc, Cell, CellFrom, RegMap};
use bfcc::ir::{
    BasicBlock, CompileError, Function, InstrKind, Instruction, Module, Operand, TermKind,
    Terminator, Ty,
};
use bfcc::tape::Op;

fn alloca(dest: usize) -> Instruction {
    Instruction {
        kind: InstrKind::Alloca { ty: Ty::Int(8), dest },
        text: format!("%{} = alloca i8", dest),
    }
}

fn store(value: Operand, addr: Operand) -> Instruction {
    Instruction { kind: InstrKind::Store { value, addr }, text: "store".to_string() }
}

fn ret() -> Terminator {
    Terminator { kind: TermKind::Ret, text: "ret void".to_string() }
}

fn block(name: usize, instrs: Vec<Instruction>) -> BasicBlock {
    BasicBlock { name, instrs, term: ret() }
}

fn function(blocks: Vec<BasicBlock>) -> Function {
    Function { name: "main".to_string(), parameters: 2, return_type: Ty::Int(32), basic_blocks: blocks }
}

fn addresses(m: &RegMap) -> Vec<usize> {
    m.0.iter().map(|c| c.address).collect()
}

#[test]
fn cells_are_handed_out_in_order() {
    let mut m = RegMap::empty();
    assert_eq!(m.for_block().unwrap().address, 0);
    assert_eq!(m.for_alloc().unwrap().address, 1);
    assert_eq!(m.new_tmp().unwrap().address, 2);
    assert_eq!(m.for_inst(alloca(1)).unwrap().address, 3);
    assert_eq!(m.new(CellFrom::Block).unwrap().address, 4);
    assert_eq!(addresses(&m), vec![0, 1, 2, 3, 4]);
    assert!(m.0[2].from.is_none());
    assert!(matches!(m.0[1].from, Some(CellFrom::Alloc)));
    assert!(matches!(m.0[0].from, Some(CellFrom::Block)));
}

#[test]
fn the_next_cell_lies_behind_the_last() {
    let mut m = RegMap::empty();
    for _ in 0..4 {
        m.new_tmp().unwrap();
    }
    m.discard(Cell { address: 1, from: None });
    assert_eq!(addresses(&m), vec![0, 2, 3]);
    assert_eq!(m.new_tmp().unwrap().address, 4);
    m.discard(Cell { address: 4, from: None });
    m.discard(Cell { address: 3, from: None });
    assert_eq!(m.new_tmp().unwrap().address, 3);
    assert_eq!(addresses(&m), vec![0, 2, 3]);
}

#[test]
fn the_map_ends_with_the_tape() {
    let mut m = RegMap(vec![Cell { address: 9998, from: None }]);
    assert_eq!(m.new_tmp().unwrap().address, 9999);
    assert_eq!(m.new_tmp().unwrap_err(), CompileError::FrameTooWide);
    assert_eq!(m.for_block().unwrap_err(), CompileError::FrameTooWide);
    assert_eq!(addresses(&m), vec![9998, 9999]);
}

#[test]
fn a_cell_is_found_by_its_instruction() {
    let mut m = RegMap::empty();
    m.for_block().unwrap();
    m.for_inst(alloca(1)).unwrap();
    m.for_inst(alloca(2)).unwrap();
    m.for_inst(alloca(1)).unwrap();
    assert_eq!(m.from_inst(&alloca(2)).unwrap().address, 2);
    assert_eq!(m.from_inst(&alloca(1)).unwrap().address, 1);
    assert!(m.from_inst(&alloca(3)).is_none());
}

#[test]
fn block_loops() {
    let b = Block { address: 2, ops: vec![], bblock: block(0, vec![]) };
    assert_eq!(b.print_begin(), ">>[[-]<<");
    assert_eq!(b.print_end(), ">>]<<");
    assert_eq!(b.pretty_print_begin(), "check clear #2 >>[[-]<<");
    assert_eq!(b.pretty_print_end(), "check #2       >>]<<");
    let b = Block { address: 12, ops: vec![], bblock: block(0, vec![]) };
    assert_eq!(b.pretty_print_begin(), format!("check clear #12{}[[-]{}", ">".repeat(12), "<".repeat(12)));
}

#[test]
fn a_function_is_built() {
    let f = function(vec![
        block(0, vec![alloca(1), store(Operand::Const(65), Operand::Const(5))]),
        block(1, vec![store(Operand::Local(1), Operand::Const(6))]),
    ]);
    let built = gen_func(&f).unwrap();
    // four station cells, the function's flag, two block flags, storage and pointer
    assert_eq!(addresses(&built.rmap), vec![0, 1, 2, 3, 4, 5, 6, 7, 8]);
    assert_eq!(built.address, 4);
    assert_eq!(built.cblock, 1);
    assert_eq!(
        built.prelude,
        vec![
            Op::StoreImm(0, 0),
            Op::StoreImm(0, 1),
            Op::StoreImm(0, 2),
            Op::StoreImm(0, 3),
            Op::StoreImm(1, 4),
            Op::StoreImm(1, 5),
            Op::StoreImm(0, 6),
        ]
    );
    assert_eq!(built.blocks.len(), 2);
    assert_eq!(built.blocks[0].address, 5);
    assert_eq!(
        built.blocks[0].ops,
        vec![Op::StoreAddr(7, 8), Op::StoreImm(65, 9), Op::StoreInd(9, 5)]
    );
    assert_eq!(built.blocks[1].address, 6);
    assert_eq!(built.blocks[1].ops, Vec::<Op>::new());
    assert!(built.block_from_bblock(&f.basic_blocks[1]).unwrap().address == 6);
    assert!(built.block_from_bblock(&block(9, vec![])).is_none());
    assert_eq!(built.getblock().address, 6);
    let log = &built.log;
    assert!(log.starts_with("pointer train station\nstore 0 at #0       [-]\n"), "{}", log);
    assert!(
        log.contains(
            "=== func prelude ============\ndo func\nstore 1 at #4       >>>>[-]+<<<<\ndo block\n"
        ),
        "{}",
        log
    );
    assert!(
        log.contains(
            "skip block\nstore 0 at #6       >>>>>>[-]<<<<<<\n>>>>[<<<< ; begin func block\n\n"
        ),
        "{}",
        log
    );
    assert!(log.contains(&format!("=== store ===================\n{}\n", Op::StoreImm(65, 9).pretty_print())));
    assert!(log.contains("=== begin block #5 =========\ncheck clear #5 >>>>>[[-]<<<<<\n=== %1 = alloca i8 ===================\n"), "{}", log);
    assert!(log.contains("=== end block #6 ===========\ncheck #6       >>>>>>]<<<<<<\n\n>>>>]<<<< ; end func block\n"), "{}", log);
    assert!(log.ends_with(" ; end func block\n"));
}

#[test]
fn a_function_that_the_builder_refuses() {
    let other = Instruction { kind: InstrKind::Other, text: "x".to_string() };
    assert_eq!(gen_func(&function(vec![block(0, vec![other])])).unwrap_err(), CompileError::UnsupportedInstruction);
    let wide = Instruction { kind: InstrKind::Alloca { ty: Ty::Int(32), dest: 1 }, text: "x".to_string() };
    assert_eq!(gen_func(&function(vec![block(0, vec![wide])])).unwrap_err(), CompileError::UnsupportedType);
    let f = function(vec![block(0, vec![store(Operand::Const(256), Operand::Const(5))])]);
    assert_eq!(gen_func(&f).unwrap_err(), CompileError::UnsupportedOperand);
    let f = function(vec![block(0, vec![store(Operand::Const(1), Operand::Local(5))])]);
    assert_eq!(gen_func(&f).unwrap_err(), CompileError::UnsupportedOperand);
    let f = function(vec![block(0, vec![store(Operand::Other, Operand::Const(5))])]);
    assert_eq!(gen_func(&f).unwrap_err(), CompileError::UnsupportedOperand);
    let many: Vec<BasicBlock> = (0..10000).map(|i| block(i, vec![])).collect();
    assert_eq!(gen_func(&function(many)).unwrap_err(), CompileError::FrameTooWide);
}

#[test]
fn templates_are_written_for_the_current_block() {
    let mut b: BuildFunc = gen_func(&function(vec![block(0, vec![]), block(1, vec![])])).unwrap();
    b.setblock(0);
    b.pushop(Op::Move(1, 2));
    b.setblock(1);
    b.pushop(Op::ClearImm(3));
    b.pushprelude(Op::Branch(5));
    assert_eq!(b.blocks[0].ops, vec![Op::Move(1, 2)]);
    assert_eq!(b.blocks[1].ops, vec![Op::ClearImm(3)]);
    assert_eq!(b.prelude.last(), Some(&Op::Branch(5)));
    assert!(b.log.ends_with(
        "move #1 to #2       >[->+<]<\nclear #3            >>>[-]<<<\ndo block #5         >>>>>[-]+<<<<<\n"
    ));
}

#[test]
fn a_module_is_listed() {
    let m = Module {
        functions: vec![
            function(vec![block(0, vec![alloca(1), alloca(2)]), block(3, vec![])]),
            Function {
                name: "p".to_string(),
                parameters: 0,
                return_type: Ty::Other,
                basic_blocks: vec![],
            },
        ],
    };
    assert_eq!(
        ppmod(&m),
        "main 2\n\t0:\n\t\t%1 = alloca i8\n\t\t%2 = alloca i8\n\t\t<- ret void\n\t3:\n\t\t<- ret void\np 0\n"
    );
    assert_eq!(ppmod(&Module { functions: vec![] }), "");
}
