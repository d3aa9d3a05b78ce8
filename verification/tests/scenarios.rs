use bfcc::emit::compile;
use bfcc::interp::{exec, InterpErr};
use bfcc::ir::{
    BasicBlock, Call, Callee, Function, InstrKind, Instruction, Module, Operand, Pred, TermKind,
    Terminator, Ty,
};

fn instr(kind: InstrKind, text: &str) -> Instruction {
    Instruction { kind, text: text.to_string() }
}

fn putchar(v: u64) -> Instruction {
    instr(
        InstrKind::Call(Call {
            callee: Callee::Named("putchar".to_string()),
            args: vec![Operand::Const(v)],
            dest: None,
        }),
        "call putchar",
    )
}

fn call(name: &str) -> Instruction {
    instr(
        InstrKind::Call(Call { callee: Callee::Named(name.to_string()), args: vec![], dest: None }),
        "call",
    )
}

fn alloca(dest: usize) -> Instruction {
    instr(InstrKind::Alloca { ty: Ty::Int(8), dest }, "alloca i8")
}

fn store_const(v: u64, addr: usize) -> Instruction {
    instr(InstrKind::Store { value: Operand::Const(v), addr: Operand::Local(addr) }, "store")
}

fn store_local(v: usize, addr: usize) -> Instruction {
    instr(InstrKind::Store { value: Operand::Local(v), addr: Operand::Local(addr) }, "store")
}

fn load(addr: usize, dest: usize) -> Instruction {
    instr(InstrKind::Load { addr: Operand::Local(addr), dest }, "load")
}

fn add(op0: usize, c: u64, dest: usize) -> Instruction {
    instr(InstrKind::Add { op0: Operand::Local(op0), op1: Operand::Const(c), dest }, "add")
}

fn less(op0: usize, c: u64, dest: usize) -> Instruction {
    instr(
        InstrKind::ICmp {
            pred: Pred::SignedLess,
            op0: Operand::Local(op0),
            op1: Operand::Const(c),
            dest,
        },
        "icmp slt",
    )
}

fn term(kind: TermKind) -> Terminator {
    Terminator { kind, text: "term".to_string() }
}

fn block(name: usize, instrs: Vec<Instruction>, kind: TermKind) -> BasicBlock {
    BasicBlock { name, instrs, term: term(kind) }
}

fn function(name: &str, blocks: Vec<BasicBlock>) -> Function {
    Function { name: name.to_string(), parameters: 0, return_type: Ty::Int(32), basic_blocks: blocks }
}

fn run(module: Module) -> String {
    let code = compile(module).unwrap();
    let ops = bfcc::interp::compile(&code).unwrap();
    exec(ops).unwrap().output
}

#[test]
fn hello_const() {
    let m = Module {
        functions: vec![function("main", vec![block(0, vec![putchar(72), putchar(105)], TermKind::Ret)])],
    };
    assert_eq!(run(m), "Hi");
}

#[test]
fn alloca_store_load() {
    let m = Module {
        functions: vec![function(
            "main",
            vec![block(
                0,
                vec![
                    alloca(1),
                    store_const(65, 1),
                    load(1, 2),
                    store_const(0, 1),
                    store_local(2, 1),
                    putchar(65),
                    store_const(0, 1),
                ],
                TermKind::Ret,
            )],
        )],
    };
    assert_eq!(run(m), "A");
}

#[test]
fn add_const() {
    let m = Module {
        functions: vec![function(
            "main",
            vec![block(
                0,
                vec![
                    alloca(1),
                    store_const(1, 1),
                    load(1, 2),
                    add(2, 64, 3),
                    store_local(3, 1),
                    putchar(65),
                    store_const(0, 1),
                ],
                TermKind::Ret,
            )],
        )],
    };
    assert_eq!(run(m), "A");
}

fn compare(value: u64, bound: u64) -> Module {
    Module {
        functions: vec![function(
            "main",
            vec![
                block(
                    0,
                    vec![
                        alloca(1),
                        store_const(value, 1),
                        load(1, 2),
                        store_const(0, 1),
                        less(2, bound, 3),
                        store_const(0, 2),
                    ],
                    TermKind::CondBr { cond: Operand::Local(3), true_dest: 1, false_dest: 2 },
                ),
                block(1, vec![putchar(89)], TermKind::Br { dest: 3 }),
                block(2, vec![putchar(78)], TermKind::Br { dest: 3 }),
                block(3, vec![], TermKind::Ret),
            ],
        )],
    }
}

fn branch_on(value: u64) -> Module {
    compare(value, 2)
}

#[test]
fn less_than_holds_below_the_constant() {
    assert_eq!(run(compare(0, 1)), "Y");
    assert_eq!(run(compare(4, 5)), "Y");
    assert_eq!(run(compare(254, 255)), "Y");
}

#[test]
fn less_than_does_not_hold_of_equal_values() {
    assert_eq!(run(compare(0, 0)), "N");
    assert_eq!(run(compare(5, 5)), "N");
    assert_eq!(run(compare(255, 255)), "N");
}

#[test]
fn less_than_does_not_hold_above_the_constant() {
    assert_eq!(run(compare(1, 0)), "N");
    assert_eq!(run(compare(200, 3)), "N");
}

#[test]
fn branch_true() {
    assert_eq!(run(branch_on(1)), "Y");
}

#[test]
fn branch_false() {
    assert_eq!(run(branch_on(5)), "N");
}

#[test]
fn call_returns() {
    let m = Module {
        functions: vec![
            function("p", vec![block(0, vec![putchar(66)], TermKind::Ret)]),
            function(
                "main",
                vec![block(0, vec![putchar(65), call("p"), putchar(67)], TermKind::Ret)],
            ),
        ],
    };
    assert_eq!(run(m), "ABC");
}

#[test]
fn slt_loop_countdown() {
    let m = Module {
        functions: vec![function(
            "main",
            vec![
                block(0, vec![alloca(1), store_const(0, 1)], TermKind::Br { dest: 1 }),
                block(
                    1,
                    vec![load(1, 2), less(2, 3, 3), store_const(0, 2)],
                    TermKind::CondBr { cond: Operand::Local(3), true_dest: 2, false_dest: 3 },
                ),
                block(
                    2,
                    vec![putchar(65), load(1, 4), add(4, 1, 5), store_local(5, 1)],
                    TermKind::Br { dest: 1 },
                ),
                block(3, vec![store_const(0, 1)], TermKind::Ret),
            ],
        )],
    };
    assert_eq!(run(m), "AAA");
}

#[test]
fn left_of_the_tape_is_mem_underflow() {
    let ops = bfcc::interp::compile("<").unwrap();
    assert_eq!(exec(ops).unwrap_err(), InterpErr::MemUnderflow);
}

#[test]
fn cell_incremented_256_times_is_int_overflow() {
    let ops = bfcc::interp::compile(&"+".repeat(256)).unwrap();
    assert_eq!(exec(ops).unwrap_err(), InterpErr::IntOverflow);
}

/// The head of a program that has come to its end stands on the first cell of
/// the tape: one more step to the left leaves the tape.
fn ends_where_it_started(module: Module) {
    let code = compile(module).unwrap();
    let ops = bfcc::interp::compile(&code).unwrap();
    assert!(exec(ops).is_ok());
    let ops = bfcc::interp::compile(&format!("{}<", code)).unwrap();
    assert_eq!(exec(ops).unwrap_err(), InterpErr::MemUnderflow);
    // and the first cell is no live frame's flag
    let ops = bfcc::interp::compile(&format!("{}-", code)).unwrap();
    assert_eq!(exec(ops).unwrap_err(), InterpErr::IntUnderflow);
}

#[test]
fn calls_and_returns_balance() {
    ends_where_it_started(Module {
        functions: vec![
            function("p", vec![block(0, vec![putchar(66)], TermKind::Ret)]),
            function(
                "main",
                vec![block(0, vec![putchar(65), call("p"), call("p"), putchar(67)], TermKind::Ret)],
            ),
        ],
    });
    ends_where_it_started(branch_on(1));
    ends_where_it_started(branch_on(7));
}

#[test]
fn two_calls_in_a_row() {
    let m = Module {
        functions: vec![
            function("p", vec![block(0, vec![putchar(66)], TermKind::Ret)]),
            function(
                "main",
                vec![block(0, vec![putchar(65), call("p"), call("p"), putchar(67)], TermKind::Ret)],
            ),
        ],
    };
    assert_eq!(run(m), "ABBC");
}

#[test]
fn a_return_on_the_block_flag_that_the_caller_armed_is_a_fault() {
    // `q` arms its block of index 2 and calls `p`, which returns from its own
    // block of index 2: the loop of that block finds the flag set and runs
    // the return once more, in the frame of `q`.
    let m = Module {
        functions: vec![
            function("p", vec![block(0, vec![putchar(66)], TermKind::Ret)]),
            function("q", vec![block(0, vec![call("p"), putchar(33)], TermKind::Ret)]),
            function("main", vec![block(0, vec![putchar(65), call("q")], TermKind::Ret)]),
        ],
    };
    let code = compile(m).unwrap();
    let ops = bfcc::interp::compile(&code).unwrap();
    assert_eq!(exec(ops).unwrap_err(), InterpErr::IntUnderflow);
}

#[test]
fn a_register_left_behind_is_a_tape_that_is_not_zero() {
    let m = Module {
        functions: vec![function(
            "main",
            vec![block(0, vec![alloca(1), store_const(1, 1)], TermKind::Ret)],
        )],
    };
    let code = compile(m).unwrap();
    let ops = bfcc::interp::compile(&code).unwrap();
    assert_eq!(exec(ops).unwrap_err(), InterpErr::TapeNotZero);
}

#[test]
fn a_program_that_does_not_end_uses_its_allowance_up() {
    let m = Module {
        functions: vec![function("main", vec![block(0, vec![], TermKind::Br { dest: 0 })])],
    };
    let code = compile(m).unwrap();
    let ops = bfcc::interp::compile(&code).unwrap();
    assert_eq!(bfcc::interp::exec_within(&ops, 100000).unwrap_err(), InterpErr::StepLimit);
}
