use bfcc::emit::{compile, find_block, find_function, uncop, unlop};
use bfcc::ir::{
    BasicBlock, Call, Callee, CompileError, Function, InstrKind, Instruction, Module, Operand, Pred,
    TermKind, Terminator, Ty,
};
use bfcc::layout::{gotoblock, gotofunc, gotoreg, plan_function, plan_width, Layout};
use bfcc::text::bfsan;

fn instr(kind: InstrKind) -> Instruction {
    Instruction { kind, text: "instr".to_string() }
}

fn ret() -> Terminator {
    Terminator { kind: TermKind::Ret, text: "ret void".to_string() }
}

fn term(kind: TermKind) -> Terminator {
    Terminator { kind, text: "term".to_string() }
}

fn function(name: &str, blocks: Vec<BasicBlock>) -> Function {
    Function { name: name.to_string(), parameters: 0, return_type: Ty::Int(32), basic_blocks: blocks }
}

fn main_of(instrs: Vec<Instruction>, t: Terminator) -> Module {
    Module { functions: vec![function("main", vec![BasicBlock { name: 0, instrs, term: t }])] }
}

fn call(callee: Callee, args: Vec<Operand>, dest: Option<usize>) -> Instruction {
    instr(InstrKind::Call(Call { callee, args, dest }))
}

#[test]
fn commas_become_underscores() {
    assert_eq!(bfsan("store i8 65, i8* %1, align 1".to_string()), "store i8 65_ i8* %1_ align 1");
    assert_eq!(bfsan("no comma".to_string()), "no comma");
    assert_eq!(bfsan(",,".to_string()), "__");
    assert_eq!(bfsan(String::new()), "");
}

#[test]
fn operands() {
    assert_eq!(unlop(&Operand::Local(7)), Ok(7));
    assert_eq!(unlop(&Operand::Const(7)), Err(CompileError::UnsupportedOperand));
    assert_eq!(unlop(&Operand::Other), Err(CompileError::UnsupportedOperand));
    assert_eq!(uncop(&Operand::Const(0)), Ok(0));
    assert_eq!(uncop(&Operand::Const(255)), Ok(255));
    assert_eq!(uncop(&Operand::Const(256)), Err(CompileError::UnsupportedOperand));
    assert_eq!(uncop(&Operand::Local(1)), Err(CompileError::UnsupportedOperand));
    assert_eq!(uncop(&Operand::Other), Err(CompileError::UnsupportedOperand));
}

#[test]
fn head_motion_frames_the_body() {
    let mut out = String::from("x");
    gotofunc(&mut out, 1, 2, "body\n");
    assert_eq!(out, "x\t>>>\nbody\n\t<<<\n");
    let mut out = String::new();
    gotoblock(&mut out, 0, 1, 3, "b\n");
    assert_eq!(out, ">>>>>\nb\n<<<<<\n");
    let mut out = String::new();
    gotoreg(&mut out, 2, 4, 2, 3, "");
    assert_eq!(out, "\t\t>>>>>>>>>>\n\t\t<<<<<<<<<<\n");
    let mut out = String::new();
    gotoreg(&mut out, 0, 0, 0, 0, "r");
    assert_eq!(out, ">\nr<\n");
}

#[test]
fn lookups_find_the_last_of_a_name() {
    let f = function(
        "f",
        vec![
            BasicBlock { name: 4, instrs: vec![], term: ret() },
            BasicBlock { name: 9, instrs: vec![], term: ret() },
            BasicBlock { name: 4, instrs: vec![], term: ret() },
        ],
    );
    assert_eq!(find_block(&f, 9), Some(1));
    assert_eq!(find_block(&f, 4), Some(2));
    assert_eq!(find_block(&f, 0), None);
    let m = Module { functions: vec![function("a", vec![]), function("b", vec![]), function("a", vec![])] };
    assert_eq!(find_function(&m, &"a".to_string()), Some(2));
    assert_eq!(find_function(&m, &"b".to_string()), Some(1));
    assert_eq!(find_function(&m, &"main".to_string()), None);
}

#[test]
fn the_frame_holds_flags_registers_and_scratch() {
    // one function with one block and registers 0 to 5: 1 + 1 + (1 + 6 + 8)
    let m = main_of(vec![instr(InstrKind::Alloca { ty: Ty::Int(8), dest: 5 })], ret());
    assert_eq!(plan_width(&m), Some(17));
    assert_eq!(plan_function(&m, 0, 17), Layout { funcns: 1, blockns: 1, scratch: 6, width: 17 });
    // no register at all
    assert_eq!(plan_width(&main_of(vec![], ret())), Some(11));
    // the widest function decides
    let m = Module {
        functions: vec![
            function("f", vec![BasicBlock { name: 0, instrs: vec![], term: ret() }]),
            function(
                "main",
                vec![
                    BasicBlock {
                        name: 0,
                        instrs: vec![instr(InstrKind::Load { addr: Operand::Local(9), dest: 2 })],
                        term: term(TermKind::CondBr {
                            cond: Operand::Local(11),
                            true_dest: 0,
                            false_dest: 1,
                        }),
                    },
                    BasicBlock { name: 1, instrs: vec![], term: ret() },
                ],
            ),
        ],
    };
    assert_eq!(plan_width(&m), Some(1 + 2 + (2 + 12 + 8)));
    assert_eq!(plan_function(&m, 0, 25), Layout { funcns: 2, blockns: 1, scratch: 0, width: 25 });
    assert_eq!(plan_function(&m, 1, 25), Layout { funcns: 2, blockns: 2, scratch: 12, width: 25 });
    // an empty module still has the entry flag
    assert_eq!(plan_width(&Module { functions: vec![] }), Some(1));
    // the tape is the limit
    let m = main_of(vec![instr(InstrKind::Alloca { ty: Ty::Int(8), dest: 9988 })], ret());
    assert_eq!(plan_width(&m), Some(10000));
    let m = main_of(vec![instr(InstrKind::Alloca { ty: Ty::Int(8), dest: 9989 })], ret());
    assert_eq!(plan_width(&m), None);
    let m = main_of(vec![instr(InstrKind::Alloca { ty: Ty::Int(8), dest: usize::MAX })], ret());
    assert_eq!(plan_width(&m), None);
}

#[test]
fn the_smallest_program() {
    let text = compile(main_of(vec![], ret())).unwrap();
    assert_eq!(
        text,
        concat_lines(&[
            ">>>>>>>>>>> first frame",
            "runtime init: ",
            "+ #__FRAME__ENTRY__",
            ">",
            "+ call #main",
            "<",
            ">>",
            "+ at #main/b0",
            "<<",
            "",
            "[",
            ">",
            "#main [",
            "<",
            "\t>>",
            "t#main/0 [-",
            "\t<<",
            "\t\tE ret void",
            "\t\t- #ded_func_main",
            "\t\t>",
            "\t\t- uncall func main",
            "\t\t<",
            "\t\t<<<<<<<<<<< prev frame",
            "\t>>",
            "\t] b0",
            "\t<<",
            ">",
            "] main",
            "<",
            "]",
        ])
    );
}

fn concat_lines(lines: &[&str]) -> String {
    let mut out = String::new();
    for l in lines {
        out.push_str(l);
        out.push('\n');
    }
    out
}

#[test]
fn a_store_of_a_constant() {
    let m = main_of(
        vec![
            Instruction {
                kind: InstrKind::Alloca { ty: Ty::Int(8), dest: 1 },
                text: "%1 = alloca i8, align 1".to_string(),
            },
            Instruction {
                kind: InstrKind::Store { value: Operand::Const(3), addr: Operand::Local(1) },
                text: "store i8 3, i8* %1, align 1".to_string(),
            },
        ],
        ret(),
    );
    let text = compile(m).unwrap();
    // registers start behind the entry flag, one function flag and one block flag
    let expected = concat_lines(&[
        "\t\t%1 = alloca i8_ align 1",
        "\t\t>>>>",
        "\t\t#alloca_%1",
        "\t\t<<<<",
        "\t\tstore i8 3_ i8* %1_ align 1",
        "\t\t>>>>",
        "\t\t[-]+++",
        "\t\t<<<<",
        "\t\tE ret void",
    ]);
    assert!(text.contains(&expected), "{}", text);
    // 1 + 1 + (1 + 2 + 8) cells to a frame
    assert!(text.starts_with(">>>>>>>>>>>>> first frame\n"));
}

#[test]
fn a_call_arms_the_next_block_and_enters_a_frame() {
    let m = Module {
        functions: vec![
            function("p", vec![BasicBlock { name: 0, instrs: vec![], term: ret() }]),
            function(
                "main",
                vec![BasicBlock {
                    name: 0,
                    instrs: vec![call(Callee::Named("p".to_string()), vec![], None)],
                    term: ret(),
                }],
            ),
        ],
    };
    // main becomes: entry 2 -> 0: call p -> 1: ret; the frame is 1 + 2 + (3 + 0 + 8) wide
    let text = compile(m).unwrap();
    let expected = concat_lines(&[
        "\t\tinstr",
        "\t\t>>>>>",
        "\t\t+ enable next #main/1",
        "\t\t<<<<<",
        "\t\t>>>>>>>>>>>>>> next frame",
        "\t\t+ #__FRAME_p__",
        "\t\t>",
        "\t\t+ call func #p",
        "\t\t<",
        "\t\t>>>",
        "\t\t+ #p/b0",
        "\t\t<<<",
        "\t>>>>",
        "\t] b0",
        "\t<<<<",
    ]);
    assert!(text.contains(&expected), "{}", text);
    assert!(text.contains("t#main/2 [-\n\t<<<\n\t\tE br label %0\n"), "{}", text);
    assert!(text.contains(">>\n+ call #main\n<<\n"), "{}", text);
}

#[test]
fn no_main() {
    let m = Module { functions: vec![function("f", vec![])] };
    assert_eq!(compile(m), Err(CompileError::NoMain));
    assert_eq!(compile(Module { functions: vec![] }), Err(CompileError::NoMain));
    // looked for before the instructions are
    let m = Module {
        functions: vec![function(
            "f",
            vec![BasicBlock { name: 0, instrs: vec![instr(InstrKind::Other)], term: ret() }],
        )],
    };
    assert_eq!(compile(m), Err(CompileError::NoMain));
}

#[test]
fn frame_too_wide() {
    let m = main_of(vec![instr(InstrKind::Alloca { ty: Ty::Int(8), dest: 20000 })], ret());
    assert_eq!(compile(m), Err(CompileError::FrameTooWide));
}

#[test]
fn name_overflow() {
    let m = Module {
        functions: vec![function(
            "main",
            vec![BasicBlock {
                name: usize::MAX,
                instrs: vec![call(Callee::Named("putchar".to_string()), vec![Operand::Const(1)], None)],
                term: ret(),
            }],
        )],
    };
    assert_eq!(compile(m), Err(CompileError::NameOverflow));
}

#[test]
fn unsupported_instruction() {
    assert_eq!(
        compile(main_of(vec![instr(InstrKind::Other)], ret())),
        Err(CompileError::UnsupportedInstruction)
    );
}

#[test]
fn unsupported_type() {
    assert_eq!(
        compile(main_of(vec![instr(InstrKind::Alloca { ty: Ty::Int(32), dest: 1 })], ret())),
        Err(CompileError::UnsupportedType)
    );
    assert_eq!(
        compile(main_of(vec![instr(InstrKind::Alloca { ty: Ty::Other, dest: 1 })], ret())),
        Err(CompileError::UnsupportedType)
    );
}

#[test]
fn unsupported_operand() {
    let store = |value, addr| main_of(vec![instr(InstrKind::Store { value, addr })], ret());
    assert_eq!(
        compile(store(Operand::Const(256), Operand::Local(1))),
        Err(CompileError::UnsupportedOperand)
    );
    assert_eq!(
        compile(store(Operand::Const(1), Operand::Const(1))),
        Err(CompileError::UnsupportedOperand)
    );
    assert_eq!(
        compile(store(Operand::Other, Operand::Local(1))),
        Err(CompileError::UnsupportedOperand)
    );
    assert!(compile(store(Operand::Const(255), Operand::Local(1))).is_ok());
    let load = main_of(vec![instr(InstrKind::Load { addr: Operand::Const(1), dest: 2 })], ret());
    assert_eq!(compile(load), Err(CompileError::UnsupportedOperand));
    let add = |op0, op1| main_of(vec![instr(InstrKind::Add { op0, op1, dest: 3 })], ret());
    assert_eq!(
        compile(add(Operand::Local(1), Operand::Local(2))),
        Err(CompileError::UnsupportedOperand)
    );
    assert_eq!(
        compile(add(Operand::Const(1), Operand::Const(2))),
        Err(CompileError::UnsupportedOperand)
    );
    assert!(compile(add(Operand::Local(1), Operand::Const(2))).is_ok());
    let cond = main_of(
        vec![],
        term(TermKind::CondBr { cond: Operand::Const(1), true_dest: 0, false_dest: 0 }),
    );
    assert_eq!(compile(cond), Err(CompileError::UnsupportedOperand));
}

#[test]
fn unsupported_predicate() {
    let cmp = |pred| {
        main_of(
            vec![instr(InstrKind::ICmp {
                pred,
                op0: Operand::Local(1),
                op1: Operand::Const(2),
                dest: 3,
            })],
            ret(),
        )
    };
    assert_eq!(compile(cmp(Pred::Equal)), Err(CompileError::UnsupportedPredicate));
    assert_eq!(compile(cmp(Pred::NotEqual)), Err(CompileError::UnsupportedPredicate));
    assert_eq!(compile(cmp(Pred::Other)), Err(CompileError::UnsupportedPredicate));
    assert!(compile(cmp(Pred::SignedLess)).is_ok());
}

#[test]
fn unsupported_terminator() {
    assert_eq!(
        compile(main_of(vec![], term(TermKind::Other))),
        Err(CompileError::UnsupportedTerminator)
    );
}

#[test]
fn unsupported_callee() {
    assert_eq!(
        compile(main_of(vec![call(Callee::Other, vec![], None)], ret())),
        Err(CompileError::UnsupportedCallee)
    );
}

#[test]
fn unknown_function() {
    assert_eq!(
        compile(main_of(vec![call(Callee::Named("getchar".to_string()), vec![], Some(1))], ret())),
        Err(CompileError::UnknownFunction)
    );
}

#[test]
fn unknown_block() {
    assert_eq!(
        compile(main_of(vec![], term(TermKind::Br { dest: 7 }))),
        Err(CompileError::UnknownBlock)
    );
    assert_eq!(
        compile(main_of(
            vec![],
            term(TermKind::CondBr { cond: Operand::Local(1), true_dest: 0, false_dest: 7 })
        )),
        Err(CompileError::UnknownBlock)
    );
}

#[test]
fn bad_putchar() {
    let putchar = |args, dest| main_of(vec![call(Callee::Named("putchar".to_string()), args, dest)], ret());
    assert_eq!(compile(putchar(vec![], None)), Err(CompileError::BadPutchar));
    assert_eq!(
        compile(putchar(vec![Operand::Const(1), Operand::Const(2)], None)),
        Err(CompileError::BadPutchar)
    );
    assert_eq!(compile(putchar(vec![Operand::Const(1)], Some(3))), Err(CompileError::BadPutchar));
    assert_eq!(
        compile(putchar(vec![Operand::Local(1)], None)),
        Err(CompileError::UnsupportedOperand)
    );
    assert!(compile(putchar(vec![Operand::Const(1)], None)).is_ok());
}
