use bfcc::interp::{compile, exec, exec_within, COps, InterpErr, SyntaxErr};

fn run(code: &str) -> Result<(String, usize), InterpErr> {
    exec(compile(code).unwrap()).map(|r| (r.output, r.steps))
}

#[test]
fn characters_become_operations() {
    assert_eq!(
        compile("+>-<.,").unwrap(),
        vec![COps::Add(1), COps::Mov(1), COps::Add(-1), COps::Mov(-1), COps::Putchar, COps::Getchar]
    );
}

#[test]
fn other_characters_are_comments() {
    assert_eq!(compile("add one: + done\n").unwrap(), vec![COps::Add(1)]);
}

#[test]
fn empty_text_is_the_empty_program() {
    assert_eq!(compile("").unwrap(), Vec::<COps>::new());
    assert_eq!(compile("no instruction here").unwrap(), Vec::<COps>::new());
    assert_eq!(run("").unwrap(), (String::new(), 0));
}

#[test]
fn adjacent_additions_are_fused() {
    assert_eq!(compile("+++").unwrap(), vec![COps::Add(3)]);
    assert_eq!(compile("+++--").unwrap(), vec![COps::Add(1)]);
    assert_eq!(compile("+-").unwrap(), vec![COps::Add(0)]);
}

#[test]
fn adjacent_moves_are_fused() {
    assert_eq!(compile(">>><").unwrap(), vec![COps::Mov(2)]);
    assert_eq!(compile("<>").unwrap(), vec![COps::Mov(0)]);
}

#[test]
fn fusion_stops_at_other_operations() {
    assert_eq!(
        compile("++>>++.++").unwrap(),
        vec![COps::Add(2), COps::Mov(2), COps::Add(2), COps::Putchar, COps::Add(2)]
    );
    assert_eq!(
        compile("+ comment +").unwrap(),
        vec![COps::Add(2)],
        "a comment does not separate two additions"
    );
}

#[test]
fn brackets_point_at_their_partners() {
    assert_eq!(
        compile("[-]").unwrap(),
        vec![COps::JmpIfZ(2), COps::Add(-1), COps::JmpIfNZ(0)]
    );
    assert_eq!(
        compile("[[]]").unwrap(),
        vec![COps::JmpIfZ(3), COps::JmpIfZ(2), COps::JmpIfNZ(1), COps::JmpIfNZ(0)]
    );
    assert_eq!(
        compile("[][]").unwrap(),
        vec![COps::JmpIfZ(1), COps::JmpIfNZ(0), COps::JmpIfZ(3), COps::JmpIfNZ(2)]
    );
    assert_eq!(
        compile("++[>+++<-]").unwrap(),
        vec![
            COps::Add(2),
            COps::JmpIfZ(6),
            COps::Mov(1),
            COps::Add(3),
            COps::Mov(-1),
            COps::Add(-1),
            COps::JmpIfNZ(1)
        ]
    );
}

#[test]
fn unbalanced_text_is_refused() {
    assert_eq!(compile("["), Err(SyntaxErr::Unbalanced));
    assert_eq!(compile("]"), Err(SyntaxErr::Unbalanced));
    assert_eq!(compile("]["), Err(SyntaxErr::Unbalanced));
    assert_eq!(compile("[[]"), Err(SyntaxErr::Unbalanced));
    assert_eq!(compile("[]]"), Err(SyntaxErr::Unbalanced));
    assert_eq!(compile("+[-]>]"), Err(SyntaxErr::Unbalanced));
}

#[test]
fn output_and_steps_are_counted() {
    // Add(3), Putchar, Add(-3)
    assert_eq!(run("+++.---").unwrap(), ("\u{3}".to_string(), 3));
    // Add(2); then the loop: JmpIfZ, and twice Add(-1), JmpIfNZ
    assert_eq!(run("++[-]").unwrap(), (String::new(), 6));
}

#[test]
fn output_is_one_character_per_byte() {
    let code = format!("{}.[-]", "+".repeat(200));
    assert_eq!(run(&code).unwrap().0, "\u{c8}");
    let hi = format!("{}.{}.[-]", "+".repeat(72), "+".repeat(33));
    assert_eq!(run(&hi).unwrap().0, "Hi");
}

#[test]
fn a_loop_multiplies() {
    // 8 * 8 + 1 = 65
    assert_eq!(run("++++++++[>++++++++<-]>+.[-]").unwrap().0, "A");
}

#[test]
fn int_overflow() {
    assert_eq!(run(&"+".repeat(256)), Err(InterpErr::IntOverflow));
    assert_eq!(run(&format!("{}[-]", "+".repeat(255))).unwrap().0, "");
}

#[test]
fn int_underflow() {
    assert_eq!(run("-"), Err(InterpErr::IntUnderflow));
    assert_eq!(run("+--"), Err(InterpErr::IntUnderflow));
}

#[test]
fn mem_overflow() {
    assert_eq!(run(&">".repeat(10000)), Err(InterpErr::MemOverflow));
    assert_eq!(run(&">".repeat(9999)).unwrap(), (String::new(), 1));
}

#[test]
fn mem_underflow() {
    assert_eq!(run("<"), Err(InterpErr::MemUnderflow));
    assert_eq!(run(">><<<"), Err(InterpErr::MemUnderflow));
}

#[test]
fn input_is_not_implemented() {
    assert_eq!(run(","), Err(InterpErr::Getchar));
}

#[test]
fn a_tape_that_is_not_zero_is_a_failure() {
    assert_eq!(run("+"), Err(InterpErr::TapeNotZero));
    assert_eq!(run(">>>+++.<<<"), Err(InterpErr::TapeNotZero));
    assert_eq!(run(">>>+++.[-]<<<").unwrap().0, "\u{3}");
}

#[test]
fn the_step_allowance_ends_a_run() {
    let forever = compile("+[]").unwrap();
    assert_eq!(exec_within(&forever, 1000).unwrap_err(), InterpErr::StepLimit);
    let six = compile("++[-]").unwrap();
    assert_eq!(exec_within(&six, 5).unwrap_err(), InterpErr::StepLimit);
    assert_eq!(exec_within(&six, 6).unwrap().steps, 6);
    assert_eq!(exec_within(&Vec::new(), 0).unwrap().steps, 0);
}

#[test]
fn a_jump_beyond_the_program_ends_it() {
    let r = exec(vec![COps::JmpIfZ(100), COps::Add(1)]).unwrap();
    assert_eq!(r.steps, 1);
    let r = exec(vec![COps::JmpIfZ(u64::MAX), COps::Add(1)]).unwrap();
    assert_eq!(r.steps, 1);
}

#[test]
fn counted_operations_run_as_one_step() {
    let r = exec(vec![COps::Add(65), COps::Putchar, COps::Add(-65), COps::Mov(0), COps::Add(0)])
        .unwrap();
    assert_eq!((r.output.as_str(), r.steps), ("A", 5));
    assert_eq!(exec(vec![COps::Add(256)]).unwrap_err(), InterpErr::IntOverflow);
    assert_eq!(exec(vec![COps::Mov(-1)]).unwrap_err(), InterpErr::MemUnderflow);
    assert_eq!(exec(vec![COps::Mov(i64::MAX)]).unwrap_err(), InterpErr::MemOverflow);
    assert_eq!(exec(vec![COps::Mov(i64::MIN)]).unwrap_err(), InterpErr::MemUnderflow);
    assert_eq!(exec(vec![COps::Add(i32::MIN)]).unwrap_err(), InterpErr::IntUnderflow);
}

#[test]
fn fused_and_unfused_programs_agree() {
    // the same program, once as text (fused) and once one operation per character
    let text = "+++[>++<-]>.[-]";
    let fused = exec(compile(text).unwrap()).unwrap();
    let naive = exec(vec![
        COps::Add(1),
        COps::Add(1),
        COps::Add(1),
        COps::JmpIfZ(9),
        COps::Mov(1),
        COps::Add(1),
        COps::Add(1),
        COps::Mov(-1),
        COps::Add(-1),
        COps::JmpIfNZ(3),
        COps::Mov(1),
        COps::Putchar,
        COps::JmpIfZ(14),
        COps::Add(-1),
        COps::JmpIfNZ(12),
    ])
    .unwrap();
    assert_eq!(fused.output, naive.output);
    assert_eq!(fused.output, "\u{6}");
    assert!(fused.steps <= naive.steps);
}
