use bfcc::interp::{compile, exec};
use bfcc::tape::{print_tape_move, Op};

/// Runs a program and gives the bytes it printed.
fn printed(code: &str) -> Vec<u32> {
    let ops = compile(code).unwrap();
    exec(ops).unwrap().output.chars().map(|c| c as u32).collect()
}

fn set(cell: usize, v: u8) -> String {
    Op::AddImm(v, cell).print()
}

fn show(cell: usize) -> String {
    format!("{}{}", Op::Putc(cell).print(), Op::ClearImm(cell).print())
}

#[test]
fn tape_moves() {
    assert_eq!(print_tape_move(0, 3), ">>>");
    assert_eq!(print_tape_move(3, 0), "<<<");
    assert_eq!(print_tape_move(2, 5), ">>>");
    assert_eq!(print_tape_move(4, 4), "");
}

#[test]
fn template_texts() {
    assert_eq!(Op::ClearImm(1).print(), ">[-]<");
    assert_eq!(Op::StoreImm(3, 2).print(), ">>[-]+++<<");
    assert_eq!(Op::StoreAddr(4, 1).print(), ">[-]++++<");
    assert_eq!(Op::Move(1, 2).print(), ">[->+<]<");
    assert_eq!(Op::Move(2, 1).print(), ">>[-<+>]<<");
    assert_eq!(Op::Add(1, 2).print(), ">[->+<]<");
    assert_eq!(Op::Sub(1, 2).print(), ">[->-<]<");
    assert_eq!(Op::Move2(1, 2, 3).print(), ">[->+>+<<]<");
    assert_eq!(Op::AddImm(2, 3).print(), ">>>++<<<");
    assert_eq!(Op::SubImm(2, 3).print(), ">>>--<<<");
    assert_eq!(Op::Not(1, 2).print(), ">>[-]+<[>-<[-]]<");
    assert_eq!(Op::Bitcast(1, 2).print(), ">>[-]<[>+<[-]]<");
    assert_eq!(Op::Ret(2).print(), ">>-<<");
    assert_eq!(Op::Putc(2).print(), ">>.<<");
    assert_eq!(Op::Getc(2).print(), ">>,<<");
    assert_eq!(Op::Branch(3).print(), ">>>[-]+<<<");
    assert_eq!(Op::Copy(1, 2, 3).print(), ">>[-]>[-]<<[->+>+<<]<>[-]>>[-<<+>>]<<<");
    assert_eq!(
        Op::Cond(1, 2, 3).print(),
        ">>[-]>[-]<<[->+>+<<]<>[-]>>[-<<+>>]<<<>>>[-]+<<[>>-<<[-]]<"
    );
}

#[test]
fn train_texts() {
    assert_eq!(
        Op::LoadInd(6, 7).print(),
        ">[-]>[-]>>>>[-<<<<<+>+>>>>]<<<<<<>>>>>>[-]<<<<<[->>>>>+<<<<<]<>>---<<>>[-<+<[-]>>>[-<<<+>>>]<<<>>>[-]<[->+<]<<>>[-]<[->+<]<>>>]<<[-]>>[-]>[-<<<+>>+>]<<<>>>[-]<<<[->>>+<<<]>[-<[-]>[-<+>]<>[-]>[-<+>]<<<>>>[-]<<<[->>>+<<<]>]<>>>>>>>[-]<<<<<[->>>>>+<<<<<]<<"
    );
    assert_eq!(
        Op::StoreInd(8, 7).print(),
        ">>[-]>[-]>>>>[-<<<<<+>+>>>>]<<<<<<<>>>>>>>[-]<<<<<[->>>>>+<<<<<]<<>>>----<<<>[-]>>>>>>>[-<<<<<<<+>>>>>>>]<<<<<<<<>>>[-<+<<[-]>>>>[-<<<<+>>>>]<<<<>>>>[-]<[->+<]<<<>>>[-]<[->+<]<<>>[-]<[->+<]<>>>>]<<<>>>>[-]<<<[->>>+<<<]<>>[-<<>[-]>[-<+>]<<<>>>>[-]<<<<[->>>>+<<<<]>>]<<"
    );
}

#[test]
fn listings() {
    assert_eq!(Op::Move(1, 2).pretty_print(), "move #1 to #2       >[->+<]<");
    assert_eq!(Op::StoreImm(3, 2).pretty_print(), "store 3 at #2       >>[-]+++<<");
    assert_eq!(Op::StoreAddr(4, 1).pretty_print(), "store &#4 at #1     >[-]++++<");
    assert_eq!(Op::ClearImm(1).pretty_print(), "clear #1            >[-]<");
    assert_eq!(Op::Move2(1, 2, 3).pretty_print(), "move #1 to #2 #3    >[->+>+<<]<");
    assert_eq!(Op::Add(1, 2).pretty_print(), "add #1 to #2        >[->+<]<");
    assert_eq!(Op::Sub(1, 2).pretty_print(), "sub #1 from #2      >[->-<]<");
    assert_eq!(Op::AddImm(2, 3).pretty_print(), "add 2 to #3         >>>++<<<");
    assert_eq!(Op::SubImm(2, 3).pretty_print(), "sub 2 from #3       >>>--<<<");
    assert_eq!(Op::Not(1, 2).pretty_print(), "not #1 to #2        >>[-]+<[>-<[-]]<");
    assert_eq!(Op::Bitcast(1, 2).pretty_print(), "bitcast #1 to #2    >>[-]<[>+<[-]]<");
    assert_eq!(Op::Ret(2).pretty_print(), "return #2           >>-<<");
    assert_eq!(Op::Putc(2).pretty_print(), "putc #2             >>.<<");
    assert_eq!(Op::Getc(2).pretty_print(), "getc #2             >>,<<");
    assert_eq!(Op::Branch(3).pretty_print(), "do block #3         >>>[-]+<<<");
    assert!(Op::LoadInd(6, 7).pretty_print().starts_with("load *#6 to #7      >[-]"));
    assert!(Op::StoreInd(8, 7).pretty_print().starts_with("store #8 at *#7     >>[-]"));
    // a description longer than the column is not cut
    assert_eq!(
        Op::Copy(100, 200, 300).pretty_print(),
        format!("copy #100 to #200 via #300{}", Op::Copy(100, 200, 300).print())
    );
    assert!(Op::Cond(1, 2, 3).pretty_print().starts_with("if #1 then #2 else #3>>[-]"));
}

#[test]
fn store_imm_sets_the_cell() {
    let code = format!("{}{}{}", set(3, 9), Op::StoreImm(65, 3).print(), show(3));
    assert_eq!(printed(&code), vec![65]);
}

#[test]
fn clear_imm_clears_the_cell() {
    let code = format!("{}{}{}", set(2, 200), Op::ClearImm(2).print(), Op::Putc(2).print());
    assert_eq!(printed(&code), vec![0]);
}

#[test]
fn move_adds_and_clears_the_source() {
    let code = format!("{}{}{}{}{}", set(1, 5), set(2, 3), Op::Move(1, 2).print(), show(1), show(2));
    assert_eq!(printed(&code), vec![0, 8]);
}

#[test]
fn move_there_and_back_changes_nothing() {
    for v in [0u8, 1, 5, 255] {
        let code = format!(
            "{}{}{}{}{}",
            set(1, v),
            Op::Move(1, 2).print(),
            Op::Move(2, 1).print(),
            show(1),
            show(2)
        );
        assert_eq!(printed(&code), vec![v as u32, 0]);
    }
}

#[test]
fn move2_adds_to_both() {
    let code = format!(
        "{}{}{}{}{}{}{}",
        set(1, 4),
        set(2, 1),
        set(3, 2),
        Op::Move2(1, 2, 3).print(),
        show(1),
        show(2),
        show(3)
    );
    assert_eq!(printed(&code), vec![0, 5, 6]);
}

#[test]
fn copy_keeps_the_source() {
    let code = format!(
        "{}{}{}{}{}{}{}",
        set(1, 7),
        set(2, 9),
        set(3, 9),
        Op::Copy(1, 2, 3).print(),
        show(1),
        show(2),
        show(3)
    );
    assert_eq!(printed(&code), vec![7, 7, 0]);
}

#[test]
fn add_and_sub() {
    let code = format!("{}{}{}{}{}", set(1, 5), set(2, 30), Op::Add(1, 2).print(), show(1), show(2));
    assert_eq!(printed(&code), vec![0, 35]);
    let code = format!("{}{}{}{}{}", set(1, 5), set(2, 30), Op::Sub(1, 2).print(), show(1), show(2));
    assert_eq!(printed(&code), vec![0, 25]);
    let code = format!("{}{}{}", set(2, 30), Op::SubImm(4, 2).print(), show(2));
    assert_eq!(printed(&code), vec![26]);
}

#[test]
fn not_and_bitcast() {
    for (v, not, cast) in [(0u8, 1u32, 0u32), (1, 0, 1), (7, 0, 1)] {
        let code =
            format!("{}{}{}{}{}", set(1, v), set(2, 9), Op::Not(1, 2).print(), show(1), show(2));
        assert_eq!(printed(&code), vec![0, not]);
        let code =
            format!("{}{}{}{}{}", set(1, v), set(2, 9), Op::Bitcast(1, 2).print(), show(1), show(2));
        assert_eq!(printed(&code), vec![0, cast]);
    }
}

#[test]
fn not_of_not_is_bitcast() {
    for v in [0u8, 1, 2, 255] {
        let twice = format!(
            "{}{}{}{}{}{}",
            set(1, v),
            Op::Not(1, 2).print(),
            Op::Not(2, 3).print(),
            show(1),
            show(2),
            show(3)
        );
        let once = format!(
            "{}{}{}{}{}",
            set(1, v),
            Op::Bitcast(1, 3).print(),
            show(1),
            show(2),
            show(3)
        );
        assert_eq!(printed(&twice), printed(&once));
        assert_eq!(printed(&once), vec![0, 0, if v == 0 { 0 } else { 1 }]);
    }
}

#[test]
fn store_imm_then_load_ind_yields_the_value() {
    for (d, v) in [(3usize, 65u8), (5, 66), (9, 0), (12, 255)] {
        let p = 20;
        let r = 21;
        let code = format!(
            "{}{}{}{}{}{}",
            Op::StoreImm(v, d).print(),
            Op::StoreImm(d as u8, p).print(),
            Op::LoadInd(p, r).print(),
            show(r),
            show(d),
            show(p),
        );
        assert_eq!(printed(&code), vec![v as u32, v as u32, d as u32]);
    }
}

#[test]
fn load_ind_puts_the_cells_it_passed_back() {
    // cells 3 to 8 hold 11 to 16; the pointer in cell 10 names cell 7
    let mut code = String::new();
    for i in 3..9 {
        code.push_str(&set(i, 8 + i as u8));
    }
    code.push_str(&set(10, 7));
    code.push_str(&Op::LoadInd(10, 11).print());
    for i in 0..12 {
        code.push_str(&show(i));
    }
    assert_eq!(printed(&code), vec![0, 0, 0, 11, 12, 13, 14, 15, 16, 0, 7, 15]);
}

#[test]
fn store_ind_writes_where_the_pointer_names() {
    // cells 4 to 8 hold 11 to 15; the pointer in cell 10 names cell 6
    let mut code = String::new();
    for i in 4..9 {
        code.push_str(&set(i, 7 + i as u8));
    }
    code.push_str(&set(10, 6));
    code.push_str(&set(11, 77));
    code.push_str(&Op::StoreInd(11, 10).print());
    for i in 0..12 {
        code.push_str(&show(i));
    }
    assert_eq!(printed(&code), vec![0, 0, 0, 0, 11, 12, 77, 14, 15, 0, 6, 0]);
}

#[test]
fn branch_and_cond_set_flags() {
    let code = format!("{}{}", Op::Branch(4).print(), show(4));
    assert_eq!(printed(&code), vec![1]);
    for (v, yes, no) in [(0u8, 0u32, 1u32), (1, 1, 0)] {
        let code = format!(
            "{}{}{}{}{}",
            set(1, v),
            Op::Cond(1, 2, 3).print(),
            show(1),
            show(2),
            show(3)
        );
        assert_eq!(printed(&code), vec![0, yes, no]);
    }
}

#[test]
fn ret_takes_a_flag_down() {
    let code = format!("{}{}{}", set(2, 1), Op::Ret(2).print(), Op::Putc(2).print());
    assert_eq!(printed(&code), vec![0]);
}
