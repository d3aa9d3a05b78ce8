//! What the fixed pieces of an emitted program are read as.
use vstd::prelude::*;
use crate::interp::{parse, COps};

verus! {

/// The operations in `"\t\t#alloca_%"`.
pub proof fn lemma_lit_alloca()
    ensures
        parse("\t\t#alloca_%"@) == Seq::<COps>::empty(),
{
    reveal_strlit("\t\t#alloca_%");
    reveal_with_fuel(parse, 13);
    assert(parse("\t\t#alloca_%"@) =~= Seq::<COps>::empty());
}

/// The operations in `"\n"`.
pub proof fn lemma_lit_newline()
    ensures
        parse("\n"@) == Seq::<COps>::empty(),
{
    reveal_strlit("\n");
    reveal_with_fuel(parse, 3);
    assert(parse("\n"@) =~= Seq::<COps>::empty());
}

/// The operations in `"\t\t[-]\n"`.
pub proof fn lemma_lit_clear_line()
    ensures
        parse("\t\t[-]\n"@) == seq![COps::JmpIfZ(0), COps::Add(-1i32), COps::JmpIfNZ(0)],
{
    reveal_strlit("\t\t[-]\n");
    reveal_with_fuel(parse, 8);
    assert(parse("\t\t[-]\n"@) =~= seq![COps::JmpIfZ(0), COps::Add(-1i32), COps::JmpIfNZ(0)]);
}

/// The operations in `"\t\t[-\n"`.
pub proof fn lemma_lit_open_line()
    ensures
        parse("\t\t[-\n"@) == seq![COps::JmpIfZ(0), COps::Add(-1i32)],
{
    reveal_strlit("\t\t[-\n");
    reveal_with_fuel(parse, 7);
    assert(parse("\t\t[-\n"@) =~= seq![COps::JmpIfZ(0), COps::Add(-1i32)]);
}

/// The operations in `"\t\t+\n"`.
pub proof fn lemma_lit_plus_line()
    ensures
        parse("\t\t+\n"@) == seq![COps::Add(1i32)],
{
    reveal_strlit("\t\t+\n");
    reveal_with_fuel(parse, 6);
    assert(parse("\t\t+\n"@) =~= seq![COps::Add(1i32)]);
}

/// The operations in `"\t\t]\n"`.
pub proof fn lemma_lit_close_line()
    ensures
        parse("\t\t]\n"@) == seq![COps::JmpIfNZ(0)],
{
    reveal_strlit("\t\t]\n");
    reveal_with_fuel(parse, 6);
    assert(parse("\t\t]\n"@) =~= seq![COps::JmpIfNZ(0)]);
}

/// The operations in `"\t\t[-]"`.
pub proof fn lemma_lit_clear_lead()
    ensures
        parse("\t\t[-]"@) == seq![COps::JmpIfZ(0), COps::Add(-1i32), COps::JmpIfNZ(0)],
{
    reveal_strlit("\t\t[-]");
    reveal_with_fuel(parse, 7);
    assert(parse("\t\t[-]"@) =~= seq![COps::JmpIfZ(0), COps::Add(-1i32), COps::JmpIfNZ(0)]);
}

/// The operations in `"\t\t #load_%"`.
pub proof fn lemma_lit_load_name()
    ensures
        parse("\t\t #load_%"@) == Seq::<COps>::empty(),
{
    reveal_strlit("\t\t #load_%");
    reveal_with_fuel(parse, 12);
    assert(parse("\t\t #load_%"@) =~= Seq::<COps>::empty());
}

/// The operations in `"_to_%"`.
pub proof fn lemma_lit_load_to()
    ensures
        parse("_to_%"@) == Seq::<COps>::empty(),
{
    reveal_strlit("_to_%");
    reveal_with_fuel(parse, 7);
    assert(parse("_to_%"@) =~= Seq::<COps>::empty());
}

/// The operations in `"\t\t #load_temp0\n"`.
pub proof fn lemma_lit_load_temp()
    ensures
        parse("\t\t #load_temp0\n"@) == Seq::<COps>::empty(),
{
    reveal_strlit("\t\t #load_temp0\n");
    reveal_with_fuel(parse, 17);
    assert(parse("\t\t #load_temp0\n"@) =~= Seq::<COps>::empty());
}

/// The operations in `"\t\t#add_%"`.
pub proof fn lemma_lit_add_name()
    ensures
        parse("\t\t#add_%"@) == Seq::<COps>::empty(),
{
    reveal_strlit("\t\t#add_%");
    reveal_with_fuel(parse, 10);
    assert(parse("\t\t#add_%"@) =~= Seq::<COps>::empty());
}

/// The operations in `"_c"`.
pub proof fn lemma_lit_add_by()
    ensures
        parse("_c"@) == Seq::<COps>::empty(),
{
    reveal_strlit("_c");
    reveal_with_fuel(parse, 4);
    assert(parse("_c"@) =~= Seq::<COps>::empty());
}

/// The operations in `"\t\t"`.
pub proof fn lemma_lit_indent()
    ensures
        parse("\t\t"@) == Seq::<COps>::empty(),
{
    reveal_strlit("\t\t");
    reveal_with_fuel(parse, 4);
    assert(parse("\t\t"@) =~= Seq::<COps>::empty());
}

/// The operations in `"\t\tputchar intrinsic\n"`.
pub proof fn lemma_lit_putchar_note()
    ensures
        parse("\t\tputchar intrinsic\n"@) == Seq::<COps>::empty(),
{
    reveal_strlit("\t\tputchar intrinsic\n");
    reveal_with_fuel(parse, 22);
    assert(parse("\t\tputchar intrinsic\n"@) =~= Seq::<COps>::empty());
}

/// The operations in `" .[-]\n"`.
pub proof fn lemma_lit_print_clear()
    ensures
        parse(" .[-]\n"@) == seq![COps::Putchar, COps::JmpIfZ(0), COps::Add(-1i32), COps::JmpIfNZ(0)],
{
    reveal_strlit(" .[-]\n");
    reveal_with_fuel(parse, 8);
    assert(parse(" .[-]\n"@) =~= seq![COps::Putchar, COps::JmpIfZ(0), COps::Add(-1i32), COps::JmpIfNZ(0)]);
}

/// The operations in `" next frame\n"`.
pub proof fn lemma_lit_next_frame()
    ensures
        parse(" next frame\n"@) == Seq::<COps>::empty(),
{
    reveal_strlit(" next frame\n");
    reveal_with_fuel(parse, 14);
    assert(parse(" next frame\n"@) =~= Seq::<COps>::empty());
}

/// The operations in `"\t\t+ #__FRAME_"`.
pub proof fn lemma_lit_frame_flag()
    ensures
        parse("\t\t+ #__FRAME_"@) == seq![COps::Add(1i32)],
{
    reveal_strlit("\t\t+ #__FRAME_");
    reveal_with_fuel(parse, 15);
    assert(parse("\t\t+ #__FRAME_"@) =~= seq![COps::Add(1i32)]);
}

/// The operations in `"__\n"`.
pub proof fn lemma_lit_frame_tail()
    ensures
        parse("__\n"@) == Seq::<COps>::empty(),
{
    reveal_strlit("__\n");
    reveal_with_fuel(parse, 5);
    assert(parse("__\n"@) =~= Seq::<COps>::empty());
}

/// The operations in `"\t\t+ call func #"`.
pub proof fn lemma_lit_call_func()
    ensures
        parse("\t\t+ call func #"@) == seq![COps::Add(1i32)],
{
    reveal_strlit("\t\t+ call func #");
    reveal_with_fuel(parse, 17);
    assert(parse("\t\t+ call func #"@) =~= seq![COps::Add(1i32)]);
}

/// The operations in `"\t\t+ #"`.
pub proof fn lemma_lit_arm()
    ensures
        parse("\t\t+ #"@) == seq![COps::Add(1i32)],
{
    reveal_strlit("\t\t+ #");
    reveal_with_fuel(parse, 7);
    assert(parse("\t\t+ #"@) =~= seq![COps::Add(1i32)]);
}

/// The operations in `"/b0\n"`.
pub proof fn lemma_lit_entry_block()
    ensures
        parse("/b0\n"@) == Seq::<COps>::empty(),
{
    reveal_strlit("/b0\n");
    reveal_with_fuel(parse, 6);
    assert(parse("/b0\n"@) =~= Seq::<COps>::empty());
}

/// The operations in `"\t\t+ enable next #"`.
pub proof fn lemma_lit_enable_next()
    ensures
        parse("\t\t+ enable next #"@) == seq![COps::Add(1i32)],
{
    reveal_strlit("\t\t+ enable next #");
    reveal_with_fuel(parse, 19);
    assert(parse("\t\t+ enable next #"@) =~= seq![COps::Add(1i32)]);
}

/// The operations in `"/"`.
pub proof fn lemma_lit_slash()
    ensures
        parse("/"@) == Seq::<COps>::empty(),
{
    reveal_strlit("/");
    reveal_with_fuel(parse, 3);
    assert(parse("/"@) =~= Seq::<COps>::empty());
}

/// The operations in `"\t\tE "`.
pub proof fn lemma_lit_term_lead()
    ensures
        parse("\t\tE "@) == Seq::<COps>::empty(),
{
    reveal_strlit("\t\tE ");
    reveal_with_fuel(parse, 6);
    assert(parse("\t\tE "@) =~= Seq::<COps>::empty());
}

/// The operations in `"\t\t-\n"`.
pub proof fn lemma_lit_minus_line()
    ensures
        parse("\t\t-\n"@) == seq![COps::Add(-1i32)],
{
    reveal_strlit("\t\t-\n");
    reveal_with_fuel(parse, 6);
    assert(parse("\t\t-\n"@) =~= seq![COps::Add(-1i32)]);
}

/// The operations in `"\t\t- #ded_func_"`.
pub proof fn lemma_lit_dead_func()
    ensures
        parse("\t\t- #ded_func_"@) == seq![COps::Add(-1i32)],
{
    reveal_strlit("\t\t- #ded_func_");
    reveal_with_fuel(parse, 16);
    assert(parse("\t\t- #ded_func_"@) =~= seq![COps::Add(-1i32)]);
}

/// The operations in `"\t\t- uncall func "`.
pub proof fn lemma_lit_uncall()
    ensures
        parse("\t\t- uncall func "@) == seq![COps::Add(-1i32)],
{
    reveal_strlit("\t\t- uncall func ");
    reveal_with_fuel(parse, 18);
    assert(parse("\t\t- uncall func "@) =~= seq![COps::Add(-1i32)]);
}

/// The operations in `" prev frame\n"`.
pub proof fn lemma_lit_prev_frame()
    ensures
        parse(" prev frame\n"@) == Seq::<COps>::empty(),
{
    reveal_strlit(" prev frame\n");
    reveal_with_fuel(parse, 14);
    assert(parse(" prev frame\n"@) =~= Seq::<COps>::empty());
}

/// The operations in `"t#"`.
pub proof fn lemma_lit_block_lead()
    ensures
        parse("t#"@) == Seq::<COps>::empty(),
{
    reveal_strlit("t#");
    reveal_with_fuel(parse, 4);
    assert(parse("t#"@) =~= Seq::<COps>::empty());
}

/// The operations in `" [-\n"`.
pub proof fn lemma_lit_block_open()
    ensures
        parse(" [-\n"@) == seq![COps::JmpIfZ(0), COps::Add(-1i32)],
{
    reveal_strlit(" [-\n");
    reveal_with_fuel(parse, 6);
    assert(parse(" [-\n"@) =~= seq![COps::JmpIfZ(0), COps::Add(-1i32)]);
}

/// The operations in `"\t] b"`.
pub proof fn lemma_lit_block_close()
    ensures
        parse("\t] b"@) == seq![COps::JmpIfNZ(0)],
{
    reveal_strlit("\t] b");
    reveal_with_fuel(parse, 6);
    assert(parse("\t] b"@) =~= seq![COps::JmpIfNZ(0)]);
}

/// The operations in `"#"`.
pub proof fn lemma_lit_func_lead()
    ensures
        parse("#"@) == Seq::<COps>::empty(),
{
    reveal_strlit("#");
    reveal_with_fuel(parse, 3);
    assert(parse("#"@) =~= Seq::<COps>::empty());
}

/// The operations in `" [\n"`.
pub proof fn lemma_lit_func_open()
    ensures
        parse(" [\n"@) == seq![COps::JmpIfZ(0)],
{
    reveal_strlit(" [\n");
    reveal_with_fuel(parse, 5);
    assert(parse(" [\n"@) =~= seq![COps::JmpIfZ(0)]);
}

/// The operations in `"] "`.
pub proof fn lemma_lit_func_close()
    ensures
        parse("] "@) == seq![COps::JmpIfNZ(0)],
{
    reveal_strlit("] ");
    reveal_with_fuel(parse, 4);
    assert(parse("] "@) =~= seq![COps::JmpIfNZ(0)]);
}

/// The operations in `" first frame\n"`.
pub proof fn lemma_lit_first_frame()
    ensures
        parse(" first frame\n"@) == Seq::<COps>::empty(),
{
    reveal_strlit(" first frame\n");
    reveal_with_fuel(parse, 15);
    assert(parse(" first frame\n"@) =~= Seq::<COps>::empty());
}

/// The operations in `"runtime init: \n"`.
pub proof fn lemma_lit_runtime_init()
    ensures
        parse("runtime init: \n"@) == Seq::<COps>::empty(),
{
    reveal_strlit("runtime init: \n");
    reveal_with_fuel(parse, 17);
    assert(parse("runtime init: \n"@) =~= Seq::<COps>::empty());
}

/// The operations in `"+ #__FRAME__ENTRY__\n"`.
pub proof fn lemma_lit_entry_flag()
    ensures
        parse("+ #__FRAME__ENTRY__\n"@) == seq![COps::Add(1i32)],
{
    reveal_strlit("+ #__FRAME__ENTRY__\n");
    reveal_with_fuel(parse, 22);
    assert(parse("+ #__FRAME__ENTRY__\n"@) =~= seq![COps::Add(1i32)]);
}

/// The operations in `"+ call #main\n"`.
pub proof fn lemma_lit_call_main()
    ensures
        parse("+ call #main\n"@) == seq![COps::Add(1i32)],
{
    reveal_strlit("+ call #main\n");
    reveal_with_fuel(parse, 15);
    assert(parse("+ call #main\n"@) =~= seq![COps::Add(1i32)]);
}

/// The operations in `"+ at #main/b0\n"`.
pub proof fn lemma_lit_at_main()
    ensures
        parse("+ at #main/b0\n"@) == seq![COps::Add(1i32)],
{
    reveal_strlit("+ at #main/b0\n");
    reveal_with_fuel(parse, 16);
    assert(parse("+ at #main/b0\n"@) =~= seq![COps::Add(1i32)]);
}

/// The operations in `"[\n"`.
pub proof fn lemma_lit_loop_open()
    ensures
        parse("[\n"@) == seq![COps::JmpIfZ(0)],
{
    reveal_strlit("[\n");
    reveal_with_fuel(parse, 4);
    assert(parse("[\n"@) =~= seq![COps::JmpIfZ(0)]);
}

/// The operations in `"]\n"`.
pub proof fn lemma_lit_loop_close()
    ensures
        parse("]\n"@) == seq![COps::JmpIfNZ(0)],
{
    reveal_strlit("]\n");
    reveal_with_fuel(parse, 4);
    assert(parse("]\n"@) =~= seq![COps::JmpIfNZ(0)]);
}

/// The operations in `"br label %"`.
pub proof fn lemma_lit_br_label()
    ensures
        parse("br label %"@) == Seq::<COps>::empty(),
{
    reveal_strlit("br label %");
    reveal_with_fuel(parse, 12);
    assert(parse("br label %"@) =~= Seq::<COps>::empty());
}

/// The operations in `"\t\t#op0\n"`.
pub proof fn lemma_lit_op0()
    ensures
        parse("\t\t#op0\n"@) == Seq::<COps>::empty(),
{
    reveal_strlit("\t\t#op0\n");
    reveal_with_fuel(parse, 9);
    assert(parse("\t\t#op0\n"@) =~= Seq::<COps>::empty());
}

/// The operations in `"\t\t#op1\n"`.
pub proof fn lemma_lit_op1()
    ensures
        parse("\t\t#op1\n"@) == Seq::<COps>::empty(),
{
    reveal_strlit("\t\t#op1\n");
    reveal_with_fuel(parse, 9);
    assert(parse("\t\t#op1\n"@) =~= Seq::<COps>::empty());
}

/// The operations in `"\t\t#temp0\n"`.
pub proof fn lemma_lit_temp0()
    ensures
        parse("\t\t#temp0\n"@) == Seq::<COps>::empty(),
{
    reveal_strlit("\t\t#temp0\n");
    reveal_with_fuel(parse, 11);
    assert(parse("\t\t#temp0\n"@) =~= Seq::<COps>::empty());
}

/// The operations in `"\t\t#temp1_a\n"`.
pub proof fn lemma_lit_temp1_a()
    ensures
        parse("\t\t#temp1_a\n"@) == Seq::<COps>::empty(),
{
    reveal_strlit("\t\t#temp1_a\n");
    reveal_with_fuel(parse, 13);
    assert(parse("\t\t#temp1_a\n"@) =~= Seq::<COps>::empty());
}

/// The operations in `"\t\t#temp1_b\n"`.
pub proof fn lemma_lit_temp1_b()
    ensures
        parse("\t\t#temp1_b\n"@) == Seq::<COps>::empty(),
{
    reveal_strlit("\t\t#temp1_b\n");
    reveal_with_fuel(parse, 13);
    assert(parse("\t\t#temp1_b\n"@) =~= Seq::<COps>::empty());
}

/// The operations in `"\t\t#temp1_c\n"`.
pub proof fn lemma_lit_temp1_c()
    ensures
        parse("\t\t#temp1_c\n"@) == Seq::<COps>::empty(),
{
    reveal_strlit("\t\t#temp1_c\n");
    reveal_with_fuel(parse, 13);
    assert(parse("\t\t#temp1_c\n"@) =~= Seq::<COps>::empty());
}

/// The operations in `"\t\t #%"`.
pub proof fn lemma_lit_compare_name()
    ensures
        parse("\t\t #%"@) == Seq::<COps>::empty(),
{
    reveal_strlit("\t\t #%");
    reveal_with_fuel(parse, 7);
    assert(parse("\t\t #%"@) =~= Seq::<COps>::empty());
}

/// The operations in `"_icmp_%"`.
pub proof fn lemma_lit_compare_with()
    ensures
        parse("_icmp_%"@) == Seq::<COps>::empty(),
{
    reveal_strlit("_icmp_%");
    reveal_with_fuel(parse, 9);
    assert(parse("_icmp_%"@) =~= Seq::<COps>::empty());
}

/// The operations in `"_lt_"`.
pub proof fn lemma_lit_compare_to()
    ensures
        parse("_lt_"@) == Seq::<COps>::empty(),
{
    reveal_strlit("_lt_");
    reveal_with_fuel(parse, 6);
    assert(parse("_lt_"@) =~= Seq::<COps>::empty());
}

/// The operations in `"\t\t[\n"`.
pub proof fn lemma_lit_enter_line()
    ensures
        parse("\t\t[\n"@) == seq![
            COps::JmpIfZ(0),
        ],
{
    reveal_strlit("\t\t[\n");
    reveal_with_fuel(parse, 6);
    assert(parse("\t\t[\n"@) =~= seq![
        COps::JmpIfZ(0),
    ]);
}

/// The operations in `"\t\t-]\n"`.
pub proof fn lemma_lit_leave_line()
    ensures
        parse("\t\t-]\n"@) == seq![
            COps::Add(-1i32),
            COps::JmpIfNZ(0),
        ],
{
    reveal_strlit("\t\t-]\n");
    reveal_with_fuel(parse, 7);
    assert(parse("\t\t-]\n"@) =~= seq![
        COps::Add(-1i32),
        COps::JmpIfNZ(0),
    ]);
}

/// The operations in `"\t\ty[\n"`.
pub proof fn lemma_lit_enter_y()
    ensures
        parse("\t\ty[\n"@) == seq![
            COps::JmpIfZ(0),
        ],
{
    reveal_strlit("\t\ty[\n");
    reveal_with_fuel(parse, 7);
    assert(parse("\t\ty[\n"@) =~= seq![
        COps::JmpIfZ(0),
    ]);
}

/// The operations in `"\t\ttemp0[\n"`.
pub proof fn lemma_lit_enter_temp0()
    ensures
        parse("\t\ttemp0[\n"@) == seq![
            COps::JmpIfZ(0),
        ],
{
    reveal_strlit("\t\ttemp0[\n");
    reveal_with_fuel(parse, 11);
    assert(parse("\t\ttemp0[\n"@) =~= seq![
        COps::JmpIfZ(0),
    ]);
}

/// The operations in `"\t\ty+\n"`.
pub proof fn lemma_lit_plus_y()
    ensures
        parse("\t\ty+\n"@) == seq![
            COps::Add(1i32),
        ],
{
    reveal_strlit("\t\ty+\n");
    reveal_with_fuel(parse, 7);
    assert(parse("\t\ty+\n"@) =~= seq![
        COps::Add(1i32),
    ]);
}

/// The operations in `"\t\ttemp0-]\n"`.
pub proof fn lemma_lit_leave_temp0()
    ensures
        parse("\t\ttemp0-]\n"@) == seq![
            COps::Add(-1i32),
            COps::JmpIfNZ(0),
        ],
{
    reveal_strlit("\t\ttemp0-]\n");
    reveal_with_fuel(parse, 12);
    assert(parse("\t\ttemp0-]\n"@) =~= seq![
        COps::Add(-1i32),
        COps::JmpIfNZ(0),
    ]);
}

/// The operations in `"\t\ttemp0+\n"`.
pub proof fn lemma_lit_plus_temp0()
    ensures
        parse("\t\ttemp0+\n"@) == seq![
            COps::Add(1i32),
        ],
{
    reveal_strlit("\t\ttemp0+\n");
    reveal_with_fuel(parse, 11);
    assert(parse("\t\ttemp0+\n"@) =~= seq![
        COps::Add(1i32),
    ]);
}

/// The operations in `"\t\tx-]+\n"`.
pub proof fn lemma_lit_leave_x()
    ensures
        parse("\t\tx-]+\n"@) == seq![
            COps::Add(-1i32),
            COps::JmpIfNZ(0),
            COps::Add(1i32),
        ],
{
    reveal_strlit("\t\tx-]+\n");
    reveal_with_fuel(parse, 9);
    assert(parse("\t\tx-]+\n"@) =~= seq![
        COps::Add(-1i32),
        COps::JmpIfNZ(0),
        COps::Add(1i32),
    ]);
}

/// The operations in `"\t\ttemp1 >+ > <<\n"`.
pub proof fn lemma_lit_mark()
    ensures
        parse("\t\ttemp1 >+ > <<\n"@) == seq![
            COps::Mov(1i64),
            COps::Add(1i32),
            COps::Mov(1i64),
            COps::Mov(-1i64),
            COps::Mov(-1i64),
        ],
{
    reveal_strlit("\t\ttemp1 >+ > <<\n");
    reveal_with_fuel(parse, 18);
    assert(parse("\t\ttemp1 >+ > <<\n"@) =~= seq![
        COps::Mov(1i64),
        COps::Add(1i32),
        COps::Mov(1i64),
        COps::Mov(-1i64),
        COps::Mov(-1i64),
    ]);
}

/// The operations in `"\t\t[>-]> [<\n"`.
pub proof fn lemma_lit_unless_head()
    ensures
        parse("\t\t[>-]> [<\n"@) == seq![
            COps::JmpIfZ(0),
            COps::Mov(1i64),
            COps::Add(-1i32),
            COps::JmpIfNZ(0),
            COps::Mov(1i64),
            COps::JmpIfZ(0),
            COps::Mov(-1i64),
        ],
{
    reveal_strlit("\t\t[>-]> [<\n");
    reveal_with_fuel(parse, 13);
    assert(parse("\t\t[>-]> [<\n"@) =~= seq![
        COps::JmpIfZ(0),
        COps::Mov(1i64),
        COps::Add(-1i32),
        COps::JmpIfNZ(0),
        COps::Mov(1i64),
        COps::JmpIfZ(0),
        COps::Mov(-1i64),
    ]);
}

/// The operations in `"\t\t>->]<+<\n"`.
pub proof fn lemma_lit_unless_tail()
    ensures
        parse("\t\t>->]<+<\n"@) == seq![
            COps::Mov(1i64),
            COps::Add(-1i32),
            COps::Mov(1i64),
            COps::JmpIfNZ(0),
            COps::Mov(-1i64),
            COps::Add(1i32),
            COps::Mov(-1i64),
        ],
{
    reveal_strlit("\t\t>->]<+<\n");
    reveal_with_fuel(parse, 12);
    assert(parse("\t\t>->]<+<\n"@) =~= seq![
        COps::Mov(1i64),
        COps::Add(-1i32),
        COps::Mov(1i64),
        COps::JmpIfNZ(0),
        COps::Mov(-1i64),
        COps::Add(1i32),
        COps::Mov(-1i64),
    ]);
}

/// The operations in `"\t\t- [>-]> [<\n"`.
pub proof fn lemma_lit_count_unless_head()
    ensures
        parse("\t\t- [>-]> [<\n"@) == seq![
            COps::Add(-1i32),
            COps::JmpIfZ(0),
            COps::Mov(1i64),
            COps::Add(-1i32),
            COps::JmpIfNZ(0),
            COps::Mov(1i64),
            COps::JmpIfZ(0),
            COps::Mov(-1i64),
        ],
{
    reveal_strlit("\t\t- [>-]> [<\n");
    reveal_with_fuel(parse, 15);
    assert(parse("\t\t- [>-]> [<\n"@) =~= seq![
        COps::Add(-1i32),
        COps::JmpIfZ(0),
        COps::Mov(1i64),
        COps::Add(-1i32),
        COps::JmpIfNZ(0),
        COps::Mov(1i64),
        COps::JmpIfZ(0),
        COps::Mov(-1i64),
    ]);
}

/// The operations in `"\t\t[-]+\n"`.
pub proof fn lemma_lit_clear_set()
    ensures
        parse("\t\t[-]+\n"@) == seq![
            COps::JmpIfZ(0),
            COps::Add(-1i32),
            COps::JmpIfNZ(0),
            COps::Add(1i32),
        ],
{
    reveal_strlit("\t\t[-]+\n");
    reveal_with_fuel(parse, 9);
    assert(parse("\t\t[-]+\n"@) =~= seq![
        COps::JmpIfZ(0),
        COps::Add(-1i32),
        COps::JmpIfNZ(0),
        COps::Add(1i32),
    ]);
}

} // verus!
