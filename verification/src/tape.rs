//! The closed library of tape-language templates. Every template starts and
//! ends with the head on the first cell of the working region; cell numbers
//! count from there.
use vstd::prelude::*;
use crate::text::{decimal, padded, push_padded, push_repeat, repeated, Writer};

verus! {

/// One template, with the cells it works on.
#[derive(Clone, Copy, Debug, PartialEq, Eq, Structural)]
pub enum Op {
    /// `LoadInd(p, d)`: the cell whose number is held in `p` is copied to `d`;
    /// `p` is kept. Uses cells 0 to 2 as the train station.
    LoadInd(usize, usize),
    /// `StoreInd(v, p)`: `v` is written to the cell whose number is held in
    /// `p`; `p` is kept, `v` is used up. Uses cells 0 to 3 as the train station.
    StoreInd(usize, usize),
    /// `ClearImm(d)`: `d` becomes 0.
    ClearImm(usize),
    /// `StoreImm(v, d)`: `d` becomes `v`.
    StoreImm(u8, usize),
    /// `StoreAddr(a, d)`: `d` becomes the cell number `a`.
    StoreAddr(usize, usize),
    /// `Move(s, d)`: `s` is added to `d` and becomes 0.
    Move(usize, usize),
    /// `Move2(s, d1, d2)`: `s` is added to `d1` and to `d2` and becomes 0.
    Move2(usize, usize, usize),
    /// `Copy(s, d, t)`: `d` becomes `s` by way of the scratch cell `t`, which
    /// ends as 0; `s` is kept.
    Copy(usize, usize, usize),
    /// `Add(s, d)`: `s` is added to `d` and becomes 0.
    Add(usize, usize),
    /// `Sub(s, d)`: `s` is subtracted from `d` and becomes 0.
    Sub(usize, usize),
    /// `AddImm(v, d)`: `v` is added to `d`.
    AddImm(u8, usize),
    /// `SubImm(v, d)`: `v` is subtracted from `d`.
    SubImm(u8, usize),
    /// `Not(s, d)`: `d` becomes 1 if `s` is 0, else 0; `s` becomes 0.
    Not(usize, usize),
    /// `Bitcast(s, d)`: `d` becomes 0 if `s` is 0, else 1; `s` becomes 0.
    Bitcast(usize, usize),
    /// `Ret(a)`: the flag at `a` is lowered by one.
    Ret(usize),
    /// `Putc(a)`: the cell `a` is printed.
    Putc(usize),
    /// `Getc(a)`: a byte is read into the cell `a`.
    Getc(usize),
    /// `Branch(a)`: the block flag at `a` is set.
    Branch(usize),
    /// `Cond(c, t, f)`: the block flag at `t` is set if `c` is not 0, the one
    /// at `f` if it is; `c` becomes 0.
    Cond(usize, usize, usize),
}

// ---------------------------------------------------------------------------
// What the templates read as
// ---------------------------------------------------------------------------

/// Head motion from cell `from` to cell `to`.
pub open spec fn tape_move(from: nat, to: nat) -> Seq<char> {
    if from > to {
        repeated('<', (from - to) as nat)
    } else {
        repeated('>', (to - from) as nat)
    }
}

/// `[-]`: the current cell becomes 0.
pub open spec fn clear_loop() -> Seq<char> {
    seq!['[', '-', ']']
}

/// Go to `cell`, do `body`, come back.
pub open spec fn at_cell(cell: nat, body: Seq<char>) -> Seq<char> {
    tape_move(0, cell) + body + tape_move(cell, 0)
}

/// While `s` is not 0: take one from `s` and apply `sign` to `d`.
pub open spec fn drain(s: nat, d: nat, sign: char) -> Seq<char> {
    tape_move(0, s) + seq!['[', '-'] + tape_move(s, d) + seq![sign] + tape_move(d, s) + seq![']']
        + tape_move(s, 0)
}

/// While `s` is not 0: take one from `s` and add one to `d1` and to `d2`.
pub open spec fn drain2(s: nat, d1: nat, d2: nat) -> Seq<char> {
    tape_move(0, s) + seq!['[', '-'] + tape_move(s, d1) + seq!['+'] + tape_move(d1, d2) + seq!['+']
        + tape_move(d2, s) + seq![']'] + tape_move(s, 0)
}

/// Clear `d`, then drain `s` into it.
pub open spec fn carry(s: nat, d: nat) -> Seq<char> {
    tape_move(0, d) + clear_loop() + tape_move(d, s) + seq!['[', '-'] + tape_move(s, d) + seq!['+']
        + tape_move(d, s) + seq![']'] + tape_move(s, 0)
}

/// Clear `d1` and `d2`, then drain `s` into both.
pub open spec fn carry2(s: nat, d1: nat, d2: nat) -> Seq<char> {
    tape_move(0, d1) + clear_loop() + tape_move(d1, d2) + clear_loop() + tape_move(d2, s) + seq![
        '[',
        '-',
    ] + tape_move(s, d1) + seq!['+'] + tape_move(d1, d2) + seq!['+'] + tape_move(d2, s) + seq![']']
        + tape_move(s, 0)
}

/// Set `d` to `flag`, then, if `s` is not 0, apply `sign` to `d` once and
/// clear `s`.
pub open spec fn test_cell(s: nat, d: nat, flag: Seq<char>, sign: char) -> Seq<char> {
    tape_move(0, d) + clear_loop() + flag + tape_move(d, s) + seq!['['] + tape_move(s, d) + seq![
        sign,
    ] + tape_move(d, s) + clear_loop() + seq![']'] + tape_move(s, 0)
}

/// The train that fetches the cell numbered by `p` into `d`.
pub open spec fn load_train(p: nat, d: nat) -> Seq<char> {
    load_depart(p) + load_outward() + load_homeward(d)
}

/// The train that delivers `v` to the cell numbered by `p`.
pub open spec fn store_train(v: nat, p: nat) -> Seq<char> {
    store_depart(v, p) + store_outward() + store_homeward()
}

/// The tape-language text of a template.
pub open spec fn template(op: Op) -> Seq<char> {
    match op {
        Op::LoadInd(p, d) => load_train(p as nat, d as nat),
        Op::StoreInd(v, p) => store_train(v as nat, p as nat),
        Op::ClearImm(d) => at_cell(d as nat, clear_loop()),
        Op::StoreImm(v, d) => at_cell(d as nat, clear_loop() + repeated('+', v as nat)),
        Op::StoreAddr(a, d) => at_cell(d as nat, clear_loop() + repeated('+', a as nat)),
        Op::Move(s, d) => drain(s as nat, d as nat, '+'),
        Op::Move2(s, d1, d2) => drain2(s as nat, d1 as nat, d2 as nat),
        Op::Copy(s, d, t) => carry2(s as nat, d as nat, t as nat) + carry(t as nat, s as nat),
        Op::Add(s, d) => drain(s as nat, d as nat, '+'),
        Op::Sub(s, d) => drain(s as nat, d as nat, '-'),
        Op::AddImm(v, d) => at_cell(d as nat, repeated('+', v as nat)),
        Op::SubImm(v, d) => at_cell(d as nat, repeated('-', v as nat)),
        Op::Not(s, d) => test_cell(s as nat, d as nat, seq!['+'], '-'),
        Op::Bitcast(s, d) => test_cell(s as nat, d as nat, Seq::empty(), '+'),
        Op::Ret(a) => at_cell(a as nat, seq!['-']),
        Op::Putc(a) => at_cell(a as nat, seq!['.']),
        Op::Getc(a) => at_cell(a as nat, seq![',']),
        Op::Branch(a) => at_cell(a as nat, clear_loop() + repeated('+', 1)),
        Op::Cond(c, t, f) => carry2(c as nat, t as nat, f as nat) + carry(f as nat, c as nat)
            + test_cell(c as nat, f as nat, seq!['+'], '-'),
    }
}

// ---------------------------------------------------------------------------
// Writing the templates
// ---------------------------------------------------------------------------

/// The head motion from cell `from` to cell `to`.
pub fn print_tape_move(from: usize, to: usize) -> (r: String)
    ensures
        r@ == tape_move(from as nat, to as nat),
{
    let mut out = String::new();
    put_move(&mut out, from, to);
    out
}

fn put_move(out: &mut String, from: usize, to: usize)
    ensures
        final(out)@ == old(out)@ + tape_move(from as nat, to as nat),
{
    if from > to {
        push_repeat(out, '<', from - to);
    } else {
        push_repeat(out, '>', to - from);
    }
}

fn put_clear(out: &mut String)
    ensures
        final(out)@ == old(out)@ + clear_loop(),
{
    out.push('[');
    out.push('-');
    out.push(']');
    assert(out@ =~= old(out)@ + clear_loop());
}

fn put_at(out: &mut String, cell: usize, clear: bool, sign: char, count: usize)
    ensures
        final(out)@ == old(out)@ + at_cell(
            cell as nat,
            if clear {
                clear_loop() + repeated(sign, count as nat)
            } else {
                repeated(sign, count as nat)
            },
        ),
{
    put_move(out, 0, cell);
    if clear {
        put_clear(out);
    }
    push_repeat(out, sign, count);
    put_move(out, cell, 0);
    assert(out@ =~= old(out)@ + at_cell(
        cell as nat,
        if clear {
            clear_loop() + repeated(sign, count as nat)
        } else {
            repeated(sign, count as nat)
        },
    ));
}

fn put_drain(out: &mut String, s: usize, d: usize, sign: char)
    ensures
        final(out)@ == old(out)@ + drain(s as nat, d as nat, sign),
{
    put_move(out, 0, s);
    out.push('[');
    out.push('-');
    put_move(out, s, d);
    out.push(sign);
    put_move(out, d, s);
    out.push(']');
    put_move(out, s, 0);
    assert(out@ =~= old(out)@ + drain(s as nat, d as nat, sign));
}

fn put_drain2(out: &mut String, s: usize, d1: usize, d2: usize)
    ensures
        final(out)@ == old(out)@ + drain2(s as nat, d1 as nat, d2 as nat),
{
    put_move(out, 0, s);
    out.push('[');
    out.push('-');
    put_move(out, s, d1);
    out.push('+');
    put_move(out, d1, d2);
    out.push('+');
    put_move(out, d2, s);
    out.push(']');
    put_move(out, s, 0);
    assert(out@ =~= old(out)@ + drain2(s as nat, d1 as nat, d2 as nat));
}

fn put_carry(out: &mut String, s: usize, d: usize)
    ensures
        final(out)@ == old(out)@ + carry(s as nat, d as nat),
{
    put_move(out, 0, d);
    put_clear(out);
    put_move(out, d, s);
    out.push('[');
    out.push('-');
    put_move(out, s, d);
    out.push('+');
    put_move(out, d, s);
    out.push(']');
    put_move(out, s, 0);
    assert(out@ =~= old(out)@ + carry(s as nat, d as nat));
}

fn put_carry2(out: &mut String, s: usize, d1: usize, d2: usize)
    ensures
        final(out)@ == old(out)@ + carry2(s as nat, d1 as nat, d2 as nat),
{
    put_move(out, 0, d1);
    put_clear(out);
    put_move(out, d1, d2);
    put_clear(out);
    put_move(out, d2, s);
    out.push('[');
    out.push('-');
    put_move(out, s, d1);
    out.push('+');
    put_move(out, d1, d2);
    out.push('+');
    put_move(out, d2, s);
    out.push(']');
    put_move(out, s, 0);
    assert(out@ =~= old(out)@ + carry2(s as nat, d1 as nat, d2 as nat));
}

fn put_test(out: &mut String, s: usize, d: usize, negate: bool)
    ensures
        final(out)@ == old(out)@ + if negate {
            test_cell(s as nat, d as nat, seq!['+'], '-')
        } else {
            test_cell(s as nat, d as nat, Seq::empty(), '+')
        },
{
    put_move(out, 0, d);
    put_clear(out);
    if negate {
        out.push('+');
    }
    put_move(out, d, s);
    out.push('[');
    put_move(out, s, d);
    if negate {
        out.push('-');
    } else {
        out.push('+');
    }
    put_move(out, d, s);
    put_clear(out);
    out.push(']');
    put_move(out, s, 0);
    assert(out@ =~= old(out)@ + if negate {
        test_cell(s as nat, d as nat, seq!['+'], '-')
    } else {
        test_cell(s as nat, d as nat, Seq::empty(), '+')
    });
}

proof fn lemma_join(base: Seq<char>, first: Seq<char>, second: Seq<char>)
    ensures
        base + first + second == base + (first + second),
{
    assert(base + first + second =~= base + (first + second));
}

/// A loop around `body`.
pub open spec fn looped(body: Seq<char>) -> Seq<char> {
    seq!['['] + body + seq![']']
}

/// The load train up to the point where it leaves the station: the pointer
/// is copied to cell 2, less the three cells of the station.
pub open spec fn load_depart(p: nat) -> Seq<char> {
    carry2(p, 1, 2) + carry(1, p) + at_cell(2, repeated('-', 3))
}

/// One step of the load train away from the station: the pointer copy goes
/// down, the return counter goes up, the cell in front is put behind, and the
/// station moves on by one cell.
pub open spec fn load_out_body() -> Seq<char> {
    seq!['-'] + tape_move(2, 1) + seq!['+'] + tape_move(1, 0) + carry(3, 0) + carry(2, 3) + carry(
        1,
        2,
    ) + tape_move(0, 3)
}

/// The run out to the cell and the copy of the cell into the station.
pub open spec fn load_outward() -> Seq<char> {
    tape_move(0, 2) + looped(load_out_body()) + tape_move(2, 0) + carry2(3, 0, 2) + carry(0, 3)
}

/// One step of the load train back to the station: the return counter goes
/// down, the station moves back by one cell, and the cell behind is put in
/// front again.
pub open spec fn load_home_body() -> Seq<char> {
    seq!['-'] + tape_move(1, 0) + carry(1, 0) + carry(2, 1) + tape_move(1, 0) + carry(0, 3)
        + tape_move(0, 1)
}

/// The run back to the station and the delivery to `d`.
pub open spec fn load_homeward(d: nat) -> Seq<char> {
    tape_move(0, 1) + looped(load_home_body()) + tape_move(1, 0) + carry(2, d)
}

/// The store train up to the point where it leaves the station: the pointer
/// is copied to cell 3, less the four cells of the station, and the value is
/// taken into cell 1.
pub open spec fn store_depart(v: nat, p: nat) -> Seq<char> {
    carry2(p, 2, 3) + carry(2, p) + at_cell(3, repeated('-', 4)) + carry(v, 1)
}

/// One step of the store train away from the station.
pub open spec fn store_out_body() -> Seq<char> {
    seq!['-'] + tape_move(3, 2) + seq!['+'] + tape_move(2, 0) + carry(4, 0) + carry(3, 4) + carry(
        2,
        3,
    ) + carry(1, 2) + tape_move(0, 4)
}

/// The run out to the cell and the delivery of the value there.
pub open spec fn store_outward() -> Seq<char> {
    tape_move(0, 3) + looped(store_out_body()) + tape_move(3, 0) + carry(1, 4)
}

/// One step of the store train back to the station.
pub open spec fn store_home_body() -> Seq<char> {
    seq!['-'] + tape_move(2, 0) + carry(2, 1) + tape_move(1, 0) + carry(0, 4) + tape_move(0, 2)
}

/// The run back to the station.
pub open spec fn store_homeward() -> Seq<char> {
    tape_move(0, 2) + looped(store_home_body()) + tape_move(2, 0)
}

fn put_char(out: &mut String, c: char)
    ensures
        final(out)@ == old(out)@ + seq![c],
{
    out.push(c);
    assert(out@ =~= old(out)@ + seq![c]);
}

fn put_load_out_body(out: &mut String)
    ensures
        final(out)@ == old(out)@ + load_out_body(),
{
    put_char(out, '-');
    put_move(out, 2, 1);
    put_char(out, '+');
    put_move(out, 1, 0);
    put_carry(out, 3, 0);
    put_carry(out, 2, 3);
    put_carry(out, 1, 2);
    put_move(out, 0, 3);
    assert(out@ =~= old(out)@ + load_out_body());
}

fn put_load_home_body(out: &mut String)
    ensures
        final(out)@ == old(out)@ + load_home_body(),
{
    put_char(out, '-');
    put_move(out, 1, 0);
    put_carry(out, 1, 0);
    put_carry(out, 2, 1);
    put_move(out, 1, 0);
    put_carry(out, 0, 3);
    put_move(out, 0, 1);
    assert(out@ =~= old(out)@ + load_home_body());
}

fn put_store_out_body(out: &mut String)
    ensures
        final(out)@ == old(out)@ + store_out_body(),
{
    put_char(out, '-');
    put_move(out, 3, 2);
    put_char(out, '+');
    put_move(out, 2, 0);
    put_carry(out, 4, 0);
    put_carry(out, 3, 4);
    put_carry(out, 2, 3);
    put_carry(out, 1, 2);
    put_move(out, 0, 4);
    assert(out@ =~= old(out)@ + store_out_body());
}

fn put_store_home_body(out: &mut String)
    ensures
        final(out)@ == old(out)@ + store_home_body(),
{
    put_char(out, '-');
    put_move(out, 2, 0);
    put_carry(out, 2, 1);
    put_move(out, 1, 0);
    put_carry(out, 0, 4);
    put_move(out, 0, 2);
    assert(out@ =~= old(out)@ + store_home_body());
}

fn put_load(out: &mut String, p: usize, d: usize)
    ensures
        final(out)@ == old(out)@ + load_train(p as nat, d as nat),
{
    let ghost base = out@;
    put_carry2(out, p, 1, 2);
    put_carry(out, 1, p);
    put_at(out, 2, false, '-', 3);
    assert(out@ =~= base + load_depart(p as nat));
    let ghost mid = out@;
    put_move(out, 0, 2);
    put_char(out, '[');
    put_load_out_body(out);
    put_char(out, ']');
    put_move(out, 2, 0);
    put_carry2(out, 3, 0, 2);
    put_carry(out, 0, 3);
    assert(out@ =~= mid + load_outward());
    let ghost far = out@;
    put_move(out, 0, 1);
    put_char(out, '[');
    put_load_home_body(out);
    put_char(out, ']');
    put_move(out, 1, 0);
    put_carry(out, 2, d);
    assert(out@ =~= far + load_homeward(d as nat));
    proof {
        lemma_join(base, load_depart(p as nat), load_outward());
        lemma_join(base, load_depart(p as nat) + load_outward(), load_homeward(d as nat));
    }
}

fn put_store(out: &mut String, v: usize, p: usize)
    ensures
        final(out)@ == old(out)@ + store_train(v as nat, p as nat),
{
    let ghost base = out@;
    put_carry2(out, p, 2, 3);
    put_carry(out, 2, p);
    put_at(out, 3, false, '-', 4);
    put_carry(out, v, 1);
    assert(out@ =~= base + store_depart(v as nat, p as nat));
    let ghost mid = out@;
    put_move(out, 0, 3);
    put_char(out, '[');
    put_store_out_body(out);
    put_char(out, ']');
    put_move(out, 3, 0);
    put_carry(out, 1, 4);
    assert(out@ =~= mid + store_outward());
    let ghost far = out@;
    put_move(out, 0, 2);
    put_char(out, '[');
    put_store_home_body(out);
    put_char(out, ']');
    put_move(out, 2, 0);
    assert(out@ =~= far + store_homeward());
    proof {
        lemma_join(base, store_depart(v as nat, p as nat), store_outward());
        lemma_join(base, store_depart(v as nat, p as nat) + store_outward(), store_homeward());
    }
}

fn put_template(out: &mut String, op: Op)
    ensures
        final(out)@ == old(out)@ + template(op),
{
    match op {
        Op::LoadInd(p, d) => put_load(out, p, d),
        Op::StoreInd(v, p) => put_store(out, v, p),
        Op::ClearImm(d) => {
            put_at(out, d, true, '+', 0);
            assert(clear_loop() + repeated('+', 0) =~= clear_loop());
        },
        Op::StoreImm(v, d) => put_at(out, d, true, '+', v as usize),
        Op::StoreAddr(a, d) => put_at(out, d, true, '+', a),
        Op::Move(s, d) => put_drain(out, s, d, '+'),
        Op::Move2(s, d1, d2) => put_drain2(out, s, d1, d2),
        Op::Copy(s, d, t) => {
            put_carry2(out, s, d, t);
            put_carry(out, t, s);
            assert(out@ =~= old(out)@ + template(op));
        },
        Op::Add(s, d) => put_drain(out, s, d, '+'),
        Op::Sub(s, d) => put_drain(out, s, d, '-'),
        Op::AddImm(v, d) => put_at(out, d, false, '+', v as usize),
        Op::SubImm(v, d) => put_at(out, d, false, '-', v as usize),
        Op::Not(s, d) => put_test(out, s, d, true),
        Op::Bitcast(s, d) => put_test(out, s, d, false),
        Op::Ret(a) => {
            put_at(out, a, false, '-', 1);
            assert(repeated('-', 1) =~= seq!['-']);
        },
        Op::Putc(a) => {
            put_at(out, a, false, '.', 1);
            assert(repeated('.', 1) =~= seq!['.']);
        },
        Op::Getc(a) => {
            put_at(out, a, false, ',', 1);
            assert(repeated(',', 1) =~= seq![',']);
        },
        Op::Branch(a) => put_at(out, a, true, '+', 1),
        Op::Cond(c, t, f) => {
            put_carry2(out, c, t, f);
            put_carry(out, f, c);
            put_test(out, c, f, true);
            assert(out@ =~= old(out)@ + template(op));
        },
    }
}

/// Two numbered cells in a phrase: `a`, the first cell, `b`, the second.
pub open spec fn phrase2(a: Seq<char>, x: nat, b: Seq<char>, y: nat) -> Seq<char> {
    a + decimal(x) + b + decimal(y)
}

/// Three numbered cells in a phrase.
pub open spec fn phrase3(a: Seq<char>, x: nat, b: Seq<char>, y: nat, c: Seq<char>, z: nat) -> Seq<
    char,
> {
    a + decimal(x) + b + decimal(y) + c + decimal(z)
}

/// What a template does, in words.
pub open spec fn description(op: Op) -> Seq<char> {
    match op {
        Op::LoadInd(p, d) => phrase2("load *#"@, p as nat, " to #"@, d as nat),
        Op::StoreInd(v, p) => phrase2("store #"@, v as nat, " at *#"@, p as nat),
        Op::ClearImm(d) => "clear #"@ + decimal(d as nat),
        Op::StoreImm(v, d) => phrase2("store "@, v as nat, " at #"@, d as nat),
        Op::StoreAddr(a, d) => phrase2("store &#"@, a as nat, " at #"@, d as nat),
        Op::Move(s, d) => phrase2("move #"@, s as nat, " to #"@, d as nat),
        Op::Move2(s, d1, d2) => phrase3("move #"@, s as nat, " to #"@, d1 as nat, " #"@, d2 as nat),
        Op::Copy(s, d, t) => phrase3("copy #"@, s as nat, " to #"@, d as nat, " via #"@, t as nat),
        Op::Add(s, d) => phrase2("add #"@, s as nat, " to #"@, d as nat),
        Op::Sub(s, d) => phrase2("sub #"@, s as nat, " from #"@, d as nat),
        Op::AddImm(v, d) => phrase2("add "@, v as nat, " to #"@, d as nat),
        Op::SubImm(v, d) => phrase2("sub "@, v as nat, " from #"@, d as nat),
        Op::Not(s, d) => phrase2("not #"@, s as nat, " to #"@, d as nat),
        Op::Bitcast(s, d) => phrase2("bitcast #"@, s as nat, " to #"@, d as nat),
        Op::Ret(a) => "return #"@ + decimal(a as nat),
        Op::Putc(a) => "putc #"@ + decimal(a as nat),
        Op::Getc(a) => "getc #"@ + decimal(a as nat),
        Op::Branch(a) => "do block #"@ + decimal(a as nat),
        Op::Cond(c, t, f) => phrase3("if #"@, c as nat, " then #"@, t as nat, " else #"@, f as nat),
    }
}

fn put_phrase1(w: &mut Writer, a: &str, x: usize)
    requires
        old(w).wf(),
    ensures
        old(w).wrote(final(w), a@ + decimal(x as nat)),
{
    let mark = w.open();
    w.text(a);
    w.number(x as u64);
    w.close(mark);
}

fn put_phrase2(w: &mut Writer, a: &str, x: usize, b: &str, y: usize)
    requires
        old(w).wf(),
    ensures
        old(w).wrote(final(w), phrase2(a@, x as nat, b@, y as nat)),
{
    let mark = w.open();
    w.text(a);
    w.number(x as u64);
    w.text(b);
    w.number(y as u64);
    w.close(mark);
}

fn put_phrase3(w: &mut Writer, a: &str, x: usize, b: &str, y: usize, c: &str, z: usize)
    requires
        old(w).wf(),
    ensures
        old(w).wrote(final(w), phrase3(a@, x as nat, b@, y as nat, c@, z as nat)),
{
    let mark = w.open();
    w.text(a);
    w.number(x as u64);
    w.text(b);
    w.number(y as u64);
    w.text(c);
    w.number(z as u64);
    w.close(mark);
}

fn describe(op: Op) -> (r: String)
    ensures
        r@ == description(op),
{
    let mut w = Writer::new();
    match op {
        Op::LoadInd(p, d) => put_phrase2(&mut w, "load *#", p, " to #", d),
        Op::StoreInd(v, p) => put_phrase2(&mut w, "store #", v, " at *#", p),
        Op::ClearImm(d) => put_phrase1(&mut w, "clear #", d),
        Op::StoreImm(v, d) => put_phrase2(&mut w, "store ", v as usize, " at #", d),
        Op::StoreAddr(a, d) => put_phrase2(&mut w, "store &#", a, " at #", d),
        Op::Move(s, d) => put_phrase2(&mut w, "move #", s, " to #", d),
        Op::Move2(s, d1, d2) => put_phrase3(&mut w, "move #", s, " to #", d1, " #", d2),
        Op::Copy(s, d, t) => put_phrase3(&mut w, "copy #", s, " to #", d, " via #", t),
        Op::Add(s, d) => put_phrase2(&mut w, "add #", s, " to #", d),
        Op::Sub(s, d) => put_phrase2(&mut w, "sub #", s, " from #", d),
        Op::AddImm(v, d) => put_phrase2(&mut w, "add ", v as usize, " to #", d),
        Op::SubImm(v, d) => put_phrase2(&mut w, "sub ", v as usize, " from #", d),
        Op::Not(s, d) => put_phrase2(&mut w, "not #", s, " to #", d),
        Op::Bitcast(s, d) => put_phrase2(&mut w, "bitcast #", s, " to #", d),
        Op::Ret(a) => put_phrase1(&mut w, "return #", a),
        Op::Putc(a) => put_phrase1(&mut w, "putc #", a),
        Op::Getc(a) => put_phrase1(&mut w, "getc #", a),
        Op::Branch(a) => put_phrase1(&mut w, "do block #", a),
        Op::Cond(c, t, f) => put_phrase3(&mut w, "if #", c, " then #", t, " else #", f),
    }
    let r = w.finish();
    assert(r@ =~= description(op));
    r
}

/// Width of the column that holds a template's description.
pub const DESCRIPTION_WIDTH: usize = 20;

/// A template as a line of a listing: its description, padded to the column
/// width, then its text.
pub open spec fn listing(op: Op) -> Seq<char> {
    padded(description(op), DESCRIPTION_WIDTH as nat) + template(op)
}

impl Op {
    /// The tape-language text of the template.
    pub fn print(&self) -> (r: String)
        ensures
            r@ == template(*self),
    {
        let mut out = String::new();
        put_template(&mut out, *self);
        out
    }

    /// The template with its description in front, for a listing.
    pub fn pretty_print(&self) -> (r: String)
        ensures
            r@ == listing(*self),
    {
        let words = describe(*self);
        let mut out = String::new();
        push_padded(&mut out, words.as_str(), DESCRIPTION_WIDTH);
        put_template(&mut out, *self);
        assert(out@ =~= listing(*self));
        out
    }
}

} // verus!
