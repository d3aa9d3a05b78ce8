//! What a program means, read by its structure rather than by its jumps: a
//! bracket pair is a loop around its body. The interpreter runs a program by
//! its jumps; this module shows that both readings agree.
use vstd::prelude::*;
use crate::interp::{
    balanced, delta, depth, lemma_close_unique, lemma_open_unique, matched, resolved, run, step,
    COps, InterpErr, Machine, Outcome,
};

verus! {

/// The part of a machine's state that a program works on.
pub struct Cells {
    /// Position of the head.
    pub mp: int,
    /// The cells.
    pub tape: Seq<u8>,
    /// What was printed so far.
    pub output: Seq<u8>,
}

impl Cells {
    /// The head is on the tape.
    pub open spec fn valid(self) -> bool {
        0 <= self.mp < self.tape.len()
    }

    /// The cell under the head.
    pub open spec fn cell(self) -> u8 {
        self.tape[self.mp]
    }
}

/// The cells of a machine.
pub open spec fn cells_of(m: Machine) -> Cells {
    Cells { mp: m.mp, tape: m.tape, output: m.output }
}

/// The machine that stands before operation `pc` with those cells, after
/// `steps` operations.
pub open spec fn at(pc: int, c: Cells, steps: nat) -> Machine {
    Machine { pc, mp: c.mp, tape: c.tape, output: c.output, steps }
}

/// How a structured run ends.
pub enum Effect {
    /// The code ran to its end, with these cells.
    Done(Cells),
    /// An operation could not be carried out.
    Fault(InterpErr),
    /// The allowance of loop rounds was used up.
    OutOfFuel,
}

/// The effect of one operation that is not a bracket.
pub open spec fn act(op: COps, c: Cells) -> Result<Cells, InterpErr> {
    let cell = c.cell() as int;
    match op {
        COps::Add(n) => if cell + n > 255 {
            Err(InterpErr::IntOverflow)
        } else if cell + n < 0 {
            Err(InterpErr::IntUnderflow)
        } else {
            Ok(Cells { tape: c.tape.update(c.mp, (cell + n) as u8), ..c })
        },
        COps::Mov(n) => if c.mp + n >= c.tape.len() {
            Err(InterpErr::MemOverflow)
        } else if c.mp + n < 0 {
            Err(InterpErr::MemUnderflow)
        } else {
            Ok(Cells { mp: c.mp + n, ..c })
        },
        COps::Putchar => Ok(Cells { output: c.output.push(c.cell()), ..c }),
        COps::Getchar => Err(InterpErr::Getchar),
        _ => Ok(c),
    }
}

/// The last operation of `code` closes the bracket at `i`.
pub open spec fn closes(code: Seq<COps>, i: int) -> bool {
    matched(code, i, code.len() - 1)
}

/// The index of the bracket that the last operation of `code` closes.
pub open spec fn opener(code: Seq<COps>) -> int {
    choose|i: int| closes(code, i)
}

/// The effect of `code`, with at most `fuel` loop rounds nested or in a row.
pub open spec fn sem(code: Seq<COps>, c: Cells, fuel: nat) -> Effect
    decreases fuel, code.len(), 0nat,
{
    if code.len() == 0 {
        Effect::Done(c)
    } else {
        match code.last() {
            COps::JmpIfNZ(_) => {
                let i = opener(code);
                if 0 <= i < code.len() - 1 {
                    match sem(code.take(i), c, fuel) {
                        Effect::Done(c1) => iterate(code.subrange(i + 1, code.len() - 1), c1, fuel),
                        other => other,
                    }
                } else {
                    Effect::Done(c)
                }
            },
            COps::JmpIfZ(_) => Effect::Done(c),
            op => match sem(code.drop_last(), c, fuel) {
                Effect::Done(c1) => match act(op, c1) {
                    Ok(c2) => Effect::Done(c2),
                    Err(e) => Effect::Fault(e),
                },
                other => other,
            },
        }
    }
}

/// The effect of a loop around `body`: while the cell under the head is not
/// zero, the body runs.
pub open spec fn iterate(body: Seq<COps>, c: Cells, fuel: nat) -> Effect
    decreases fuel, body.len(), 1nat,
{
    if c.cell() == 0 {
        Effect::Done(c)
    } else if fuel == 0 {
        Effect::OutOfFuel
    } else {
        match sem(body, c, (fuel - 1) as nat) {
            Effect::Done(c1) => iterate(body, c1, (fuel - 1) as nat),
            other => other,
        }
    }
}

/// The number of operations that the run of `code` by jumps takes, where the
/// code runs to its end: one for every operation that is no bracket, and one
/// for every test of a loop.
pub open spec fn cost(code: Seq<COps>, c: Cells, fuel: nat) -> nat
    decreases fuel, code.len(), 0nat,
{
    if code.len() == 0 {
        0
    } else {
        match code.last() {
            COps::JmpIfNZ(_) => {
                let i = opener(code);
                if 0 <= i < code.len() - 1 {
                    match sem(code.take(i), c, fuel) {
                        Effect::Done(c1) => cost(code.take(i), c, fuel) + rounds_cost(
                            code.subrange(i + 1, code.len() - 1),
                            c1,
                            fuel,
                        ),
                        _ => 0,
                    }
                } else {
                    0
                }
            },
            COps::JmpIfZ(_) => 0,
            _ => cost(code.drop_last(), c, fuel) + 1,
        }
    }
}

/// The number of operations that a loop around `body` takes: one for every
/// test, and what the body takes in every round.
pub open spec fn rounds_cost(body: Seq<COps>, c: Cells, fuel: nat) -> nat
    decreases fuel, body.len(), 1nat,
{
    if c.cell() == 0 {
        1
    } else if fuel == 0 {
        0
    } else {
        match sem(body, c, (fuel - 1) as nat) {
            Effect::Done(c1) => 1 + cost(body, c, (fuel - 1) as nat) + rounds_cost(
                body,
                c1,
                (fuel - 1) as nat,
            ),
            _ => 0,
        }
    }
}

// ---------------------------------------------------------------------------
// Runs by jumps, step by step
// ---------------------------------------------------------------------------

/// The machine after exactly `k` operations, where all of them can be
/// carried out.
pub open spec fn advance(ops: Seq<COps>, m: Machine, k: nat) -> Option<Machine>
    decreases k,
{
    if k == 0 {
        Some(m)
    } else if !(0 <= m.pc < ops.len()) {
        None
    } else {
        match step(ops, m) {
            Err(_) => None,
            Ok(next) => advance(ops, next, (k - 1) as nat),
        }
    }
}

/// A run that can make `k` operations goes on from where they lead.
pub proof fn lemma_run_after(ops: Seq<COps>, m: Machine, k: nat, rest: nat)
    requires
        advance(ops, m, k) is Some,
    ensures
        run(ops, m, k + rest) == run(ops, advance(ops, m, k)->0, rest),
    decreases k,
{
    if k > 0 {
        lemma_run_after(ops, step(ops, m)->Ok_0, (k - 1) as nat, rest);
    }
}

/// One operation that can be carried out is an advance by one.
pub proof fn lemma_advance_one(ops: Seq<COps>, m: Machine)
    requires
        0 <= m.pc < ops.len(),
        step(ops, m) is Ok,
    ensures
        advance(ops, m, 1) == Some(step(ops, m)->Ok_0),
{
    reveal_with_fuel(advance, 2);
}

/// Operations made one after the other add up.
pub proof fn lemma_advance_add(ops: Seq<COps>, m: Machine, k1: nat, k2: nat)
    requires
        advance(ops, m, k1) is Some,
        advance(ops, advance(ops, m, k1)->0, k2) is Some,
    ensures
        advance(ops, m, k1 + k2) == advance(ops, advance(ops, m, k1)->0, k2),
    decreases k1,
{
    if k1 > 0 {
        lemma_advance_add(ops, step(ops, m)->Ok_0, (k1 - 1) as nat, k2);
    }
}

/// A run that has ended, or failed, ends the same way with a larger
/// allowance.
pub proof fn lemma_run_stable(ops: Seq<COps>, m: Machine, f1: nat, f2: nat)
    requires
        f1 <= f2,
        !(run(ops, m, f1) is OutOfFuel),
    ensures
        run(ops, m, f2) == run(ops, m, f1),
    decreases f1,
{
    if m.pc >= ops.len() {
    } else if f1 == 0 {
    } else {
        match step(ops, m) {
            Err(_) => {},
            Ok(next) => {
                lemma_run_stable(ops, next, (f1 - 1) as nat, (f2 - 1) as nat);
            },
        }
    }
}

/// A run that is cut short by its allowance is cut short by any smaller one.
pub proof fn lemma_run_short(ops: Seq<COps>, m: Machine, f1: nat, f2: nat)
    requires
        f1 <= f2,
        run(ops, m, f2) is OutOfFuel,
    ensures
        run(ops, m, f1) is OutOfFuel,
{
    if !(run(ops, m, f1) is OutOfFuel) {
        lemma_run_stable(ops, m, f1, f2);
    }
}

// ---------------------------------------------------------------------------
// Depth and matching inside a part of the code
// ---------------------------------------------------------------------------

/// Depth inside a part of the code is depth in the whole, counted from where
/// the part starts.
pub proof fn lemma_depth_part(code: Seq<COps>, a: int, b: int, k: int)
    requires
        0 <= a <= b <= code.len(),
        0 <= k <= b - a,
    ensures
        depth(code.subrange(a, b), k) == depth(code, a + k) - depth(code, a),
    decreases k,
{
    if k > 0 {
        lemma_depth_part(code, a, b, k - 1);
        assert(code.subrange(a, b)[k - 1] == code[a + k - 1]);
    }
}

/// Two brackets are partners in a part of the code exactly when they are
/// partners in the whole.
pub proof fn lemma_matched_part(code: Seq<COps>, a: int, b: int, i: int, j: int)
    requires
        0 <= a <= i < j < b <= code.len(),
    ensures
        matched(code.subrange(a, b), i - a, j - a) == matched(code, i, j),
{
    let part = code.subrange(a, b);
    lemma_depth_part(code, a, b, i - a);
    lemma_depth_part(code, a, b, j + 1 - a);
    assert(part[i - a] == code[i]);
    assert(part[j - a] == code[j]);
    if matched(code, i, j) {
        assert forall|k: int| i - a < k <= j - a implies #[trigger] depth(part, k) > depth(
            part,
            i - a,
        ) by {
            lemma_depth_part(code, a, b, k);
            assert(depth(code, a + k) > depth(code, i));
        }
    }
    if matched(part, i - a, j - a) {
        assert forall|k: int| i < k <= j implies #[trigger] depth(code, k) > depth(code, i) by {
            lemma_depth_part(code, a, b, k - a);
            assert(depth(part, k - a) > depth(part, i - a));
        }
    }
}

/// In balanced code that ends in a closing bracket, that bracket has a
/// partner. The search runs from `j` down; everything from `j` on lies deeper
/// than the end of the code.
pub proof fn lemma_opener_found(code: Seq<COps>, j: int) -> (i: int)
    requires
        balanced(code),
        code.len() > 0,
        code.last() is JmpIfNZ,
        0 <= j <= code.len() - 1,
        forall|k: int| j <= k <= code.len() - 1 ==> #[trigger] depth(code, k) > 0,
    ensures
        matched(code, i, code.len() - 1),
    decreases j,
{
    if j == 0 {
        assert(depth(code, 0) > 0);
        0
    } else {
        assert(depth(code, j) == depth(code, j - 1) + delta(code[j - 1]));
        assert(depth(code, j - 1) >= 0);
        if depth(code, j - 1) == 0 {
            assert(depth(code, j) > 0);
            j - 1
        } else {
            lemma_opener_found(code, j - 1)
        }
    }
}

/// In balanced code that ends in a closing bracket, `opener` is that
/// bracket's partner.
pub proof fn lemma_opener(code: Seq<COps>)
    requires
        balanced(code),
        code.len() > 0,
        code.last() is JmpIfNZ,
    ensures
        matched(code, opener(code), code.len() - 1),
{
    let n = code.len() as int;
    assert(depth(code, n) == depth(code, n - 1) + delta(code[n - 1]));
    let i = lemma_opener_found(code, n - 1);
    assert(closes(code, i));
}

/// Balanced code does not end in an opening bracket.
pub proof fn lemma_no_open_end(code: Seq<COps>)
    requires
        balanced(code),
        code.len() > 0,
    ensures
        !(code.last() is JmpIfZ),
{
    let n = code.len() as int;
    assert(depth(code, n) == depth(code, n - 1) + delta(code[n - 1]));
    assert(depth(code, n - 1) >= 0);
}

/// Balanced code without its last operation, where that is no bracket, is
/// balanced.
pub proof fn lemma_balanced_front(code: Seq<COps>)
    requires
        balanced(code),
        code.len() > 0,
        delta(code.last()) == 0,
    ensures
        balanced(code.drop_last()),
{
    let n = code.len() as int;
    let front = code.drop_last();
    assert(front =~= code.subrange(0, n - 1));
    assert(depth(code, n) == depth(code, n - 1) + delta(code[n - 1]));
    assert forall|k: int| 0 <= k <= front.len() implies depth(front, k) >= 0 by {
        lemma_depth_part(code, 0, n - 1, k);
    }
    lemma_depth_part(code, 0, n - 1, n - 1);
}

/// In balanced code that ends in a loop, what stands before the loop and the
/// body of the loop are balanced.
pub proof fn lemma_balanced_loop(code: Seq<COps>, i: int)
    requires
        balanced(code),
        matched(code, i, code.len() - 1),
    ensures
        balanced(code.take(i)),
        balanced(code.subrange(i + 1, code.len() - 1)),
{
    let n = code.len() as int;
    let before = code.take(i);
    let body = code.subrange(i + 1, n - 1);
    assert(before =~= code.subrange(0, i));
    assert(depth(code, n) == depth(code, i));
    assert forall|k: int| 0 <= k <= before.len() implies depth(before, k) >= 0 by {
        lemma_depth_part(code, 0, i, k);
    }
    lemma_depth_part(code, 0, i, i);
    assert(depth(code, i + 1) == depth(code, i) + delta(code[i]));
    assert(depth(code, n) == depth(code, n - 1) + delta(code[n - 1]));
    assert forall|k: int| 0 <= k <= body.len() implies depth(body, k) >= 0 by {
        lemma_depth_part(code, i + 1, n - 1, k);
        assert(depth(code, i + 1 + k) > depth(code, i));
    }
    lemma_depth_part(code, i + 1, n - 1, n - 1 - (i + 1));
}

// ---------------------------------------------------------------------------
// The run by jumps does what the structure says
// ---------------------------------------------------------------------------

/// The run by jumps that starts before operation `a` with cells `c` does what
/// `e` says: it comes to stand before operation `b` after `k` operations, or
/// fails after `k` operations, or is still under way after `fuel` operations.
pub open spec fn follows(
    ops: Seq<COps>,
    a: int,
    b: int,
    c: Cells,
    n: nat,
    e: Effect,
    fuel: nat,
    k: nat,
) -> bool {
    let start = at(a, c, n);
    match e {
        Effect::Done(c2) => advance(ops, start, k) == Some(at(b, c2, n + k)),
        Effect::Fault(err) => {
            &&& advance(ops, start, k) is Some
            &&& 0 <= (advance(ops, start, k)->0).pc < ops.len()
            &&& step(ops, advance(ops, start, k)->0) == Err::<Machine, InterpErr>(err)
        },
        Effect::OutOfFuel => run(ops, start, fuel) is OutOfFuel,
    }
}

/// What follows from the middle of a run follows from its start.
pub proof fn lemma_follows_after(
    ops: Seq<COps>,
    a: int,
    mid: int,
    b: int,
    c: Cells,
    c1: Cells,
    n: nat,
    k1: nat,
    e: Effect,
    fuel: nat,
    extra: nat,
    k2: nat,
)
    requires
        advance(ops, at(a, c, n), k1) == Some(at(mid, c1, n + k1)),
        follows(ops, mid, b, c1, n + k1, e, fuel, k2),
        extra <= k1,
    ensures
        follows(ops, a, b, c, n, e, fuel + extra, k1 + k2),
{
    let start = at(a, c, n);
    let middle = at(mid, c1, n + k1);
    match e {
        Effect::OutOfFuel => {
            lemma_run_after(ops, start, k1, fuel);
            lemma_run_short(ops, start, fuel + extra, k1 + fuel);
        },
        _ => {
            lemma_advance_add(ops, start, k1, k2);
        },
    }
}

/// The operation at a closing bracket's partner is a jump to that bracket,
/// and the other way round.
pub proof fn lemma_jumps(code: Seq<COps>, ops: Seq<COps>, i: int, j: int)
    requires
        resolved(code, ops),
        matched(code, i, j),
    ensures
        ops[i] matches COps::JmpIfZ(t) && t == j,
        ops[j] matches COps::JmpIfNZ(t) && t == i,
{
    assert(code[i] is JmpIfZ);
    assert(code[j] is JmpIfNZ);
    match ops[i] {
        COps::JmpIfZ(t) => {
            lemma_close_unique(code, i, t as int, j);
        },
        _ => {},
    }
    match ops[j] {
        COps::JmpIfNZ(t) => {
            lemma_open_unique(code, t as int, i, j);
        },
        _ => {},
    }
}

/// A part of the code that is balanced in itself runs by jumps as its
/// structure says.
pub proof fn lemma_part_follows(
    code: Seq<COps>,
    ops: Seq<COps>,
    a: int,
    b: int,
    c: Cells,
    n: nat,
    fuel: nat,
) -> (k: nat)
    requires
        resolved(code, ops),
        0 <= a <= b <= code.len(),
        balanced(code.subrange(a, b)),
    ensures
        follows(ops, a, b, c, n, sem(code.subrange(a, b), c, fuel), fuel, k),
        sem(code.subrange(a, b), c, fuel) is Done ==> k == cost(code.subrange(a, b), c, fuel),
    decreases fuel, b - a, 0nat,
{
    let part = code.subrange(a, b);
    if part.len() == 0 {
        return 0;
    }
    assert(part.last() == code[b - 1]);
    match part.last() {
        COps::JmpIfNZ(_) => {
            lemma_opener(part);
            let i = a + opener(part);
            lemma_matched_part(code, a, b, i, b - 1);
            lemma_balanced_loop(part, opener(part));
            assert(part.take(opener(part)) =~= code.subrange(a, i));
            assert(part.subrange(opener(part) + 1, part.len() - 1) =~= code.subrange(i + 1, b - 1));
            let k1 = lemma_part_follows(code, ops, a, i, c, n, fuel);
            match sem(code.subrange(a, i), c, fuel) {
                Effect::Done(c1) => {
                    let k2 = lemma_loop_follows(code, ops, i, b - 1, c1, n + k1, fuel, true);
                    lemma_follows_after(
                        ops,
                        a,
                        i,
                        b,
                        c,
                        c1,
                        n,
                        k1,
                        iterate(code.subrange(i + 1, b - 1), c1, fuel),
                        fuel,
                        0,
                        k2,
                    );
                    k1 + k2
                },
                _ => k1,
            }
        },
        COps::JmpIfZ(_) => {
            lemma_no_open_end(part);
            0
        },
        op => {
            lemma_balanced_front(part);
            assert(part.drop_last() =~= code.subrange(a, b - 1));
            let k1 = lemma_part_follows(code, ops, a, b - 1, c, n, fuel);
            match sem(code.subrange(a, b - 1), c, fuel) {
                Effect::Done(c1) => {
                    let here = at(b - 1, c1, n + k1);
                    assert(ops[b - 1] == code[b - 1]);
                    match act(op, c1) {
                        Ok(c2) => {
                            assert(step(ops, here) == Ok::<Machine, InterpErr>(
                                at(b, c2, n + k1 + 1),
                            ));
                            lemma_advance_one(ops, here);
                            lemma_advance_add(ops, at(a, c, n), k1, 1);
                            k1 + 1
                        },
                        Err(e) => {
                            assert(step(ops, here) == Err::<Machine, InterpErr>(e));
                            k1
                        },
                    }
                },
                _ => k1,
            }
        },
    }
}

/// A loop runs by jumps as its structure says, whether the run stands at the
/// opening bracket (`from_top`) or, after a round, at the closing one.
pub proof fn lemma_loop_follows(
    code: Seq<COps>,
    ops: Seq<COps>,
    i: int,
    j: int,
    c: Cells,
    n: nat,
    fuel: nat,
    from_top: bool,
) -> (k: nat)
    requires
        resolved(code, ops),
        matched(code, i, j),
        balanced(code.subrange(i + 1, j)),
    ensures
        follows(
            ops,
            if from_top {
                i
            } else {
                j
            },
            j + 1,
            c,
            n,
            iterate(code.subrange(i + 1, j), c, fuel),
            fuel,
            k,
        ),
        iterate(code.subrange(i + 1, j), c, fuel) is Done ==> k == rounds_cost(
            code.subrange(i + 1, j),
            c,
            fuel,
        ),
    decreases fuel, j - i, 1nat,
{
    lemma_jumps(code, ops, i, j);
    let pc = if from_top {
        i
    } else {
        j
    };
    let here = at(pc, c, n);
    let body = code.subrange(i + 1, j);
    if c.cell() == 0 {
        assert(step(ops, here) == Ok::<Machine, InterpErr>(at(j + 1, c, n + 1)));
        lemma_advance_one(ops, here);
        1
    } else if fuel == 0 {
        0
    } else {
        let inside = at(i + 1, c, n + 1);
        assert(step(ops, here) == Ok::<Machine, InterpErr>(inside));
        lemma_advance_one(ops, here);
        let k1 = lemma_part_follows(code, ops, i + 1, j, c, n + 1, (fuel - 1) as nat);
        match sem(body, c, (fuel - 1) as nat) {
            Effect::Done(c1) => {
                lemma_advance_add(ops, here, 1, k1);
                let k2 = lemma_loop_follows(
                    code,
                    ops,
                    i,
                    j,
                    c1,
                    n + 1 + k1,
                    (fuel - 1) as nat,
                    false,
                );
                lemma_follows_after(
                    ops,
                    pc,
                    j,
                    j + 1,
                    c,
                    c1,
                    n,
                    1 + k1,
                    iterate(body, c1, (fuel - 1) as nat),
                    (fuel - 1) as nat,
                    1,
                    k2,
                );
                1 + k1 + k2
            },
            Effect::Fault(e) => {
                lemma_advance_add(ops, here, 1, k1);
                1 + k1
            },
            Effect::OutOfFuel => 0,
        }
    }
}

/// Balanced code whose structure says that it runs to its end does so by
/// jumps, with the same cells, after `k` operations.
pub proof fn lemma_structure_to_run(code: Seq<COps>, ops: Seq<COps>, c: Cells, fuel: nat) -> (k:
    nat)
    requires
        resolved(code, ops),
        balanced(code),
        sem(code, c, fuel) is Done,
    ensures
        run(ops, at(0, c, 0), k) == Outcome::Halted(
            at(code.len() as int, sem(code, c, fuel)->Done_0, k),
        ),
        k == cost(code, c, fuel),
{
    assert(code.subrange(0, code.len() as int) =~= code);
    let k = lemma_part_follows(code, ops, 0, code.len() as int, c, 0, fuel);
    lemma_run_after(ops, at(0, c, 0), k, 0);
    k
}

/// A run makes no more operations than its allowance.
pub proof fn lemma_run_steps(ops: Seq<COps>, m: Machine, fuel: nat)
    requires
        run(ops, m, fuel) is Halted,
    ensures
        (run(ops, m, fuel)->Halted_0).steps <= m.steps + fuel,
    decreases fuel,
{
    if m.pc < ops.len() && fuel > 0 {
        lemma_run_steps(ops, step(ops, m)->Ok_0, (fuel - 1) as nat);
    }
}

/// Balanced code that runs to its end by jumps does so by its structure,
/// with the same cells.
pub proof fn lemma_run_to_structure(code: Seq<COps>, ops: Seq<COps>, c: Cells, fuel: nat)
    requires
        resolved(code, ops),
        balanced(code),
        run(ops, at(0, c, 0), fuel) is Halted,
    ensures
        sem(code, c, fuel) == Effect::Done(cells_of(run(ops, at(0, c, 0), fuel)->Halted_0)),
{
    assert(code.subrange(0, code.len() as int) =~= code);
    let start = at(0, c, 0);
    let k = lemma_part_follows(code, ops, 0, code.len() as int, c, 0, fuel);
    match sem(code, c, fuel) {
        Effect::Done(c2) => {
            lemma_run_after(ops, start, k, 0);
            if k <= fuel {
                lemma_run_stable(ops, start, k, fuel);
            } else {
                lemma_run_stable(ops, start, fuel, k);
            }
        },
        Effect::Fault(e) => {
            lemma_run_after(ops, start, k, 1);
            let failing = advance(ops, start, k)->0;
            assert(run(ops, failing, 1) == Outcome::Fault(e));
            if k + 1 <= fuel {
                lemma_run_stable(ops, start, k + 1, fuel);
            } else {
                lemma_run_stable(ops, start, fuel, k + 1);
            }
        },
        Effect::OutOfFuel => {},
    }
}

/// A structured run keeps the head on the tape.
pub proof fn lemma_sem_valid(code: Seq<COps>, c: Cells, fuel: nat)
    requires
        c.valid(),
        sem(code, c, fuel) is Done,
    ensures
        (sem(code, c, fuel)->Done_0).valid(),
    decreases fuel, code.len(), 0nat,
{
    if code.len() > 0 {
        match code.last() {
            COps::JmpIfNZ(_) => {
                let i = opener(code);
                if 0 <= i < code.len() - 1 {
                    lemma_sem_valid(code.take(i), c, fuel);
                    lemma_iterate_valid(
                        code.subrange(i + 1, code.len() - 1),
                        sem(code.take(i), c, fuel)->Done_0,
                        fuel,
                    );
                }
            },
            COps::JmpIfZ(_) => {},
            _ => {
                lemma_sem_valid(code.drop_last(), c, fuel);
            },
        }
    }
}

/// A loop keeps the head on the tape.
pub proof fn lemma_iterate_valid(body: Seq<COps>, c: Cells, fuel: nat)
    requires
        c.valid(),
        iterate(body, c, fuel) is Done,
    ensures
        (iterate(body, c, fuel)->Done_0).valid(),
    decreases fuel, body.len(), 1nat,
{
    if c.cell() != 0 && fuel > 0 {
        lemma_sem_valid(body, c, (fuel - 1) as nat);
        lemma_iterate_valid(body, sem(body, c, (fuel - 1) as nat)->Done_0, (fuel - 1) as nat);
    }
}

} // verus!
