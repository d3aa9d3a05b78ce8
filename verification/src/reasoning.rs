//! Rules for working out what a piece of code does from its parts: one more
//! operation, a run of equal operations, a loop.
use vstd::prelude::*;
use crate::interp::{balanced, delta, depth, lemma_open_unique, matched, op_of_char, parse, COps};
use crate::semantics::{
    act, closes, iterate, lemma_balanced_front, lemma_balanced_loop, lemma_depth_part,
    lemma_matched_part, lemma_no_open_end, lemma_opener, opener, sem, Cells, Effect,
};
use crate::text::repeated;

verus! {

/// `op`, `n` times.
pub open spec fn run_of(op: COps, n: nat) -> Seq<COps> {
    Seq::new(n, |i: int| op)
}

/// The cells with the head moved by `by`.
pub open spec fn moved(c: Cells, by: int) -> Cells {
    Cells { mp: c.mp + by, ..c }
}

/// The cells with the cell under the head set to `v`.
pub open spec fn put(c: Cells, v: int) -> Cells {
    Cells { tape: c.tape.update(c.mp, v as u8), ..c }
}

/// One more operation that is no bracket acts on what the code before it
/// leaves.
pub proof fn lemma_then_op(x: Seq<COps>, op: COps, c: Cells, fuel: nat)
    requires
        delta(op) == 0,
        sem(x, c, fuel) is Done,
    ensures
        sem(x.push(op), c, fuel) == match act(op, sem(x, c, fuel)->Done_0) {
            Ok(c2) => Effect::Done(c2),
            Err(e) => Effect::Fault(e),
        },
{
    assert(x.push(op).drop_last() =~= x);
}

/// A run of moves to one side moves the head by their number.
pub proof fn lemma_then_moves(x: Seq<COps>, right: bool, n: nat, c: Cells, fuel: nat)
    requires
        sem(x, c, fuel) is Done,
        (sem(x, c, fuel)->Done_0).valid(),
        right ==> (sem(x, c, fuel)->Done_0).mp + n < (sem(x, c, fuel)->Done_0).tape.len(),
        !right ==> (sem(x, c, fuel)->Done_0).mp - n >= 0,
    ensures
        sem(
            x + run_of(
                COps::Mov(
                    if right {
                        1i64
                    } else {
                        -1i64
                    },
                ),
                n,
            ),
            c,
            fuel,
        ) == Effect::Done(
            moved(
                sem(x, c, fuel)->Done_0,
                if right {
                    n as int
                } else {
                    -(n as int)
                },
            ),
        ),
    decreases n,
{
    let op = COps::Mov(
        if right {
            1i64
        } else {
            -1i64
        },
    );
    let c1 = sem(x, c, fuel)->Done_0;
    if n == 0 {
        assert(x + run_of(op, 0) =~= x);
    } else {
        lemma_then_moves(x, right, (n - 1) as nat, c, fuel);
        assert((x + run_of(op, (n - 1) as nat)).push(op) =~= x + run_of(op, n));
        lemma_then_op(x + run_of(op, (n - 1) as nat), op, c, fuel);
    }
}

/// A run of increments, or of decrements, changes the cell under the head by
/// their number.
pub proof fn lemma_then_adds(x: Seq<COps>, up: bool, n: nat, c: Cells, fuel: nat)
    requires
        sem(x, c, fuel) is Done,
        (sem(x, c, fuel)->Done_0).valid(),
        up ==> (sem(x, c, fuel)->Done_0).cell() + n <= 255,
        !up ==> (sem(x, c, fuel)->Done_0).cell() - n >= 0,
    ensures
        sem(
            x + run_of(
                COps::Add(
                    if up {
                        1i32
                    } else {
                        -1i32
                    },
                ),
                n,
            ),
            c,
            fuel,
        ) == Effect::Done(
            put(
                sem(x, c, fuel)->Done_0,
                (sem(x, c, fuel)->Done_0).cell() + if up {
                    n as int
                } else {
                    -(n as int)
                },
            ),
        ),
    decreases n,
{
    let op = COps::Add(
        if up {
            1i32
        } else {
            -1i32
        },
    );
    let c1 = sem(x, c, fuel)->Done_0;
    if n == 0 {
        assert(x + run_of(op, 0) =~= x);
        assert(put(c1, c1.cell() as int).tape =~= c1.tape);
    } else {
        lemma_then_adds(x, up, (n - 1) as nat, c, fuel);
        assert((x + run_of(op, (n - 1) as nat)).push(op) =~= x + run_of(op, n));
        lemma_then_op(x + run_of(op, (n - 1) as nat), op, c, fuel);
        let by = if up {
            n as int
        } else {
            -(n as int)
        };
        let before = put(
            c1,
            c1.cell() + if up {
                (n - 1) as int
            } else {
                -((n - 1) as int)
            },
        );
        assert(act(op, before)->Ok_0.tape =~= put(c1, c1.cell() + by).tape);
    }
}

/// A loop behind some code runs on what that code leaves.
pub proof fn lemma_then_loop(x: Seq<COps>, body: Seq<COps>, c: Cells, fuel: nat)
    requires
        balanced(body),
        sem(x, c, fuel) is Done,
    ensures
        sem(x + seq![COps::JmpIfZ(0)] + body + seq![COps::JmpIfNZ(0)], c, fuel) == iterate(
            body,
            sem(x, c, fuel)->Done_0,
            fuel,
        ),
{
    let code = x + seq![COps::JmpIfZ(0)] + body + seq![COps::JmpIfNZ(0)];
    let n = code.len() as int;
    let p = x.len() as int;
    assert(code.subrange(p + 1, n - 1) =~= body);
    assert(code.take(p) =~= x);
    assert(code[p] == COps::JmpIfZ(0));
    assert(code[n - 1] == COps::JmpIfNZ(0));
    assert(depth(code, p + 1) == depth(code, p) + delta(code[p]));
    assert(depth(code, n) == depth(code, n - 1) + delta(code[n - 1]));
    assert forall|k: int| p < k <= n - 1 implies #[trigger] depth(code, k) > depth(code, p) by {
        lemma_depth_part(code, p + 1, n - 1, k - p - 1);
        assert(depth(body, k - p - 1) >= 0);
    }
    lemma_depth_part(code, p + 1, n - 1, n - 1 - (p + 1));
    assert(matched(code, p, n - 1));
    assert(closes(code, p));
    lemma_open_unique(code, opener(code), p, n - 1);
}

/// Putting three pieces of code together, either way.
pub proof fn lemma_regroup(a: Seq<COps>, b: Seq<COps>, c: Seq<COps>)
    ensures
        (a + b) + c == a + (b + c),
{
    assert((a + b) + c =~= a + (b + c));
}

/// Code without brackets is balanced.
pub proof fn lemma_plain_balanced(code: Seq<COps>)
    requires
        forall|i: int| 0 <= i < code.len() ==> delta(#[trigger] code[i]) == 0,
    ensures
        balanced(code),
        forall|k: int| 0 <= k <= code.len() ==> depth(code, k) == 0,
{
    assert forall|k: int| 0 <= k <= code.len() implies depth(code, k) == 0 by {
        lemma_plain_depth(code, k);
    }
}

proof fn lemma_plain_depth(code: Seq<COps>, k: int)
    requires
        forall|i: int| 0 <= i < code.len() ==> delta(#[trigger] code[i]) == 0,
        0 <= k <= code.len(),
    ensures
        depth(code, k) == 0,
    decreases k,
{
    if k > 0 {
        lemma_plain_depth(code, k - 1);
    }
}

/// A loop around balanced code, behind balanced code, is balanced code.
pub proof fn lemma_loop_balanced(x: Seq<COps>, body: Seq<COps>)
    requires
        balanced(x),
        balanced(body),
    ensures
        balanced(x + seq![COps::JmpIfZ(0)] + body + seq![COps::JmpIfNZ(0)]),
{
    let code = x + seq![COps::JmpIfZ(0)] + body + seq![COps::JmpIfNZ(0)];
    let n = code.len() as int;
    let p = x.len() as int;
    assert(code.subrange(p + 1, n - 1) =~= body);
    assert(code.subrange(0, p) =~= x);
    assert(code[p] == COps::JmpIfZ(0));
    assert(code[n - 1] == COps::JmpIfNZ(0));
    lemma_depth_part(code, 0, p, p);
    assert(depth(code, p + 1) == depth(code, p) + delta(code[p]));
    assert(depth(code, n) == depth(code, n - 1) + delta(code[n - 1]));
    lemma_depth_part(code, p + 1, n - 1, n - 1 - (p + 1));
    assert forall|k: int| 0 <= k <= n implies depth(code, k) >= 0 by {
        if k <= p {
            lemma_depth_part(code, 0, p, k);
        } else if k <= n - 1 {
            lemma_depth_part(code, p + 1, n - 1, k - p - 1);
            assert(depth(body, k - p - 1) >= 0);
        }
    }
}

/// Balanced code followed by code without brackets is balanced.
pub proof fn lemma_line_balanced(x: Seq<COps>, line: Seq<COps>)
    requires
        balanced(x),
        forall|i: int| 0 <= i < line.len() ==> delta(#[trigger] line[i]) == 0,
    ensures
        balanced(x + line),
{
    let code = x + line;
    let p = x.len() as int;
    assert(code.subrange(0, p) =~= x);
    assert(code.subrange(p, code.len() as int) =~= line);
    lemma_plain_balanced(line);
    lemma_depth_part(code, 0, p, p);
    assert forall|k: int| 0 <= k <= code.len() implies depth(code, k) >= 0 by {
        if k <= p {
            lemma_depth_part(code, 0, p, k);
        } else {
            lemma_depth_part(code, p, code.len() as int, k - p);
        }
    }
    lemma_depth_part(code, p, code.len() as int, code.len() - p);
}

// ---------------------------------------------------------------------------
// From text to operations
// ---------------------------------------------------------------------------

/// Reading text with one more character.
pub proof fn lemma_parse_push(text: Seq<char>, ch: char)
    ensures
        parse(text.push(ch)) == match op_of_char(ch) {
            Some(op) => parse(text).push(op),
            None => parse(text),
        },
{
    assert(text.push(ch).drop_last() =~= text);
}

/// Reading two texts put together.
pub proof fn lemma_parse_join(a: Seq<char>, b: Seq<char>)
    ensures
        parse(a + b) == parse(a) + parse(b),
    decreases b.len(),
{
    if b.len() == 0 {
        assert(a + b =~= a);
        assert(parse(a) + parse(b) =~= parse(a));
    } else {
        let front = b.drop_last();
        assert(front.push(b.last()) =~= b);
        assert((a + front).push(b.last()) =~= a + b);
        lemma_parse_join(a, front);
        lemma_parse_push(a + front, b.last());
        lemma_parse_push(front, b.last());
        match op_of_char(b.last()) {
            Some(op) => {
                assert((parse(a) + parse(front)).push(op) =~= parse(a) + parse(front).push(op));
            },
            None => {},
        }
    }
}

/// Reading a character written `n` times.
pub proof fn lemma_parse_repeated(ch: char, n: nat)
    requires
        op_of_char(ch) is Some,
    ensures
        parse(repeated(ch, n)) == run_of(op_of_char(ch)->0, n),
    decreases n,
{
    let op = op_of_char(ch)->0;
    if n == 0 {
        assert(repeated(ch, 0) =~= Seq::<char>::empty());
        assert(run_of(op, 0) =~= Seq::<COps>::empty());
    } else {
        lemma_parse_repeated(ch, (n - 1) as nat);
        assert(repeated(ch, (n - 1) as nat).push(ch) =~= repeated(ch, n));
        lemma_parse_push(repeated(ch, (n - 1) as nat), ch);
        assert(run_of(op, (n - 1) as nat).push(op) =~= run_of(op, n));
    }
}

/// Reading a single character.
pub proof fn lemma_parse_one(ch: char)
    ensures
        parse(seq![ch]) == match op_of_char(ch) {
            Some(op) => seq![op],
            None => Seq::<COps>::empty(),
        },
{
    assert(Seq::<char>::empty().push(ch) =~= seq![ch]);
    lemma_parse_push(Seq::<char>::empty(), ch);
    match op_of_char(ch) {
        Some(op) => {
            assert(Seq::<COps>::empty().push(op) =~= seq![op]);
        },
        None => {},
    }
}

/// Balanced code behind some code runs on what that code leaves.
pub proof fn lemma_sem_join(x: Seq<COps>, y: Seq<COps>, c: Cells, fuel: nat)
    requires
        balanced(y),
        sem(x, c, fuel) is Done,
    ensures
        sem(x + y, c, fuel) == sem(y, sem(x, c, fuel)->Done_0, fuel),
    decreases y.len(),
{
    let c1 = sem(x, c, fuel)->Done_0;
    let code = x + y;
    if y.len() == 0 {
        assert(code =~= x);
    } else {
        let n = code.len() as int;
        let p = x.len() as int;
        assert(code.last() == y.last());
        match y.last() {
            COps::JmpIfNZ(_) => {
                lemma_opener(y);
                let i = opener(y);
                assert(code.subrange(p, n) =~= y);
                lemma_matched_part(code, p, n, p + i, n - 1);
                assert(closes(code, p + i));
                lemma_open_unique(code, opener(code), p + i, n - 1);
                lemma_balanced_loop(y, i);
                assert(code.take(p + i) =~= x + y.take(i));
                assert(code.subrange(p + i + 1, n - 1) =~= y.subrange(i + 1, y.len() - 1));
                lemma_sem_join(x, y.take(i), c, fuel);
            },
            COps::JmpIfZ(_) => {
                lemma_no_open_end(y);
            },
            _ => {
                lemma_balanced_front(y);
                assert(code.drop_last() =~= x + y.drop_last());
                lemma_sem_join(x, y.drop_last(), c, fuel);
            },
        }
    }
}

/// Balanced code behind balanced code is balanced code.
pub proof fn lemma_join_balanced(x: Seq<COps>, y: Seq<COps>)
    requires
        balanced(x),
        balanced(y),
    ensures
        balanced(x + y),
{
    let code = x + y;
    let p = x.len() as int;
    assert(code.subrange(0, p) =~= x);
    assert(code.subrange(p, code.len() as int) =~= y);
    lemma_depth_part(code, 0, p, p);
    assert forall|k: int| 0 <= k <= code.len() implies depth(code, k) >= 0 by {
        if k <= p {
            lemma_depth_part(code, 0, p, k);
        } else {
            lemma_depth_part(code, p, code.len() as int, k - p);
        }
    }
    lemma_depth_part(code, p, code.len() as int, code.len() - p);
}

} // verus!
