//! Fusing adjacent operations does not change what a program does.
use vstd::prelude::*;
use crate::interp::{
    exec_spec,
    balanced, delta, depth, fuse, fused_pair, initial, lemma_open_unique, matched, parse, resolved,
    run, COps, Machine,
};
use crate::semantics::{
    cost, lemma_run_stable, lemma_run_steps, rounds_cost,
    act, at, cells_of, closes, iterate, lemma_balanced_front, lemma_balanced_loop,
    lemma_depth_part, lemma_no_open_end, lemma_opener, lemma_run_to_structure, lemma_sem_valid,
    lemma_structure_to_run, opener, sem, Cells,
};

verus! {

/// What fusing does with one more operation at the end.
pub proof fn lemma_fuse_push(ops: Seq<COps>, x: COps)
    ensures
        fuse(ops.push(x)) == if fuse(ops).len() > 0 && fused_pair(fuse(ops).last(), x) is Some {
            fuse(ops).drop_last().push(fused_pair(fuse(ops).last(), x)->0)
        } else {
            fuse(ops).push(x)
        },
{
    assert(ops.push(x).drop_last() =~= ops);
}

/// Fused code is empty only where the code is, and ends in the code's last
/// operation where that is a bracket.
pub proof fn lemma_fuse_end(ops: Seq<COps>)
    requires
        ops.len() > 0,
    ensures
        fuse(ops).len() > 0,
        delta(ops.last()) != 0 ==> fuse(ops).last() == ops.last(),
        delta(fuse(ops).last()) == delta(ops.last()),
{
    assert(ops.drop_last().push(ops.last()) =~= ops);
    lemma_fuse_push(ops.drop_last(), ops.last());
}

/// Fusing does not reach across a bracket.
pub proof fn lemma_fuse_barrier(x: Seq<COps>, y: Seq<COps>)
    requires
        x.len() > 0,
        delta(x.last()) != 0,
    ensures
        fuse(x + y) == fuse(x) + fuse(y),
    decreases y.len(),
{
    if y.len() == 0 {
        assert(x + y =~= x);
        assert(fuse(x) + fuse(y) =~= fuse(x));
    } else {
        let front = y.drop_last();
        let z = y.last();
        assert(front.push(z) =~= y);
        assert((x + front).push(z) =~= x + y);
        lemma_fuse_barrier(x, front);
        lemma_fuse_push(x + front, z);
        lemma_fuse_push(front, z);
        lemma_fuse_end(x);
        if front.len() == 0 {
            assert(fuse(x) + fuse(front) =~= fuse(x));
            assert(fuse(x).push(z) =~= fuse(x) + fuse(y));
        } else {
            lemma_fuse_end(front);
            let fx = fuse(x);
            let ff = fuse(front);
            assert((fx + ff).last() == ff.last());
            if fused_pair(ff.last(), z) is Some {
                let w = fused_pair(ff.last(), z)->0;
                assert((fx + ff).drop_last().push(w) =~= fx + ff.drop_last().push(w));
            } else {
                assert((fx + ff).push(z) =~= fx + ff.push(z));
            }
        }
    }
}

/// Depth at the end of two pieces of code put together.
pub proof fn lemma_depth_joined(x: Seq<COps>, y: Seq<COps>, k: int)
    requires
        0 <= k <= y.len(),
    ensures
        depth(x + y, x.len() + k) == depth(x, x.len() as int) + depth(y, k),
{
    let whole = x + y;
    assert(whole.subrange(x.len() as int, whole.len() as int) =~= y);
    assert(whole.subrange(0, x.len() as int) =~= x);
    lemma_depth_part(whole, x.len() as int, whole.len() as int, k);
    lemma_depth_part(whole, 0, x.len() as int, x.len() as int);
}

/// Depth inside the first of two pieces of code put together.
pub proof fn lemma_depth_first(x: Seq<COps>, y: Seq<COps>, k: int)
    requires
        0 <= k <= x.len(),
    ensures
        depth(x + y, k) == depth(x, k),
{
    let whole = x + y;
    assert(whole.subrange(0, x.len() as int) =~= x);
    lemma_depth_part(whole, 0, x.len() as int, k);
}

/// No prefix of the code closes more brackets than it opens.
pub open spec fn never_negative(ops: Seq<COps>) -> bool {
    forall|k: int| 0 <= k <= ops.len() ==> depth(ops, k) >= 0
}

/// Fusing keeps the depth at the end, and keeps the depth from going below
/// zero.
pub proof fn lemma_fuse_depth(ops: Seq<COps>)
    ensures
        depth(fuse(ops), fuse(ops).len() as int) == depth(ops, ops.len() as int),
        never_negative(ops) ==> never_negative(fuse(ops)),
    decreases ops.len(),
{
    if ops.len() > 0 {
        let front = ops.drop_last();
        let x = ops.last();
        let n = ops.len() as int;
        assert(front.push(x) =~= ops);
        lemma_fuse_depth(front);
        lemma_fuse_push(front, x);
        let f = fuse(front);
        let g = fuse(ops);
        assert(depth(ops, n) == depth(ops, n - 1) + delta(ops[n - 1]));
        assert(front =~= ops.subrange(0, n - 1));
        lemma_depth_part(ops, 0, n - 1, n - 1);
        if never_negative(ops) {
            assert forall|k: int| 0 <= k <= front.len() implies depth(front, k) >= 0 by {
                lemma_depth_part(ops, 0, n - 1, k);
            }
        }
        if f.len() > 0 && fused_pair(f.last(), x) is Some {
            let w = fused_pair(f.last(), x)->0;
            let kept = f.drop_last();
            assert(g == kept.push(w));
            assert(kept.push(f.last()) =~= f);
            assert(g =~= kept + seq![w]);
            assert(f =~= kept + seq![f.last()]);
            lemma_depth_joined(kept, seq![w], 1);
            lemma_depth_joined(kept, seq![f.last()], 1);
            assert(depth(seq![w], 1) == depth(seq![w], 0) + delta(seq![w][0]));
            assert(depth(seq![f.last()], 1) == depth(seq![f.last()], 0) + delta(
                seq![f.last()][0],
            ));
            if never_negative(ops) {
                assert forall|k: int| 0 <= k <= g.len() implies depth(g, k) >= 0 by {
                    if k < g.len() {
                        lemma_depth_first(kept, seq![w], k);
                        lemma_depth_first(kept, seq![f.last()], k);
                        assert(depth(f, k) >= 0);
                    } else {
                        assert(depth(f, f.len() as int) >= 0);
                    }
                }
            }
        } else {
            assert(g =~= f + seq![x]);
            lemma_depth_joined(f, seq![x], 1);
            assert(depth(seq![x], 1) == depth(seq![x], 0) + delta(seq![x][0]));
            if never_negative(ops) {
                assert forall|k: int| 0 <= k <= g.len() implies depth(g, k) >= 0 by {
                    if k < g.len() {
                        lemma_depth_first(f, seq![x], k);
                        assert(depth(f, k) >= 0);
                    } else {
                        assert(depth(ops, n) >= 0);
                    }
                }
            }
        }
    }
}

/// Fused balanced code is balanced.
pub proof fn lemma_fuse_balanced(ops: Seq<COps>)
    requires
        balanced(ops),
    ensures
        balanced(fuse(ops)),
{
    lemma_fuse_depth(ops);
}

/// Code whose fused form never goes below depth zero does not either.
pub proof fn lemma_unfused_depth(ops: Seq<COps>)
    requires
        never_negative(fuse(ops)),
    ensures
        never_negative(ops),
    decreases ops.len(),
{
    if ops.len() > 0 {
        let front = ops.drop_last();
        let x = ops.last();
        let n = ops.len() as int;
        assert(front.push(x) =~= ops);
        lemma_fuse_push(front, x);
        lemma_fuse_depth(ops);
        let f = fuse(front);
        let g = fuse(ops);
        if f.len() > 0 && fused_pair(f.last(), x) is Some {
            let w = fused_pair(f.last(), x)->0;
            let kept = f.drop_last();
            assert(g =~= kept + seq![w]);
            assert(f =~= kept + seq![f.last()]);
            lemma_depth_joined(kept, seq![f.last()], 1);
            lemma_depth_joined(kept, seq![w], 1);
            assert(depth(seq![w], 1) == depth(seq![w], 0) + delta(seq![w][0]));
            assert(depth(seq![f.last()], 1) == depth(seq![f.last()], 0) + delta(
                seq![f.last()][0],
            ));
            assert forall|k: int| 0 <= k <= f.len() implies depth(f, k) >= 0 by {
                if k < f.len() {
                    lemma_depth_first(kept, seq![f.last()], k);
                    lemma_depth_first(kept, seq![w], k);
                    assert(depth(g, k) >= 0);
                } else {
                    assert(depth(g, g.len() as int) >= 0);
                }
            }
        } else {
            assert(g =~= f + seq![x]);
            assert forall|k: int| 0 <= k <= f.len() implies depth(f, k) >= 0 by {
                lemma_depth_first(f, seq![x], k);
                assert(depth(g, k) >= 0);
            }
        }
        lemma_unfused_depth(front);
        assert(front =~= ops.subrange(0, n - 1));
        assert forall|k: int| 0 <= k <= ops.len() implies depth(ops, k) >= 0 by {
            if k < n {
                lemma_depth_part(ops, 0, n - 1, k);
                assert(depth(front, k) >= 0);
            } else {
                assert(depth(g, g.len() as int) >= 0);
            }
        }
    }
}

/// Fusing changes nothing about whether the brackets balance.
pub proof fn lemma_fuse_keeps_balance(ops: Seq<COps>)
    ensures
        balanced(fuse(ops)) == balanced(ops),
{
    lemma_fuse_depth(ops);
    if balanced(fuse(ops)) {
        lemma_unfused_depth(ops);
    }
}

/// Code that ends in a loop, fused: what stands before the loop, fused, the
/// opening bracket, the body, fused, and the closing bracket.
pub proof fn lemma_fuse_loop(code: Seq<COps>, i: int)
    requires
        balanced(code),
        matched(code, i, code.len() - 1),
    ensures
        fuse(code) == (fuse(code.take(i)).push(code[i]) + fuse(
            code.subrange(i + 1, code.len() - 1),
        )).push(code.last()),
        matched(fuse(code), fuse(code.take(i)).len() as int, fuse(code).len() - 1),
{
    let n = code.len() as int;
    let before = code.take(i);
    let body = code.subrange(i + 1, n - 1);
    let open = code[i];
    let close = code[n - 1];
    let head = before.push(open);
    assert((head + body).push(close) =~= code);
    lemma_fuse_push(head + body, close);
    lemma_fuse_barrier(head, body);
    lemma_fuse_push(before, open);
    let fa = fuse(before);
    let fb = fuse(body);
    let fh = fa.push(open);
    let fc = (fh + fb).push(close);
    assert(fuse(code) == fc);
    lemma_balanced_loop(code, i);
    lemma_fuse_balanced(before);
    lemma_fuse_balanced(body);
    let p = fa.len() as int;
    assert(fc =~= (fa + seq![open]) + (fb + seq![close]));
    let left = fa + seq![open];
    let right = fb + seq![close];
    lemma_depth_first(fa, seq![open], p);
    lemma_depth_first(left, right, p);
    lemma_depth_joined(fa, seq![open], 1);
    assert(depth(seq![open], 1) == depth(seq![open], 0) + delta(seq![open][0]));
    lemma_depth_first(left, right, p + 1);
    assert(depth(fc, p + 1) == depth(fc, p) + 1);
    assert forall|k: int| p < k <= fc.len() - 1 implies #[trigger] depth(fc, k) > depth(fc, p) by {
        lemma_depth_joined(left, right, k - p - 1);
        lemma_depth_first(fb, seq![close], k - p - 1);
        assert(depth(fb, k - p - 1) >= 0);
    }
    lemma_depth_joined(left, right, (fb.len() + 1) as int);
    lemma_depth_joined(fb, seq![close], 1);
    assert(depth(seq![close], 1) == depth(seq![close], 0) + delta(seq![close][0]));
    assert(fc[p] == open);
    assert(fc[fc.len() - 1] == close);
}

/// Two operations in a row do what their fused pair does.
pub proof fn lemma_fused_pair_acts(z: COps, x: COps, c0: Cells)
    requires
        c0.valid(),
        fused_pair(z, x) is Some,
        act(z, c0) is Ok,
        act(x, act(z, c0)->Ok_0) is Ok,
    ensures
        act(fused_pair(z, x)->0, c0) == act(x, act(z, c0)->Ok_0),
{
    let c1 = act(z, c0)->Ok_0;
    let c2 = act(x, c1)->Ok_0;
    let w = fused_pair(z, x)->0;
    match (z, x) {
        (COps::Add(a), COps::Add(b)) => {
            assert(act(w, c0)->Ok_0.tape =~= c2.tape);
        },
        _ => {},
    }
}

/// Balanced code that runs to its end does so when fused, with the same
/// cells.
pub proof fn lemma_fused_sem(code: Seq<COps>, c: Cells, fuel: nat)
    requires
        balanced(code),
        c.valid(),
        sem(code, c, fuel) is Done,
    ensures
        sem(fuse(code), c, fuel) == sem(code, c, fuel),
    decreases fuel, code.len(), 0nat,
{
    if code.len() == 0 {
        return ;
    }
    let n = code.len() as int;
    let x = code.last();
    match x {
        COps::JmpIfNZ(_) => {
            lemma_opener(code);
            let i = opener(code);
            let before = code.take(i);
            let body = code.subrange(i + 1, n - 1);
            lemma_balanced_loop(code, i);
            lemma_fuse_loop(code, i);
            lemma_fused_sem(before, c, fuel);
            let c1 = sem(before, c, fuel)->Done_0;
            lemma_sem_valid(before, c, fuel);
            lemma_fused_iterate(body, c1, fuel);
            let fc = fuse(code);
            let p = fuse(before).len() as int;
            assert(closes(fc, p));
            lemma_open_unique(fc, opener(fc), p, fc.len() - 1);
            assert(fc.take(p) =~= fuse(before));
            assert(fc.subrange(p + 1, fc.len() - 1) =~= fuse(body));
        },
        COps::JmpIfZ(_) => {
            lemma_no_open_end(code);
        },
        _ => {
            let front = code.drop_last();
            assert(front.push(x) =~= code);
            lemma_balanced_front(code);
            lemma_fused_sem(front, c, fuel);
            lemma_fuse_push(front, x);
            let f = fuse(front);
            let c1 = sem(front, c, fuel)->Done_0;
            if f.len() > 0 && fused_pair(f.last(), x) is Some {
                let z = f.last();
                let w = fused_pair(z, x)->0;
                let g = f.drop_last().push(w);
                assert(g.drop_last() =~= f.drop_last());
                assert(g.last() == w);
                let c0 = sem(f.drop_last(), c, fuel)->Done_0;
                lemma_sem_valid(f.drop_last(), c, fuel);
                lemma_fused_pair_acts(z, x, c0);
            } else {
                let g = f.push(x);
                assert(g.drop_last() =~= f);
                assert(g.last() == x);
            }
        },
    }
}

/// A loop that runs to its end does so with its body fused, with the same
/// cells.
pub proof fn lemma_fused_iterate(body: Seq<COps>, c: Cells, fuel: nat)
    requires
        balanced(body),
        c.valid(),
        iterate(body, c, fuel) is Done,
    ensures
        iterate(fuse(body), c, fuel) == iterate(body, c, fuel),
    decreases fuel, body.len(), 1nat,
{
    if c.cell() != 0 && fuel > 0 {
        lemma_fused_sem(body, c, (fuel - 1) as nat);
        lemma_sem_valid(body, c, (fuel - 1) as nat);
        lemma_fused_iterate(body, sem(body, c, (fuel - 1) as nat)->Done_0, (fuel - 1) as nat);
    }
}

/// Balanced code that runs to its end takes no more operations when fused.
pub proof fn lemma_fused_cost(code: Seq<COps>, c: Cells, fuel: nat)
    requires
        balanced(code),
        c.valid(),
        sem(code, c, fuel) is Done,
    ensures
        cost(fuse(code), c, fuel) <= cost(code, c, fuel),
    decreases fuel, code.len(), 0nat,
{
    if code.len() == 0 {
        return ;
    }
    let n = code.len() as int;
    let x = code.last();
    match x {
        COps::JmpIfNZ(_) => {
            lemma_opener(code);
            let i = opener(code);
            let before = code.take(i);
            let body = code.subrange(i + 1, n - 1);
            lemma_balanced_loop(code, i);
            lemma_fuse_loop(code, i);
            lemma_fused_sem(before, c, fuel);
            lemma_fused_cost(before, c, fuel);
            let c1 = sem(before, c, fuel)->Done_0;
            lemma_sem_valid(before, c, fuel);
            lemma_fused_rounds_cost(body, c1, fuel);
            let fc = fuse(code);
            let p = fuse(before).len() as int;
            assert(closes(fc, p));
            lemma_open_unique(fc, opener(fc), p, fc.len() - 1);
            assert(fc.take(p) =~= fuse(before));
            assert(fc.subrange(p + 1, fc.len() - 1) =~= fuse(body));
        },
        COps::JmpIfZ(_) => {
            lemma_no_open_end(code);
        },
        _ => {
            let front = code.drop_last();
            assert(front.push(x) =~= code);
            lemma_balanced_front(code);
            lemma_fused_cost(front, c, fuel);
            lemma_fuse_push(front, x);
            let f = fuse(front);
            if f.len() > 0 && fused_pair(f.last(), x) is Some {
                let g = f.drop_last().push(fused_pair(f.last(), x)->0);
                assert(g.drop_last() =~= f.drop_last());
            } else {
                assert(f.push(x).drop_last() =~= f);
            }
        },
    }
}

/// A loop that runs to its end takes no more operations with its body
/// fused.
pub proof fn lemma_fused_rounds_cost(body: Seq<COps>, c: Cells, fuel: nat)
    requires
        balanced(body),
        c.valid(),
        iterate(body, c, fuel) is Done,
    ensures
        rounds_cost(fuse(body), c, fuel) <= rounds_cost(body, c, fuel),
    decreases fuel, body.len(), 1nat,
{
    if c.cell() != 0 && fuel > 0 {
        let f = (fuel - 1) as nat;
        lemma_fused_sem(body, c, f);
        lemma_fused_cost(body, c, f);
        lemma_sem_valid(body, c, f);
        lemma_fused_rounds_cost(body, sem(body, c, f)->Done_0, f);
    }
}

/// Two machines have the same head position, tape and output.
pub open spec fn same_cells(a: Machine, b: Machine) -> bool {
    a.mp == b.mp && a.tape == b.tape && a.output == b.output
}

/// Where a program, run one operation per instruction character from cells
/// `c`, comes to its end within `fuel` operations, the same program with
/// adjacent operations fused comes to its end within `fuel` operations too,
/// with the same output, tape and head position, and in no more operations.
pub proof fn lemma_fusion_from(code: Seq<char>, naive: Seq<COps>, fused: Seq<COps>, c: Cells, fuel: nat)
    requires
        balanced(parse(code)),
        resolved(parse(code), naive),
        resolved(fuse(parse(code)), fused),
        c.valid(),
        run(naive, at(0, c, 0), fuel) is Halted,
    ensures
        run(fused, at(0, c, 0), fuel) is Halted,
        same_cells(
            run(fused, at(0, c, 0), fuel)->Halted_0,
            run(naive, at(0, c, 0), fuel)->Halted_0,
        ),
        (run(fused, at(0, c, 0), fuel)->Halted_0).steps <= (run(
            naive,
            at(0, c, 0),
            fuel,
        )->Halted_0).steps,
{
    let plain = parse(code);
    let start = at(0, c, 0);
    lemma_run_to_structure(plain, naive, c, fuel);
    lemma_fused_sem(plain, c, fuel);
    lemma_fused_cost(plain, c, fuel);
    lemma_fuse_balanced(plain);
    let slow = lemma_structure_to_run(plain, naive, c, fuel);
    let fast = lemma_structure_to_run(fuse(plain), fused, c, fuel);
    lemma_run_steps(naive, start, fuel);
    if slow <= fuel {
        lemma_run_stable(naive, start, slow, fuel);
    } else {
        lemma_run_stable(naive, start, fuel, slow);
    }
    lemma_run_stable(fused, start, fast, fuel);
}

/// For any program text whose brackets balance: where the program, run one
/// operation per instruction character on the zeroed tape, comes to its end
/// within `fuel` operations, the fused program comes to its end within `fuel`
/// operations too, with the same output and the same final tape, and in no
/// more operations.
pub proof fn law_fusion_keeps_results(code: Seq<char>, naive: Seq<COps>, fused: Seq<COps>, fuel: nat)
    requires
        balanced(parse(code)),
        resolved(parse(code), naive),
        resolved(fuse(parse(code)), fused),
        run(naive, initial(), fuel) is Halted,
    ensures
        run(fused, initial(), fuel) is Halted,
        same_cells(run(fused, initial(), fuel)->Halted_0, run(naive, initial(), fuel)->Halted_0),
        (run(fused, initial(), fuel)->Halted_0).steps <= (run(naive, initial(), fuel)->Halted_0).steps,
{
    let c = cells_of(initial());
    assert(at(0, c, 0) == initial());
    lemma_fusion_from(code, naive, fused, c, fuel);
}

/// What `exec` makes of the fused program is what it makes of the program
/// run one operation per instruction character, wherever that run passes:
/// the same output, in no more operations.
pub proof fn law_fusion_keeps_verdicts(code: Seq<char>, naive: Seq<COps>, fused: Seq<COps>, limit: nat)
    requires
        balanced(parse(code)),
        resolved(parse(code), naive),
        resolved(fuse(parse(code)), fused),
        exec_spec(naive, limit) is Ok,
    ensures
        exec_spec(fused, limit) is Ok,
        (exec_spec(fused, limit)->Ok_0).0 == (exec_spec(naive, limit)->Ok_0).0,
        (exec_spec(fused, limit)->Ok_0).1 <= (exec_spec(naive, limit)->Ok_0).1,
{
    law_fusion_keeps_results(code, naive, fused, limit);
}

} // verus!
