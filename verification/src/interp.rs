//! The tape-language interpreter: reading program text as typed
//! operations, fusion of adjacent operations, bracket resolution, and bounded
//! execution against a fixed tape.
use vstd::prelude::*;

verus! {

/// Number of cells on the tape.
pub const TAPE_SIZE: usize = 10000;

/// One operation of a program.
#[derive(Clone, Copy, Debug, PartialEq, Eq, Structural)]
pub enum COps {
    /// Add the amount to the current cell.
    Add(i32),
    /// Move the head by the amount.
    Mov(i64),
    /// Append the current cell to the output.
    Putchar,
    /// Read a byte into the current cell; never implemented.
    Getchar,
    /// Jump behind the operation at the index if the current cell is zero.
    JmpIfZ(u64),
    /// Jump behind the operation at the index if the current cell is not zero.
    JmpIfNZ(u64),
}

/// Why a run ended without a result.
#[derive(Clone, Copy, Debug, PartialEq, Eq, Structural)]
pub enum InterpErr {
    /// A cell would have exceeded 255.
    IntOverflow,
    /// A cell would have dropped below 0.
    IntUnderflow,
    /// The head would have left the tape on the right.
    MemOverflow,
    /// The head would have left the tape on the left.
    MemUnderflow,
    /// The program asked for input.
    Getchar,
    /// The program ended, but left a cell that is not zero.
    TapeNotZero,
    /// The program was still running when its step allowance was used up.
    StepLimit,
}

/// Why a program text was refused.
#[derive(Clone, Copy, Debug, PartialEq, Eq, Structural)]
pub enum SyntaxErr {
    /// Some bracket has no partner.
    Unbalanced,
}

/// What a program printed and how many operations it took.
#[derive(Debug)]
pub struct ExecResult {
    pub output: String,
    pub steps: usize,
}

// ---------------------------------------------------------------------------
// From characters to operations
// ---------------------------------------------------------------------------

/// The operation that a character stands for, if it is one of the eight.
pub open spec fn op_of_char(c: char) -> Option<COps> {
    if c == '+' {
        Some(COps::Add(1))
    } else if c == '-' {
        Some(COps::Add(-1i32))
    } else if c == '>' {
        Some(COps::Mov(1))
    } else if c == '<' {
        Some(COps::Mov(-1i64))
    } else if c == '[' {
        Some(COps::JmpIfZ(0))
    } else if c == ']' {
        Some(COps::JmpIfNZ(0))
    } else if c == '.' {
        Some(COps::Putchar)
    } else if c == ',' {
        Some(COps::Getchar)
    } else {
        None
    }
}

/// One operation per instruction character, in order; every other character
/// is a comment and leaves no trace.
pub open spec fn parse(code: Seq<char>) -> Seq<COps>
    decreases code.len(),
{
    if code.len() == 0 {
        Seq::empty()
    } else {
        match op_of_char(code.last()) {
            Some(op) => parse(code.drop_last()).push(op),
            None => parse(code.drop_last()),
        }
    }
}

/// The single operation that does the work of `a` followed by `b`, where the
/// two are of the same counted kind and the sum fits the counter.
pub open spec fn fused_pair(a: COps, b: COps) -> Option<COps> {
    match (a, b) {
        (COps::Add(x), COps::Add(y)) => if i32::MIN <= x + y <= i32::MAX {
            Some(COps::Add((x + y) as i32))
        } else {
            None
        },
        (COps::Mov(x), COps::Mov(y)) => if i64::MIN <= x + y <= i64::MAX {
            Some(COps::Mov((x + y) as i64))
        } else {
            None
        },
        _ => None,
    }
}

/// The operations with every run of adjacent additions, and every run of
/// adjacent moves, folded from the left into counted operations.
pub open spec fn fuse(ops: Seq<COps>) -> Seq<COps>
    decreases ops.len(),
{
    if ops.len() == 0 {
        Seq::empty()
    } else {
        let done = fuse(ops.drop_last());
        if done.len() > 0 && fused_pair(done.last(), ops.last()) is Some {
            done.drop_last().push(fused_pair(done.last(), ops.last())->0)
        } else {
            done.push(ops.last())
        }
    }
}

/// How an operation changes the nesting depth.
pub open spec fn delta(op: COps) -> int {
    match op {
        COps::JmpIfZ(_) => 1,
        COps::JmpIfNZ(_) => -1,
        _ => 0,
    }
}

/// Opening brackets minus closing brackets among the first `k` operations.
pub open spec fn depth(ops: Seq<COps>, k: int) -> int
    decreases k,
{
    if k <= 0 {
        0
    } else {
        depth(ops, k - 1) + delta(ops[k - 1])
    }
}

/// Every closing bracket closes an open one, and none stays open.
pub open spec fn balanced(ops: Seq<COps>) -> bool {
    &&& depth(ops, ops.len() as int) == 0
    &&& forall|k: int| 0 <= k <= ops.len() ==> depth(ops, k) >= 0
}

/// The bracket at `open` and the bracket at `close` are partners: `close` is
/// the first place behind `open` where the depth is back to what it was.
pub open spec fn matched(ops: Seq<COps>, open: int, close: int) -> bool {
    &&& 0 <= open < close < ops.len()
    &&& ops[open] is JmpIfZ
    &&& ops[close] is JmpIfNZ
    &&& depth(ops, close + 1) == depth(ops, open)
    &&& forall|k: int| open < k <= close ==> #[trigger] depth(ops, k) > depth(ops, open)
}

/// `out` is `ops` with every bracket pointing at its partner.
pub open spec fn resolved(ops: Seq<COps>, out: Seq<COps>) -> bool {
    &&& out.len() == ops.len()
    &&& forall|i: int|
        0 <= i < ops.len() ==> match #[trigger] ops[i] {
            COps::JmpIfZ(_) => match out[i] {
                COps::JmpIfZ(j) => matched(ops, i, j as int),
                _ => false,
            },
            COps::JmpIfNZ(_) => match out[i] {
                COps::JmpIfNZ(j) => matched(ops, j as int, i),
                _ => false,
            },
            _ => out[i] == ops[i],
        }
}

/// An opening bracket has at most one partner.
pub proof fn lemma_close_unique(ops: Seq<COps>, open: int, c1: int, c2: int)
    requires
        matched(ops, open, c1),
        matched(ops, open, c2),
    ensures
        c1 == c2,
{
    if c1 < c2 {
        assert(depth(ops, c1 + 1) > depth(ops, open));
    } else if c2 < c1 {
        assert(depth(ops, c2 + 1) > depth(ops, open));
    }
}

/// A closing bracket has at most one partner.
pub proof fn lemma_open_unique(ops: Seq<COps>, o1: int, o2: int, close: int)
    requires
        matched(ops, o1, close),
        matched(ops, o2, close),
    ensures
        o1 == o2,
{
    if o1 < o2 {
        assert(depth(ops, o2) > depth(ops, o1));
        assert(depth(ops, close + 1) == depth(ops, o1));
    } else if o2 < o1 {
        assert(depth(ops, o1) > depth(ops, o2));
        assert(depth(ops, close + 1) == depth(ops, o2));
    }
}

/// Bracket resolution has exactly one outcome.
pub proof fn lemma_resolved_unique(ops: Seq<COps>, a: Seq<COps>, b: Seq<COps>)
    requires
        resolved(ops, a),
        resolved(ops, b),
    ensures
        a == b,
{
    assert forall|i: int| 0 <= i < ops.len() implies a[i] == b[i] by {
        match ops[i] {
            COps::JmpIfZ(_) => {
                lemma_close_unique(ops, i, a[i]->JmpIfZ_0 as int, b[i]->JmpIfZ_0 as int);
            },
            COps::JmpIfNZ(_) => {
                lemma_open_unique(ops, a[i]->JmpIfNZ_0 as int, b[i]->JmpIfNZ_0 as int, i);
            },
            _ => {},
        }
    }
    assert(a =~= b);
}

fn read_ops(code: &str) -> (ops: Vec<COps>)
    ensures
        ops@ == parse(code@),
{
    let mut ops: Vec<COps> = Vec::new();
    proof {
        vstd::string::axiom_spec_iter(code);
    }
    assert(code@.take(0) =~= Seq::<char>::empty());
    for c in it: code.chars()
        invariant
            it.seq() == code@,
            ops@ == parse(code@.take(it.index())),
    {
        assert(code@.take(it.index() + 1).drop_last() =~= code@.take(it.index()));
        if c == '+' {
            ops.push(COps::Add(1));
        } else if c == '-' {
            ops.push(COps::Add(-1));
        } else if c == '>' {
            ops.push(COps::Mov(1));
        } else if c == '<' {
            ops.push(COps::Mov(-1));
        } else if c == '[' {
            ops.push(COps::JmpIfZ(0));
        } else if c == ']' {
            ops.push(COps::JmpIfNZ(0));
        } else if c == '.' {
            ops.push(COps::Putchar);
        } else if c == ',' {
            ops.push(COps::Getchar);
        }
    }
    assert(code@.take(code@.len() as int) =~= code@);
    ops
}

fn fuse_pair(a: COps, b: COps) -> (r: Option<COps>)
    ensures
        r == fused_pair(a, b),
{
    match (a, b) {
        (COps::Add(x), COps::Add(y)) => {
            let sum: i64 = x as i64 + y as i64;
            if -2147483648 <= sum && sum <= 2147483647 {
                Some(COps::Add(sum as i32))
            } else {
                None
            }
        },
        (COps::Mov(x), COps::Mov(y)) => {
            match x.checked_add(y) {
                Some(sum) => Some(COps::Mov(sum)),
                None => None,
            }
        },
        _ => None,
    }
}

fn fuse_ops(ops: &Vec<COps>) -> (out: Vec<COps>)
    ensures
        out@ == fuse(ops@),
{
    let mut out: Vec<COps> = Vec::new();
    let mut i: usize = 0;
    assert(ops@.take(0) =~= Seq::<COps>::empty());
    while i < ops.len()
        invariant
            i <= ops.len(),
            out@ == fuse(ops@.take(i as int)),
        decreases ops.len() - i,
    {
        assert(ops@.take(i + 1).drop_last() =~= ops@.take(i as int));
        let op = ops[i];
        let merged = if out.len() > 0 {
            fuse_pair(out[out.len() - 1], op)
        } else {
            None
        };
        match merged {
            Some(m) => {
                out.pop();
                out.push(m);
            },
            None => {
                out.push(op);
            },
        }
        i += 1;
    }
    assert(ops@.take(ops@.len() as int) =~= ops@);
    out
}

fn is_balanced(ops: &Vec<COps>) -> (b: bool)
    ensures
        b == balanced(ops@),
{
    let mut d: usize = 0;
    let mut k: usize = 0;
    while k < ops.len()
        invariant
            k <= ops.len(),
            d as int == depth(ops@, k as int),
            d <= k,
            forall|j: int| 0 <= j <= k ==> depth(ops@, j) >= 0,
        decreases ops.len() - k,
    {
        match ops[k] {
            COps::JmpIfZ(_) => {
                d += 1;
            },
            COps::JmpIfNZ(_) => {
                if d == 0 {
                    assert(depth(ops@, k + 1) < 0);
                    return false;
                }
                d -= 1;
            },
            _ => {},
        }
        k += 1;
    }
    d == 0
}

/// The partner of the opening bracket at `i`.
fn find_close(ops: &Vec<COps>, i: usize) -> (j: usize)
    requires
        balanced(ops@),
        i < ops.len(),
        ops[i as int] is JmpIfZ,
    ensures
        matched(ops@, i as int, j as int),
{
    let mut d: usize = 1;
    let mut j: usize = i + 1;
    let ghost level = depth(ops@, i as int);
    assert(depth(ops@, i + 1) == level + 1);
    while j < ops.len()
        invariant
            i < j <= ops.len(),
            d >= 1,
            d <= j - i,
            level == depth(ops@, i as int),
            d as int == depth(ops@, j as int) - level,
            forall|k: int| i < k <= j ==> #[trigger] depth(ops@, k) > level,
            i < ops.len(),
            ops[i as int] is JmpIfZ,
        decreases ops.len() - j,
    {
        match ops[j] {
            COps::JmpIfZ(_) => {
                d += 1;
            },
            COps::JmpIfNZ(_) => {
                d -= 1;
                if d == 0 {
                    return j;
                }
            },
            _ => {},
        }
        j += 1;
    }
    proof {
        assert(depth(ops@, ops@.len() as int) > depth(ops@, i as int));
        assert(depth(ops@, i as int) >= 0);
        assert(false);
    }
    i
}

/// The partner of the closing bracket at `i`.
fn find_open(ops: &Vec<COps>, i: usize) -> (j: usize)
    requires
        balanced(ops@),
        i < ops.len(),
        ops[i as int] is JmpIfNZ,
    ensures
        matched(ops@, j as int, i as int),
{
    let mut d: usize = 1;
    let mut j: usize = i;
    let ghost level = depth(ops@, i + 1);
    assert(level == depth(ops@, i as int) - 1);
    while j > 0
        invariant
            j <= i < ops.len(),
            d >= 1,
            d <= i - j + 1,
            level == depth(ops@, i + 1),
            d as int == depth(ops@, j as int) - level,
            forall|k: int| j <= k <= i ==> #[trigger] depth(ops@, k) > level,
            ops[i as int] is JmpIfNZ,
        decreases j,
    {
        j -= 1;
        assert(depth(ops@, j + 1) == depth(ops@, j as int) + delta(ops@[j as int]));
        match ops[j] {
            COps::JmpIfNZ(_) => {
                d += 1;
            },
            COps::JmpIfZ(_) => {
                d -= 1;
                if d == 0 {
                    return j;
                }
            },
            _ => {},
        }
    }
    proof {
        assert(depth(ops@, 0) == 0);
        assert(depth(ops@, i + 1) >= 0);
        assert(false);
    }
    i
}

fn resolve(ops: &Vec<COps>) -> (out: Vec<COps>)
    requires
        balanced(ops@),
    ensures
        resolved(ops@, out@),
{
    let mut out: Vec<COps> = Vec::new();
    let mut i: usize = 0;
    while i < ops.len()
        invariant
            i <= ops.len(),
            balanced(ops@),
            out.len() == i,
            forall|k: int|
                0 <= k < i ==> match #[trigger] ops@[k] {
                    COps::JmpIfZ(_) => match out@[k] {
                        COps::JmpIfZ(j) => matched(ops@, k, j as int),
                        _ => false,
                    },
                    COps::JmpIfNZ(_) => match out@[k] {
                        COps::JmpIfNZ(j) => matched(ops@, j as int, k),
                        _ => false,
                    },
                    _ => out@[k] == ops@[k],
                },
        decreases ops.len() - i,
    {
        let op = match ops[i] {
            COps::JmpIfZ(_) => COps::JmpIfZ(find_close(ops, i) as u64),
            COps::JmpIfNZ(_) => COps::JmpIfNZ(find_open(ops, i) as u64),
            other => other,
        };
        out.push(op);
        i += 1;
    }
    out
}

/// Reads program text as operations: one per instruction character,
/// adjacent additions and adjacent moves fused, and every bracket pointing at
/// its partner. The text is refused exactly when its brackets do not balance.
pub fn compile(code: &str) -> (r: Result<Vec<COps>, SyntaxErr>)
    ensures
        match r {
            Ok(ops) => balanced(parse(code@)) && resolved(fuse(parse(code@)), ops@),
            Err(e) => !balanced(parse(code@)) && e == SyntaxErr::Unbalanced,
        },
{
    let raw = read_ops(code);
    let fused = fuse_ops(&raw);
    proof {
        crate::fusion::lemma_fuse_keeps_balance(raw@);
    }
    if !is_balanced(&fused) {
        return Err(SyntaxErr::Unbalanced);
    }
    Ok(resolve(&fused))
}

// ---------------------------------------------------------------------------
// Execution
// ---------------------------------------------------------------------------

/// The state of a running program.
pub struct Machine {
    /// Index of the next operation.
    pub pc: int,
    /// Position of the head.
    pub mp: int,
    /// The cells.
    pub tape: Seq<u8>,
    /// What was printed so far.
    pub output: Seq<u8>,
    /// Operations carried out so far.
    pub steps: nat,
}

/// How a run ends.
pub enum Outcome {
    /// The program ran off its end, in this state.
    Halted(Machine),
    /// An operation could not be carried out.
    Fault(InterpErr),
    /// The allowance was used up before the program ended.
    OutOfFuel,
}

/// A tape of `TAPE_SIZE` zero cells.
pub open spec fn zero_tape() -> Seq<u8> {
    Seq::new(TAPE_SIZE as nat, |i: int| 0u8)
}

/// The state in which every run starts.
pub open spec fn initial() -> Machine {
    Machine { pc: 0, mp: 0, tape: zero_tape(), output: Seq::empty(), steps: 0 }
}

/// The effect of the operation at `m.pc`.
pub open spec fn step(ops: Seq<COps>, m: Machine) -> Result<Machine, InterpErr>
    recommends
        0 <= m.pc < ops.len(),
        0 <= m.mp < m.tape.len(),
{
    let cell = m.tape[m.mp] as int;
    let next = Machine { pc: m.pc + 1, steps: m.steps + 1, ..m };
    match ops[m.pc] {
        COps::Add(n) => if cell + n > 255 {
            Err(InterpErr::IntOverflow)
        } else if cell + n < 0 {
            Err(InterpErr::IntUnderflow)
        } else {
            Ok(Machine { tape: m.tape.update(m.mp, (cell + n) as u8), ..next })
        },
        COps::Mov(n) => if m.mp + n >= m.tape.len() {
            Err(InterpErr::MemOverflow)
        } else if m.mp + n < 0 {
            Err(InterpErr::MemUnderflow)
        } else {
            Ok(Machine { mp: m.mp + n, ..next })
        },
        COps::Putchar => Ok(Machine { output: m.output.push(m.tape[m.mp]), ..next }),
        COps::Getchar => Err(InterpErr::Getchar),
        COps::JmpIfZ(a) => if cell == 0 {
            Ok(Machine { pc: a + 1, ..next })
        } else {
            Ok(next)
        },
        COps::JmpIfNZ(a) => if cell != 0 {
            Ok(Machine { pc: a + 1, ..next })
        } else {
            Ok(next)
        },
    }
}

/// Runs `ops` from state `m` for at most `fuel` operations.
pub open spec fn run(ops: Seq<COps>, m: Machine, fuel: nat) -> Outcome
    decreases fuel,
{
    if m.pc >= ops.len() {
        Outcome::Halted(m)
    } else if fuel == 0 {
        Outcome::OutOfFuel
    } else {
        match step(ops, m) {
            Err(e) => Outcome::Fault(e),
            Ok(next) => run(ops, next, (fuel - 1) as nat),
        }
    }
}

/// The printed bytes as characters.
pub open spec fn as_chars(bytes: Seq<u8>) -> Seq<char> {
    bytes.map_values(|b: u8| b as char)
}

/// What a run of `ops` from the initial state with an allowance of `limit`
/// operations comes to: the output and the number of operations where the
/// program ends on a tape that is zero everywhere, else the reason why not.
pub open spec fn exec_spec(ops: Seq<COps>, limit: nat) -> Result<(Seq<char>, nat), InterpErr> {
    match run(ops, initial(), limit) {
        Outcome::Halted(m) => if m.tape == zero_tape() {
            Ok((as_chars(m.output), m.steps))
        } else {
            Err(InterpErr::TapeNotZero)
        },
        Outcome::Fault(e) => Err(e),
        Outcome::OutOfFuel => Err(InterpErr::StepLimit),
    }
}

/// `r` is what `exec_spec` asks for.
pub open spec fn exec_meets(r: Result<ExecResult, InterpErr>, want: Result<(Seq<char>, nat), InterpErr>) -> bool {
    match want {
        Ok((output, steps)) => match r {
            Ok(res) => res.output@ == output && res.steps == steps,
            Err(_) => false,
        },
        Err(e) => match r {
            Ok(_) => false,
            Err(got) => got == e,
        },
    }
}

fn all_zero(tape: &Vec<u8>) -> (b: bool)
    ensures
        b == (forall|i: int| 0 <= i < tape.len() ==> tape[i] == 0),
{
    let mut i: usize = 0;
    while i < tape.len()
        invariant
            i <= tape.len(),
            forall|k: int| 0 <= k < i ==> tape[k] == 0,
        decreases tape.len() - i,
    {
        if tape[i] != 0 {
            return false;
        }
        i += 1;
    }
    true
}

/// Runs `ops` on a zeroed tape of `TAPE_SIZE` cells for at most `limit`
/// operations.
pub fn exec_within(ops: &Vec<COps>, limit: usize) -> (r: Result<ExecResult, InterpErr>)
    ensures
        exec_meets(r, exec_spec(ops@, limit as nat)),
{
    let mut pc: usize = 0;
    let mut mp: usize = 0;
    let mut steps: usize = 0;
    let mut mem: Vec<u8> = vec![0u8; TAPE_SIZE];
    let mut output = String::new();
    let ghost mut cur = initial();
    let ghost mut printed: Seq<u8> = Seq::empty();
    assert(mem@ =~= zero_tape());
    assert(output@ =~= as_chars(cur.output));
    while pc < ops.len()
        invariant
            mem@ == cur.tape,
            mem.len() == TAPE_SIZE,
            mp == cur.mp,
            mp < TAPE_SIZE,
            steps == cur.steps,
            steps <= limit,
            output@ == as_chars(cur.output),
            pc == cur.pc || (pc == ops.len() && cur.pc >= ops.len()),
            run(ops@, initial(), limit as nat) == run(ops@, cur, (limit - steps) as nat),
        decreases limit - steps, ops.len() - pc,
    {
        if steps == limit {
            return Err(InterpErr::StepLimit);
        }
        let ghost before = cur;
        assert(run(ops@, before, (limit - steps) as nat) == match step(ops@, before) {
            Err(e) => Outcome::Fault(e),
            Ok(next) => run(ops@, next, (limit - steps - 1) as nat),
        });
        let cell = mem[mp];
        match ops[pc] {
            COps::Putchar => {
                output.push(cell as char);
                proof {
                    cur = step(ops@, before)->Ok_0;
                    assert(as_chars(before.output).push(cell as char) =~= as_chars(cur.output));
                }
                pc += 1;
            },
            COps::Getchar => {
                return Err(InterpErr::Getchar);
            },
            COps::Add(n) => {
                let v: i64 = cell as i64 + n as i64;
                if v > 255 {
                    return Err(InterpErr::IntOverflow);
                } else if v < 0 {
                    return Err(InterpErr::IntUnderflow);
                }
                mem.set(mp, v as u8);
                proof {
                    cur = step(ops@, before)->Ok_0;
                }
                pc += 1;
            },
            COps::Mov(n) => {
                if n >= TAPE_SIZE as i64 - mp as i64 {
                    return Err(InterpErr::MemOverflow);
                }
                if n < -(mp as i64) {
                    return Err(InterpErr::MemUnderflow);
                }
                mp = (mp as i64 + n) as usize;
                proof {
                    cur = step(ops@, before)->Ok_0;
                }
                pc += 1;
            },
            COps::JmpIfZ(a) => {
                proof {
                    cur = step(ops@, before)->Ok_0;
                }
                if cell == 0 {
                    if a < ops.len() as u64 {
                        pc = a as usize + 1;
                    } else {
                        pc = ops.len();
                    }
                } else {
                    pc += 1;
                }
            },
            COps::JmpIfNZ(a) => {
                proof {
                    cur = step(ops@, before)->Ok_0;
                }
                if cell != 0 {
                    if a < ops.len() as u64 {
                        pc = a as usize + 1;
                    } else {
                        pc = ops.len();
                    }
                } else {
                    pc += 1;
                }
            },
        }
        steps += 1;
    }
    if !all_zero(&mem) {
        assert(mem@ != zero_tape());
        return Err(InterpErr::TapeNotZero);
    }
    assert(mem@ =~= zero_tape());
    Ok(ExecResult { output, steps })
}

/// Runs `ops` on a zeroed tape of `TAPE_SIZE` cells until the program ends or
/// an operation cannot be carried out, with the largest allowance that the
/// step counter can hold.
pub fn exec(ops: Vec<COps>) -> (r: Result<ExecResult, InterpErr>)
    ensures
        exec_meets(r, exec_spec(ops@, usize::MAX as nat)),
{
    exec_within(&ops, usize::MAX)
}

} // verus!
