//! The rules of the test harness: where a test case's description stands in
//! its source file, which cases a run selects, and how the run of a compiled
//! program is judged.
use vstd::prelude::*;
use crate::interp::{
    balanced, compile, exec, exec_spec, fuse, parse, resolved, COps, ExecResult, InterpErr,
};
use crate::text::{decimal, push_decimal, push_text};

verus! {

/// A test case, as its source file describes it.
#[derive(Clone, Debug, PartialEq, Eq)]
pub struct TestCase {
    pub name: String,
    /// The output that the program must print.
    pub output: String,
    /// Whether the case is to be skipped.
    pub skip: Option<bool>,
}

/// How the run of a test case's program ended.
#[derive(Clone, Debug, PartialEq, Eq)]
pub enum Verdict {
    /// The program's brackets do not balance.
    Malformed,
    /// The interpreter stopped the program.
    Crashed(InterpErr),
    /// The program printed something else.
    Mismatch { actual: String },
    /// The program printed what was expected, in so many operations.
    Passed { steps: usize },
}

/// `pat` stands in `text` at index `i`.
pub open spec fn occurs_at(text: Seq<char>, pat: Seq<char>, i: int) -> bool {
    0 <= i && i + pat.len() <= text.len() && text.subrange(i, i + pat.len()) == pat
}

/// The first index at or behind `from` where `pat` stands in `text`.
pub open spec fn first_at(text: Seq<char>, pat: Seq<char>, from: int, i: int) -> bool {
    &&& from <= i
    &&& occurs_at(text, pat, i)
    &&& forall|j: int| from <= j < i ==> !occurs_at(text, pat, j)
}

/// `pat` does not stand in `text` at or behind `from`.
pub open spec fn absent(text: Seq<char>, pat: Seq<char>, from: int) -> bool {
    forall|j: int| from <= j ==> !occurs_at(text, pat, j)
}

/// The marker that announces a test case's description.
pub open spec fn marker() -> Seq<char> {
    seq!['T', 'E', 'S', 'T', ':']
}

/// The end of a line.
pub open spec fn newline() -> Seq<char> {
    seq!['\n']
}

/// What `test_header` finds in `text`: the rest of the line behind the first
/// marker, where there is a marker and the line behind it ends.
pub open spec fn header_found(text: Seq<char>, r: Option<Seq<char>>) -> bool {
    match r {
        Some(line) => exists|m: int, n: int|
            #![trigger first_at(text, marker(), 0, m), first_at(text, newline(), m + 5, n)]
            first_at(text, marker(), 0, m) && first_at(text, newline(), m + 5, n) && line
                == text.subrange(m + 5, n),
        None => absent(text, marker(), 0) || exists|m: int| #[trigger]
            first_at(text, marker(), 0, m) && absent(text, newline(), m + 5),
    }
}

fn chars_of(s: &str) -> (v: Vec<char>)
    ensures
        v@ == s@,
{
    let mut v: Vec<char> = Vec::new();
    proof {
        vstd::string::axiom_spec_iter(s);
    }
    assert(s@.take(0) =~= Seq::<char>::empty());
    for c in it: s.chars()
        invariant
            it.seq() == s@,
            v@ == s@.take(it.index()),
    {
        v.push(c);
        assert(s@.take(it.index()).push(c) =~= s@.take(it.index() + 1));
    }
    assert(s@.take(s@.len() as int) =~= s@);
    v
}

fn stands_at(text: &Vec<char>, pat: &Vec<char>, i: usize) -> (b: bool)
    ensures
        b == occurs_at(text@, pat@, i as int),
{
    if pat.len() > text.len() || i > text.len() - pat.len() {
        return false;
    }
    let mut k: usize = 0;
    while k < pat.len()
        invariant
            k <= pat.len(),
            i + pat.len() <= text.len(),
            forall|j: int| 0 <= j < k ==> text@[i + j] == pat@[j],
        decreases pat.len() - k,
    {
        if text[i + k] != pat[k] {
            assert(text@.subrange(i as int, i + pat.len())[k as int] != pat@[k as int]);
            return false;
        }
        k += 1;
    }
    assert(text@.subrange(i as int, i + pat.len()) =~= pat@);
    true
}

fn find_from(text: &Vec<char>, pat: &Vec<char>, from: usize) -> (r: Option<usize>)
    requires
        pat.len() > 0,
    ensures
        match r {
            Some(i) => first_at(text@, pat@, from as int, i as int),
            None => absent(text@, pat@, from as int),
        },
{
    let mut i: usize = from;
    while i < text.len()
        invariant
            from <= i,
            forall|j: int| from <= j < i ==> !occurs_at(text@, pat@, j),
        decreases text.len() - i,
    {
        if stands_at(text, pat, i) {
            return Some(i);
        }
        i += 1;
    }
    None
}

/// The description of a test case in the text of its source file: what stands
/// between the first `TEST:` and the end of that line.
pub fn test_header(content: &str) -> (r: Option<String>)
    ensures
        header_found(
            content@,
            match r {
                Some(line) => Some(line@),
                None => None,
            },
        ),
{
    let text = chars_of(content);
    let mark: Vec<char> = vec!['T', 'E', 'S', 'T', ':'];
    let eol: Vec<char> = vec!['\n'];
    assert(mark@ =~= marker());
    assert(eol@ =~= newline());
    assert(mark@.len() == 5);
    let m = match find_from(&text, &mark, 0) {
        Some(m) => m,
        None => {
            return None;
        },
    };
    assert(first_at(text@, mark@, 0, m as int));
    assert(occurs_at(text@, mark@, m as int));
    assert(m + 5 <= text.len());
    let n = match find_from(&text, &eol, m + 5) {
        Some(n) => n,
        None => {
            return None;
        },
    };
    let mut line = String::new();
    let mut k: usize = m + 5;
    assert(line@ =~= text@.subrange(m + 5, k as int));
    while k < n
        invariant
            m + 5 <= k <= n < text.len(),
            line@ == text@.subrange(m + 5, k as int),
        decreases n - k,
    {
        line.push(text[k]);
        assert(text@.subrange(m + 5, k as int).push(text@[k as int]) =~= text@.subrange(
            m + 5,
            k + 1,
        ));
        k += 1;
    }
    Some(line)
}

/// A run with these arguments (the program's own name first) takes the case
/// of that name: it does where no case is named, and where one of the
/// arguments is the name.
pub open spec fn selects(args: Seq<Seq<char>>, name: Seq<char>) -> bool {
    args.len() <= 1 || exists|i: int| 0 <= i < args.len() && #[trigger] args[i] == name
}

/// The arguments as mathematical values.
pub open spec fn arg_views(args: Seq<String>) -> Seq<Seq<char>> {
    args.map_values(|a: String| a@)
}

/// Whether a run with these arguments takes the case of that name.
pub fn selected(args: &Vec<String>, name: &String) -> (b: bool)
    ensures
        b == selects(arg_views(args@), name@),
{
    if args.len() <= 1 {
        return true;
    }
    let mut i: usize = 0;
    while i < args.len()
        invariant
            i <= args.len(),
            forall|j: int| 0 <= j < i ==> arg_views(args@)[j] != name@,
        decreases args.len() - i,
    {
        if args[i] == *name {
            assert(arg_views(args@)[i as int] == name@);
            return true;
        }
        i += 1;
    }
    false
}

impl TestCase {
    /// Whether the case asks to be skipped.
    pub fn skipped(&self) -> (b: bool)
        ensures
            b == (self.skip == Some(true)),
    {
        match self.skip {
            Some(b) => b,
            None => false,
        }
    }
}

/// The verdict on a program whose operations are `ops`, judged by what it
/// must print.
pub open spec fn verdict_of(ops: Seq<COps>, expected: Seq<char>, v: Verdict) -> bool {
    match exec_spec(ops, usize::MAX as nat) {
        Err(e) => v == Verdict::Crashed(e),
        Ok((output, steps)) => if output == expected {
            v == (Verdict::Passed { steps: steps as usize })
        } else {
            match v {
                Verdict::Mismatch { actual } => actual@ == output,
                _ => false,
            }
        },
    }
}

/// Judges what `exec` made of a program.
pub fn judge_run(run: Result<ExecResult, InterpErr>, expected: &String) -> (v: Verdict)
    ensures
        match run {
            Err(e) => v == Verdict::Crashed(e),
            Ok(res) => if res.output@ == expected@ {
                v == (Verdict::Passed { steps: res.steps })
            } else {
                v == (Verdict::Mismatch { actual: res.output })
            },
        },
{
    match run {
        Err(e) => Verdict::Crashed(e),
        Ok(res) => {
            if res.output == *expected {
                Verdict::Passed { steps: res.steps }
            } else {
                Verdict::Mismatch { actual: res.output }
            }
        },
    }
}

/// Reads and runs a program text and judges the run by the output that
/// is expected of it.
pub fn run_program(code: &str, expected: &String) -> (v: Verdict)
    ensures
        !balanced(parse(code@)) ==> v == Verdict::Malformed,
        balanced(parse(code@)) ==> forall|ops: Seq<COps>| #[trigger]
            resolved(fuse(parse(code@)), ops) ==> verdict_of(ops, expected@, v),
{
    match compile(code) {
        Err(_) => Verdict::Malformed,
        Ok(ops) => {
            proof {
                assert forall|other: Seq<COps>| #[trigger]
                    resolved(fuse(parse(code@)), other) implies other == ops@ by {
                    crate::interp::lemma_resolved_unique(fuse(parse(code@)), other, ops@);
                }
            }
            judge_run(exec(ops), expected)
        },
    }
}

/// The line that records how many operations a passed case took.
pub open spec fn stats_text(steps: nat) -> Seq<char> {
    "steps: "@ + decimal(steps) + "\n"@
}

/// The line that records how many operations a passed case took.
pub fn stats_line(steps: usize) -> (r: String)
    ensures
        r@ == stats_text(steps as nat),
{
    let mut out = String::new();
    push_text(&mut out, "steps: ");
    push_decimal(&mut out, steps as u64);
    push_text(&mut out, "\n");
    assert(out@ =~= stats_text(steps as nat));
    out
}

} // verus!
