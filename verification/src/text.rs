//! Text building blocks shared by the code emitter: repeated characters,
//! decimal numbers, padding and comment sanitising.
use vstd::prelude::*;

verus! {

/// `String::push` appends exactly one character to the end of the string and
/// leaves what was there before untouched.
pub assume_specification[ String::push ](s: &mut String, c: char)
    ensures
        final(s)@ == old(s)@.push(c),
;

/// The character `c` written `n` times.
pub open spec fn repeated(c: char, n: nat) -> Seq<char> {
    Seq::new(n, |i: int| c)
}

/// One more repetition is one more character at the end.
pub proof fn lemma_repeated_push(c: char, n: nat)
    ensures
        repeated(c, n + 1) == repeated(c, n).push(c),
{
    assert(repeated(c, n + 1) =~= repeated(c, n).push(c));
}

/// Appends `c` to `out` `n` times.
pub fn push_repeat(out: &mut String, c: char, n: usize)
    ensures
        final(out)@ == old(out)@ + repeated(c, n as nat),
{
    let mut i: usize = 0;
    assert(out@ =~= old(out)@ + repeated(c, 0));
    while i < n
        invariant
            i <= n,
            out@ == old(out)@ + repeated(c, i as nat),
        decreases n - i,
    {
        out.push(c);
        proof {
            lemma_repeated_push(c, i as nat);
            assert((old(out)@ + repeated(c, i as nat)).push(c) =~= old(out)@ + repeated(
                c,
                i as nat,
            ).push(c));
        }
        i += 1;
    }
}

/// The decimal digit for a value below ten.
pub open spec fn digit(d: nat) -> char {
    if d == 0 {
        '0'
    } else if d == 1 {
        '1'
    } else if d == 2 {
        '2'
    } else if d == 3 {
        '3'
    } else if d == 4 {
        '4'
    } else if d == 5 {
        '5'
    } else if d == 6 {
        '6'
    } else if d == 7 {
        '7'
    } else if d == 8 {
        '8'
    } else {
        '9'
    }
}

/// The decimal notation of `n`, without sign or leading zeros.
pub open spec fn decimal(n: nat) -> Seq<char>
    decreases n,
{
    if n < 10 {
        seq![digit(n)]
    } else {
        decimal(n / 10).push(digit(n % 10))
    }
}

fn digit_char(d: u64) -> (c: char)
    requires
        d < 10,
    ensures
        c == digit(d as nat),
{
    if d == 0 {
        '0'
    } else if d == 1 {
        '1'
    } else if d == 2 {
        '2'
    } else if d == 3 {
        '3'
    } else if d == 4 {
        '4'
    } else if d == 5 {
        '5'
    } else if d == 6 {
        '6'
    } else if d == 7 {
        '7'
    } else if d == 8 {
        '8'
    } else {
        '9'
    }
}

/// Appends the decimal notation of `n` to `out`.
pub fn push_decimal(out: &mut String, n: u64)
    ensures
        final(out)@ == old(out)@ + decimal(n as nat),
    decreases n,
{
    if n < 10 {
        out.push(digit_char(n));
        assert(old(out)@.push(digit(n as nat)) =~= old(out)@ + decimal(n as nat));
    } else {
        push_decimal(out, n / 10);
        out.push(digit_char(n % 10));
        assert((old(out)@ + decimal((n / 10) as nat)).push(digit((n % 10) as nat)) =~= old(out)@
            + decimal(n as nat));
    }
}

/// Appends a whole string slice to `out`.
pub fn push_text(out: &mut String, s: &str)
    ensures
        final(out)@ == old(out)@ + s@,
{
    proof {
        vstd::string::axiom_spec_iter(s);
    }
    assert(out@ =~= old(out)@ + s@.take(0));
    for c in it: s.chars()
        invariant
            it.seq() == s@,
            out@ == old(out)@ + s@.take(it.index()),
    {
        out.push(c);
        assert((old(out)@ + s@.take(it.index())).push(c) =~= old(out)@ + s@.take(it.index() + 1));
    }
    assert(s@.take(s@.len() as int) =~= s@);
}

/// `s` followed by as many spaces as it takes to reach `width` characters;
/// `s` itself where it is already that long.
pub open spec fn padded(s: Seq<char>, width: nat) -> Seq<char> {
    if s.len() >= width {
        s
    } else {
        s + repeated(' ', (width - s.len()) as nat)
    }
}

/// Appends `s`, left-aligned in a field of `width` characters, to `out`.
pub fn push_padded(out: &mut String, s: &str, width: usize)
    ensures
        final(out)@ == old(out)@ + padded(s@, width as nat),
{
    let len = s.unicode_len();
    push_text(out, s);
    if len < width {
        push_repeat(out, ' ', width - len);
        assert(old(out)@ + s@ + repeated(' ', (width - len) as nat) =~= old(out)@ + padded(
            s@,
            width as nat,
        ));
    }
}

/// The text with every comma replaced by an underscore, so that a comment
/// never reads as the tape language's input instruction.
pub open spec fn sanitized(s: Seq<char>) -> Seq<char> {
    s.map_values(
        |c: char|
            if c == ',' {
                '_'
            } else {
                c
            },
    )
}

/// Replaces every comma of `s` by an underscore.
pub fn bfsan(s: String) -> (r: String)
    ensures
        r@ == sanitized(s@),
{
    let mut out = String::new();
    let text = s.as_str();
    proof {
        vstd::string::axiom_spec_iter(text);
    }
    assert(out@ =~= sanitized(s@.take(0)));
    for c in it: text.chars()
        invariant
            it.seq() == s@,
            out@ == sanitized(s@.take(it.index())),
    {
        if c == ',' {
            out.push('_');
        } else {
            out.push(c);
        }
        assert(sanitized(s@.take(it.index())).push(
            if c == ',' {
                '_'
            } else {
                c
            },
        ) =~= sanitized(s@.take(it.index() + 1)));
    }
    assert(s@.take(s@.len() as int) =~= s@);
    out
}

/// A text under construction. The text is kept in two parts: what stood
/// before the piece now being written, and that piece. A function that writes
/// a composite piece opens a scope, writes the parts, and closes the scope;
/// its contract then speaks of the composite as one part.
pub(crate) struct Writer {
    pub buf: String,
    pub outer: Ghost<Seq<char>>,
    pub piece: Ghost<Seq<char>>,
    pub fresh: Ghost<bool>,
}

/// A scope's memory of the writer it was opened on.
pub(crate) struct Scope {
    pub outer: Seq<char>,
    pub piece: Seq<char>,
    pub fresh: bool,
}

impl Scope {
    /// The enclosing piece once `part` has been added to it.
    pub(crate) open spec fn grown(self, part: Seq<char>) -> Seq<char> {
        if self.fresh {
            part
        } else {
            self.piece + part
        }
    }
}

impl Writer {
    /// The buffer holds the two parts, and a fresh piece is empty.
    pub(crate) open spec fn wf(&self) -> bool {
        &&& self.buf@ == self.outer@ + self.piece@
        &&& self.fresh@ ==> self.piece@ == Seq::<char>::empty()
    }

    /// The writer as a scope sees it.
    pub(crate) open spec fn scope(&self) -> Scope {
        Scope { outer: self.outer@, piece: self.piece@, fresh: self.fresh@ }
    }

    /// The current piece once `part` has been added to it.
    pub(crate) open spec fn grown(&self, part: Seq<char>) -> Seq<char> {
        self.scope().grown(part)
    }

    /// `next` is `self` after `part` was written.
    pub(crate) open spec fn wrote(&self, next: &Writer, part: Seq<char>) -> bool {
        &&& next.wf()
        &&& next.outer@ == self.outer@
        &&& next.piece@ == self.grown(part)
        &&& !next.fresh@
    }

    /// A writer on an empty text.
    pub(crate) fn new() -> (w: Writer)
        ensures
            w.wf(),
            w.outer@ == Seq::<char>::empty(),
            w.fresh@,
    {
        let w = Writer {
            buf: String::new(),
            outer: Ghost(Seq::empty()),
            piece: Ghost(Seq::empty()),
            fresh: Ghost(true),
        };
        assert(w.buf@ =~= w.outer@ + w.piece@);
        w
    }

    /// The text written.
    pub(crate) fn finish(self) -> (r: String)
        requires
            self.wf(),
        ensures
            r@ == self.outer@ + self.piece@,
    {
        self.buf
    }

    /// Starts a piece of its own inside the current one.
    pub(crate) fn open(&mut self) -> (mark: Ghost<Scope>)
        requires
            old(self).wf(),
        ensures
            final(self).wf(),
            final(self).fresh@,
            final(self).outer@ == old(self).outer@ + old(self).piece@,
            mark@ == old(self).scope(),
    {
        let ghost before = self.scope();
        proof {
            self.outer@ = before.outer + before.piece;
            self.piece@ = Seq::empty();
            self.fresh@ = true;
            assert(self.buf@ =~= self.outer@ + self.piece@);
        }
        Ghost(before)
    }

    /// Starts a piece of its own that grows from the empty text, as a loop
    /// needs it.
    pub(crate) fn open_loop(&mut self) -> (mark: Ghost<Scope>)
        requires
            old(self).wf(),
        ensures
            final(self).wf(),
            !final(self).fresh@,
            final(self).piece@ == Seq::<char>::empty(),
            final(self).outer@ == old(self).outer@ + old(self).piece@,
            mark@ == old(self).scope(),
    {
        let ghost before = self.scope();
        proof {
            self.outer@ = before.outer + before.piece;
            self.piece@ = Seq::empty();
            self.fresh@ = false;
            assert(self.buf@ =~= self.outer@ + self.piece@);
        }
        Ghost(before)
    }

    /// Ends the piece that `mark` opened: it becomes one part of the piece
    /// around it.
    pub(crate) fn close(&mut self, mark: Ghost<Scope>)
        requires
            old(self).wf(),
            old(self).outer@ == mark@.outer + mark@.piece,
            mark@.fresh ==> mark@.piece == Seq::<char>::empty(),
        ensures
            final(self).wf(),
            !final(self).fresh@,
            final(self).outer@ == mark@.outer,
            final(self).piece@ == mark@.grown(old(self).piece@),
    {
        let ghost inner = self.piece@;
        proof {
            self.outer@ = mark@.outer;
            self.piece@ = mark@.grown(inner);
            self.fresh@ = false;
            assert(self.buf@ =~= self.outer@ + self.piece@);
        }
    }

    /// Writes a string slice.
    pub(crate) fn text(&mut self, s: &str)
        requires
            old(self).wf(),
        ensures
            old(self).wrote(final(self), s@),
    {
        let ghost before = self.scope();
        push_text(&mut self.buf, s);
        proof {
            self.piece@ = before.grown(s@);
            self.fresh@ = false;
            assert(self.buf@ =~= self.outer@ + self.piece@);
        }
    }

    /// Writes `c` `n` times.
    pub(crate) fn repeat(&mut self, c: char, n: usize)
        requires
            old(self).wf(),
        ensures
            old(self).wrote(final(self), repeated(c, n as nat)),
    {
        let ghost before = self.scope();
        push_repeat(&mut self.buf, c, n);
        proof {
            self.piece@ = before.grown(repeated(c, n as nat));
            self.fresh@ = false;
            assert(self.buf@ =~= self.outer@ + self.piece@);
        }
    }

    /// Writes `n` in decimal.
    pub(crate) fn number(&mut self, n: u64)
        requires
            old(self).wf(),
        ensures
            old(self).wrote(final(self), decimal(n as nat)),
    {
        let ghost before = self.scope();
        push_decimal(&mut self.buf, n);
        proof {
            self.piece@ = before.grown(decimal(n as nat));
            self.fresh@ = false;
            assert(self.buf@ =~= self.outer@ + self.piece@);
        }
    }
}

} // verus!
