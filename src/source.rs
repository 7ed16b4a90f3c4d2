//! The run of a sourced file: a worklist of lines, so that a file that sources
//! another needs no recursion, and the status that the run returns.
use vstd::prelude::*;
use crate::alias::word_views;
use crate::text::copy_range;

verus! {

/// A run as mathematical values: the lines still to run, in order, and the
/// status of the last line run (0 before any).
pub struct SourceModel {
    pub pending: Seq<Seq<char>>,
    pub last: i32,
}

/// The lines of sourced files still to run, and the status so far.
pub struct SourceRun {
    /// The pending lines, the next one last.
    stack: Vec<Vec<char>>,
    last: i32,
}

/// `s` back to front.
pub open spec fn reversed(s: Seq<Seq<char>>) -> Seq<Seq<char>> {
    Seq::new(s.len(), |i: int| s[s.len() - 1 - i])
}

impl View for SourceRun {
    type V = SourceModel;

    closed spec fn view(&self) -> SourceModel {
        SourceModel { pending: reversed(word_views(self.stack@)), last: self.last }
    }
}

/// A run of `lines`.
pub open spec fn started(lines: Seq<Seq<char>>) -> SourceModel {
    SourceModel { pending: lines, last: 0 }
}

/// The run once its next line was taken.
pub open spec fn after_take(m: SourceModel) -> SourceModel {
    if m.pending.len() == 0 {
        m
    } else {
        SourceModel { pending: m.pending.drop_first(), last: m.last }
    }
}

/// The run once a line finished with `status`.
pub open spec fn after_status(m: SourceModel, status: i32) -> SourceModel {
    SourceModel { pending: m.pending, last: status }
}

/// The run once a line that sources `lines` was met: they run next, and the
/// sourcing line's own status is 0 until one of them ends.
pub open spec fn after_enter(m: SourceModel, lines: Seq<Seq<char>>) -> SourceModel {
    SourceModel { pending: lines + m.pending, last: 0 }
}

/// Pushes `lines` onto `stack` so that the first of them comes off first.
fn push_reversed(stack: &mut Vec<Vec<char>>, lines: Vec<Vec<char>>)
    ensures
        reversed(word_views(final(stack)@)) == word_views(lines@) + reversed(word_views(old(stack)@)),
{
    let ghost old_part = reversed(word_views(stack@));
    let mut k: usize = lines.len();
    while k > 0
        invariant
            k <= lines@.len(),
            reversed(word_views(stack@)) == word_views(lines@).subrange(k as int, lines@.len() as int)
                + old_part,
        decreases k,
    {
        let l = &lines[k - 1];
        let c = copy_range(l.as_slice(), 0, l.len());
        assert(c@ =~= l@);
        let ghost before = stack@;
        stack.push(c);
        assert(reversed(word_views(stack@)) =~= seq![l@] + reversed(word_views(before)));
        assert(word_views(lines@).subrange(k - 1, lines@.len() as int) =~= seq![l@] + word_views(
            lines@,
        ).subrange(k as int, lines@.len() as int));
        k = k - 1;
    }
    assert(word_views(lines@).subrange(0, lines@.len() as int) =~= word_views(lines@));
}

impl SourceRun {
    /// A run of the lines of one file.
    pub fn new(lines: Vec<Vec<char>>) -> (r: Self)
        ensures
            r@ == started(word_views(lines@)),
    {
        let mut stack: Vec<Vec<char>> = Vec::new();
        assert(reversed(word_views(stack@)) =~= Seq::<Seq<char>>::empty());
        push_reversed(&mut stack, lines);
        assert(word_views(lines@) + Seq::<Seq<char>>::empty() =~= word_views(lines@));
        SourceRun { stack, last: 0 }
    }

    /// Takes the next line to run, if any is left.
    pub fn next_line(&mut self) -> (r: Option<Vec<char>>)
        ensures
            final(self)@ == after_take(old(self)@),
            match r {
                Some(l) => old(self)@.pending.len() > 0 && l@ == old(self)@.pending[0],
                None => old(self)@.pending.len() == 0,
            },
    {
        let r = self.stack.pop();
        proof {
            if r is Some {
                assert(self@.pending =~= old(self)@.pending.drop_first());
            }
        }
        r
    }

    /// Records the status of the line just run.
    pub fn line_done(&mut self, status: i32)
        ensures
            final(self)@ == after_status(old(self)@, status),
    {
        self.last = status;
    }

    /// The line just taken sources `lines`: they run before the rest.
    pub fn enter(&mut self, lines: Vec<Vec<char>>)
        ensures
            final(self)@ == after_enter(old(self)@, word_views(lines@)),
    {
        push_reversed(&mut self.stack, lines);
        self.last = 0;
    }

    /// The status of the run: that of its last line, 0 where none ran.
    pub fn status(&self) -> (r: i32)
        ensures
            r == self@.last,
    {
        self.last
    }

    /// Whether no line is left.
    pub fn is_done(&self) -> (r: bool)
        ensures
            r == (self@.pending.len() == 0),
    {
        self.stack.len() == 0
    }
}

/// Sourcing three lines that source nothing runs them in the order of the
/// file, and the run's status is the status of the third.
pub proof fn lemma_source_runs_in_order(
    c1: Seq<char>,
    c2: Seq<char>,
    c3: Seq<char>,
    s1: i32,
    s2: i32,
    s3: i32,
)
    ensures
        ({
            let m0 = started(seq![c1, c2, c3]);
            let m1 = after_status(after_take(m0), s1);
            let m2 = after_status(after_take(m1), s2);
            let m3 = after_status(after_take(m2), s3);
            &&& m0.pending[0] == c1
            &&& m1.pending[0] == c2
            &&& m2.pending[0] == c3
            &&& m3.pending.len() == 0
            &&& m3.last == s3
        }),
{
    let m0 = started(seq![c1, c2, c3]);
    let m1 = after_status(after_take(m0), s1);
    let m2 = after_status(after_take(m1), s2);
    assert(m1.pending =~= seq![c2, c3]);
    assert(m2.pending =~= seq![c3]);
}

} // verus!
