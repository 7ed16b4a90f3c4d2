//! The state carried from one line to the next: the directory to go back to,
//! the status of the last command, and the history of lines.
use vstd::prelude::*;
use crate::alias::word_views;
use crate::highlight::{expand_tilde, tilde_expanded};
use crate::text::{blank, copy_range, is_blank};

verus! {

/// The session as mathematical values.
pub struct SessionModel {
    pub previous: Option<Seq<char>>,
    pub last_status: i32,
    pub history: Seq<Seq<char>>,
}

/// The mutable state of one interactive session.
pub struct Session {
    previous: Option<Vec<char>>,
    last_status: i32,
    history: Vec<Vec<char>>,
}

pub open spec fn opt_view(o: Option<Vec<char>>) -> Option<Seq<char>> {
    match o {
        Some(v) => Some(v@),
        None => None,
    }
}

impl View for Session {
    type V = SessionModel;

    closed spec fn view(&self) -> SessionModel {
        SessionModel {
            previous: opt_view(self.previous),
            last_status: self.last_status,
            history: word_views(self.history@),
        }
    }
}

/// What a `cd` is to do, as mathematical values.
pub enum CdPlanModel {
    Go(Seq<char>, bool),
    NoPrevious,
}

/// What a `cd` is to do.
pub enum CdPlan {
    /// Change to `target`; where that succeeds and `remember` holds, the
    /// directory left becomes the one `cd -` goes back to.
    Go { target: Vec<char>, remember: bool },
    /// `cd -` with no directory to go back to.
    NoPrevious,
}

impl View for CdPlan {
    type V = CdPlanModel;

    open spec fn view(&self) -> CdPlanModel {
        match self {
            CdPlan::Go { target, remember } => CdPlanModel::Go(target@, *remember),
            CdPlan::NoPrevious => CdPlanModel::NoPrevious,
        }
    }
}

/// The plan for `cd arg`, and the directory to go back to after planning: no
/// argument goes home (to `/` where no home is known), `-` takes the
/// directory to go back to, anything else is tilde-expanded.
pub open spec fn cd_plan(
    previous: Option<Seq<char>>,
    arg: Seq<char>,
    home: Option<Seq<char>>,
) -> (CdPlanModel, Option<Seq<char>>) {
    if arg.len() == 0 {
        (CdPlanModel::Go(if home is Some { home->0 } else { seq!['/'] }, true), previous)
    } else if arg == seq!['-'] {
        match previous {
            Some(p) => (CdPlanModel::Go(p, false), None),
            None => (CdPlanModel::NoPrevious, None),
        }
    } else {
        (CdPlanModel::Go(tilde_expanded(arg, home), true), previous)
    }
}

/// The directory to go back to once a change was tried from `left`.
pub open spec fn after_cd(previous: Option<Seq<char>>, left: Seq<char>, remember: bool, changed: bool) -> Option<
    Seq<char>,
> {
    if remember && changed {
        Some(left)
    } else {
        previous
    }
}

/// One `cd arg` from the working directory `cwd`, where `can_enter` tells which
/// directories a change to succeeds for: the directory to go back to, the
/// working directory after it, and whether "No previous directory" was reported.
pub open spec fn cd_effect(
    previous: Option<Seq<char>>,
    cwd: Seq<char>,
    arg: Seq<char>,
    home: Option<Seq<char>>,
    can_enter: spec_fn(Seq<char>) -> bool,
) -> (Option<Seq<char>>, Seq<char>, bool) {
    let (plan, p) = cd_plan(previous, arg, home);
    match plan {
        CdPlanModel::Go(target, remember) => if can_enter(target) {
            (after_cd(p, cwd, remember, true), target, false)
        } else {
            (after_cd(p, cwd, remember, false), cwd, false)
        },
        CdPlanModel::NoPrevious => (p, cwd, true),
    }
}

/// From directory `a`, `cd b` then `cd -` comes back to `a`; a second `cd -`
/// right after reports that there is no previous directory and stays in `a`.
pub proof fn lemma_cd_back_and_forth(
    previous: Option<Seq<char>>,
    a: Seq<char>,
    b: Seq<char>,
    home: Option<Seq<char>>,
    can_enter: spec_fn(Seq<char>) -> bool,
)
    requires
        b.len() > 0,
        b != seq!['-'],
        can_enter(tilde_expanded(b, home)),
        can_enter(a),
    ensures
        ({
            let (p1, c1, r1) = cd_effect(previous, a, b, home, can_enter);
            let (p2, c2, r2) = cd_effect(p1, c1, seq!['-'], home, can_enter);
            let (p3, c3, r3) = cd_effect(p2, c2, seq!['-'], home, can_enter);
            &&& c1 == tilde_expanded(b, home)
            &&& !r1 && !r2
            &&& c2 == a
            &&& r3
            &&& c3 == a
        }),
{
}

impl Session {
    /// A fresh session: nothing to go back to, status 0, no history.
    pub fn new() -> (r: Self)
        ensures
            r@.previous is None,
            r@.last_status == 0,
            r@.history == Seq::<Seq<char>>::empty(),
    {
        let r = Session { previous: None, last_status: 0, history: Vec::new() };
        assert(r@.history =~= Seq::<Seq<char>>::empty());
        r
    }

    /// Records a submitted line in the history, as it was typed; a line of
    /// nothing but white space is not recorded.
    pub fn record(&mut self, line: &[char])
        ensures
            final(self)@.history == if is_blank(line@) {
                old(self)@.history
            } else {
                old(self)@.history.push(line@)
            },
            final(self)@.previous == old(self)@.previous,
            final(self)@.last_status == old(self)@.last_status,
    {
        if !blank(line) {
            let l = copy_range(line, 0, line.len());
            assert(l@ =~= line@);
            self.history.push(l);
            assert(self@.history =~= old(self)@.history.push(line@));
        }
    }

    /// The history, newest line first.
    pub fn history_newest_first(&self) -> (r: Vec<Vec<char>>)
        ensures
            word_views(r@).len() == self@.history.len(),
            forall|i: int|
                0 <= i < self@.history.len() ==> #[trigger] word_views(r@)[i]
                    == self@.history[self@.history.len() - 1 - i],
    {
        let n = self.history.len();
        let mut r: Vec<Vec<char>> = Vec::new();
        let mut k: usize = n;
        while k > 0
            invariant
                k <= n == self.history@.len(),
                self@.history == word_views(self.history@),
                r@.len() == n - k,
                forall|i: int| 0 <= i < n - k ==> #[trigger] r@[i]@ == self@.history[n - 1 - i],
            decreases k,
        {
            let h = &self.history[k - 1];
            let c = copy_range(h.as_slice(), 0, h.len());
            assert(c@ =~= h@);
            r.push(c);
            k = k - 1;
        }
        r
    }

    /// The status of the last command.
    pub fn last_status(&self) -> (r: i32)
        ensures
            r == self@.last_status,
    {
        self.last_status
    }

    /// Records the outcome of a line: its exit code, or 1 where there is none.
    pub fn finish(&mut self, code: Option<i32>)
        ensures
            final(self)@.last_status == match code {
                Some(c) => c,
                None => 1,
            },
            final(self)@.previous == old(self)@.previous,
            final(self)@.history == old(self)@.history,
    {
        self.last_status = match code {
            Some(c) => c,
            None => 1,
        };
    }

    /// Plans `cd arg`; `home` is the home directory, where one is known.
    /// `cd -` takes the directory to go back to.
    pub fn plan_cd(&mut self, arg: &[char], home: Option<&[char]>) -> (r: CdPlan)
        ensures
            (r@, final(self)@.previous) == cd_plan(
                old(self)@.previous,
                arg@,
                match home {
                    Some(h) => Some(h@),
                    None => None,
                },
            ),
            final(self)@.last_status == old(self)@.last_status,
            final(self)@.history == old(self)@.history,
    {
        if arg.len() == 0 {
            let target = match home {
                Some(h) => {
                    let t = copy_range(h, 0, h.len());
                    assert(t@ =~= h@);
                    t
                },
                None => {
                    let t = vec!['/'];
                    assert(t@ =~= seq!['/']);
                    t
                },
            };
            CdPlan::Go { target, remember: true }
        } else if arg.len() == 1 && arg[0] == '-' {
            assert(arg@ =~= seq!['-']);
            let p = self.previous.take();
            match p {
                Some(t) => CdPlan::Go { target: t, remember: false },
                None => CdPlan::NoPrevious,
            }
        } else {
            assert(arg@ != seq!['-']) by {
                if arg@ == seq!['-'] {
                    assert(arg@.len() == 1 && arg@[0] == '-');
                }
            }
            CdPlan::Go { target: expand_tilde(arg, home), remember: true }
        }
    }

    /// Records the end of a `cd` tried from `left`: where the change succeeded
    /// and the plan says to remember, `left` is the directory to go back to.
    pub fn cd_done(&mut self, left: Vec<char>, remember: bool, changed: bool)
        ensures
            final(self)@.previous == after_cd(old(self)@.previous, left@, remember, changed),
            final(self)@.last_status == old(self)@.last_status,
            final(self)@.history == old(self)@.history,
    {
        if remember && changed {
            self.previous = Some(left);
        }
    }
}

} // verus!
