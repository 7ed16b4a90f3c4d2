//! Inline suggestions: what the last word of a line could be completed to.
use vstd::prelude::*;
use crate::alias::word_views;
use crate::highlight::has_prefix;
use crate::text::{copy_range, same, starts_with, trim, trimmed};

verus! {

/// What a suggestion for a line is to be looked for in, as mathematical values.
pub enum HintModel {
    Nothing,
    Command(Seq<char>),
    File(Seq<char>),
}

/// What a suggestion for a line is to be looked for in.
pub enum HintRequest {
    /// No suggestion.
    Nothing,
    /// The line is one word: complete it to a command name.
    Command { prefix: Vec<char> },
    /// Complete the last word to a file name.
    File { path: Vec<char> },
}

impl View for HintRequest {
    type V = HintModel;

    open spec fn view(&self) -> HintModel {
        match self {
            HintRequest::Nothing => HintModel::Nothing,
            HintRequest::Command { prefix } => HintModel::Command(prefix@),
            HintRequest::File { path } => HintModel::File(path@),
        }
    }
}

/// Position of the last `c` before `j`, or -1.
pub open spec fn last_index_of(s: Seq<char>, c: char, j: int) -> int
    decreases j,
{
    if j <= 0 || j > s.len() {
        -1
    } else if s[j - 1] == c {
        j - 1
    } else {
        last_index_of(s, c, j - 1)
    }
}

/// What to suggest for a line: the trimmed line is cut at its last space; a
/// single word asks for a command name, a last word after others for a file.
pub open spec fn hint_of(line: Seq<char>) -> HintModel {
    let t = trim(line);
    let p = last_index_of(t, ' ', t.len() as int);
    let before = if p >= 0 { t.subrange(0, p) } else { Seq::empty() };
    let after = if p >= 0 { t.subrange(p + 1, t.len() as int) } else { t };
    if t.len() == 0 || after.len() == 0 {
        HintModel::Nothing
    } else if before.len() == 0 {
        HintModel::Command(after)
    } else {
        HintModel::File(after)
    }
}

/// Decides what to suggest for a line.
pub fn hint_request(line: &[char]) -> (r: HintRequest)
    ensures
        r@ == hint_of(line@),
{
    let t = trimmed(line);
    let n = t.len();
    if n == 0 {
        return HintRequest::Nothing;
    }
    let mut j: usize = n;
    while j > 0 && t[j - 1] != ' '
        invariant
            j <= n == t@.len(),
            last_index_of(t@, ' ', j as int) == last_index_of(t@, ' ', n as int),
        decreases j,
    {
        j = j - 1;
    }
    // `j - 1` is the last space, where `j > 0`.
    let (before_len, after) = if j > 0 {
        (j - 1, copy_range(t.as_slice(), j, n))
    } else {
        (0, copy_range(t.as_slice(), 0, n))
    };
    proof {
        if j == 0 {
            assert(after@ =~= t@);
        }
    }
    if after.len() == 0 {
        HintRequest::Nothing
    } else if before_len == 0 {
        HintRequest::Command { prefix: after }
    } else {
        HintRequest::File { path: after }
    }
}

/// The rest of the first entry that starts with `prefix` and is not `prefix`
/// itself, if any.
pub fn complete_file(entries: &[Vec<char>], prefix: &[char]) -> (r: Option<Vec<char>>)
    ensures
        r is Some <==> exists|j: int|
            0 <= j < entries@.len() && #[trigger] extends(word_views(entries@)[j], prefix@),
        r is Some ==> exists|j: int|
            0 <= j < entries@.len() && #[trigger] extends(word_views(entries@)[j], prefix@) && (
            forall|m: int| 0 <= m < j ==> !extends(#[trigger] word_views(entries@)[m], prefix@))
                && r->0@ == word_views(entries@)[j].subrange(
                prefix@.len() as int,
                word_views(entries@)[j].len() as int,
            ),
{
    let mut i: usize = 0;
    while i < entries.len()
        invariant
            i <= entries@.len(),
            forall|m: int| 0 <= m < i ==> !extends(#[trigger] word_views(entries@)[m], prefix@),
        decreases entries.len() - i,
    {
        let e = entries[i].as_slice();
        assert(e@ == word_views(entries@)[i as int]);
        if starts_with(e, prefix) && !same(e, prefix) {
            let rest = copy_range(e, prefix.len(), e.len());
            assert(0 <= i < entries@.len() && extends(word_views(entries@)[i as int], prefix@) && (
            forall|m: int| 0 <= m < i ==> !extends(#[trigger] word_views(entries@)[m], prefix@))
                && rest@ == word_views(entries@)[i as int].subrange(
                prefix@.len() as int,
                word_views(entries@)[i as int].len() as int,
            ));
            return Some(rest);
        }
        i = i + 1;
    }
    None
}

/// `s` starts with `p` and is longer than `p`.
pub open spec fn extends(s: Seq<char>, p: Seq<char>) -> bool {
    has_prefix(s, p) && s != p
}

} // verus!
