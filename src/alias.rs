//! The alias table and the expansion of a line's leading word.
use vstd::prelude::*;
use crate::text::{append, trim, trimmed};

verus! {

/// The words of `line` as a POSIX shell would split them, or `None` where the
/// quoting does not close.
pub uninterp spec fn shell_words_of(line: Seq<char>) -> Option<Seq<Seq<char>>>;

/// The views of a list of words.
pub open spec fn word_views(v: Seq<Vec<char>>) -> Seq<Seq<char>> {
    v.map_values(|w: Vec<char>| w@)
}

/// Relies on `shlex::split`: it splits a line into words by the shell's
/// quoting rules and answers `None` for an unclosed quote or a trailing
/// backslash; the answer depends on the line alone.
#[verifier::external_body]
pub(crate) fn split_words(line: &[char]) -> (r: Option<Vec<Vec<char>>>)
    ensures
        match r {
            Some(v) => shell_words_of(line@) == Some(word_views(v@)),
            None => shell_words_of(line@) is None,
        },
{
    let s: String = line.iter().collect();
    shlex::split(&s).map(|v| v.iter().map(|w| w.chars().collect()).collect())
}

/// Words joined by single spaces.
pub open spec fn join_spaces(words: Seq<Seq<char>>) -> Seq<char>
    decreases words.len(),
{
    if words.len() == 0 {
        Seq::empty()
    } else if words.len() == 1 {
        words[0]
    } else {
        words[0] + seq![' '] + join_spaces(words.drop_first())
    }
}

/// Joins words by single spaces.
pub fn join_words(words: &[Vec<char>]) -> (r: Vec<char>)
    ensures
        r@ == join_spaces(word_views(words@)),
{
    let mut out: Vec<char> = Vec::new();
    let n = words.len();
    if n == 0 {
        return out;
    }
    let mut i: usize = n;
    // Built from the back: `out` is the join of `words[i..]`.
    append(&mut out, words[n - 1].as_slice());
    i = n - 1;
    assert(word_views(words@).subrange(i as int, n as int) =~= seq![words@[n - 1]@]);
    while i > 0
        invariant
            0 <= i < n == words@.len(),
            out@ == join_spaces(word_views(words@).subrange(i as int, n as int)),
        decreases i,
    {
        let mut next: Vec<char> = Vec::new();
        append(&mut next, words[i - 1].as_slice());
        next.push(' ');
        append(&mut next, out.as_slice());
        let ghost tail = word_views(words@).subrange(i as int, n as int);
        let ghost whole = word_views(words@).subrange(i - 1, n as int);
        assert(whole.drop_first() =~= tail);
        assert(whole[0] == words@[i - 1]@);
        out = next;
        i = i - 1;
    }
    assert(word_views(words@).subrange(0, n as int) =~= word_views(words@));
    out
}

/// The alias table: names and replacement texts, a later entry for a name
/// taking the place of an earlier one.
pub struct AliasTable {
    entries: Vec<(Vec<char>, Vec<char>)>,
}

/// The replacement of `name` in a list of entries: the last entry for it.
pub open spec fn lookup(entries: Seq<(Seq<char>, Seq<char>)>, name: Seq<char>) -> Option<Seq<char>>
    decreases entries.len(),
{
    if entries.len() == 0 {
        None
    } else if entries.last().0 == name {
        Some(entries.last().1)
    } else {
        lookup(entries.drop_last(), name)
    }
}

impl View for AliasTable {
    type V = Seq<(Seq<char>, Seq<char>)>;

    closed spec fn view(&self) -> Seq<(Seq<char>, Seq<char>)> {
        self.entries@.map_values(|e: (Vec<char>, Vec<char>)| (e.0@, e.1@))
    }
}

impl AliasTable {
    /// An empty table.
    pub fn new() -> (r: Self)
        ensures
            r@ == Seq::<(Seq<char>, Seq<char>)>::empty(),
    {
        let r = AliasTable { entries: Vec::new() };
        assert(r@ =~= Seq::<(Seq<char>, Seq<char>)>::empty());
        r
    }

    /// Makes `name` stand for `value`.
    pub fn insert(&mut self, name: Vec<char>, value: Vec<char>)
        ensures
            final(self)@ == old(self)@.push((name@, value@)),
    {
        self.entries.push((name, value));
        assert(self@ =~= old(self)@.push((name@, value@)));
    }

    /// The replacement text of `name`.
    pub fn get(&self, name: &[char]) -> (r: Option<Vec<char>>)
        ensures
            match r {
                Some(v) => lookup(self@, name@) == Some(v@),
                None => lookup(self@, name@) is None,
            },
    {
        let mut i: usize = self.entries.len();
        assert(self@.subrange(0, i as int) =~= self@);
        while i > 0
            invariant
                i <= self.entries@.len(),
                self@.len() == self.entries@.len(),
                lookup(self@.subrange(0, i as int), name@) == lookup(self@, name@),
            decreases i,
        {
            let ghost pre = self@.subrange(0, i as int);
            assert(pre.last() == self@[i - 1]);
            assert(pre.drop_last() =~= self@.subrange(0, i - 1));
            if crate::text::same(self.entries[i - 1].0.as_slice(), name) {
                let v = crate::text::copy_range(
                    self.entries[i - 1].1.as_slice(),
                    0,
                    self.entries[i - 1].1.len(),
                );
                assert(self.entries[i - 1].1@.subrange(0, self.entries[i - 1].1@.len() as int)
                    =~= self.entries[i - 1].1@);
                return Some(v);
            }
            i = i - 1;
        }
        None
    }
}

/// The line after alias expansion, its words being `words`: where the first
/// word names an alias, its replacement, a space, and the other words joined by
/// spaces; otherwise the trimmed line as it was.
pub open spec fn expanded_with(
    line: Seq<char>,
    words: Option<Seq<Seq<char>>>,
    table: Seq<(Seq<char>, Seq<char>)>,
) -> Seq<char> {
    match words {
        Some(w) => if w.len() > 0 && lookup(table, w[0]) is Some {
            lookup(table, w[0])->0 + seq![' '] + join_spaces(w.drop_first())
        } else {
            trim(line)
        },
        None => trim(line),
    }
}

/// The line after alias expansion.
pub open spec fn alias_expansion(line: Seq<char>, table: Seq<(Seq<char>, Seq<char>)>) -> Seq<char> {
    expanded_with(line, shell_words_of(trim(line)), table)
}

/// Expands the leading alias of `line`, given the shell words of its trimmed
/// form.
pub fn expand_with_words(
    line: &[char],
    words: Option<Vec<Vec<char>>>,
    table: &AliasTable,
) -> (r: Vec<char>)
    ensures
        r@ == expanded_with(
            line@,
            match words {
                Some(w) => Some(word_views(w@)),
                None => None,
            },
            table@,
        ),
{
    match words {
        Some(w) => {
            if w.len() > 0 {
                match table.get(w[0].as_slice()) {
                    Some(v) => {
                        let mut out = v;
                        out.push(' ');
                        let rest = join_words(&w.as_slice()[1..w.len()]);
                        append(&mut out, rest.as_slice());
                        assert(w@.subrange(1, w@.len() as int).map_values(|x: Vec<char>| x@)
                            =~= word_views(w@).drop_first());
                        return out;
                    },
                    None => {},
                }
            }
            trimmed(line)
        },
        None => trimmed(line),
    }
}

/// Expands the leading alias of `line`: one level only, and only where the
/// line splits into shell words.
pub fn expand_alias(line: &[char], table: &AliasTable) -> (r: Vec<char>)
    ensures
        r@ == alias_expansion(line@, table@),
{
    let t = trimmed(line);
    let words = split_words(t.as_slice());
    expand_with_words(line, words, table)
}

/// An alias is replaced once: the expansion is the replacement text as the
/// table holds it, then the other words, even where the replacement starts
/// with a word that is itself an alias.
pub proof fn lemma_alias_expands_once(
    line: Seq<char>,
    table: Seq<(Seq<char>, Seq<char>)>,
    words: Seq<Seq<char>>,
    value: Seq<char>,
)
    requires
        shell_words_of(trim(line)) == Some(words),
        words.len() > 0,
        lookup(table, words[0]) == Some(value),
    ensures
        alias_expansion(line, table) == value + seq![' '] + join_spaces(words.drop_first()),
        alias_expansion(line, table).subrange(0, value.len() as int) == value,
{
    let r = alias_expansion(line, table);
    assert(r.subrange(0, value.len() as int) =~= value);
}

} // verus!
