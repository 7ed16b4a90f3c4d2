//! The decisions that turn one submitted line into one step for the
//! surrounding program: sourcing a file, a builtin, or a command to run.
use vstd::prelude::*;
use crate::alias::{alias_expansion, expand_alias, shell_words_of, split_words, word_views, AliasTable};
use crate::highlight::has_prefix;
use crate::text::{append, copy_range, ends_with, is_space, same, space, starts_with, trim, trimmed};

verus! {

/// What a line asks for, as mathematical values.
pub enum StepModel {
    Source(Seq<char>),
    ChangeDirectory(Seq<char>),
    Exit,
    ShowHistory,
    ShowHelp,
    Command(Seq<char>),
}

/// What a line asks for, after alias expansion.
pub enum Step {
    /// Run each line of the named file (its `~` not yet expanded).
    Source { path: Vec<char> },
    /// Change the working directory; the argument is trimmed and may be empty
    /// or `-`.
    ChangeDirectory { arg: Vec<char> },
    Exit,
    ShowHistory,
    ShowHelp,
    /// Anything else: goes on to the privilege check and to execution.
    Command { line: Vec<char> },
}

impl View for Step {
    type V = StepModel;

    open spec fn view(&self) -> StepModel {
        match self {
            Step::Source { path } => StepModel::Source(path@),
            Step::ChangeDirectory { arg } => StepModel::ChangeDirectory(arg@),
            Step::Exit => StepModel::Exit,
            Step::ShowHistory => StepModel::ShowHistory,
            Step::ShowHelp => StepModel::ShowHelp,
            Step::Command { line } => StepModel::Command(line@),
        }
    }
}

pub open spec fn source_keyword() -> Seq<char> {
    seq!['s', 'o', 'u', 'r', 'c', 'e', ' ']
}

pub open spec fn dot_keyword() -> Seq<char> {
    seq!['.', ' ']
}

pub open spec fn cd_keyword() -> Seq<char> {
    seq!['c', 'd']
}

pub open spec fn exit_keyword() -> Seq<char> {
    seq!['e', 'x', 'i', 't']
}

pub open spec fn history_keyword() -> Seq<char> {
    seq!['h', 'i', 's', 't', 'o', 'r', 'y']
}

pub open spec fn help_keyword() -> Seq<char> {
    seq!['h', 's', 'h', '-', 'h', 'e', 'l', 'p']
}

/// The step for an alias-expanded line.
pub open spec fn route(x: Seq<char>) -> StepModel {
    if has_prefix(x, source_keyword()) {
        StepModel::Source(trim(x.subrange(7, x.len() as int)))
    } else if has_prefix(x, dot_keyword()) {
        StepModel::Source(trim(x.subrange(2, x.len() as int)))
    } else {
        let t = trim(x);
        if has_prefix(t, cd_keyword()) {
            StepModel::ChangeDirectory(trim(t.subrange(2, t.len() as int)))
        } else if t == exit_keyword() {
            StepModel::Exit
        } else if t == history_keyword() {
            StepModel::ShowHistory
        } else if t == help_keyword() {
            StepModel::ShowHelp
        } else {
            StepModel::Command(x)
        }
    }
}

/// Trimmed copy of `s[from..]`.
fn trimmed_tail(s: &[char], from: usize) -> (r: Vec<char>)
    requires
        from <= s@.len(),
    ensures
        r@ == trim(s@.subrange(from as int, s@.len() as int)),
{
    let tail = copy_range(s, from, s.len());
    trimmed(tail.as_slice())
}

/// The step for an alias-expanded line.
pub fn route_line(x: &[char]) -> (r: Step)
    ensures
        r@ == route(x@),
{
    let source_kw = vec!['s', 'o', 'u', 'r', 'c', 'e', ' '];
    let dot_kw = vec!['.', ' '];
    assert(source_kw@ =~= source_keyword());
    assert(dot_kw@ =~= dot_keyword());
    if starts_with(x, source_kw.as_slice()) {
        return Step::Source { path: trimmed_tail(x, 7) };
    }
    if starts_with(x, dot_kw.as_slice()) {
        return Step::Source { path: trimmed_tail(x, 2) };
    }
    let t = trimmed(x);
    let cd_kw = vec!['c', 'd'];
    let exit_kw = vec!['e', 'x', 'i', 't'];
    let history_kw = vec!['h', 'i', 's', 't', 'o', 'r', 'y'];
    let help_kw = vec!['h', 's', 'h', '-', 'h', 'e', 'l', 'p'];
    assert(cd_kw@ =~= cd_keyword());
    assert(exit_kw@ =~= exit_keyword());
    assert(history_kw@ =~= history_keyword());
    assert(help_kw@ =~= help_keyword());
    if starts_with(t.as_slice(), cd_kw.as_slice()) {
        Step::ChangeDirectory { arg: trimmed_tail(t.as_slice(), 2) }
    } else if same(t.as_slice(), exit_kw.as_slice()) {
        Step::Exit
    } else if same(t.as_slice(), history_kw.as_slice()) {
        Step::ShowHistory
    } else if same(t.as_slice(), help_kw.as_slice()) {
        Step::ShowHelp
    } else {
        let line = copy_range(x, 0, x.len());
        assert(line@ =~= x@);
        Step::Command { line }
    }
}

/// The step for a submitted line: its leading alias is expanded, then the line
/// is routed.
pub fn plan_line(line: &[char], table: &AliasTable) -> (r: Step)
    ensures
        r@ == route(alias_expansion(line@, table@)),
{
    let x = expand_alias(line, table);
    route_line(x.as_slice())
}

/// Whether a word names one of the editors that may need privileges.
pub open spec fn is_editor(w: Seq<char>) -> bool {
    w == seq!['v', 'i'] || w == seq!['v', 'i', 'm'] || w == seq!['n', 'a', 'n', 'o']
}

/// Whether a path lies under a directory that only the superuser may write.
pub open spec fn is_protected(p: Seq<char>) -> bool {
    has_prefix(p, seq!['/', 'e', 't', 'c', '/']) || has_prefix(
        p,
        seq!['/', 'u', 's', 'r', '/', 'b', 'i', 'n', '/'],
    )
}

/// Whether a line with these shell words opens a protected file in an editor
/// without privileges, so that the user is asked about elevation.
pub open spec fn asks_elevation(words: Option<Seq<Seq<char>>>, root: bool) -> bool {
    match words {
        Some(w) => w.len() > 1 && is_editor(w[0]) && is_protected(w[1]) && !root,
        None => false,
    }
}

/// The line after the privilege stage: the trimmed line with the elevation
/// tool put in front where the user was asked and agreed, else the trimmed line.
pub open spec fn elevated(line: Seq<char>, root: bool, confirmed: bool) -> Seq<char> {
    if asks_elevation(shell_words_of(trim(line)), root) && confirmed {
        seq!['s', 'u', 'd', 'o', ' '] + trim(line)
    } else {
        trim(line)
    }
}

fn is_editor_word(w: &[char]) -> (r: bool)
    ensures
        r == is_editor(w@),
{
    let vi = vec!['v', 'i'];
    let vim = vec!['v', 'i', 'm'];
    let nano = vec!['n', 'a', 'n', 'o'];
    assert(vi@ =~= seq!['v', 'i']);
    assert(vim@ =~= seq!['v', 'i', 'm']);
    assert(nano@ =~= seq!['n', 'a', 'n', 'o']);
    same(w, vi.as_slice()) || same(w, vim.as_slice()) || same(w, nano.as_slice())
}

fn is_protected_path(p: &[char]) -> (r: bool)
    ensures
        r == is_protected(p@),
{
    let etc = vec!['/', 'e', 't', 'c', '/'];
    let bin = vec!['/', 'u', 's', 'r', '/', 'b', 'i', 'n', '/'];
    assert(etc@ =~= seq!['/', 'e', 't', 'c', '/']);
    assert(bin@ =~= seq!['/', 'u', 's', 'r', '/', 'b', 'i', 'n', '/']);
    starts_with(p, etc.as_slice()) || starts_with(p, bin.as_slice())
}

/// Whether the user is to be asked about elevation, given the shell words of
/// the trimmed line.
pub fn asks_elevation_with_words(words: &Option<Vec<Vec<char>>>, root: bool) -> (r: bool)
    ensures
        r == asks_elevation(
            match words {
                Some(w) => Some(word_views(w@)),
                None => None,
            },
            root,
        ),
{
    match words {
        Some(w) => w.len() > 1 && is_editor_word(w[0].as_slice()) && is_protected_path(
            w[1].as_slice(),
        ) && !root,
        None => false,
    }
}

/// Whether the user is to be asked about elevation before `line` runs.
pub fn needs_elevation(line: &[char], root: bool) -> (r: bool)
    ensures
        r == asks_elevation(shell_words_of(trim(line@)), root),
{
    let t = trimmed(line);
    let words = split_words(t.as_slice());
    asks_elevation_with_words(&words, root)
}

/// The line after the privilege stage; `confirmed` is the user's answer.
pub fn elevate(line: &[char], root: bool, confirmed: bool) -> (r: Vec<char>)
    ensures
        r@ == elevated(line@, root, confirmed),
{
    let t = trimmed(line);
    let words = split_words(t.as_slice());
    if confirmed && asks_elevation_with_words(&words, root) {
        let mut out = vec!['s', 'u', 'd', 'o', ' '];
        append(&mut out, t.as_slice());
        return out;
    }
    t
}

/// Whether an answer to a yes/no question is yes: `y` in either case,
/// with white space around it.
pub open spec fn is_yes(answer: Seq<char>) -> bool {
    trim(answer) == seq!['y'] || trim(answer) == seq!['Y']
}

/// Tests `is_yes`.
pub fn answer_is_yes(answer: &[char]) -> (r: bool)
    ensures
        r == is_yes(answer@),
{
    let t = trimmed(answer);
    let lower = vec!['y'];
    let upper = vec!['Y'];
    assert(lower@ =~= seq!['y']);
    assert(upper@ =~= seq!['Y']);
    same(t.as_slice(), lower.as_slice()) || same(t.as_slice(), upper.as_slice())
}

/// Position of the first `c` at or after `i`, or the length.
pub open spec fn index_of(s: Seq<char>, c: char, i: int) -> int
    decreases s.len() - i,
{
    if i < 0 || i >= s.len() {
        s.len() as int
    } else if s[i] == c {
        i
    } else {
        index_of(s, c, i + 1)
    }
}

pub proof fn lemma_index_of(s: Seq<char>, c: char, i: int)
    requires
        0 <= i <= s.len(),
    ensures
        i <= index_of(s, c, i) <= s.len(),
    decreases s.len() - i,
{
    if i < s.len() && s[i] != c {
        lemma_index_of(s, c, i + 1);
    }
}

fn find_char(s: &[char], c: char, from: usize) -> (r: usize)
    requires
        from <= s@.len(),
    ensures
        r as int == index_of(s@, c, from as int),
{
    let n = s.len();
    let mut k: usize = from;
    while k < n && s[k] != c
        invariant
            from <= k <= n == s@.len(),
            index_of(s@, c, k as int) == index_of(s@, c, from as int),
        decreases n - k,
    {
        k = k + 1;
    }
    k
}

pub open spec fn export_keyword() -> Seq<char> {
    seq!['e', 'x', 'p', 'o', 'r', 't', ' ']
}

/// The variable that an `export name=value` line sets: the text after the
/// keyword is trimmed and cut at its first `=`, and both sides are trimmed.
/// No `=`, or an empty name, is no assignment.
pub open spec fn export_of(x: Seq<char>) -> Option<(Seq<char>, Seq<char>)> {
    if has_prefix(x, export_keyword()) {
        let rest = trim(x.subrange(7, x.len() as int));
        let e = index_of(rest, '=', 0);
        let name = trim(rest.subrange(0, e));
        if e < rest.len() && name.len() > 0 {
            Some((name, trim(rest.subrange(e + 1, rest.len() as int))))
        } else {
            None
        }
    } else {
        None
    }
}

/// Whether `s` holds a NUL character, which no environment variable can hold.
pub open spec fn has_nul(s: Seq<char>) -> bool {
    exists|i: int| 0 <= i < s.len() && s[i] == '\0'
}

/// Tests `has_nul`.
pub fn holds_nul(s: &[char]) -> (r: bool)
    ensures
        r == has_nul(s@),
{
    let mut i: usize = 0;
    while i < s.len()
        invariant
            i <= s@.len(),
            forall|k: int| 0 <= k < i ==> s@[k] != '\0',
        decreases s.len() - i,
    {
        if s[i] == '\0' {
            return true;
        }
        i = i + 1;
    }
    false
}

/// What is left to do with a line, as mathematical values.
pub enum ActionModel {
    SetVariable(Seq<char>, Seq<char>),
    RejectExport,
    Run(Seq<char>, Option<Seq<char>>),
}

/// What is left to do with a line once no builtin took it.
pub enum Action {
    /// Set an environment variable of this process.
    SetVariable { name: Vec<char>, value: Vec<char> },
    /// An assignment whose name or value holds NUL: it fails with status 1.
    RejectExport,
    /// Hand `line` to the command interpreter, after giving the file
    /// `make_executable` execute permission where one is named.
    Run { line: Vec<char>, make_executable: Option<Vec<char>> },
}

impl View for Action {
    type V = ActionModel;

    open spec fn view(&self) -> ActionModel {
        match self {
            Action::SetVariable { name, value } => ActionModel::SetVariable(name@, value@),
            Action::RejectExport => ActionModel::RejectExport,
            Action::Run { line, make_executable } => ActionModel::Run(
                line@,
                match make_executable {
                    Some(p) => Some(p@),
                    None => None,
                },
            ),
        }
    }
}

pub open spec fn script_suffix() -> Seq<char> {
    seq!['.', 's', 'h']
}

pub open spec fn program_suffix() -> Seq<char> {
    seq!['.', 'h', 'l']
}

pub open spec fn has_suffix(s: Seq<char>, p: Seq<char>) -> bool {
    p.len() <= s.len() && s.subrange(s.len() - p.len(), s.len() as int) == p
}

/// Position of the last white space before `j`, or -1.
pub open spec fn last_space(s: Seq<char>, j: int) -> int
    decreases j,
{
    if j <= 0 || j > s.len() {
        -1
    } else if is_space(s[j - 1]) {
        j - 1
    } else {
        last_space(s, j - 1)
    }
}

/// The last word of a line: what follows its last white space.
pub open spec fn last_word(x: Seq<char>) -> Seq<char> {
    x.subrange(last_space(x, x.len() as int) + 1, x.len() as int)
}

proof fn lemma_last_space(s: Seq<char>, j: int)
    requires
        0 <= j <= s.len(),
    ensures
        -1 <= last_space(s, j) < j,
    decreases j,
{
    if j > 0 && !is_space(s[j - 1]) {
        lemma_last_space(s, j - 1);
    }
}

/// Copies the last word of a line.
pub fn trailing_word(x: &[char]) -> (r: Vec<char>)
    ensures
        r@ == last_word(x@),
{
    let n = x.len();
    let mut j: usize = n;
    while j > 0 && !space(x[j - 1])
        invariant
            j <= n == x@.len(),
            last_space(x@, j as int) == last_space(x@, n as int),
        decreases j,
    {
        j = j - 1;
    }
    // The word starts at `j`: just past the last white space, or at 0.
    copy_range(x, j, n)
}

/// What is done with a line after the privilege stage: an assignment sets a
/// variable (and is refused where its name or value holds NUL); a line that
/// ends in `.sh` runs as it is, once the file its last word names is
/// executable; one that ends in `.hl` runs through `hl run`; anything else
/// runs as it is.
pub open spec fn action_of(x: Seq<char>) -> ActionModel {
    match export_of(x) {
        Some((name, value)) => if has_nul(name) || has_nul(value) {
            ActionModel::RejectExport
        } else {
            ActionModel::SetVariable(name, value)
        },
        None => if has_suffix(x, script_suffix()) {
            ActionModel::Run(x, Some(last_word(x)))
        } else if has_suffix(x, program_suffix()) {
            ActionModel::Run(seq!['h', 'l', ' ', 'r', 'u', 'n', ' '] + x, None)
        } else {
            ActionModel::Run(x, None)
        },
    }
}

/// Parses an `export name=value` line.
pub fn parse_export(x: &[char]) -> (r: Option<(Vec<char>, Vec<char>)>)
    ensures
        match r {
            Some((n, v)) => export_of(x@) == Some((n@, v@)),
            None => export_of(x@) is None,
        },
{
    let kw = vec!['e', 'x', 'p', 'o', 'r', 't', ' '];
    assert(kw@ =~= export_keyword());
    if !starts_with(x, kw.as_slice()) {
        return None;
    }
    let rest = trimmed_tail(x, 7);
    let e = find_char(rest.as_slice(), '=', 0);
    proof {
        lemma_index_of(rest@, '=', 0);
    }
    if e >= rest.len() {
        return None;
    }
    let head = copy_range(rest.as_slice(), 0, e);
    let name = trimmed(head.as_slice());
    if name.len() == 0 {
        return None;
    }
    let value = trimmed_tail(rest.as_slice(), e + 1);
    Some((name, value))
}

/// What is done with a line after the privilege stage.
pub fn finish_line(x: &[char]) -> (r: Action)
    ensures
        r@ == action_of(x@),
{
    match parse_export(x) {
        Some((name, value)) => {
            if holds_nul(name.as_slice()) || holds_nul(value.as_slice()) {
                return Action::RejectExport;
            }
            return Action::SetVariable { name, value };
        },
        None => {},
    }
    let sh = vec!['.', 's', 'h'];
    let hl = vec!['.', 'h', 'l'];
    assert(sh@ =~= script_suffix());
    assert(hl@ =~= program_suffix());
    let line = copy_range(x, 0, x.len());
    assert(line@ =~= x@);
    if ends_with(x, sh.as_slice()) {
        let path = trailing_word(x);
        Action::Run { line, make_executable: Some(path) }
    } else if ends_with(x, hl.as_slice()) {
        let mut run = vec!['h', 'l', ' ', 'r', 'u', 'n', ' '];
        append(&mut run, x);
        Action::Run { line: run, make_executable: None }
    } else {
        Action::Run { line, make_executable: None }
    }
}

/// Position of the line break that ends the line starting at `i`, or the end.
pub open spec fn line_end(s: Seq<char>, i: int) -> int {
    index_of(s, '\n', i)
}

/// The line that starts at `i`, without its line break (`\n` or `\r\n`).
pub open spec fn line_at(s: Seq<char>, i: int) -> Seq<char> {
    let e = line_end(s, i);
    if i < e && e < s.len() && s[e - 1] == '\r' {
        s.subrange(i, e - 1)
    } else {
        s.subrange(i, e)
    }
}

/// Whether a line of a sourced file is run: it is not blank and does not
/// start with `!`.
pub open spec fn is_runnable(l: Seq<char>) -> bool {
    trim(l).len() > 0 && trim(l)[0] != '!'
}

/// The runnable lines of `s` from position `i` on, in order.
pub open spec fn runnable_from(s: Seq<char>, i: int) -> Seq<Seq<char>>
    decreases s.len() - i,
{
    if i < 0 || i >= s.len() || line_end(s, i) < i {
        Seq::empty()
    } else {
        let l = line_at(s, i);
        let next = if line_end(s, i) < s.len() {
            line_end(s, i) + 1
        } else {
            s.len() as int
        };
        let rest = runnable_from(s, next);
        if is_runnable(l) {
            seq![l] + rest
        } else {
            rest
        }
    }
}

/// The lines of a sourced file that are run, in the order of the file, each
/// as it stands there.
pub fn runnable_lines(contents: &[char]) -> (r: Vec<Vec<char>>)
    ensures
        word_views(r@) == runnable_from(contents@, 0),
{
    let n = contents.len();
    let mut out: Vec<Vec<char>> = Vec::new();
    let mut i: usize = 0;
    while i < n
        invariant
            i <= n == contents@.len(),
            word_views(out@) + runnable_from(contents@, i as int) == runnable_from(contents@, 0),
        decreases n - i,
    {
        let e = find_char(contents, '\n', i);
        proof {
            lemma_index_of(contents@, '\n', i as int);
        }
        let stop = if i < e && e < n && contents[e - 1] == '\r' {
            e - 1
        } else {
            e
        };
        let l = copy_range(contents, i, stop);
        assert(l@ == line_at(contents@, i as int));
        let ghost rest = runnable_from(contents@, if e < n { e + 1 } else { n as int });
        let ghost before = word_views(out@);
        let t = trimmed(l.as_slice());
        if t.len() > 0 && t[0] != '!' {
            out.push(l);
            assert(word_views(out@) =~= before + seq![l@]);
        }
        i = if e < n {
            e + 1
        } else {
            n
        };
        assert(runnable_from(contents@, i as int) == rest);
    }
    out
}

pub proof fn lemma_index_of_first(s: Seq<char>, c: char, i: int, j: int)
    requires
        0 <= i <= j < s.len(),
        s[j] == c,
        forall|k: int| i <= k < j ==> s[k] != c,
    ensures
        index_of(s, c, i) == j,
    decreases j - i,
{
    if i < j {
        lemma_index_of_first(s, c, i + 1, j);
    }
}

/// `export name=value`, with a name that holds no `=` and neither part padded
/// with white space, is the assignment of `value` to `name`, whatever the
/// environment held before.
pub proof fn lemma_export_assigns(name: Seq<char>, value: Seq<char>)
    requires
        name.len() > 0,
        forall|k: int| 0 <= k < name.len() ==> name[k] != '=',
        !is_space(name[0]) && !is_space(name.last()),
        !has_nul(name) && !has_nul(value),
        value.len() > 0 ==> !is_space(value[0]) && !is_space(value.last()),
    ensures
        action_of(export_keyword() + name + seq!['='] + value) == ActionModel::SetVariable(name, value),
{
    let x = export_keyword() + name + seq!['='] + value;
    assert(x.subrange(0, 7) =~= export_keyword());
    let rest = x.subrange(7, x.len() as int);
    assert(rest =~= name + seq!['='] + value);
    crate::text::lemma_trim_unpadded(rest);
    let e = name.len() as int;
    assert(rest[e] == '=');
    lemma_index_of_first(rest, '=', 0, e);
    assert(rest.subrange(0, e) =~= name);
    assert(rest.subrange(e + 1, rest.len() as int) =~= value);
    crate::text::lemma_trim_unpadded(name);
    crate::text::lemma_trim_unpadded(value);
}

/// The execute bits of a file mode: owner, group and others.
pub const EXECUTE_BITS: u32 = 0o111;

/// The mode to give a script before it runs: where none of its execute bits is
/// set, the mode with all three added; otherwise no change.
pub fn executable_mode(mode: u32) -> (r: Option<u32>)
    ensures
        r == if mode & EXECUTE_BITS == 0 {
            Some(mode | EXECUTE_BITS)
        } else {
            None
        },
{
    if mode & EXECUTE_BITS == 0 {
        Some(mode | EXECUTE_BITS)
    } else {
        None
    }
}

} // verus!
