//! The lexical classifier: one left-to-right pass that cuts a line into typed
//! spans for display.
use vstd::prelude::*;
use crate::text::{alphanumeric, alphanumeric_of, contains, contains_seq, is_space, space};

verus! {

/// What a span of the line is.
#[derive(Clone, Copy, Debug, PartialEq, Eq, Structural)]
pub enum SpanKind {
    Whitespace,
    DoubleQuoted,
    SingleQuoted,
    Variable,
    AndAnd,
    OrOr,
    Pipe,
    RedirectIn,
    RedirectOut,
    Sequence,
    Background,
    /// A word; `command` tells whether it stands where a command name goes.
    Word { command: bool },
    /// The whole line, which holds a destructive command.
    Dangerous,
}

/// A classified piece `start..end` of the line (positions count characters).
#[derive(Clone, Copy, Debug, PartialEq, Eq, Structural)]
pub struct Span {
    pub start: usize,
    pub end: usize,
    pub kind: SpanKind,
}

pub open spec fn is_operator_char(c: char) -> bool {
    c == '&' || c == '|' || c == ';' || c == '>' || c == '<'
}

/// The characters that end a word.
pub open spec fn is_special(c: char) -> bool {
    is_operator_char(c) || c == '"' || c == '\'' || c == '$'
}

pub open spec fn is_name_char(c: char) -> bool {
    alphanumeric_of(c) || c == '_'
}

pub open spec fn is_operator_kind(k: SpanKind) -> bool {
    match k {
        SpanKind::AndAnd | SpanKind::OrOr | SpanKind::Pipe | SpanKind::RedirectIn
        | SpanKind::RedirectOut | SpanKind::Sequence | SpanKind::Background => true,
        _ => false,
    }
}

/// Position just past the first `q` at or after `j`, or the end of the line.
pub open spec fn close_end(s: Seq<char>, j: int, q: char) -> int
    decreases s.len() - j,
{
    if j < 0 || j >= s.len() {
        j
    } else if s[j] == q {
        j + 1
    } else {
        close_end(s, j + 1, q)
    }
}

/// End of the run of name characters that starts at `j`.
pub open spec fn name_end(s: Seq<char>, j: int) -> int
    decreases s.len() - j,
{
    if 0 <= j < s.len() && is_name_char(s[j]) {
        name_end(s, j + 1)
    } else {
        j
    }
}

/// End of the run of word characters that starts at `j`.
pub open spec fn word_end(s: Seq<char>, j: int) -> int
    decreases s.len() - j,
{
    if 0 <= j < s.len() && !is_space(s[j]) && !is_special(s[j]) {
        word_end(s, j + 1)
    } else {
        j
    }
}

/// The operator span that starts at `i`: its end and its kind.
pub open spec fn operator_at(s: Seq<char>, i: int) -> (int, SpanKind) {
    let c = s[i];
    if c == '&' && i + 1 < s.len() && s[i + 1] == '&' {
        (i + 2, SpanKind::AndAnd)
    } else if c == '|' && i + 1 < s.len() && s[i + 1] == '|' {
        (i + 2, SpanKind::OrOr)
    } else if c == '|' {
        (i + 1, SpanKind::Pipe)
    } else if c == '<' {
        (i + 1, SpanKind::RedirectIn)
    } else if c == '>' {
        (i + 1, SpanKind::RedirectOut)
    } else if c == ';' {
        (i + 1, SpanKind::Sequence)
    } else {
        (i + 1, SpanKind::Background)
    }
}

/// The command-position flag after a span of kind `k`: an operator sets it,
/// white space keeps it, anything else clears it.
pub open spec fn flag_after(flag: bool, k: SpanKind) -> bool {
    if k == SpanKind::Whitespace {
        flag
    } else {
        is_operator_kind(k)
    }
}

/// The span that starts at `i` (with `i` inside the line) when the flag is `cmd`:
/// its end and its kind.
pub open spec fn step(s: Seq<char>, i: int, cmd: bool) -> (int, SpanKind) {
    let c = s[i];
    if is_space(c) {
        (i + 1, SpanKind::Whitespace)
    } else if c == '"' {
        (close_end(s, i + 1, '"'), SpanKind::DoubleQuoted)
    } else if c == '\'' {
        (close_end(s, i + 1, '\''), SpanKind::SingleQuoted)
    } else if c == '$' {
        (name_end(s, i + 1), SpanKind::Variable)
    } else if is_operator_char(c) {
        operator_at(s, i)
    } else {
        (word_end(s, i + 1), SpanKind::Word { command: cmd })
    }
}

/// The spans of `s` from position `i` on, the flag being `cmd` at `i`.
pub open spec fn lex_from(s: Seq<char>, i: int, cmd: bool) -> Seq<Span>
    decreases s.len() - i,
{
    if i < 0 || i >= s.len() {
        Seq::empty()
    } else {
        let (e, k) = step(s, i, cmd);
        if e <= i || e > s.len() {
            Seq::empty()
        } else {
            seq![Span { start: i as usize, end: e as usize, kind: k }] + lex_from(
                s,
                e,
                flag_after(cmd, k),
            )
        }
    }
}

/// The literal commands that get the whole line flagged.
pub open spec fn danger_patterns() -> Seq<Seq<char>> {
    seq![
        seq!['r', 'm', ' ', '-', 'r', 'f', ' ', '/'],
        seq!['r', 'm', ' ', '-', 'r', 'f', ' ', '/', '*'],
        seq!['d', 'd', ' ', 'i', 'f', '=', '/', 'd', 'e', 'v', '/', 'z', 'e', 'r', 'o', ' ', 'o', 'f', '=', '/', 'd', 'e', 'v', '/', 's', 'd', 'a'],
        seq!['m', 'k', 'f', 's', ' ', '/', 'd', 'e', 'v', '/', 's', 'd', 'a'],
    ]
}

pub open spec fn is_dangerous(s: Seq<char>) -> bool {
    exists|k: int| 0 <= k < danger_patterns().len() && contains(s, #[trigger] danger_patterns()[k])
}

/// The spans of a whole line.
pub open spec fn lex(s: Seq<char>) -> Seq<Span> {
    if is_dangerous(s) {
        seq![Span { start: 0, end: s.len() as usize, kind: SpanKind::Dangerous }]
    } else {
        lex_from(s, 0, true)
    }
}

proof fn lemma_close_end(s: Seq<char>, j: int, q: char)
    requires
        0 <= j <= s.len(),
    ensures
        j <= close_end(s, j, q) <= s.len(),
    decreases s.len() - j,
{
    if j < s.len() && s[j] != q {
        lemma_close_end(s, j + 1, q);
    }
}

proof fn lemma_name_end(s: Seq<char>, j: int)
    requires
        0 <= j <= s.len(),
    ensures
        j <= name_end(s, j) <= s.len(),
    decreases s.len() - j,
{
    if j < s.len() && is_name_char(s[j]) {
        lemma_name_end(s, j + 1);
    }
}

proof fn lemma_word_end(s: Seq<char>, j: int)
    requires
        0 <= j <= s.len(),
    ensures
        j <= word_end(s, j) <= s.len(),
    decreases s.len() - j,
{
    if j < s.len() && !is_space(s[j]) && !is_special(s[j]) {
        lemma_word_end(s, j + 1);
    }
}

/// Every span is non-empty and stays inside the line.
pub proof fn lemma_step_advances(s: Seq<char>, i: int, cmd: bool)
    requires
        0 <= i < s.len(),
    ensures
        i < step(s, i, cmd).0 <= s.len(),
{
    lemma_close_end(s, i + 1, '"');
    lemma_close_end(s, i + 1, '\'');
    lemma_name_end(s, i + 1);
    lemma_word_end(s, i + 1);
}

fn run_close(s: &[char], j: usize, q: char) -> (r: usize)
    requires
        j <= s@.len(),
    ensures
        r as int == close_end(s@, j as int, q),
{
    let n = s.len();
    let mut k: usize = j;
    while k < n && s[k] != q
        invariant
            j <= k <= n == s@.len(),
            close_end(s@, k as int, q) == close_end(s@, j as int, q),
        decreases n - k,
    {
        k = k + 1;
    }
    if k < n {
        k + 1
    } else {
        k
    }
}

fn run_name(s: &[char], j: usize) -> (r: usize)
    requires
        j <= s@.len(),
    ensures
        r as int == name_end(s@, j as int),
{
    let n = s.len();
    let mut k: usize = j;
    while k < n && (alphanumeric(s[k]) || s[k] == '_')
        invariant
            j <= k <= n == s@.len(),
            name_end(s@, k as int) == name_end(s@, j as int),
        decreases n - k,
    {
        k = k + 1;
    }
    k
}

fn special(c: char) -> (r: bool)
    ensures
        r == is_special(c),
{
    c == '&' || c == '|' || c == ';' || c == '>' || c == '<' || c == '"' || c == '\'' || c == '$'
}

fn run_word(s: &[char], j: usize) -> (r: usize)
    requires
        j <= s@.len(),
    ensures
        r as int == word_end(s@, j as int),
{
    let n = s.len();
    let mut k: usize = j;
    while k < n && !space(s[k]) && !special(s[k])
        invariant
            j <= k <= n == s@.len(),
            word_end(s@, k as int) == word_end(s@, j as int),
        decreases n - k,
    {
        k = k + 1;
    }
    k
}

/// The span that starts at `i`.
fn next_span(s: &[char], i: usize, cmd: bool) -> (r: (usize, SpanKind))
    requires
        i < s@.len(),
    ensures
        (r.0 as int, r.1) == step(s@, i as int, cmd),
{
    let n = s.len();
    let c = s[i];
    if space(c) {
        (i + 1, SpanKind::Whitespace)
    } else if c == '"' {
        (run_close(s, i + 1, '"'), SpanKind::DoubleQuoted)
    } else if c == '\'' {
        (run_close(s, i + 1, '\''), SpanKind::SingleQuoted)
    } else if c == '$' {
        (run_name(s, i + 1), SpanKind::Variable)
    } else if c == '&' || c == '|' || c == ';' || c == '>' || c == '<' {
        if c == '&' && i + 1 < n && s[i + 1] == '&' {
            (i + 2, SpanKind::AndAnd)
        } else if c == '|' && i + 1 < n && s[i + 1] == '|' {
            (i + 2, SpanKind::OrOr)
        } else if c == '|' {
            (i + 1, SpanKind::Pipe)
        } else if c == '<' {
            (i + 1, SpanKind::RedirectIn)
        } else if c == '>' {
            (i + 1, SpanKind::RedirectOut)
        } else if c == ';' {
            (i + 1, SpanKind::Sequence)
        } else {
            (i + 1, SpanKind::Background)
        }
    } else {
        (run_word(s, i + 1), SpanKind::Word { command: cmd })
    }
}

fn next_flag(flag: bool, k: SpanKind) -> (r: bool)
    ensures
        r == flag_after(flag, k),
{
    match k {
        SpanKind::Whitespace => flag,
        SpanKind::AndAnd | SpanKind::OrOr | SpanKind::Pipe | SpanKind::RedirectIn
        | SpanKind::RedirectOut | SpanKind::Sequence | SpanKind::Background => true,
        _ => false,
    }
}

fn danger_pattern(k: usize) -> (r: Vec<char>)
    requires
        k < 4,
    ensures
        r@ == danger_patterns()[k as int],
{
    let r = if k == 0 {
        vec!['r', 'm', ' ', '-', 'r', 'f', ' ', '/']
    } else if k == 1 {
        vec!['r', 'm', ' ', '-', 'r', 'f', ' ', '/', '*']
    } else if k == 2 {
        vec!['d', 'd', ' ', 'i', 'f', '=', '/', 'd', 'e', 'v', '/', 'z', 'e', 'r', 'o', ' ', 'o', 'f', '=', '/', 'd', 'e', 'v', '/', 's', 'd', 'a']
    } else {
        vec!['m', 'k', 'f', 's', ' ', '/', 'd', 'e', 'v', '/', 's', 'd', 'a']
    };
    assert(r@ =~= danger_patterns()[k as int]);
    r
}

/// Whether the line holds one of the destructive commands.
pub fn dangerous(line: &[char]) -> (r: bool)
    ensures
        r == is_dangerous(line@),
{
    let mut k: usize = 0;
    while k < 4
        invariant
            k <= 4,
            danger_patterns().len() == 4,
            forall|j: int| 0 <= j < k ==> !contains(line@, #[trigger] danger_patterns()[j]),
        decreases 4 - k,
    {
        let p = danger_pattern(k);
        if contains_seq(line, p.as_slice()) {
            return true;
        }
        k = k + 1;
    }
    false
}

/// Cuts `line` into classified spans, left to right.
pub fn classify(line: &[char]) -> (r: Vec<Span>)
    ensures
        r@ == lex(line@),
{
    let n = line.len();
    if dangerous(line) {
        return vec![Span { start: 0, end: n, kind: SpanKind::Dangerous }];
    }
    let mut out: Vec<Span> = Vec::new();
    let mut i: usize = 0;
    let mut cmd = true;
    while i < n
        invariant
            i <= n == line@.len(),
            out@ + lex_from(line@, i as int, cmd) == lex_from(line@, 0, true),
        decreases n - i,
    {
        let (e, k) = next_span(line, i, cmd);
        proof {
            lemma_step_advances(line@, i as int, cmd);
        }
        let ghost rest = lex_from(line@, e as int, flag_after(cmd, k));
        let sp = Span { start: i, end: e, kind: k };
        assert(lex_from(line@, i as int, cmd) == seq![sp] + rest);
        out.push(sp);
        assert(out@ + rest == lex_from(line@, 0, true)) by {
            assert(out@ + rest =~= (out@.drop_last() + seq![sp]) + rest);
        }
        cmd = next_flag(cmd, k);
        i = e;
    }
    assert(out@ + lex_from(line@, i as int, cmd) =~= out@);
    out
}

/// The spans lie one after another from `from` to `to`, each non-empty.
pub open spec fn tiles(spans: Seq<Span>, from: int, to: int) -> bool
    decreases spans.len(),
{
    if spans.len() == 0 {
        from == to
    } else {
        spans[0].start == from && from < spans[0].end && tiles(
            spans.drop_first(),
            spans[0].end as int,
            to,
        )
    }
}

/// The text of the spans, in order.
pub open spec fn joined(s: Seq<char>, spans: Seq<Span>) -> Seq<char>
    decreases spans.len(),
{
    if spans.len() == 0 {
        Seq::empty()
    } else {
        s.subrange(spans[0].start as int, spans[0].end as int) + joined(s, spans.drop_first())
    }
}

proof fn lemma_lex_from_tiles(s: Seq<char>, i: int, cmd: bool)
    requires
        0 <= i <= s.len() <= usize::MAX,
    ensures
        tiles(lex_from(s, i, cmd), i, s.len() as int),
    decreases s.len() - i,
{
    if i < s.len() {
        lemma_step_advances(s, i, cmd);
        let (e, k) = step(s, i, cmd);
        lemma_lex_from_tiles(s, e, flag_after(cmd, k));
        assert(lex_from(s, i, cmd).drop_first() =~= lex_from(s, e, flag_after(cmd, k)));
    }
}

proof fn lemma_tiles_joined(s: Seq<char>, spans: Seq<Span>, from: int, to: int)
    requires
        tiles(spans, from, to),
        0 <= from,
        to <= s.len(),
    ensures
        from <= to,
        joined(s, spans) == s.subrange(from, to),
    decreases spans.len(),
{
    if spans.len() == 0 {
        assert(s.subrange(from, to) =~= Seq::<char>::empty());
    } else {
        let e = spans[0].end as int;
        lemma_tiles_joined(s, spans.drop_first(), e, to);
        assert(s.subrange(from, e) + s.subrange(e, to) =~= s.subrange(from, to));
    }
}

/// A line that holds a destructive command is not empty.
proof fn lemma_dangerous_nonempty(s: Seq<char>)
    requires
        is_dangerous(s),
    ensures
        s.len() > 0,
{
    let k = choose|k: int| 0 <= k < danger_patterns().len() && contains(s, #[trigger] danger_patterns()[k]);
    let p = danger_patterns()[k];
    assert(p.len() >= 8);
    let j = choose|j: int| occurs_at_witness(s, p, j);
}

spec fn occurs_at_witness(s: Seq<char>, p: Seq<char>, j: int) -> bool {
    crate::text::occurs_at(s, p, j)
}

/// The spans of a line lie one after another, cover it from its start to its
/// end, and their texts put together give the line back.
pub proof fn lemma_spans_cover_line(s: Seq<char>)
    requires
        s.len() <= usize::MAX,
    ensures
        tiles(lex(s), 0, s.len() as int),
        joined(s, lex(s)) == s,
{
    if is_dangerous(s) {
        lemma_dangerous_nonempty(s);
        let l = lex(s);
        assert(l.drop_first() =~= Seq::<Span>::empty());
        assert(tiles(l.drop_first(), s.len() as int, s.len() as int));
    } else {
        lemma_lex_from_tiles(s, 0, true);
    }
    lemma_tiles_joined(s, lex(s), 0, s.len() as int);
    assert(s.subrange(0, s.len() as int) =~= s);
}

/// A line that holds `rm -rf /` is one span, flagged as dangerous, whatever
/// else it holds.
pub proof fn lemma_dangerous_line_is_one_span(s: Seq<char>)
    requires
        contains(s, seq!['r', 'm', ' ', '-', 'r', 'f', ' ', '/']),
    ensures
        lex(s) == seq![Span { start: 0, end: s.len() as usize, kind: SpanKind::Dangerous }],
{
    assert(contains(s, danger_patterns()[0]));
}

/// A span that is neither white space nor an operator.
pub open spec fn is_content(k: SpanKind) -> bool {
    k != SpanKind::Whitespace && !is_operator_kind(k)
}

/// Some operator span lies strictly between spans `j` and `k`.
pub open spec fn operator_between(spans: Seq<Span>, j: int, k: int) -> bool {
    exists|o: int| j < o < k && is_operator_kind(#[trigger] spans[o].kind)
}

/// Whether span `k` stands where a command name goes: every span before it
/// that is neither white space nor an operator has an operator after it, still
/// before `k`.
pub open spec fn at_command_position(spans: Seq<Span>, k: int) -> bool {
    forall|j: int| 0 <= j < k && #[trigger] is_content(spans[j].kind) ==> operator_between(spans, j, k)
}

/// The command-position flag in front of span `k`, when it was `init` at the
/// start of `spans`.
pub open spec fn flag_before(init: bool, spans: Seq<Span>, k: int) -> bool
    decreases k,
{
    if k <= 0 {
        init
    } else if spans[k - 1].kind == SpanKind::Whitespace {
        flag_before(init, spans, k - 1)
    } else {
        is_operator_kind(spans[k - 1].kind)
    }
}

proof fn lemma_flag_before_cons(init: bool, sp: Span, rest: Seq<Span>, k: int)
    requires
        0 <= k <= rest.len(),
    ensures
        flag_before(init, seq![sp] + rest, k + 1) == flag_before(flag_after(init, sp.kind), rest, k),
    decreases k,
{
    let l = seq![sp] + rest;
    if k > 0 {
        assert(l[k] == rest[k - 1]);
        lemma_flag_before_cons(init, sp, rest, k - 1);
        if rest[k - 1].kind == SpanKind::Whitespace {
            assert(flag_before(init, l, k + 1) == flag_before(init, l, k));
            assert(flag_before(flag_after(init, sp.kind), rest, k) == flag_before(
                flag_after(init, sp.kind),
                rest,
                k - 1,
            ));
        }
    } else {
        assert(l[0] == sp);
        assert(flag_before(init, l, 0) == init);
        assert(flag_before(flag_after(init, sp.kind), rest, 0) == flag_after(init, sp.kind));
    }
}

proof fn lemma_position_after_blank(spans: Seq<Span>, k: int)
    requires
        0 < k <= spans.len(),
        spans[k - 1].kind == SpanKind::Whitespace,
    ensures
        at_command_position(spans, k) == at_command_position(spans, k - 1),
{
    if at_command_position(spans, k - 1) {
        assert forall|j: int| 0 <= j < k && #[trigger] is_content(spans[j].kind) implies operator_between(spans, j, k) by {
            assert(j < k - 1);
            assert(operator_between(spans, j, k - 1));
            let o = choose|o: int| j < o < k - 1 && is_operator_kind(#[trigger] spans[o].kind);
            assert(j < o < k && is_operator_kind(spans[o].kind));
        }
    }
    if at_command_position(spans, k) {
        assert forall|j: int| 0 <= j < k - 1 && #[trigger] is_content(spans[j].kind) implies operator_between(spans, j, k - 1) by {
            assert(operator_between(spans, j, k));
            let o = choose|o: int| j < o < k && is_operator_kind(#[trigger] spans[o].kind);
            assert(o != k - 1);
            assert(j < o < k - 1 && is_operator_kind(spans[o].kind));
        }
    }
}

proof fn lemma_position_after_operator(spans: Seq<Span>, k: int)
    requires
        0 < k <= spans.len(),
        is_operator_kind(spans[k - 1].kind),
    ensures
        at_command_position(spans, k),
{
    assert forall|j: int| 0 <= j < k && #[trigger] is_content(spans[j].kind) implies operator_between(spans, j, k) by {
        assert(j < k - 1);
        assert(is_operator_kind(spans[k - 1].kind));
    }
}

proof fn lemma_position_after_content(spans: Seq<Span>, k: int)
    requires
        0 < k <= spans.len(),
        is_content(spans[k - 1].kind),
    ensures
        !at_command_position(spans, k),
{
    if at_command_position(spans, k) {
        assert(operator_between(spans, k - 1, k));
        let o = choose|o: int| k - 1 < o < k && is_operator_kind(#[trigger] spans[o].kind);
        assert(false);
    }
}

proof fn lemma_flag_before_matches(spans: Seq<Span>, k: int)
    requires
        0 <= k <= spans.len(),
    ensures
        flag_before(true, spans, k) == at_command_position(spans, k),
    decreases k,
{
    if k > 0 {
        lemma_flag_before_matches(spans, k - 1);
        let p = spans[k - 1].kind;
        if p == SpanKind::Whitespace {
            lemma_position_after_blank(spans, k);
        } else if is_operator_kind(p) {
            lemma_position_after_operator(spans, k);
        } else {
            lemma_position_after_content(spans, k);
        }
    }
}

proof fn lemma_lex_from_words(s: Seq<char>, i: int, cmd: bool, k: int)
    requires
        0 <= i <= s.len(),
        0 <= k < lex_from(s, i, cmd).len(),
    ensures
        lex_from(s, i, cmd)[k].kind is Word ==> lex_from(s, i, cmd)[k].kind->command
            == flag_before(cmd, lex_from(s, i, cmd), k),
    decreases s.len() - i,
{
    lemma_step_advances(s, i, cmd);
    let (e, kd) = step(s, i, cmd);
    let sp = Span { start: i as usize, end: e as usize, kind: kd };
    let rest = lex_from(s, e, flag_after(cmd, kd));
    assert(lex_from(s, i, cmd) == seq![sp] + rest);
    if k > 0 {
        assert(lex_from(s, i, cmd)[k] == rest[k - 1]);
        lemma_lex_from_words(s, e, flag_after(cmd, kd), k - 1);
        lemma_flag_before_cons(cmd, sp, rest, k - 1);
    }
}

/// A word span is marked as a command exactly when it stands where a command
/// name goes: first after the start of the line or after an operator, with
/// only white space between.
pub proof fn lemma_command_position(s: Seq<char>, k: int)
    requires
        0 <= k < lex(s).len(),
        lex(s)[k].kind is Word,
    ensures
        lex(s)[k].kind->command == at_command_position(lex(s), k),
{
    if is_dangerous(s) {
        assert(lex(s)[k].kind == SpanKind::Dangerous);
    } else {
        lemma_lex_from_words(s, 0, true, k);
        lemma_flag_before_matches(lex(s), k);
    }
}

/// Each span of a tiling lies inside its range and is not empty.
pub proof fn lemma_tiles_bounds(spans: Seq<Span>, from: int, to: int)
    requires
        tiles(spans, from, to),
    ensures
        forall|k: int|
            0 <= k < spans.len() ==> from <= (#[trigger] spans[k]).start < spans[k].end <= to,
    decreases spans.len(),
{
    if spans.len() > 0 {
        let e = spans[0].end as int;
        lemma_tiles_bounds(spans.drop_first(), e, to);
        lemma_tiles_order(spans.drop_first(), e, to);
        assert forall|k: int| 0 <= k < spans.len() implies from <= (#[trigger] spans[k]).start
            < spans[k].end <= to by {
            if k > 0 {
                assert(spans[k] == spans.drop_first()[k - 1]);
            }
        }
    }
}

proof fn lemma_tiles_order(spans: Seq<Span>, from: int, to: int)
    requires
        tiles(spans, from, to),
    ensures
        from <= to,
    decreases spans.len(),
{
    if spans.len() > 0 {
        lemma_tiles_order(spans.drop_first(), spans[0].end as int, to);
    }
}

/// Neighbouring spans of a tiling meet, the first starts at `from` and the last
/// ends at `to`.
pub proof fn lemma_tiles_links(spans: Seq<Span>, from: int, to: int)
    requires
        tiles(spans, from, to),
        spans.len() > 0,
    ensures
        spans[0].start == from,
        spans.last().end == to,
        forall|j: int| 0 <= j < spans.len() - 1 ==> (#[trigger] spans[j + 1]).start == spans[j].end,
    decreases spans.len(),
{
    let rest = spans.drop_first();
    assert(tiles(rest, spans[0].end as int, to));
    if rest.len() > 0 {
        lemma_tiles_links(rest, spans[0].end as int, to);
        assert(rest.last() == spans.last());
        assert forall|j: int| 0 <= j < spans.len() - 1 implies (#[trigger] spans[j + 1]).start
            == spans[j].end by {
            if j > 0 {
                assert(spans[j + 1] == rest[j]);
                assert(spans[j] == rest[j - 1]);
            }
        }
    } else {
        assert(rest.len() == 0);
    }
}

} // verus!
