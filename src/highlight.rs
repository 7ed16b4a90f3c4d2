//! Rendering of classified spans with terminal colours, and the refinement of
//! word spans by the command registry and the file system.
use vstd::prelude::*;
use crate::lexer::{classify, lex, Span, SpanKind};
use crate::text::{alphanumeric, alphanumeric_of, copy_range};

verus! {

/// What a word is, once its position and the lookups are known.
#[derive(Clone, Copy, Debug, PartialEq, Eq, Structural)]
pub enum WordClass {
    KnownCommand,
    UnknownCommand,
    OptionFlag,
    ExistingPath,
    PlainWord,
}

/// The executable names found on the search path, taken once at start.
pub struct CommandRegistry {
    names: Vec<Vec<char>>,
}

impl View for CommandRegistry {
    type V = Seq<Seq<char>>;

    closed spec fn view(&self) -> Seq<Seq<char>> {
        self.names@.map_values(|n: Vec<char>| n@)
    }
}

impl CommandRegistry {
    /// A registry of the given names, in the order given.
    pub fn new(names: Vec<Vec<char>>) -> (r: Self)
        ensures
            r@ == names@.map_values(|n: Vec<char>| n@),
    {
        CommandRegistry { names }
    }

    /// Whether `name` is one of the names.
    pub fn contains(&self, name: &[char]) -> (r: bool)
        ensures
            r == self@.contains(name@),
    {
        let mut i: usize = 0;
        while i < self.names.len()
            invariant
                i <= self.names@.len(),
                self@.len() == self.names@.len(),
                forall|j: int| 0 <= j < i ==> self@[j] != name@,
            decreases self.names.len() - i,
        {
            if crate::text::same(self.names[i].as_slice(), name) {
                assert(self@[i as int] == name@);
                return true;
            }
            i = i + 1;
        }
        false
    }

    /// The rest of the first name that starts with `prefix`, if any.
    pub fn complete_command(&self, prefix: &[char]) -> (r: Option<Vec<char>>)
        ensures
            r is Some <==> exists|j: int| 0 <= j < self@.len() && #[trigger] has_prefix(self@[j], prefix@),
            r is Some ==> exists|j: int|
                0 <= j < self@.len() && #[trigger] has_prefix(self@[j], prefix@) && (forall|m: int|
                    0 <= m < j ==> !has_prefix(#[trigger] self@[m], prefix@)) && r->0@ == self@[j].subrange(
                    prefix@.len() as int,
                    self@[j].len() as int,
                ),
    {
        let mut i: usize = 0;
        while i < self.names.len()
            invariant
                i <= self.names@.len(),
                self@.len() == self.names@.len(),
                forall|m: int| 0 <= m < i ==> !has_prefix(#[trigger] self@[m], prefix@),
            decreases self.names.len() - i,
        {
            let n = self.names[i].as_slice();
            assert(n@ == self@[i as int]);
            if crate::text::starts_with(n, prefix) {
                let rest = copy_range(n, prefix.len(), n.len());
                assert(0 <= i < self@.len() && has_prefix(self@[i as int], prefix@) && (forall|m: int|
                    0 <= m < i ==> !has_prefix(#[trigger] self@[m], prefix@)) && rest@ == self@[i as int].subrange(
                    prefix@.len() as int,
                    self@[i as int].len() as int,
                ));
                return Some(rest);
            }
            i = i + 1;
        }
        None
    }
}

/// Whether `s` starts with `p`.
pub open spec fn has_prefix(s: Seq<char>, p: Seq<char>) -> bool {
    p.len() <= s.len() && s.subrange(0, p.len() as int) == p
}

/// Whether a word looks like a path: it starts with `/`, `./`, `../` or `~`,
/// or holds only letters, digits, `/`, `.`, `-` and `_`.
pub open spec fn path_like(s: Seq<char>) -> bool {
    has_prefix(s, seq!['/']) || has_prefix(s, seq!['.', '/']) || has_prefix(s, seq!['.', '.', '/'])
        || has_prefix(s, seq!['~']) || forall|i: int|
        0 <= i < s.len() ==> #[trigger] path_char(s[i])
}

pub open spec fn path_char(c: char) -> bool {
    alphanumeric_of(c) || c == '/' || c == '.' || c == '-' || c == '_'
}

/// Tests `path_like`.
pub fn is_path_like(s: &[char]) -> (r: bool)
    ensures
        r == path_like(s@),
{
    let n = s.len();
    if n >= 1 && (s[0] == '/' || s[0] == '~') {
        if s[0] == '/' {
            assert(s@.subrange(0, 1) =~= seq!['/']);
        } else {
            assert(s@.subrange(0, 1) =~= seq!['~']);
        }
        return true;
    }
    if n >= 2 && s[0] == '.' && s[1] == '/' {
        assert(s@.subrange(0, 2) =~= seq!['.', '/']);
        return true;
    }
    if n >= 3 && s[0] == '.' && s[1] == '.' && s[2] == '/' {
        assert(s@.subrange(0, 3) =~= seq!['.', '.', '/']);
        return true;
    }
    assert(!has_prefix(s@, seq!['/']) && !has_prefix(s@, seq!['~'])) by {
        if n >= 1 {
            assert(s@.subrange(0, 1)[0] == s@[0]);
        }
    }
    assert(!has_prefix(s@, seq!['.', '/'])) by {
        if n >= 2 {
            assert(s@.subrange(0, 2)[0] == s@[0]);
            assert(s@.subrange(0, 2)[1] == s@[1]);
        }
    }
    assert(!has_prefix(s@, seq!['.', '.', '/'])) by {
        if n >= 3 {
            assert(s@.subrange(0, 3)[0] == s@[0]);
            assert(s@.subrange(0, 3)[1] == s@[1]);
            assert(s@.subrange(0, 3)[2] == s@[2]);
        }
    }
    let mut i: usize = 0;
    while i < n
        invariant
            i <= n == s@.len(),
            forall|j: int| 0 <= j < i ==> #[trigger] path_char(s@[j]),
            !has_prefix(s@, seq!['/']) && !has_prefix(s@, seq!['~']),
            !has_prefix(s@, seq!['.', '/']) && !has_prefix(s@, seq!['.', '.', '/']),
        decreases n - i,
    {
        let c = s[i];
        if !(alphanumeric(c) || c == '/' || c == '.' || c == '-' || c == '_') {
            assert(!path_char(s@[i as int]));
            return false;
        }
        i = i + 1;
    }
    true
}

/// `s` with a leading `~` replaced by the home directory, when one is known.
pub open spec fn tilde_expanded(s: Seq<char>, home: Option<Seq<char>>) -> Seq<char> {
    if s.len() > 0 && s[0] == '~' && home is Some {
        home->0 + s.subrange(1, s.len() as int)
    } else {
        s
    }
}

/// Replaces a leading `~` by `home`.
pub fn expand_tilde(s: &[char], home: Option<&[char]>) -> (r: Vec<char>)
    ensures
        r@ == tilde_expanded(s@, match home {
            Some(h) => Some(h@),
            None => None,
        }),
{
    if s.len() > 0 && s[0] == '~' {
        match home {
            Some(h) => {
                let mut r = copy_range(h, 0, h.len());
                let rest = copy_range(s, 1, s.len());
                let mut i: usize = 0;
                while i < rest.len()
                    invariant
                        i <= rest@.len(),
                        r@ == h@ + rest@.subrange(0, i as int),
                    decreases rest.len() - i,
                {
                    r.push(rest[i]);
                    i = i + 1;
                    assert(rest@.subrange(0, i as int) =~= rest@.subrange(0, i - 1) + seq![rest@[i - 1]]);
                }
                assert(h@.subrange(0, h@.len() as int) =~= h@);
                assert(rest@.subrange(0, rest@.len() as int) =~= rest@);
                r
            },
            None => copy_range(s, 0, s.len()),
        }
    } else {
        copy_range(s, 0, s.len())
    }
}

/// The class of a word. `command` tells whether it stands where a command
/// goes, `known` whether the registry or the file system knows it as given,
/// `path_exists` whether its tilde-expanded path exists.
pub open spec fn word_class(word: Seq<char>, command: bool, known: bool, path_exists: bool) -> WordClass {
    if command {
        if known {
            WordClass::KnownCommand
        } else {
            WordClass::UnknownCommand
        }
    } else if word.len() > 0 && word[0] == '-' {
        WordClass::OptionFlag
    } else if path_like(word) && path_exists {
        WordClass::ExistingPath
    } else {
        WordClass::PlainWord
    }
}

/// Classifies a word; `file_exists` and `path_exists` are what the file system
/// said of the word as given and of its tilde expansion.
pub fn refine_word(
    word: &[char],
    command: bool,
    registry: &CommandRegistry,
    file_exists: bool,
    path_exists: bool,
) -> (r: WordClass)
    ensures
        r == word_class(word@, command, registry@.contains(word@) || file_exists, path_exists),
        command ==> (r == WordClass::KnownCommand || r == WordClass::UnknownCommand),
{
    if command {
        if registry.contains(word) || file_exists {
            WordClass::KnownCommand
        } else {
            WordClass::UnknownCommand
        }
    } else if word.len() > 0 && word[0] == '-' {
        WordClass::OptionFlag
    } else if path_exists && is_path_like(word) {
        WordClass::ExistingPath
    } else {
        WordClass::PlainWord
    }
}

/// The escape sequence that ends a coloured piece.
pub open spec fn reset_code() -> Seq<char> {
    seq!['\x1b', '[', '0', 'm']
}

/// The escape sequence put in front of a span.
pub open spec fn style_code(kind: SpanKind, class: WordClass) -> Seq<char> {
    match kind {
        SpanKind::Dangerous => seq!['\x1b', '[', '5', ';', '4', '1', 'm'],
        SpanKind::DoubleQuoted | SpanKind::SingleQuoted => seq!['\x1b', '[', '3', '5', 'm'],
        SpanKind::Variable => seq!['\x1b', '[', '9', '4', 'm'],
        SpanKind::AndAnd | SpanKind::OrOr => seq!['\x1b', '[', '9', '5', 'm'],
        SpanKind::Sequence => seq!['\x1b', '[', '3', '3', 'm'],
        SpanKind::Pipe | SpanKind::RedirectIn | SpanKind::RedirectOut => seq![
            '\x1b',
            '[',
            '1',
            ';',
            '3',
            '7',
            'm',
        ],
        SpanKind::Word { .. } => match class {
            WordClass::KnownCommand => seq!['\x1b', '[', '3', '2', 'm'],
            WordClass::UnknownCommand => seq!['\x1b', '[', '3', '1', 'm'],
            WordClass::OptionFlag => seq!['\x1b', '[', '3', '3', 'm'],
            WordClass::ExistingPath => seq!['\x1b', '[', '3', '6', 'm'],
            WordClass::PlainWord => Seq::empty(),
        },
        SpanKind::Whitespace | SpanKind::Background => Seq::empty(),
    }
}

/// Whether a span is followed by the reset sequence.
pub open spec fn is_closed(kind: SpanKind) -> bool {
    kind != SpanKind::Whitespace && kind != SpanKind::Background
}

/// A span as it is shown.
pub open spec fn piece(s: Seq<char>, sp: Span, class: WordClass) -> Seq<char> {
    style_code(sp.kind, class) + s.subrange(sp.start as int, sp.end as int) + if is_closed(sp.kind) {
        reset_code()
    } else {
        Seq::empty()
    }
}

/// The class given for span `k`; a missing one counts as a plain word.
pub open spec fn class_at(classes: Seq<WordClass>, k: int) -> WordClass {
    if 0 <= k < classes.len() {
        classes[k]
    } else {
        WordClass::PlainWord
    }
}

/// The first `k` spans as they are shown.
pub open spec fn rendered(s: Seq<char>, spans: Seq<Span>, classes: Seq<WordClass>, k: int) -> Seq<char>
    decreases k,
{
    if k <= 0 {
        Seq::empty()
    } else {
        rendered(s, spans, classes, k - 1) + piece(s, spans[k - 1], class_at(classes, k - 1))
    }
}

/// The line as it is shown, word span `k` having class `classes[k]`.
pub open spec fn highlighted(s: Seq<char>, classes: Seq<WordClass>) -> Seq<char> {
    rendered(s, lex(s), classes, lex(s).len() as int)
}

fn style_of(kind: SpanKind, class: WordClass) -> (r: Vec<char>)
    ensures
        r@ == style_code(kind, class),
{
    let r = match kind {
        SpanKind::Dangerous => vec!['\x1b', '[', '5', ';', '4', '1', 'm'],
        SpanKind::DoubleQuoted | SpanKind::SingleQuoted => vec!['\x1b', '[', '3', '5', 'm'],
        SpanKind::Variable => vec!['\x1b', '[', '9', '4', 'm'],
        SpanKind::AndAnd | SpanKind::OrOr => vec!['\x1b', '[', '9', '5', 'm'],
        SpanKind::Sequence => vec!['\x1b', '[', '3', '3', 'm'],
        SpanKind::Pipe | SpanKind::RedirectIn | SpanKind::RedirectOut => vec![
            '\x1b',
            '[',
            '1',
            ';',
            '3',
            '7',
            'm',
        ],
        SpanKind::Word { .. } => match class {
            WordClass::KnownCommand => vec!['\x1b', '[', '3', '2', 'm'],
            WordClass::UnknownCommand => vec!['\x1b', '[', '3', '1', 'm'],
            WordClass::OptionFlag => vec!['\x1b', '[', '3', '3', 'm'],
            WordClass::ExistingPath => vec!['\x1b', '[', '3', '6', 'm'],
            WordClass::PlainWord => Vec::new(),
        },
        SpanKind::Whitespace | SpanKind::Background => Vec::new(),
    };
    assert(r@ =~= style_code(kind, class));
    r
}

/// The line with terminal colours: each span gets the colour of its kind,
/// word span `k` the colour of `classes[k]` (a plain word where none is given).
pub fn highlight(line: &[char], classes: &[WordClass]) -> (r: Vec<char>)
    ensures
        r@ == highlighted(line@, classes@),
{
    let n = line.len();
    let spans = classify(line);
    proof {
        crate::lexer::lemma_spans_cover_line(line@);
        crate::lexer::lemma_tiles_bounds(spans@, 0, line@.len() as int);
    }
    let mut out: Vec<char> = Vec::new();
    let mut k: usize = 0;
    while k < spans.len()
        invariant
            k <= spans@.len(),
            spans@ == lex(line@),
            n == line@.len(),
            forall|j: int|
                0 <= j < spans@.len() ==> 0 <= (#[trigger] spans@[j]).start < spans@[j].end
                    <= line@.len(),
            out@ == rendered(line@, spans@, classes@, k as int),
        decreases spans.len() - k,
    {
        let sp = spans[k];
        let class = if k < classes.len() {
            classes[k]
        } else {
            WordClass::PlainWord
        };
        let ghost before = out@;
        let code = style_of(sp.kind, class);
        crate::text::append(&mut out, code.as_slice());
        crate::text::append_range(&mut out, line, sp.start, sp.end);
        let closed = match sp.kind {
            SpanKind::Whitespace | SpanKind::Background => false,
            _ => true,
        };
        if closed {
            let reset = vec!['\x1b', '[', '0', 'm'];
            assert(reset@ =~= reset_code());
            crate::text::append(&mut out, reset.as_slice());
        }
        assert(out@ =~= before + piece(line@, sp, class_at(classes@, k as int)));
        k = k + 1;
    }
    out
}

/// Whether flag `k` is given and set.
pub open spec fn flag_at(flags: Seq<bool>, k: int) -> bool {
    0 <= k < flags.len() && flags[k]
}

/// The class of a span: a word by `word_class`, with what the file system
/// said of it; anything else counts as a plain word.
pub open spec fn span_class(
    s: Seq<char>,
    sp: Span,
    names: Seq<Seq<char>>,
    file_exists: bool,
    path_exists: bool,
) -> WordClass {
    match sp.kind {
        SpanKind::Word { command } => {
            let w = s.subrange(sp.start as int, sp.end as int);
            word_class(w, command, names.contains(w) || file_exists, path_exists)
        },
        _ => WordClass::PlainWord,
    }
}

/// The classes of the spans of a line; `file_exists[k]` and `path_exists[k]`
/// are what the file system said of the word of span `k` as given and
/// tilde-expanded (a missing flag counts as not set).
pub open spec fn classes_of(
    s: Seq<char>,
    names: Seq<Seq<char>>,
    file_exists: Seq<bool>,
    path_exists: Seq<bool>,
) -> Seq<WordClass> {
    Seq::new(
        lex(s).len(),
        |k: int| span_class(s, lex(s)[k], names, flag_at(file_exists, k), flag_at(path_exists, k)),
    )
}

/// Classifies every span of a line, for `highlight`.
pub fn word_classes(
    line: &[char],
    registry: &CommandRegistry,
    file_exists: &[bool],
    path_exists: &[bool],
) -> (r: Vec<WordClass>)
    ensures
        r@ == classes_of(line@, registry@, file_exists@, path_exists@),
{
    let n = line.len();
    let spans = classify(line);
    proof {
        crate::lexer::lemma_spans_cover_line(line@);
        crate::lexer::lemma_tiles_bounds(spans@, 0, line@.len() as int);
    }
    let mut out: Vec<WordClass> = Vec::new();
    let mut k: usize = 0;
    while k < spans.len()
        invariant
            k <= spans@.len(),
            spans@ == lex(line@),
            n == line@.len(),
            forall|j: int|
                0 <= j < spans@.len() ==> 0 <= (#[trigger] spans@[j]).start < spans@[j].end
                    <= line@.len(),
            out@.len() == k,
            forall|j: int|
                0 <= j < k ==> #[trigger] out@[j] == span_class(
                    line@,
                    spans@[j],
                    registry@,
                    flag_at(file_exists@, j),
                    flag_at(path_exists@, j),
                ),
        decreases spans.len() - k,
    {
        let sp = spans[k];
        let fe = k < file_exists.len() && file_exists[k];
        let pe = k < path_exists.len() && path_exists[k];
        let c = match sp.kind {
            SpanKind::Word { command } => refine_word(
                &line[sp.start..sp.end],
                command,
                registry,
                fe,
                pe,
            ),
            _ => WordClass::PlainWord,
        };
        out.push(c);
        k = k + 1;
    }
    assert(out@ =~= classes_of(line@, registry@, file_exists@, path_exists@));
    out
}

/// In the coloured line, the first word after the start of the line or after
/// an operator, with only white space between, is shown as a known command
/// (green) or an unknown one (red), never as an option, a path or a plain
/// word, whatever the file system said.
pub proof fn lemma_command_word_shown_as_command(
    s: Seq<char>,
    names: Seq<Seq<char>>,
    file_exists: Seq<bool>,
    path_exists: Seq<bool>,
    k: int,
)
    requires
        0 <= k < lex(s).len(),
        lex(s)[k].kind is Word,
        crate::lexer::at_command_position(lex(s), k),
    ensures
        ({
            let sp = lex(s)[k];
            let text = s.subrange(sp.start as int, sp.end as int);
            let shown = piece(s, sp, class_at(classes_of(s, names, file_exists, path_exists), k));
            shown == seq!['\x1b', '[', '3', '2', 'm'] + text + reset_code() || shown == seq![
                '\x1b',
                '[',
                '3',
                '1',
                'm',
            ] + text + reset_code()
        }),
{
    crate::lexer::lemma_command_position(s, k);
}

/// `s` with every colour sequence (`ESC [` up to the next `m`) taken out.
pub open spec fn strip_sgr(s: Seq<char>) -> Seq<char>
    decreases s.len(),
{
    if s.len() == 0 {
        Seq::empty()
    } else if s[0] == '\x1b' && s.len() >= 2 && s[1] == '[' && 2 <= crate::dispatch::index_of(
        s,
        'm',
        2,
    ) < s.len() {
        strip_sgr(s.subrange(crate::dispatch::index_of(s, 'm', 2) + 1, s.len() as int))
    } else {
        seq![s[0]] + strip_sgr(s.drop_first())
    }
}

/// `s` holds no escape character.
pub open spec fn no_escape(s: Seq<char>) -> bool {
    forall|i: int| 0 <= i < s.len() ==> s[i] != '\x1b'
}

/// A colour sequence: `ESC [`, characters other than `m`, then `m`.
pub open spec fn is_sgr(c: Seq<char>) -> bool {
    &&& c.len() >= 3
    &&& c[0] == '\x1b'
    &&& c[1] == '['
    &&& c.last() == 'm'
    &&& forall|i: int| 2 <= i < c.len() - 1 ==> c[i] != 'm'
}

proof fn lemma_strip_plain(t: Seq<char>, y: Seq<char>)
    requires
        no_escape(t),
    ensures
        strip_sgr(t + y) == t + strip_sgr(y),
    decreases t.len(),
{
    if t.len() > 0 {
        let ty = t + y;
        assert(ty[0] == t[0]);
        assert(ty.drop_first() =~= t.drop_first() + y);
        lemma_strip_plain(t.drop_first(), y);
        assert(t =~= seq![t[0]] + t.drop_first());
    } else {
        assert(t + y =~= y);
    }
}

proof fn lemma_strip_code(c: Seq<char>, y: Seq<char>)
    requires
        is_sgr(c),
    ensures
        strip_sgr(c + y) == strip_sgr(y),
{
    let cy = c + y;
    let e = c.len() - 1;
    assert(cy[e] == 'm');
    assert forall|k: int| 2 <= k < e implies cy[k] != 'm' by {
        assert(cy[k] == c[k]);
    }
    crate::dispatch::lemma_index_of_first(cy, 'm', 2, e);
    assert(cy.subrange(e + 1, cy.len() as int) =~= y);
}

proof fn lemma_styles_are_sgr(kind: SpanKind, class: WordClass)
    ensures
        style_code(kind, class).len() == 0 || is_sgr(style_code(kind, class)),
        is_sgr(reset_code()),
{
    let c = style_code(kind, class);
    if c.len() > 0 {
        assert(c[0] == '\x1b' && c[1] == '[' && c.last() == 'm');
        assert forall|i: int| 2 <= i < c.len() - 1 implies c[i] != 'm' by {}
    }
    let r = reset_code();
    assert(r[0] == '\x1b' && r[1] == '[' && r.last() == 'm' && r[2] != 'm');
}

proof fn lemma_strip_piece(s: Seq<char>, sp: Span, class: WordClass, y: Seq<char>)
    requires
        0 <= sp.start <= sp.end <= s.len(),
        no_escape(s),
    ensures
        strip_sgr(piece(s, sp, class) + y) == s.subrange(sp.start as int, sp.end as int) + strip_sgr(y),
{
    let st = style_code(sp.kind, class);
    let t = s.subrange(sp.start as int, sp.end as int);
    let r = if is_closed(sp.kind) {
        reset_code()
    } else {
        Seq::empty()
    };
    lemma_styles_are_sgr(sp.kind, class);
    assert(piece(s, sp, class) + y =~= st + (t + (r + y)));
    if st.len() > 0 {
        lemma_strip_code(st, t + (r + y));
    } else {
        assert(st + (t + (r + y)) =~= t + (r + y));
    }
    lemma_strip_plain(t, r + y);
    if is_closed(sp.kind) {
        lemma_strip_code(r, y);
    } else {
        assert(r + y =~= y);
    }
}

/// The text of the first `k` spans.
pub open spec fn prefix_text(s: Seq<char>, spans: Seq<Span>, k: int) -> Seq<char>
    decreases k,
{
    if k <= 0 {
        Seq::empty()
    } else {
        prefix_text(s, spans, k - 1) + s.subrange(spans[k - 1].start as int, spans[k - 1].end as int)
    }
}

proof fn lemma_strip_rendered(
    s: Seq<char>,
    spans: Seq<Span>,
    classes: Seq<WordClass>,
    k: int,
    y: Seq<char>,
)
    requires
        0 <= k <= spans.len(),
        no_escape(s),
        forall|j: int| 0 <= j < spans.len() ==> 0 <= (#[trigger] spans[j]).start <= spans[j].end <= s.len(),
    ensures
        strip_sgr(rendered(s, spans, classes, k) + y) == prefix_text(s, spans, k) + strip_sgr(y),
    decreases k,
{
    if k > 0 {
        let p = piece(s, spans[k - 1], class_at(classes, k - 1));
        assert(rendered(s, spans, classes, k) + y =~= rendered(s, spans, classes, k - 1) + (p + y));
        lemma_strip_rendered(s, spans, classes, k - 1, p + y);
        lemma_strip_piece(s, spans[k - 1], class_at(classes, k - 1), y);
    } else {
        assert(Seq::<char>::empty() + y =~= y);
    }
}

proof fn lemma_prefix_text(s: Seq<char>, spans: Seq<Span>, k: int)
    requires
        1 <= k <= spans.len(),
        spans[0].start == 0,
        forall|j: int| 0 <= j < spans.len() - 1 ==> (#[trigger] spans[j + 1]).start == spans[j].end,
        forall|j: int| 0 <= j < spans.len() ==> 0 <= (#[trigger] spans[j]).start <= spans[j].end <= s.len(),
    ensures
        prefix_text(s, spans, k) == s.subrange(0, spans[k - 1].end as int),
    decreases k,
{
    if k > 1 {
        lemma_prefix_text(s, spans, k - 1);
        let j = k - 2;
        assert(spans[j + 1].start == spans[j].end);
        assert(s.subrange(0, spans[k - 2].end as int) + s.subrange(
            spans[k - 1].start as int,
            spans[k - 1].end as int,
        ) =~= s.subrange(0, spans[k - 1].end as int));
    } else {
        assert(prefix_text(s, spans, 0) + s.subrange(spans[0].start as int, spans[0].end as int)
            =~= s.subrange(0, spans[0].end as int));
    }
}

/// Taking the colour sequences out of the coloured line gives the line back,
/// whatever classes the words were given, where the line holds no escape
/// character of its own.
pub proof fn lemma_highlight_keeps_text(s: Seq<char>, classes: Seq<WordClass>)
    requires
        s.len() <= usize::MAX,
        no_escape(s),
    ensures
        strip_sgr(highlighted(s, classes)) == s,
{
    let spans = lex(s);
    crate::lexer::lemma_spans_cover_line(s);
    crate::lexer::lemma_tiles_bounds(spans, 0, s.len() as int);
    lemma_strip_rendered(s, spans, classes, spans.len() as int, Seq::empty());
    assert(highlighted(s, classes) + Seq::<char>::empty() =~= highlighted(s, classes));
    assert(strip_sgr(Seq::<char>::empty()) == Seq::<char>::empty());
    if spans.len() > 0 {
        crate::lexer::lemma_tiles_links(spans, 0, s.len() as int);
        lemma_prefix_text(s, spans, spans.len() as int);
        assert(s.subrange(0, s.len() as int) =~= s);
    } else {
        assert(s.len() == 0);
        assert(s =~= Seq::<char>::empty());
    }
    assert(prefix_text(s, spans, spans.len() as int) + Seq::<char>::empty() =~= prefix_text(
        s,
        spans,
        spans.len() as int,
    ));
}

} // verus!
