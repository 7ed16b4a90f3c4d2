use hsh::highlight::{highlight, is_path_like, refine_word, word_classes, CommandRegistry, WordClass};
use hsh::lexer::{classify, dangerous, Span, SpanKind};

fn chars(s: &str) -> Vec<char> {
    s.chars().collect()
}

fn text_of(line: &[char], sp: &Span) -> String {
    line[sp.start..sp.end].iter().collect()
}

fn kinds(line: &str) -> Vec<SpanKind> {
    classify(&chars(line)).iter().map(|s| s.kind).collect()
}

#[test]
fn spans_cover_the_line() {
    for line in ["ls -la | grep \"a b\" && echo $HOME_1;x", "'open", "a>b<c&d", "", "  "] {
        let c = chars(line);
        let spans = classify(&c);
        let mut at = 0;
        let mut joined = String::new();
        for sp in &spans {
            assert_eq!(sp.start, at);
            assert!(sp.end > sp.start);
            joined.push_str(&text_of(&c, sp));
            at = sp.end;
        }
        assert_eq!(at, c.len());
        assert_eq!(joined, line);
    }
}

#[test]
fn operators_and_quotes() {
    assert_eq!(
        kinds("a&&b||c|d;e>f<g&"),
        vec![
            SpanKind::Word { command: true },
            SpanKind::AndAnd,
            SpanKind::Word { command: true },
            SpanKind::OrOr,
            SpanKind::Word { command: true },
            SpanKind::Pipe,
            SpanKind::Word { command: true },
            SpanKind::Sequence,
            SpanKind::Word { command: true },
            SpanKind::RedirectOut,
            SpanKind::Word { command: true },
            SpanKind::RedirectIn,
            SpanKind::Word { command: true },
            SpanKind::Background,
        ]
    );
    assert_eq!(
        kinds("echo 'x y' \"z"),
        vec![
            SpanKind::Word { command: true },
            SpanKind::Whitespace,
            SpanKind::SingleQuoted,
            SpanKind::Whitespace,
            SpanKind::DoubleQuoted,
        ]
    );
    let c = chars("echo $A_1b-c");
    let spans = classify(&c);
    assert_eq!(spans[2].kind, SpanKind::Variable);
    assert_eq!(text_of(&c, &spans[2]), "$A_1b");
    assert_eq!(spans[3].kind, SpanKind::Word { command: false });
}

#[test]
fn command_position_follows_operators() {
    assert_eq!(
        kinds("  sudo -x ; ls"),
        vec![
            SpanKind::Whitespace,
            SpanKind::Whitespace,
            SpanKind::Word { command: true },
            SpanKind::Whitespace,
            SpanKind::Word { command: false },
            SpanKind::Whitespace,
            SpanKind::Sequence,
            SpanKind::Whitespace,
            SpanKind::Word { command: true },
        ]
    );
    assert_eq!(kinds("\"a\" b")[2], SpanKind::Word { command: false });
}

#[test]
fn dangerous_line_is_one_span() {
    for line in ["sudo rm -rf / now", "x; rm -rf /*", "dd if=/dev/zero of=/dev/sda", "mkfs /dev/sda1"] {
        let c = chars(line);
        assert!(dangerous(&c));
        assert_eq!(classify(&c), vec![Span { start: 0, end: c.len(), kind: SpanKind::Dangerous }]);
    }
    assert!(!dangerous(&chars("rm -rf ./build")));
    let out: String = highlight(&chars("rm -rf /"), &[]).into_iter().collect();
    assert_eq!(out, "\x1b[5;41mrm -rf /\x1b[0m");
}

#[test]
fn highlight_colours_each_span() {
    let line = chars("ls -l \"a\" $X | wc && x; y > z &");
    let spans = classify(&line);
    let classes: Vec<WordClass> = spans
        .iter()
        .map(|s| match s.kind {
            SpanKind::Word { command: true } => WordClass::KnownCommand,
            SpanKind::Word { command: false } => WordClass::OptionFlag,
            _ => WordClass::PlainWord,
        })
        .collect();
    let out: String = highlight(&line, &classes).into_iter().collect();
    assert_eq!(
        out,
        "\x1b[32mls\x1b[0m \x1b[33m-l\x1b[0m \x1b[35m\"a\"\x1b[0m \x1b[94m$X\x1b[0m \x1b[1;37m|\x1b[0m \x1b[32mwc\x1b[0m \x1b[95m&&\x1b[0m \x1b[32mx\x1b[0m\x1b[33m;\x1b[0m \x1b[32my\x1b[0m \x1b[1;37m>\x1b[0m \x1b[32mz\x1b[0m &"
    );
    let plain: String = highlight(&chars("a b"), &[WordClass::UnknownCommand]).into_iter().collect();
    assert_eq!(plain, "\x1b[31ma\x1b[0m b\x1b[0m");
}

#[test]
fn words_are_refined() {
    let reg = CommandRegistry::new(vec![chars("ls"), chars("grep")]);
    assert_eq!(refine_word(&chars("ls"), true, &reg, false, false), WordClass::KnownCommand);
    assert_eq!(refine_word(&chars("lsx"), true, &reg, false, false), WordClass::UnknownCommand);
    assert_eq!(refine_word(&chars("./run"), true, &reg, true, false), WordClass::KnownCommand);
    assert_eq!(refine_word(&chars("-la"), true, &reg, false, true), WordClass::UnknownCommand);
    assert_eq!(refine_word(&chars("-la"), false, &reg, false, true), WordClass::OptionFlag);
    assert_eq!(refine_word(&chars("src/main.rs"), false, &reg, false, true), WordClass::ExistingPath);
    assert_eq!(refine_word(&chars("src/main.rs"), false, &reg, false, false), WordClass::PlainWord);
    assert_eq!(refine_word(&chars("a*b"), false, &reg, false, true), WordClass::PlainWord);
}

#[test]
fn path_likeness() {
    for s in ["/etc", "./x", "../y", "~/z", "abc.txt", "dir/sub-1_x", "é", ""] {
        assert!(is_path_like(&chars(s)), "{}", s);
    }
    for s in ["a*b", "x:y", ".hidden?", "a b"] {
        assert!(!is_path_like(&chars(s)), "{}", s);
    }
}

#[test]
fn registry_lookups() {
    let reg = CommandRegistry::new(vec![chars("git"), chars("grep"), chars("gzip")]);
    assert!(reg.contains(&chars("grep")));
    assert!(!reg.contains(&chars("gre")));
    assert_eq!(reg.complete_command(&chars("gr")), Some(chars("ep")));
    assert_eq!(reg.complete_command(&chars("g")), Some(chars("it")));
    assert_eq!(reg.complete_command(&chars("x")), None);
}

#[test]
fn classes_for_each_span() {
    let reg = CommandRegistry::new(vec![chars("ls")]);
    let line = chars("ls -l src | ./x ~ q");
    // spans: ls, ws, -l, ws, src, ws, |, ws, ./x, ws, ~, ws, q
    let mut fe = vec![false; 13];
    let mut pe = vec![false; 13];
    fe[8] = true;
    pe[4] = true;
    pe[2] = true;
    let classes = word_classes(&line, &reg, &fe, &pe);
    assert_eq!(
        classes,
        vec![
            WordClass::KnownCommand,
            WordClass::PlainWord,
            WordClass::OptionFlag,
            WordClass::PlainWord,
            WordClass::ExistingPath,
            WordClass::PlainWord,
            WordClass::PlainWord,
            WordClass::PlainWord,
            WordClass::KnownCommand,
            WordClass::PlainWord,
            WordClass::PlainWord,
            WordClass::PlainWord,
            WordClass::PlainWord,
        ]
    );
    let none = word_classes(&chars("zz"), &reg, &[], &[]);
    assert_eq!(none, vec![WordClass::UnknownCommand]);
    let out: String = highlight(&line, &classes).into_iter().collect();
    let stripped: String = strip_colours(&out);
    assert_eq!(stripped, "ls -l src | ./x ~ q");
}

fn strip_colours(s: &str) -> String {
    let mut out = String::new();
    let mut it = s.chars().peekable();
    while let Some(c) = it.next() {
        if c == '\x1b' && it.peek() == Some(&'[') {
            for d in it.by_ref() {
                if d == 'm' {
                    break;
                }
            }
        } else {
            out.push(c);
        }
    }
    out
}
