use hsh::alias::{expand_alias, expand_with_words, join_words, AliasTable};
use hsh::dispatch::{
    answer_is_yes, asks_elevation_with_words, executable_mode, elevate, finish_line, needs_elevation, parse_export, plan_line,
    route_line, runnable_lines, Action, Step,
};

fn chars(s: &str) -> Vec<char> {
    s.chars().collect()
}

fn st(v: &[char]) -> String {
    v.iter().collect()
}

fn table(pairs: &[(&str, &str)]) -> AliasTable {
    let mut t = AliasTable::new();
    for (k, v) in pairs {
        t.insert(chars(k), chars(v));
    }
    t
}

#[test]
fn alias_replaces_leading_word() {
    let t = table(&[("ll", "ls -la"), ("g", "git")]);
    assert_eq!(st(&expand_alias(&chars("  ll  /tmp  'a b' "), &t)), "ls -la /tmp a b");
    assert_eq!(st(&expand_alias(&chars("ll"), &t)), "ls -la ");
    assert_eq!(st(&expand_alias(&chars(" echo ll "), &t)), "echo ll");
    assert_eq!(st(&expand_alias(&chars("ll 'open"), &t)), "ll 'open");
    assert_eq!(st(&expand_alias(&chars("   "), &t)), "");
}

#[test]
fn alias_expands_once() {
    let t = table(&[("a", "b x"), ("b", "a y")]);
    assert_eq!(st(&expand_alias(&chars("a 1"), &t)), "b x 1");
    assert_eq!(st(&expand_alias(&chars("b 2"), &t)), "a y 2");
}

#[test]
fn later_alias_wins() {
    let t = table(&[("k", "one"), ("k", "two")]);
    assert_eq!(t.get(&chars("k")), Some(chars("two")));
    assert_eq!(t.get(&chars("z")), None);
}

#[test]
fn expansion_from_given_words() {
    let t = table(&[("ll", "ls -la")]);
    let words = Some(vec![chars("ll"), chars("x"), chars("y")]);
    assert_eq!(st(&expand_with_words(&chars(" ll x y "), words, &t)), "ls -la x y");
    assert_eq!(st(&expand_with_words(&chars(" ll x y "), None, &t)), "ll x y");
    assert_eq!(st(&join_words(&[chars("a"), chars("b"), chars("c")])), "a b c");
    assert_eq!(st(&join_words(&[])), "");
}

fn step_of(line: &str) -> String {
    match route_line(&chars(line)) {
        Step::Source { path } => format!("source:{}", st(&path)),
        Step::ChangeDirectory { arg } => format!("cd:{}", st(&arg)),
        Step::Exit => "exit".to_string(),
        Step::ShowHistory => "history".to_string(),
        Step::ShowHelp => "help".to_string(),
        Step::Command { line } => format!("run:{}", st(&line)),
    }
}

#[test]
fn lines_are_routed() {
    assert_eq!(step_of("source  ~/rc "), "source:~/rc");
    assert_eq!(step_of(". file"), "source:file");
    assert_eq!(step_of("cd"), "cd:");
    assert_eq!(step_of("cd  -"), "cd:-");
    assert_eq!(step_of(" cd /tmp "), "cd:/tmp");
    assert_eq!(step_of("exit"), "exit");
    assert_eq!(step_of(" history "), "history");
    assert_eq!(step_of("hsh-help"), "help");
    assert_eq!(step_of("exit now"), "run:exit now");
    assert_eq!(step_of("ls -l"), "run:ls -l");
}

#[test]
fn plan_expands_then_routes() {
    let t = table(&[("up", "cd .."), ("rc", "source ~/.rc")]);
    assert!(matches!(plan_line(&chars("up"), &t), Step::ChangeDirectory { arg } if st(&arg) == ".."));
    assert!(matches!(plan_line(&chars("rc"), &t), Step::Source { path } if st(&path) == "~/.rc"));
}

#[test]
fn elevation_for_protected_edits() {
    assert!(needs_elevation(&chars(" vim /etc/hosts "), false));
    assert!(needs_elevation(&chars("nano /usr/bin/x"), false));
    assert!(!needs_elevation(&chars("vim /etc/hosts"), true));
    assert!(!needs_elevation(&chars("vim /home/a"), false));
    assert!(!needs_elevation(&chars("vim"), false));
    assert!(!needs_elevation(&chars("emacs /etc/hosts"), false));
    assert!(!needs_elevation(&chars("vi '/etc/x"), false));
    assert_eq!(st(&elevate(&chars(" vi  /etc/x  y "), false, true)), "sudo vi  /etc/x  y");
    assert_eq!(st(&elevate(&chars("vim '/etc/my file'"), false, true)), "sudo vim '/etc/my file'");
    assert_eq!(st(&elevate(&chars(" vi  /etc/x "), false, false)), "vi  /etc/x");
    assert_eq!(st(&elevate(&chars(" ls /etc/x "), false, true)), "ls /etc/x");
    let words = Some(vec![chars("vi"), chars("/etc/x")]);
    assert!(asks_elevation_with_words(&words, false));
    assert!(!asks_elevation_with_words(&None, false));
}

#[test]
fn yes_answers() {
    assert!(answer_is_yes(&chars("y\n")));
    assert!(answer_is_yes(&chars(" Y ")));
    assert!(!answer_is_yes(&chars("yes")));
    assert!(!answer_is_yes(&chars("")));
}

#[test]
fn export_lines() {
    assert_eq!(parse_export(&chars("export  A = b c ")), Some((chars("A"), chars("b c"))));
    assert_eq!(parse_export(&chars("export A=x=y")), Some((chars("A"), chars("x=y"))));
    assert_eq!(parse_export(&chars("export A=")), Some((chars("A"), chars(""))));
    assert_eq!(parse_export(&chars("export A")), None);
    assert_eq!(parse_export(&chars("export =x")), None);
    assert_eq!(parse_export(&chars("exports A=1")), None);
    match finish_line(&chars("export NAME=value")) {
        Action::SetVariable { name, value } => {
            assert_eq!(st(&name), "NAME");
            assert_eq!(st(&value), "value");
        }
        _ => panic!("not an assignment"),
    }
    assert!(matches!(finish_line(&chars("export A=x\0y")), Action::RejectExport));
    assert!(matches!(finish_line(&chars("export A\0=y")), Action::RejectExport));
}

#[test]
fn execute_bits_are_added_only_when_none_is_set() {
    assert_eq!(executable_mode(0o644), Some(0o755));
    assert_eq!(executable_mode(0o100600), Some(0o100711));
    assert_eq!(executable_mode(0o744), None);
    assert_eq!(executable_mode(0o601), None);
}

#[test]
fn extensions_are_rewritten() {
    match finish_line(&chars("./build.sh")) {
        Action::Run { line, make_executable } => {
            assert_eq!(st(&line), "./build.sh");
            assert_eq!(make_executable, Some(chars("./build.sh")));
        }
        _ => panic!(),
    }
    match finish_line(&chars("bash -x  tools/run.sh")) {
        Action::Run { line, make_executable } => {
            assert_eq!(st(&line), "bash -x  tools/run.sh");
            assert_eq!(make_executable, Some(chars("tools/run.sh")));
        }
        _ => panic!(),
    }
    match finish_line(&chars("main.hl")) {
        Action::Run { line, make_executable } => {
            assert_eq!(st(&line), "hl run main.hl");
            assert_eq!(make_executable, None);
        }
        _ => panic!(),
    }
    match finish_line(&chars("export X")) {
        Action::Run { line, make_executable } => {
            assert_eq!(st(&line), "export X");
            assert_eq!(make_executable, None);
        }
        _ => panic!(),
    }
}

#[test]
fn sourced_lines_in_order() {
    let lines = runnable_lines(&chars("cmd1\n\n  \n!skip\r\n  cmd2 \r\ncmd3"));
    let got: Vec<String> = lines.iter().map(|l| st(l)).collect();
    assert_eq!(got, vec!["cmd1", "  cmd2 ", "cmd3"]);
    assert!(runnable_lines(&chars("")).is_empty());
    let tail: Vec<String> = runnable_lines(&chars("a\r")).iter().map(|l| st(l)).collect();
    assert_eq!(tail, vec!["a\r"]);
}

#[test]
fn trimming_knows_unicode_spaces() {
    let t = table(&[]);
    assert_eq!(st(&expand_alias(&chars("\u{3000}ls\u{a0}-l\u{2003}"), &t)), "ls\u{a0}-l");
    assert_eq!(step_of("\u{2028}exit\u{85}"), "exit");
}
