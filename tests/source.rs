use hsh::dispatch::runnable_lines;
use hsh::source::SourceRun;

fn chars(s: &str) -> Vec<char> {
    s.chars().collect()
}

#[test]
fn source_runs_lines_in_order() {
    let mut run = SourceRun::new(runnable_lines(&chars("cmd1\n\ncmd2\n!note\ncmd3\n")));
    let mut seen = Vec::new();
    let statuses = [4, 0, 7];
    let mut k = 0;
    while let Some(line) = run.next_line() {
        seen.push(line.iter().collect::<String>());
        run.line_done(statuses[k]);
        k += 1;
    }
    assert_eq!(seen, vec!["cmd1", "cmd2", "cmd3"]);
    assert_eq!(run.status(), 7);
    assert!(run.is_done());
}

#[test]
fn nested_source_runs_first() {
    let mut run = SourceRun::new(vec![chars("a"), chars("source inner"), chars("d")]);
    assert_eq!(run.next_line(), Some(chars("a")));
    run.line_done(3);
    assert_eq!(run.next_line(), Some(chars("source inner")));
    run.enter(vec![chars("b"), chars("c")]);
    assert_eq!(run.status(), 0);
    assert_eq!(run.next_line(), Some(chars("b")));
    run.line_done(1);
    assert_eq!(run.next_line(), Some(chars("c")));
    run.line_done(2);
    assert_eq!(run.status(), 2);
    assert_eq!(run.next_line(), Some(chars("d")));
    run.line_done(5);
    assert_eq!(run.next_line(), None);
    assert_eq!(run.status(), 5);
}

#[test]
fn empty_source_returns_zero() {
    let mut run = SourceRun::new(runnable_lines(&chars("\n  \n!x\n")));
    assert!(run.is_done());
    assert_eq!(run.next_line(), None);
    assert_eq!(run.status(), 0);
    let mut outer = SourceRun::new(vec![chars("x"), chars(". empty")]);
    outer.next_line();
    outer.line_done(9);
    outer.next_line();
    outer.enter(Vec::new());
    assert_eq!(outer.next_line(), None);
    assert_eq!(outer.status(), 0);
}
