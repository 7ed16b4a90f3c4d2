use hsh::hints::{complete_file, hint_request, HintRequest};
use hsh::session::{CdPlan, Session};

fn chars(s: &str) -> Vec<char> {
    s.chars().collect()
}

/// Runs `cd arg` against a set of directories that exist.
fn cd(s: &mut Session, cwd: &mut Vec<char>, arg: &str, dirs: &[&str]) -> bool {
    match s.plan_cd(&chars(arg), Some(&chars("/home/u"))) {
        CdPlan::Go { target, remember } => {
            let ok = dirs.iter().any(|d| chars(d) == target);
            let left = cwd.clone();
            if ok {
                *cwd = target;
            }
            s.cd_done(left, remember, ok);
            true
        }
        CdPlan::NoPrevious => false,
    }
}

#[test]
fn cd_back_and_forth() {
    let dirs = ["/a", "/b", "/home/u", "/home/u/x"];
    let mut s = Session::new();
    let mut cwd = chars("/a");
    assert!(!cd(&mut s, &mut cwd, "-", &dirs));
    assert!(cd(&mut s, &mut cwd, "/b", &dirs));
    assert_eq!(cwd, chars("/b"));
    assert!(cd(&mut s, &mut cwd, "-", &dirs));
    assert_eq!(cwd, chars("/a"));
    assert!(!cd(&mut s, &mut cwd, "-", &dirs));
    assert_eq!(cwd, chars("/a"));
    assert!(cd(&mut s, &mut cwd, "~/x", &dirs));
    assert_eq!(cwd, chars("/home/u/x"));
    assert!(cd(&mut s, &mut cwd, "", &dirs));
    assert_eq!(cwd, chars("/home/u"));
    assert!(cd(&mut s, &mut cwd, "/nope", &dirs));
    assert_eq!(cwd, chars("/home/u"));
    assert!(cd(&mut s, &mut cwd, "-", &dirs));
    assert_eq!(cwd, chars("/home/u/x"));
}

#[test]
fn cd_home_without_home() {
    let mut s = Session::new();
    match s.plan_cd(&chars(""), None) {
        CdPlan::Go { target, remember } => {
            assert_eq!(target, chars("/"));
            assert!(remember);
        }
        CdPlan::NoPrevious => panic!(),
    }
    match s.plan_cd(&chars("~/d"), None) {
        CdPlan::Go { target, .. } => assert_eq!(target, chars("~/d")),
        CdPlan::NoPrevious => panic!(),
    }
}

#[test]
fn blank_lines_stay_out_of_history() {
    let mut s = Session::new();
    s.record(&chars("   \t "));
    s.record(&chars(""));
    assert!(s.history_newest_first().is_empty());
    s.record(&chars("  ls  "));
    s.record(&chars("pwd"));
    assert_eq!(s.history_newest_first(), vec![chars("pwd"), chars("  ls  ")]);
}

#[test]
fn status_follows_outcome() {
    let mut s = Session::new();
    assert_eq!(s.last_status(), 0);
    s.finish(Some(3));
    assert_eq!(s.last_status(), 3);
    s.finish(None);
    assert_eq!(s.last_status(), 1);
    s.finish(Some(0));
    assert_eq!(s.last_status(), 0);
}

fn hint_of(line: &str) -> String {
    match hint_request(&chars(line)) {
        HintRequest::Nothing => "-".to_string(),
        HintRequest::Command { prefix } => format!("cmd:{}", prefix.iter().collect::<String>()),
        HintRequest::File { path } => format!("file:{}", path.iter().collect::<String>()),
    }
}

#[test]
fn hint_requests() {
    assert_eq!(hint_of("   "), "-");
    assert_eq!(hint_of(" gi "), "cmd:gi");
    assert_eq!(hint_of("cat sr"), "file:sr");
    assert_eq!(hint_of("cat a/b"), "file:a/b");
}

#[test]
fn file_completion() {
    let entries = vec![chars("src"), chars("srcx"), chars("target")];
    assert_eq!(complete_file(&entries, &chars("src")), Some(chars("x")));
    assert_eq!(complete_file(&entries, &chars("t")), Some(chars("arget")));
    assert_eq!(complete_file(&entries, &chars("z")), None);
}
