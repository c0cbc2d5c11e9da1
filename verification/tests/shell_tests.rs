use gash::shell::{Job, LineAction, Shell};

fn strings(v: &[&str]) -> Vec<String> {
    v.iter().map(|s| s.to_string()).collect()
}

fn job(program: &str, argv: &[&str], background: bool) -> LineAction {
    LineAction::Run(Job { program: program.to_string(), argv: strings(argv), background })
}

#[test]
fn blank_line_does_nothing() {
    let mut sh = Shell::new();
    assert_eq!(sh.accept_line(""), LineAction::Nothing);
    assert_eq!(sh.accept_line("     "), LineAction::Nothing);
    assert!(sh.history().is_empty());
}

#[test]
fn exit_leaves_history_alone() {
    let mut sh = Shell::new();
    assert_eq!(sh.accept_line("ls"), job("ls", &[], false));
    assert_eq!(sh.accept_line("  exit now"), LineAction::Exit);
    assert_eq!(sh.history(), &strings(&["ls"]));
}

#[test]
fn commands_enter_the_history_as_typed() {
    let mut sh = Shell::new();
    assert_eq!(sh.accept_line("ls  -l /tmp"), job("ls", &["-l", "/tmp"], false));
    assert_eq!(sh.accept_line("cat x"), job("cat", &["x"], false));
    assert_eq!(sh.history(), &strings(&["ls  -l /tmp", "cat x"]));
}

#[test]
fn bang_bang_repeats_the_last_command() {
    let mut sh = Shell::new();
    assert_eq!(sh.accept_line("echo hi there"), job("echo", &["hi", "there"], false));
    assert_eq!(sh.accept_line("!!"), job("echo", &["hi", "there"], false));
    assert_eq!(sh.accept_line("!! ignored words"), job("echo", &["hi", "there"], false));
    assert_eq!(
        sh.history(),
        &strings(&["echo hi there", "echo hi there", "echo hi there"])
    );
}

#[test]
fn trailing_ampersand_runs_in_background() {
    let mut sh = Shell::new();
    assert_eq!(sh.accept_line("ping host &"), job("ping", &["host"], true));
    assert_eq!(sh.accept_line("ping host"), job("ping", &["host"], false));
    assert_eq!(sh.accept_line("&"), job("&", &[], false));
    assert_eq!(sh.accept_line("a & b"), job("a", &["&", "b"], false));
    assert_eq!(sh.history(), &strings(&["ping host &", "ping host", "&", "a & b"]));
}

#[test]
fn bang_bang_of_a_background_command_is_background() {
    let mut sh = Shell::new();
    assert_eq!(sh.accept_line("sleep 5 &"), job("sleep", &["5"], true));
    assert_eq!(sh.accept_line("!!"), job("sleep", &["5"], true));
}

#[test]
fn exit_and_bang_bang_never_enter_the_history() {
    let mut sh = Shell::new();
    sh.accept_line("make");
    sh.accept_line("!!");
    sh.accept_line("exit");
    for line in sh.history() {
        let first = line.split(' ').find(|w| !w.is_empty()).unwrap();
        assert_ne!(first, "!!");
        assert_ne!(first, "exit");
    }
    assert_eq!(sh.history(), &strings(&["make", "make"]));
}
