use gash::plan::{
    cd_target, history_listing, history_text_of, matchProcess, plan_command, no_such_directory, printLoc,
    redirect_line, CdTarget, Plan, RunMode,
};

fn strings(v: &[&str]) -> Vec<String> {
    v.iter().map(|s| s.to_string()).collect()
}

fn run(program: &str, args: &[&str], feed_input: bool, mode: RunMode) -> Plan {
    Plan::Run { program: program.to_string(), args: strings(args), feed_input, mode }
}

#[test]
fn history_is_numbered_from_one() {
    let h = strings(&["ls", "cd /tmp"]);
    assert_eq!(history_listing(&h), strings(&["1:\tls", "2:\tcd /tmp"]));
    assert_eq!(history_text_of(&h), "1:\tls\n2:\tcd /tmp");
    let many: Vec<String> = (0..12).map(|i| format!("c{}", i)).collect();
    assert_eq!(history_listing(&many)[11], "12:\tc11");
}

#[test]
fn history_text_splits_into_the_listing() {
    let h = strings(&["ls -l", "history", "cat a b"]);
    let text = history_text_of(&h);
    let lines: Vec<String> = text.split('\n').map(|s| s.to_string()).collect();
    assert_eq!(lines, history_listing(&h));
}

#[test]
fn history_shown_or_handed_on() {
    let h = strings(&["history"]);
    assert_eq!(
        matchProcess("history", &vec![], &h, false, false),
        Plan::ShowHistory { lines: strings(&["1:\thistory"]) }
    );
    assert_eq!(
        matchProcess("history", &vec![], &h, true, false),
        Plan::HistoryProcess { text: "1:\thistory".to_string() }
    );
}

#[test]
fn history_with_redirection_goes_through_printf() {
    let h = strings(&["history > out"]);
    assert_eq!(
        matchProcess("history", &strings(&[">", "out"]), &h, false, false),
        Plan::RedirectOut {
            source: Box::new(Plan::HistoryProcess { text: "1:\thistory > out".to_string() }),
            feed_input: false,
            path: "out".to_string(),
        }
    );
}

#[test]
fn cd_takes_its_first_argument_or_a_blank() {
    let h = Vec::new();
    assert_eq!(matchProcess("cd", &vec![], &h, false, false), Plan::ChangeDir { dir: " ".to_string() });
    assert_eq!(
        matchProcess("cd", &strings(&["/tmp", "x"]), &h, false, false),
        Plan::ChangeDir { dir: "/tmp".to_string() }
    );
    assert_eq!(
        matchProcess("cd", &strings(&["a", "|", "b"]), &h, false, false),
        Plan::ChangeDir { dir: "a".to_string() }
    );
}

#[test]
fn plain_commands() {
    let h = Vec::new();
    assert_eq!(matchProcess("ls", &strings(&["-l"]), &h, false, false), run("ls", &["-l"], false, RunMode::Wait));
    assert_eq!(matchProcess("ls", &strings(&["-l"]), &h, true, false), run("ls", &["-l"], false, RunMode::HandOn));
    assert_eq!(matchProcess("ls", &strings(&["-l"]), &h, true, true), run("ls", &["-l"], true, RunMode::HandOn));
    assert_eq!(matchProcess("wc", &vec![], &h, false, true), run("wc", &[], true, RunMode::Print));
}

#[test]
fn pipes_split_at_the_first_bar() {
    let h = Vec::new();
    let argv = strings(&["-l", "|", "grep", "x", "|", "wc"]);
    assert_eq!(
        matchProcess("ls", &argv, &h, false, false),
        Plan::Pipe {
            left: Box::new(run("ls", &["-l"], false, RunMode::HandOn)),
            right: Box::new(Plan::Pipe {
                left: Box::new(run("grep", &["x"], true, RunMode::HandOn)),
                right: Box::new(run("wc", &[], true, RunMode::Print)),
            }),
        }
    );
}

#[test]
fn output_redirection() {
    let h = Vec::new();
    assert_eq!(
        matchProcess("ls", &strings(&["-l", ">", "out", "extra"]), &h, false, true),
        Plan::RedirectOut {
            source: Box::new(run("ls", &["-l"], false, RunMode::HandOn)),
            feed_input: true,
            path: "out".to_string(),
        }
    );
}

#[test]
fn input_redirection_passes_the_file_as_argument() {
    let h = Vec::new();
    assert_eq!(
        matchProcess("sort", &strings(&["-r", "<", "in", "ignored"]), &h, false, true),
        run("sort", &["-r", "in"], false, RunMode::Wait)
    );
    assert_eq!(
        matchProcess("sort", &strings(&["<", "in"]), &h, true, false),
        run("sort", &["in"], false, RunMode::HandOn)
    );
}

#[test]
fn redirection_inside_a_pipe() {
    let h = Vec::new();
    assert_eq!(
        matchProcess("cat", &strings(&["<", "a", "|", "sort", ">", "b"]), &h, false, false),
        Plan::Pipe {
            left: Box::new(run("cat", &["a"], false, RunMode::HandOn)),
            right: Box::new(Plan::RedirectOut {
                source: Box::new(run("sort", &[], false, RunMode::HandOn)),
                feed_input: true,
                path: "b".to_string(),
            }),
        }
    );
}

#[test]
fn cd_targets() {
    assert_eq!(cd_target("..", "/home/u"), CdTarget::Parent);
    assert_eq!(cd_target("../x", "/home/u"), CdTarget::Parent);
    assert_eq!(cd_target(".", "/home/u"), CdTarget::Dir("/home/u".to_string()));
    assert_eq!(cd_target("./x", "/home/u"), CdTarget::Dir("/home/u".to_string()));
    assert_eq!(cd_target("/tmp", "/home/u"), CdTarget::Dir("/tmp".to_string()));
    assert_eq!(cd_target(" ", "/home/u"), CdTarget::Home);
    assert_eq!(cd_target("src", "/home/u"), CdTarget::Dir("/home/u/src".to_string()));
}

#[test]
fn messages_and_report() {
    assert_eq!(no_such_directory("nope"), "no such directory: nope");
    assert_eq!(redirect_line("abc"), "abc\r\n");
    assert_eq!(
        printLoc("pipe", "ls", &strings(&["-l", "x"])),
        strings(&["======START=====", "pipe for program ls", "-l", "x", "======END====="])
    );
}

#[test]
fn commands_that_cannot_be_carried_out() {
    let h = Vec::new();
    assert_eq!(plan_command("ls", &strings(&["|"]), &h, false, false), None);
    assert_eq!(plan_command("ls", &strings(&["-l", ">"]), &h, false, false), None);
    assert_eq!(plan_command("sort", &strings(&["<"]), &h, false, false), None);
    assert_eq!(plan_command("a", &strings(&["|", "b", ">"]), &h, false, false), None);
    assert_eq!(plan_command("a", &strings(&[">", "f", "|", "b"]), &h, false, false),
        Some(Plan::Pipe {
            left: Box::new(Plan::RedirectOut {
                source: Box::new(run("a", &[], false, RunMode::HandOn)),
                feed_input: false,
                path: "f".to_string(),
            }),
            right: Box::new(run("b", &[], true, RunMode::Print)),
        }));
    assert_eq!(plan_command("cd", &strings(&[""]), &h, false, false), None);
    assert_eq!(
        plan_command("cat", &strings(&["x"]), &h, false, false),
        Some(matchProcess("cat", &strings(&["x"]), &h, false, false))
    );
}
