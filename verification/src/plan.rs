//! What the shell does with one command: the plan that `matchProcess`
//! draws up from a program name, its arguments and the history, and the
//! texts that the shell prints.

use vstd::prelude::*;
use crate::text::{
    copy_range, decimal, decimal_string, find_word, first_index, join, joined,
    lemma_decimal_digits, lemma_first_index, lemma_split_joined, split_char, str_eq, strs,
};

verus! {

/// How an external program of a plan is run.
#[derive(Clone, Copy, Debug, PartialEq, Eq, Structural)]
pub enum RunMode {
    /// Start it and hand its output on to whoever asked for the plan.
    HandOn,
    /// Run it with the console as its output and wait for it.
    Wait,
    /// Run it, collect its output lines and print each on the console.
    Print,
}

/// What one command of the shell comes to.
#[derive(Debug, PartialEq, Eq)]
pub enum Plan {
    /// Print these lines (the numbered history) on the console.
    ShowHistory { lines: Vec<String> },
    /// Start `printf` with this one argument (the numbered history) and
    /// hand its output on.
    HistoryProcess { text: String },
    /// Change the working directory as `cd` with this argument does.
    ChangeDir { dir: String },
    /// Carry out `left` with its output handed on, collect that output's
    /// lines, and carry out `right` with them as its input.
    Pipe { left: Box<Plan>, right: Box<Plan> },
    /// Carry out `source` with its output handed on; if `feed_input`, first
    /// write the input lines to it; write each line of its output to the
    /// file at `path`.
    RedirectOut { source: Box<Plan>, feed_input: bool, path: String },
    /// Run `program` with `args`; if `feed_input`, write the input lines to
    /// its standard input first.
    Run { program: String, args: Vec<String>, feed_input: bool, mode: RunMode },
}

/// The mathematical value of a [`Plan`].
pub enum PlanV {
    ShowHistory { lines: Seq<Seq<char>> },
    HistoryProcess { text: Seq<char> },
    ChangeDir { dir: Seq<char> },
    Pipe { left: Box<PlanV>, right: Box<PlanV> },
    RedirectOut { source: Box<PlanV>, feed_input: bool, path: Seq<char> },
    Run { program: Seq<char>, args: Seq<Seq<char>>, feed_input: bool, mode: RunMode },
}

impl Plan {
    pub open spec fn value(&self) -> PlanV
        decreases self,
    {
        match self {
            Plan::ShowHistory { lines } => PlanV::ShowHistory { lines: strs(lines@) },
            Plan::HistoryProcess { text } => PlanV::HistoryProcess { text: text@ },
            Plan::ChangeDir { dir } => PlanV::ChangeDir { dir: dir@ },
            Plan::Pipe { left, right } => PlanV::Pipe {
                left: Box::new(left.value()),
                right: Box::new(right.value()),
            },
            Plan::RedirectOut { source, feed_input, path } => PlanV::RedirectOut {
                source: Box::new(source.value()),
                feed_input: *feed_input,
                path: path@,
            },
            Plan::Run { program, args, feed_input, mode } => PlanV::Run {
                program: program@,
                args: strs(args@),
                feed_input: *feed_input,
                mode: *mode,
            },
        }
    }
}

impl View for Plan {
    type V = PlanV;

    open spec fn view(&self) -> PlanV {
        self.value()
    }
}

/// Line `i` of the numbered history: its number (counted from 1), a colon,
/// a tab and the command.
pub open spec fn history_line(hist: Seq<Seq<char>>, i: int) -> Seq<char> {
    decimal((i + 1) as nat) + ":\t"@ + hist[i]
}

/// The numbered history, one line per command.
pub open spec fn history_lines(hist: Seq<Seq<char>>) -> Seq<Seq<char>> {
    Seq::new(hist.len(), |i: int| history_line(hist, i))
}

/// The numbered history as one text, its lines separated by newlines.
pub open spec fn history_text(hist: Seq<Seq<char>>) -> Seq<char> {
    joined(history_lines(hist), "\n"@)
}

/// What `history` hands on through a pipe or a redirection falls apart,
/// at its newlines, into the very lines that `history` prints on the
/// console (for a non-empty history of commands without newlines).
pub proof fn lemma_history_text_splits_into_lines(hist: Seq<Seq<char>>)
    requires
        hist.len() > 0,
        forall|i: int| 0 <= i < hist.len() ==> !(#[trigger] hist[i]).contains('\n'),
    ensures
        split_char(history_text(hist), '\n') == history_lines(hist),
{
    let ls = history_lines(hist);
    assert forall|i: int| 0 <= i < ls.len() implies !(#[trigger] ls[i]).contains('\n') by {
        let d = decimal((i + 1) as nat);
        lemma_decimal_digits((i + 1) as nat);
        reveal_strlit(":\t");
        let line = d + ":\t"@ + hist[i];
        assert(ls[i] == line);
        if line.contains('\n') {
            let k = choose|k: int| 0 <= k < line.len() && line[k] == '\n';
            if k < d.len() {
                assert(line[k] == d[k]);
            } else if k < d.len() + 2 {
                assert(line[k] == ":\t"@[k - d.len()]);
            } else {
                assert(line[k] == hist[i][k - d.len() - 2]);
                assert(hist[i].contains('\n'));
            }
        }
    }
    reveal_strlit("\n");
    assert("\n"@ =~= seq!['\n']);
    lemma_split_joined(ls, '\n');
}

/// The numbered history, one line per command.
pub fn history_listing(user_history: &Vec<String>) -> (lines: Vec<String>)
    ensures
        strs(lines@) == history_lines(strs(user_history@)),
{
    let mut lines: Vec<String> = Vec::new();
    let mut i: usize = 0;
    while i < user_history.len()
        invariant
            i <= user_history.len(),
            strs(lines@) == history_lines(strs(user_history@)).take(i as int),
        decreases user_history.len() - i,
    {
        let mut line = decimal_string((i + 1) as u64);
        line.append(":\t");
        line.append(user_history[i].as_str());
        let ghost old_lines = lines@;
        lines.push(line);
        assert(strs(lines@) =~= strs(old_lines).push(line@));
        assert(history_lines(strs(user_history@)).take(i + 1) =~= history_lines(
            strs(user_history@),
        ).take(i as int).push(history_line(strs(user_history@), i as int)));
        i = i + 1;
    }
    assert(history_lines(strs(user_history@)).take(i as int) =~= history_lines(
        strs(user_history@),
    ));
    lines
}

/// The numbered history as one text, its lines separated by newlines.
pub fn history_text_of(user_history: &Vec<String>) -> (text: String)
    ensures
        text@ == history_text(strs(user_history@)),
{
    let lines = history_listing(user_history);
    join(&lines, "\n")
}


/// The plan for `program` with arguments `argv`, given the history `hist`,
/// whether its output is to be handed on (`ret`) and whether it gets input
/// lines (`inp`); `None` where the command cannot be carried out (a `|`,
/// `>` or `<` with nothing after it, or `cd` with an empty argument).
///
/// `history` with none of `>`, `|`, `<` among its arguments shows the
/// numbered history; `cd` changes directory; otherwise the first `|` splits
/// the command into a pipe, else the first `>` sends the output of what
/// precedes it to a file, else the first `<` hands the word after it to the
/// program as its last argument; a plain program is run.
pub open spec fn planned(
    program: Seq<char>,
    argv: Seq<Seq<char>>,
    hist: Seq<Seq<char>>,
    ret: bool,
    inp: bool,
) -> Option<PlanV>
    decreases argv.len(),
{
    if program == "history"@ && !argv.contains(">"@) && !argv.contains("|"@) && !argv.contains(
        "<"@,
    ) {
        if ret {
            Some(PlanV::HistoryProcess { text: history_text(hist) })
        } else {
            Some(PlanV::ShowHistory { lines: history_lines(hist) })
        }
    } else if program == "cd"@ {
        if argv.len() == 0 {
            Some(PlanV::ChangeDir { dir: " "@ })
        } else if argv[0].len() == 0 {
            None
        } else {
            Some(PlanV::ChangeDir { dir: argv[0] })
        }
    } else if argv.contains("|"@) {
        let p = first_index(argv, "|"@);
        if 0 <= p && p + 1 < argv.len() {
            match (
                planned(program, argv.take(p), hist, true, inp),
                planned(argv[p + 1], argv.skip(p + 2), hist, false, true),
            ) {
                (Some(left), Some(right)) => Some(
                    PlanV::Pipe { left: Box::new(left), right: Box::new(right) },
                ),
                _ => None,
            }
        } else {
            None
        }
    } else if argv.contains(">"@) {
        let p = first_index(argv, ">"@);
        if 0 <= p && p + 1 < argv.len() {
            match planned(program, argv.take(p), hist, true, false) {
                Some(source) => Some(
                    PlanV::RedirectOut { source: Box::new(source), feed_input: inp, path: argv[p + 1] },
                ),
                None => None,
            }
        } else {
            None
        }
    } else if argv.contains("<"@) {
        let p = first_index(argv, "<"@);
        if 0 <= p && p + 1 < argv.len() {
            Some(
                PlanV::Run {
                    program,
                    args: argv.take(p).push(argv[p + 1]),
                    feed_input: false,
                    mode: if ret { RunMode::HandOn } else { RunMode::Wait },
                },
            )
        } else {
            None
        }
    } else if ret {
        Some(PlanV::Run { program, args: argv, feed_input: inp, mode: RunMode::HandOn })
    } else if inp {
        Some(PlanV::Run { program, args: argv, feed_input: true, mode: RunMode::Print })
    } else {
        Some(PlanV::Run { program, args: argv, feed_input: false, mode: RunMode::Wait })
    }
}

/// In a command without `|` (other than `cd`), the first `>` with a word
/// after it sends to the file that word names the output of what stands
/// before the `>`, planned with its output handed on and without input:
/// `>` is taken before any `<` among the words before it, and input lines of
/// a pipe go to that source.
pub proof fn lemma_output_redirection(
    program: Seq<char>,
    argv: Seq<Seq<char>>,
    hist: Seq<Seq<char>>,
    ret: bool,
    inp: bool,
    p: int,
)
    requires
        program != "cd"@,
        !argv.contains("|"@),
        0 <= p,
        p + 1 < argv.len(),
        argv[p] == ">"@,
        forall|j: int| 0 <= j < p ==> argv[j] != ">"@,
    ensures
        planned(program, argv, hist, ret, inp) == match planned(
            program,
            argv.take(p),
            hist,
            true,
            false,
        ) {
            Some(source) => Some(
                PlanV::RedirectOut { source: Box::new(source), feed_input: inp, path: argv[p + 1] },
            ),
            None => None::<PlanV>,
        },
{
    assert(argv.contains(">"@));
    lemma_first_index(argv, ">"@, p);
}

/// In a command without `|` or `>` (other than `cd`), the first `<` with a
/// word after it runs the program with the words before the `<` and that
/// word as its arguments, without input lines, its output handed on where
/// that is asked for and on the console otherwise.
pub proof fn lemma_input_redirection(
    program: Seq<char>,
    argv: Seq<Seq<char>>,
    hist: Seq<Seq<char>>,
    ret: bool,
    inp: bool,
    q: int,
)
    requires
        program != "cd"@,
        !argv.contains("|"@),
        !argv.contains(">"@),
        0 <= q,
        q + 1 < argv.len(),
        argv[q] == "<"@,
        forall|j: int| 0 <= j < q ==> argv[j] != "<"@,
    ensures
        planned(program, argv, hist, ret, inp) == Some(
            PlanV::Run {
                program,
                args: argv.take(q).push(argv[q + 1]),
                feed_input: false,
                mode: if ret { RunMode::HandOn } else { RunMode::Wait },
            },
        ),
{
    assert(argv.contains("<"@));
    lemma_first_index(argv, "<"@, q);
}

/// The plan for `program` with arguments `argv` (see [`planned`]), or
/// `None` where the command cannot be carried out.
pub fn plan_command(
    program: &str,
    argv: &Vec<String>,
    user_history: &Vec<String>,
    ret: bool,
    inp: bool,
) -> (plan: Option<Plan>)
    ensures
        plan matches Some(p) ==> planned(program@, strs(argv@), strs(user_history@), ret, inp) == Some(p@),
        plan is None ==> planned(program@, strs(argv@), strs(user_history@), ret, inp) is None,
    decreases argv@.len(),
{
    let ghost args = strs(argv@);
    let gt = find_word(argv, ">");
    let pipe = find_word(argv, "|");
    let lt = find_word(argv, "<");
    if str_eq(program, "history") && gt.is_none() && pipe.is_none() && lt.is_none() {
        if ret {
            Some(Plan::HistoryProcess { text: history_text_of(user_history) })
        } else {
            Some(Plan::ShowHistory { lines: history_listing(user_history) })
        }
    } else if str_eq(program, "cd") {
        if argv.len() == 0 {
            Some(Plan::ChangeDir { dir: String::from_str(" ") })
        } else if argv[0].unicode_len() == 0 {
            assert(args[0] == argv@[0]@);
            None
        } else {
            assert(args[0] == argv@[0]@);
            Some(Plan::ChangeDir { dir: argv[0].clone() })
        }
    } else if let Some(p) = pipe {
        proof {
            lemma_first_index(args, "|"@, p as int);
        }
        if p + 1 >= argv.len() {
            return None;
        }
        let left = copy_range(argv, 0, p);
        let next = argv[p + 1].clone();
        let rest = copy_range(argv, p + 2, argv.len());
        assert(strs(left@) == args.take(p as int));
        assert(strs(rest@) == args.skip(p + 2));
        assert(next@ == args[p + 1]);
        assert(left@.len() == strs(left@).len());
        assert(rest@.len() == strs(rest@).len());
        let lp = plan_command(program, &left, user_history, true, inp);
        let rp = plan_command(next.as_str(), &rest, user_history, false, true);
        match (lp, rp) {
            (Some(l), Some(r)) => Some(Plan::Pipe { left: Box::new(l), right: Box::new(r) }),
            _ => None,
        }
    } else if let Some(p) = gt {
        proof {
            lemma_first_index(args, ">"@, p as int);
        }
        if p + 1 >= argv.len() {
            return None;
        }
        let left = copy_range(argv, 0, p);
        assert(strs(left@) == args.take(p as int));
        assert(argv@[p + 1]@ == args[p + 1]);
        assert(left@.len() == strs(left@).len());
        match plan_command(program, &left, user_history, true, false) {
            Some(source) => Some(
                Plan::RedirectOut {
                    source: Box::new(source),
                    feed_input: inp,
                    path: argv[p + 1].clone(),
                },
            ),
            None => None,
        }
    } else if let Some(p) = lt {
        proof {
            lemma_first_index(args, "<"@, p as int);
        }
        if p + 1 >= argv.len() {
            return None;
        }
        let mut run_args = copy_range(argv, 0, p);
        run_args.push(argv[p + 1].clone());
        assert(strs(run_args@) =~= args.take(p as int).push(args[p + 1]));
        Some(
            Plan::Run {
                program: String::from_str(program),
                args: run_args,
                feed_input: false,
                mode: if ret { RunMode::HandOn } else { RunMode::Wait },
            },
        )
    } else {
        let all = copy_range(argv, 0, argv.len());
        assert(strs(all@) =~= args);
        let mode = if ret { RunMode::HandOn } else if inp { RunMode::Print } else { RunMode::Wait };
        Some(Plan::Run { program: String::from_str(program), args: all, feed_input: inp, mode })
    }
}

/// The plan for `program` with arguments `argv` (see [`planned`]):
/// `retWriter` asks for its output to be handed on, `useInput` says that it
/// gets the input lines of a pipe.
#[allow(non_snake_case)]
pub fn matchProcess(
    program: &str,
    argv: &Vec<String>,
    user_history: &Vec<String>,
    retWriter: bool,
    useInput: bool,
) -> (plan: Plan)
    requires
        planned(program@, strs(argv@), strs(user_history@), retWriter, useInput) is Some,
    ensures
        planned(program@, strs(argv@), strs(user_history@), retWriter, useInput) == Some(plan@),
{
    plan_command(program, argv, user_history, retWriter, useInput).unwrap()
}

/// Where `cd` goes, as far as it is decided by its argument.
#[derive(Debug, PartialEq, Eq)]
pub enum CdTarget {
    /// The parent of the working directory.
    Parent,
    /// The user's home directory.
    Home,
    /// This directory.
    Dir(String),
}

/// The mathematical value of a [`CdTarget`].
pub enum CdDest {
    Parent,
    Home,
    Dir(Seq<char>),
}

impl View for CdTarget {
    type V = CdDest;

    open spec fn view(&self) -> CdDest {
        match self {
            CdTarget::Parent => CdDest::Parent,
            CdTarget::Home => CdDest::Home,
            CdTarget::Dir(d) => CdDest::Dir(d@),
        }
    }
}

/// Where `cd user_path` goes from the working directory `cwd`: an argument
/// that starts with `..` goes to the parent, one that starts with any other
/// `.` stays, an absolute one is taken as it is, a blank one goes home, and
/// any other is taken relative to `cwd`.
pub open spec fn cd_dest(user_path: Seq<char>, cwd: Seq<char>) -> CdDest {
    if user_path[0] == '.' {
        if user_path.len() > 1 && user_path[1] == '.' {
            CdDest::Parent
        } else {
            CdDest::Dir(cwd)
        }
    } else if user_path[0] == '/' {
        CdDest::Dir(user_path)
    } else if user_path[0] == ' ' {
        CdDest::Home
    } else {
        CdDest::Dir(cwd + "/"@ + user_path)
    }
}

/// Where `cd user_path` goes from the working directory `cwd`.
pub fn cd_target(user_path: &str, cwd: &str) -> (t: CdTarget)
    requires
        user_path@.len() > 0,
    ensures
        t@ == cd_dest(user_path@, cwd@),
{
    let first = user_path.get_char(0);
    if first == '.' {
        if user_path.unicode_len() > 1 && user_path.get_char(1) == '.' {
            CdTarget::Parent
        } else {
            CdTarget::Dir(String::from_str(cwd))
        }
    } else if first == '/' {
        CdTarget::Dir(String::from_str(user_path))
    } else if first == ' ' {
        CdTarget::Home
    } else {
        let mut d = String::from_str(cwd);
        d.append("/");
        d.append(user_path);
        CdTarget::Dir(d)
    }
}

/// The message `cd` prints for a directory that does not exist.
pub fn no_such_directory(user_path: &str) -> (msg: String)
    ensures
        msg@ == "no such directory: "@ + user_path@,
{
    let mut msg = String::from_str("no such directory: ");
    msg.append(user_path);
    msg
}

/// The lines of the debugging report on a program and its arguments.
pub open spec fn loc_report(
    description: Seq<char>,
    program: Seq<char>,
    argv: Seq<Seq<char>>,
) -> Seq<Seq<char>> {
    seq!["======START====="@, description + " for program "@ + program] + argv + seq![
        "======END====="@,
    ]
}

/// The lines of the debugging report on `program` and its arguments `argv`.
#[allow(non_snake_case)]
pub fn printLoc(description: &str, program: &str, argv: &Vec<String>) -> (lines: Vec<String>)
    ensures
        strs(lines@) == loc_report(description@, program@, strs(argv@)),
{
    let mut lines: Vec<String> = Vec::new();
    lines.push(String::from_str("======START====="));
    let mut head = String::from_str(description);
    head.append(" for program ");
    head.append(program);
    lines.push(head);
    let mut i: usize = 0;
    assert(strs(lines@) =~= loc_report(description@, program@, strs(argv@)).take(2));
    while i < argv.len()
        invariant
            i <= argv.len(),
            strs(lines@) == loc_report(description@, program@, strs(argv@)).take(i + 2),
        decreases argv.len() - i,
    {
        let ghost old_lines = lines@;
        lines.push(argv[i].clone());
        assert(strs(lines@) =~= strs(old_lines).push(argv@[i as int]@));
        assert(loc_report(description@, program@, strs(argv@)).take(i + 3) =~= loc_report(
            description@,
            program@,
            strs(argv@),
        ).take(i + 2).push(argv@[i as int]@));
        i = i + 1;
    }
    let ghost old_lines = lines@;
    lines.push(String::from_str("======END====="));
    assert(strs(lines@) =~= strs(old_lines).push("======END====="@));
    assert(strs(lines@) =~= loc_report(description@, program@, strs(argv@)));
    lines
}

/// What is written to a file for one line of output sent there with `>`:
/// the line and a carriage return and line feed.
pub fn redirect_line(line: &str) -> (out: String)
    ensures
        out@ == line@ + "\r\n"@,
{
    let mut out = String::from_str(line);
    out.append("\r\n");
    out
}

} // verus!
