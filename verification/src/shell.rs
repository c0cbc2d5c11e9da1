//! The shell's reading of one input line: blank lines, `exit`, `!!`, the
//! history, and commands sent to the background with a final `&`.

use vstd::prelude::*;
use crate::text::{copy_range, split_char, split_words, str_eq, strs, words};

verus! {

/// A command line that can be run again from the history: it has a first
/// word, and that word is neither `!!` nor `exit`.
pub open spec fn runnable(line: Seq<char>) -> bool {
    words(line).len() > 0 && words(line)[0] != "!!"@ && words(line)[0] != "exit"@
}

/// The command that `line` stands for, given the history `hist`: the last
/// command of the history for a line whose first word is `!!`, else `line`.
pub open spec fn recalled(hist: Seq<Seq<char>>, line: Seq<char>) -> Seq<char> {
    if words(line)[0] == "!!"@ {
        hist.last()
    } else {
        line
    }
}

/// The program of the command line `line`: its first word.
pub open spec fn job_program(line: Seq<char>) -> Seq<char> {
    words(line)[0]
}

/// A command line ends with the word `&` after its program: it runs in the
/// background.
pub open spec fn job_background(line: Seq<char>) -> bool {
    words(line).len() > 1 && words(line).last() == "&"@
}

/// The arguments of the command line `line`: the words after the program,
/// without a final `&` that sends it to the background.
pub open spec fn job_args(line: Seq<char>) -> Seq<Seq<char>> {
    if job_background(line) {
        words(line).subrange(1, words(line).len() - 1)
    } else {
        words(line).skip(1)
    }
}

/// A command to run.
#[derive(Debug, PartialEq, Eq)]
pub struct Job {
    pub program: String,
    pub argv: Vec<String>,
    pub background: bool,
}

impl Job {
    /// This job is the one that the command line `line` describes.
    pub open spec fn describes(&self, line: Seq<char>) -> bool {
        &&& self.program@ == job_program(line)
        &&& strs(self.argv@) == job_args(line)
        &&& self.background == job_background(line)
    }
}

/// What the shell does with one input line.
#[derive(Debug, PartialEq, Eq)]
pub enum LineAction {
    /// Nothing: the line holds no word.
    Nothing,
    /// Leave the shell.
    Exit,
    /// Run this job.
    Run(Job),
}

/// The shell's state between two input lines: the history of the commands
/// it has run, oldest first.
pub struct Shell {
    history: Vec<String>,
}

impl View for Shell {
    type V = Seq<Seq<char>>;

    closed spec fn view(&self) -> Seq<Seq<char>> {
        strs(self.history@)
    }
}

impl Shell {
    /// Every command in the history can be run again.
    pub open spec fn well_formed(&self) -> bool {
        forall|i: int| 0 <= i < self@.len() ==> runnable(#[trigger] self@[i])
    }

    /// A shell with an empty history.
    pub fn new() -> (s: Shell)
        ensures
            s.well_formed(),
            s@ == Seq::<Seq<char>>::empty(),
    {
        let s = Shell { history: Vec::new() };
        assert(s@ =~= Seq::<Seq<char>>::empty());
        s
    }

    /// The commands run so far, oldest first.
    pub fn history(&self) -> (h: &Vec<String>)
        ensures
            strs(h@) == self@,
    {
        &self.history
    }

    /// Takes one input line. A line without words does nothing and one whose
    /// first word is `exit` leaves the shell; both leave the history as it
    /// is. Any other line is a command, where a first word `!!` stands for
    /// the last command of the history: that command is added to the
    /// history and run, in the background where it ends with `&`.
    pub fn accept_line(&mut self, line: &str) -> (action: LineAction)
        requires
            old(self).well_formed(),
            words(line@).len() > 0 && words(line@)[0] == "!!"@ ==> old(self)@.len() > 0,
        ensures
            final(self).well_formed(),
            match action {
                LineAction::Nothing => words(line@).len() == 0 && final(self)@ == old(self)@,
                LineAction::Exit => {
                    &&& words(line@).len() > 0
                    &&& words(line@)[0] == "exit"@
                    &&& final(self)@ == old(self)@
                },
                LineAction::Run(job) => {
                    &&& words(line@).len() > 0
                    &&& words(line@)[0] != "exit"@
                    &&& final(self)@ == old(self)@.push(recalled(old(self)@, line@))
                    &&& job.describes(recalled(old(self)@, line@))
                },
            },
    {
        let ws = split_words(line);
        if ws.len() == 0 {
            return LineAction::Nothing;
        }
        assert(ws@[0]@ == words(line@)[0]);
        if str_eq(ws[0].as_str(), "exit") {
            return LineAction::Exit;
        }
        let ghost hist = self@;
        let cmd_line: String;
        let cmd_words: Vec<String>;
        if str_eq(ws[0].as_str(), "!!") {
            let last = self.history.len() - 1;
            assert(self.history@[last as int]@ == hist.last());
            cmd_line = self.history[last].clone();
            cmd_words = split_words(cmd_line.as_str());
        } else {
            cmd_line = String::from_str(line);
            cmd_words = ws;
        }
        assert(cmd_line@ == recalled(hist, line@));
        assert(runnable(cmd_line@));
        let ghost cmd = cmd_line@;
        self.history.push(cmd_line);
        assert(self@ =~= hist.push(cmd));
        assert forall|i: int| 0 <= i < self@.len() implies runnable(#[trigger] self@[i]) by {
            if i < hist.len() {
                assert(self@[i] == hist[i]);
            }
        }
        let n = cmd_words.len();
        assert(cmd_words@[0]@ == words(cmd)[0]);
        let program = cmd_words[0].clone();
        if n > 1 && str_eq(cmd_words[n - 1].as_str(), "&") {
            assert(cmd_words@[n - 1]@ == words(cmd).last());
            let argv = copy_range(&cmd_words, 1, n - 1);
            LineAction::Run(Job { program, argv, background: true })
        } else {
            assert(n > 1 ==> cmd_words@[n - 1]@ == words(cmd).last());
            let argv = copy_range(&cmd_words, 1, n);
            LineAction::Run(Job { program, argv, background: false })
        }
    }
}

/// `!!` runs the previous command again: after any command line, a line
/// whose first word is `!!` stands for the same command, so that the same
/// job runs once more.
pub proof fn lemma_bang_bang_repeats(hist: Seq<Seq<char>>, line: Seq<char>, bang: Seq<char>)
    requires
        words(line).len() > 0,
        words(line)[0] != "exit"@,
        forall|i: int| 0 <= i < hist.len() ==> runnable(#[trigger] hist[i]),
        words(line)[0] == "!!"@ ==> hist.len() > 0,
        words(bang).len() > 0,
        words(bang)[0] == "!!"@,
    ensures
        recalled(hist.push(recalled(hist, line)), bang) == recalled(hist, line),
        runnable(recalled(hist, line)),
{
    if words(line)[0] == "!!"@ {
        assert(hist[hist.len() - 1] == hist.last());
    }
}

/// A command line followed by ` &` runs the same program with the same
/// arguments, in the background (unless it already ends with a `&` of its
/// own).
pub proof fn lemma_ampersand_backgrounds(line: Seq<char>)
    requires
        words(line).len() > 0,
        !job_background(line),
    ensures
        job_program(line + " &"@) == job_program(line),
        job_args(line + " &"@) == job_args(line),
        job_background(line + " &"@),
{
    reveal_strlit(" &");
    reveal_strlit("&");
    let amp = line + " &"@;
    let e = Seq::<char>::empty();
    assert(amp.drop_last() =~= line.push(' '));
    assert(amp.last() == '&');
    assert(line.push(' ').drop_last() =~= line);
    crate::text::lemma_split_char_nonempty(line, ' ');
    let sl = split_char(line, ' ');
    assert(split_char(line.push(' '), ' ') == sl.push(e));
    assert(split_char(amp, ' ') == sl.push(e).update(sl.len() as int, e.push('&')));
    assert(e.push('&') =~= "&"@);
    assert(split_char(amp, ' ') =~= sl.push("&"@));
    assert(split_char(amp, ' ').drop_last() =~= sl);
    assert(words(amp) == words(line).push("&"@));
    assert(job_args(amp) =~= job_args(line));
}

} // verus!
