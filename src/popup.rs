//! The modal popups of the session and how each handles a key.

use vstd::prelude::*;
use crate::command::{
    Command, CommandHandler, command_lines, command_strings, script, script_text, strs_view,
};
use crate::text::{join2, owned};
use crate::widgets::{Action, CommandType, Key, is_down, is_up};

verus! {

/// Relies on `String::push`: appends one character.
#[verifier::external_body]
fn push_char(s: &mut String, c: char)
    ensures
        final(s)@ == old(s)@.push(c),
{
    s.push(c);
}

/// Relies on `String::pop`: removes and returns the last character, `None`
/// for an empty string.
#[verifier::external_body]
fn pop_char(s: &mut String) -> (r: Option<char>)
    ensures
        old(s)@.len() == 0 ==> r is None && final(s)@ == old(s)@,
        old(s)@.len() > 0 ==> r == Some(old(s)@.last()) && final(s)@ == old(s)@.drop_last(),
{
    s.pop()
}

/// The largest scroll offset of a text view.
pub const MAX_SCROLL: u16 = 1000;

/// The path the command script is saved to.
pub const SCRIPT_FILE: &'static str = "mtx_commands.sh";

/// A preview of the commands that would apply an edit.
pub struct CommandPopup {
    pub commands: Vec<Command>,
    pub command_strings: Vec<String>,
    pub scroll: u16,
}

pub open spec fn scrolled(scroll: u16, key: Key) -> u16 {
    if is_up(key) {
        if scroll > 0 {
            (scroll - 1) as u16
        } else {
            scroll
        }
    } else if is_down(key) {
        if scroll < MAX_SCROLL {
            (scroll + 1) as u16
        } else {
            scroll
        }
    } else {
        scroll
    }
}

fn scroll_by(scroll: u16, key: Key) -> (r: u16)
    ensures
        r == scrolled(scroll, key),
{
    if key == Key::Up || key == Key::Char('k') {
        if scroll > 0 {
            scroll - 1
        } else {
            scroll
        }
    } else if key == Key::Down || key == Key::Char('j') {
        if scroll < MAX_SCROLL {
            scroll + 1
        } else {
            scroll
        }
    } else {
        scroll
    }
}

fn copy_commands(commands: &Vec<Command>) -> (r: Vec<Command>)
    ensures
        r@.len() == commands@.len(),
        forall|k: int|
            0 <= k < r@.len() ==> (#[trigger] r@[k]).executable@ == commands@[k].executable@
                && r@[k].args_view() == commands@[k].args_view() && r@[k].output
                == commands@[k].output,
{
    let mut r: Vec<Command> = Vec::new();
    let mut k: usize = 0;
    while k < commands.len()
        invariant
            k <= commands@.len(),
            r@.len() == k,
            forall|j: int|
                0 <= j < k ==> (#[trigger] r@[j]).executable@ == commands@[j].executable@
                    && r@[j].args_view() == commands@[j].args_view() && r@[j].output
                    == commands@[j].output,
        decreases commands.len() - k,
    {
        r.push(commands[k].copy());
        k = k + 1;
    }
    r
}

impl CommandPopup {
    /// A preview of `commands`, listing the shell line of each that has arguments.
    pub fn new(commands: Vec<Command>) -> (r: CommandPopup)
        ensures
            r.commands == commands,
            strs_view(r.command_strings@) == command_lines(commands@),
            r.scroll == 0,
    {
        let command_strings = command_strings(commands.as_slice());
        CommandPopup { commands, command_strings, scroll: 0 }
    }

    /// Up and down scroll; F2 runs the commands; enter saves them as a
    /// script; escape closes the preview.
    pub fn process_key(&mut self, key: Key) -> (r: Action)
        ensures
            final(self).commands == old(self).commands,
            final(self).command_strings == old(self).command_strings,
            final(self).scroll == scrolled(old(self).scroll, key),
            key == Key::F(2) ==> (r matches Action::RunCommands(t, c) && t == CommandType::AlterFiles
                && c@.len() == old(self).commands@.len() && forall|k: int|
                0 <= k < c@.len() ==> (#[trigger] c@[k]).args_view() == old(
                    self,
                ).commands@[k].args_view() && c@[k].executable@ == old(self).commands@[k].executable@),
            key == Key::Esc ==> r is ClosePopup,
            key == Key::Enter ==> (r matches Action::SaveScript(text) && text@ == script(
                strs_view(old(self).command_strings@),
            )),
            key != Key::F(2) && key != Key::Esc && key != Key::Enter ==> r is Pass,
    {
        self.scroll = scroll_by(self.scroll, key);
        if key == Key::F(2) {
            return Action::RunCommands(CommandType::AlterFiles, copy_commands(&self.commands));
        }
        if key == Key::Esc {
            return Action::ClosePopup;
        }
        if key == Key::Enter {
            return Action::SaveScript(script_text(self.command_strings.as_slice()));
        }
        Action::Pass
    }
}

/// The text of an input after a key.
pub open spec fn edited_text(text: Seq<char>, key: Key) -> Seq<char> {
    match key {
        Key::Char(c) => text.push(c),
        Key::Backspace => if text.len() > 0 {
            text.drop_last()
        } else {
            text
        },
        _ => text,
    }
}

/// A one-line text input.
pub struct EditPopup {
    pub input: String,
}

impl EditPopup {
    /// Enter hands back the text, escape gives up, backspace deletes the last
    /// character, any other character is typed.
    pub fn process_key(&mut self, key: Key) -> (r: Action)
        ensures
            final(self).input@ == edited_text(old(self).input@, key),
            key == Key::Esc ==> r == Action::EditStringResult(None) && final(self).input@ == old(self).input@,
            key == Key::Enter ==> (r matches Action::EditStringResult(Some(t)) && t@ == old(self).input@
                && final(self).input@ == old(self).input@),
            key == Key::Backspace ==> r is Pass && final(self).input@ == if old(self).input@.len() > 0 {
                old(self).input@.drop_last()
            } else {
                old(self).input@
            },
            key matches Key::Char(c) ==> r is Pass && final(self).input@ == old(self).input@.push(c),
            !(key == Key::Esc || key == Key::Enter || key == Key::Backspace || key is Char) ==> r is Pass
                && final(self).input@ == old(self).input@,
    {
        match key {
            Key::Esc => Action::EditStringResult(None),
            Key::Enter => Action::EditStringResult(Some(self.input.clone())),
            Key::Backspace => {
                pop_char(&mut self.input);
                Action::Pass
            },
            Key::Char(c) => {
                push_char(&mut self.input, c);
                Action::Pass
            },
            _ => Action::Pass,
        }
    }
}

/// A message that the user acknowledges.
pub struct MessagePopup {
    pub message: String,
}

impl MessagePopup {
    pub fn process_key(&self, key: Key) -> (r: Action)
        ensures
            key == Key::Esc || key == Key::Enter ==> r is ClosePopup,
            !(key == Key::Esc || key == Key::Enter) ==> r is Pass,
    {
        if key == Key::Esc || key == Key::Enter {
            Action::ClosePopup
        } else {
            Action::Pass
        }
    }
}

/// One line of a batch's log, and whether it reports a problem.
pub struct LogLine {
    pub text: String,
    pub error: bool,
}

/// A batch of commands being run: the progress of it, and once it is done
/// the log, the commands that ran, and whether anything failed.
pub struct CommandRunnerPopup {
    /// The commands still to be handed to a runner.
    pub pending: Option<Vec<Command>>,
    pub command_handler: Option<CommandHandler>,
    pub command_type: CommandType,
    pub title: String,
    pub scroll: u16,
    pub results: Option<Vec<Command>>,
    pub log: Vec<LogLine>,
    pub error: bool,
    pub auto_close: bool,
}

/// Whether a batch's outcomes hold a failure: an outcome that is an error,
/// or a command that ran without success.
pub open spec fn has_failure(outcomes: Seq<Result<Command, String>>) -> bool {
    exists|k: int| 0 <= k < outcomes.len() && is_failure(#[trigger] outcomes[k])
}

/// An outcome is a failure when the command could not be started, or ran
/// without success.
pub open spec fn is_failure(outcome: Result<Command, String>) -> bool {
    match outcome {
        Err(_) => true,
        Ok(c) => !(c.output matches Some(o) && o.success_spec()),
    }
}

proof fn lemma_failure_push(p: Seq<Result<Command, String>>, x: Result<Command, String>)
    ensures
        has_failure(p.push(x)) == (has_failure(p) || is_failure(x)),
{
    let q = p.push(x);
    if has_failure(p) {
        let k = choose|k: int| 0 <= k < p.len() && is_failure(#[trigger] p[k]);
        assert(q[k] == p[k]);
    }
    if is_failure(x) {
        assert(q[p.len() as int] == x);
    }
    if has_failure(q) {
        let k = choose|k: int| 0 <= k < q.len() && is_failure(#[trigger] q[k]);
        if k < p.len() {
            assert(q[k] == p[k]);
        }
    }
}

/// The commands of the outcomes before the first error, in order.
pub open spec fn ran_before_error(outcomes: Seq<Result<Command, String>>) -> Seq<Command>
    decreases outcomes.len(),
{
    if outcomes.len() == 0 {
        Seq::empty()
    } else {
        match outcomes[0] {
            Ok(c) => seq![c] + ran_before_error(outcomes.drop_first()),
            Err(_) => Seq::empty(),
        }
    }
}

fn log_line(text: String, error: bool) -> (r: LogLine)
    ensures
        r.text@ == text@,
        r.error == error,
{
    LogLine { text, error }
}

impl CommandRunnerPopup {
    /// A popup for running `commands`, not yet handed to a runner.
    pub fn new(commands: Vec<Command>, command_type: CommandType, title: String) -> (r: Self)
        ensures
            r.pending == Some(commands),
            r.command_handler is None,
            r.command_type == command_type,
            r.title == title,
            r.results is None,
            !r.error,
            !r.auto_close,
    {
        CommandRunnerPopup {
            pending: Some(commands),
            command_handler: None,
            command_type,
            title,
            scroll: 0,
            results: None,
            log: Vec::new(),
            error: false,
            auto_close: false,
        }
    }

    /// Takes the commands to hand to a runner, once; the popup then tracks a
    /// batch of that many.
    pub fn take_pending(&mut self) -> (r: Option<Vec<Command>>)
        ensures
            r == old(self).pending,
            final(self).pending is None,
            r matches Some(c) ==> final(self).command_handler matches Some(h) && h.wf()
                && h.num_commands == c@.len() && h.done_commands@.len() == 0,
            r is None ==> final(self).command_handler == old(self).command_handler,
            final(self).results == old(self).results,
            final(self).error == old(self).error,
            final(self).auto_close == old(self).auto_close,
            final(self).command_type == old(self).command_type,
    {
        let pending = self.pending.take();
        match pending {
            Some(commands) => {
                self.command_handler = Some(CommandHandler::new(commands.len()));
                Some(commands)
            },
            None => None,
        }
    }

    /// Takes in all outcomes of the batch: logs each, keeps the commands that
    /// ran up to the first one that could not be started, and closes by
    /// itself only when nothing failed.
    pub fn finish(&mut self, outcomes: Vec<Result<Command, String>>)
        ensures
            final(self).error == (old(self).error || has_failure(outcomes@)),
            final(self).results matches Some(done) && done@ == ran_before_error(outcomes@),
            final(self).auto_close == (old(self).auto_close || !final(self).error),
            final(self).command_handler is None,
            final(self).command_type == old(self).command_type,
    {
        self.command_handler = None;
        self.scroll = 0;
        let mut done: Vec<Command> = Vec::new();
        let mut remaining = outcomes;
        let ghost all = remaining@;
        let ghost mut prefix: Seq<Result<Command, String>> = Seq::empty();
        let ghost start_error = self.error;
        while remaining.len() > 0
            invariant
                all == prefix + remaining@,
                all == outcomes@,
                self.error == (start_error || has_failure(prefix)),
                ran_before_error(all) == done@ + ran_before_error(remaining@),
                self.command_type == old(self).command_type,
                self.command_handler is None,
                self.auto_close == old(self).auto_close,
            decreases remaining@.len(),
        {
            let ghost rest = remaining@;
            let outcome = remaining.remove(0);
            assert(rest.drop_first() == remaining@);
            proof {
                lemma_failure_push(prefix, outcome);
                prefix = prefix.push(outcome);
                assert(all == prefix + remaining@);
            }
            match outcome {
                Ok(command) => {
                    let line = match command.to_cmd_string() {
                        Some(l) => l,
                        None => command.executable.clone(),
                    };
                    self.log.push(log_line(join2("Command: ", line.as_str()), false));
                    let ok = match &command.output {
                        Some(output) => output.status.success(),
                        None => false,
                    };
                    if !ok {
                        self.error = true;
                        self.log.push(log_line(command.success_string(), true));
                        if let Some(output) = &command.output {
                            if output.stdout.unicode_len() > 0 {
                                self.log.push(log_line(owned("Command output (stdout) is:"), false));
                                self.log.push(log_line(output.stdout.clone(), false));
                            }
                            if output.stderr.unicode_len() > 0 {
                                self.log.push(log_line(owned("Command output (stderr) is:"), false));
                                self.log.push(log_line(output.stderr.clone(), false));
                            }
                        }
                    } else {
                        self.log.push(log_line(command.success_string(), false));
                    }
                    self.log.push(log_line(String::new(), false));
                    proof {
                        assert(rest[0] == outcome);
                    }
                    done.push(command);
                    assert(ran_before_error(all) =~= done@ + ran_before_error(remaining@));
                },
                Err(err) => {
                    self.log.push(log_line(join2("Failed to execute process: ", err.as_str()), true));
                    self.error = true;
                    proof {
                        let ghost k = prefix.len() - 1;
                        assert(prefix[k] is Err);
                        assert forall|i: int| 0 <= i < prefix.len() implies all[i] == prefix[i] by {
                            assert(all == prefix + remaining@);
                        }
                        lemma_failure_stays(prefix, all);
                        assert(rest[0] == prefix[k]);
                        assert(ran_before_error(rest) == Seq::<Command>::empty());
                    }
                    assert(done@ + Seq::<Command>::empty() =~= done@);
                    assert(done@ == ran_before_error(all));
                    assert(all == outcomes@);
                    assert(has_failure(outcomes@));
                    self.results = Some(done);
                    if !self.error {
                        self.auto_close = true;
                    }
                    return;
                },
            }
        }
        assert(prefix == all);
        assert(done@ + Seq::<Command>::empty() =~= done@);
        self.results = Some(done);
        if !self.error {
            self.auto_close = true;
        }
    }

    /// Once the batch is done without failure, hands its commands on, once.
    pub fn check_auto_close(&mut self) -> (r: Action)
        ensures
            old(self).auto_close && old(self).results is Some ==> (r matches Action::CommandsDone(t, c)
                && t == old(self).command_type && Some(c) == old(self).results) && !final(self).auto_close
                && final(self).results is None,
            !(old(self).auto_close && old(self).results is Some) ==> r is Pass && *final(self)
                == *old(self),
            final(self).error == old(self).error,
            final(self).command_type == old(self).command_type,
            final(self).pending == old(self).pending,
            final(self).command_handler == old(self).command_handler,
    {
        if self.auto_close && self.results.is_some() {
            self.auto_close = false;
            let results = self.results.take().unwrap();
            Action::CommandsDone(self.command_type, results)
        } else {
            Action::Pass
        }
    }

    /// Up and down scroll the log; enter or escape acknowledge a finished
    /// batch. A batch without failure hands its commands on; one with a
    /// failure stops the pipeline.
    pub fn process_key(&mut self, key: Key) -> (r: Action)
        ensures
            final(self).scroll == scrolled(old(self).scroll, key),
            final(self).error == old(self).error,
            final(self).command_type == old(self).command_type,
            final(self).auto_close == old(self).auto_close,
            final(self).command_handler == old(self).command_handler,
            final(self).pending == old(self).pending,
            (key == Key::Esc || key == Key::Enter) && old(self).results is Some && !old(self).error ==> (r matches Action::CommandsDone(t, c)
                && t == old(self).command_type && Some(c) == old(self).results) && final(self).results is None,
            (key == Key::Esc || key == Key::Enter) && old(self).results is Some && old(self).error ==> r
                == Action::CommandsFailed(old(self).command_type) && final(self).results is None,
            !((key == Key::Esc || key == Key::Enter) && old(self).results is Some) ==> r is Pass
                && final(self).results == old(self).results,
    {
        self.scroll = scroll_by(self.scroll, key);
        if (key == Key::Esc || key == Key::Enter) && self.results.is_some() {
            let results = self.results.take().unwrap();
            if self.error {
                return Action::CommandsFailed(self.command_type);
            }
            return Action::CommandsDone(self.command_type, results);
        }
        Action::Pass
    }
}

proof fn lemma_failure_stays(prefix: Seq<Result<Command, String>>, all: Seq<Result<Command, String>>)
    requires
        prefix.len() > 0,
        prefix.last() is Err,
        prefix.len() <= all.len(),
        forall|k: int| 0 <= k < prefix.len() ==> all[k] == prefix[k],
    ensures
        has_failure(prefix),
        has_failure(all),
{
    assert(is_failure(prefix[prefix.len() - 1]));
    assert(is_failure(all[prefix.len() - 1]));
}

} // verus!
