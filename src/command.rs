//! External invocations, how they print, and the progress of a batch of them.

use vstd::prelude::*;
use crate::text::{decimal, decimal_string, owned};

verus! {

/// How a finished process ended.
#[derive(Clone, Copy, Debug, PartialEq, Eq, Structural)]
pub enum ExitStatus {
    /// It exited with this code.
    Exited(i32),
    /// A signal with this number ended it.
    Signaled(i32),
}

impl ExitStatus {
    /// Success is exactly an exit code of zero.
    pub fn success(&self) -> (r: bool)
        ensures
            r == (*self == ExitStatus::Exited(0)),
    {
        match self {
            ExitStatus::Exited(code) => *code == 0,
            ExitStatus::Signaled(_) => false,
        }
    }

    pub open spec fn text(self) -> Seq<char> {
        match self {
            ExitStatus::Exited(code) => "exit status: "@ + decimal(code as int),
            ExitStatus::Signaled(sig) => "signal: "@ + decimal(sig as int),
        }
    }

    /// The status as the process layer prints it (`exit status: 1`).
    pub fn to_text(&self) -> (r: String)
        ensures
            r@ == self.text(),
    {
        match self {
            ExitStatus::Exited(code) => owned("exit status: ").concat(
                decimal_string(*code as i128).as_str(),
            ),
            ExitStatus::Signaled(sig) => owned("signal: ").concat(
                decimal_string(*sig as i128).as_str(),
            ),
        }
    }
}

/// What a process that ran left behind.
#[derive(Debug)]
pub struct CommandOutput {
    pub status: ExitStatus,
    pub stdout: String,
    pub stderr: String,
}

/// An external invocation and, once it has run, its output.
#[derive(Debug)]
pub struct Command {
    pub executable: String,
    pub arguments: Vec<String>,
    pub output: Option<CommandOutput>,
}

pub open spec fn strs_view(v: Seq<String>) -> Seq<Seq<char>> {
    v.map_values(|s: String| s@)
}

pub proof fn lemma_strs_view_push(v: Seq<String>, s: String)
    ensures
        strs_view(v.push(s)) == strs_view(v).push(s@),
{
    assert(strs_view(v.push(s)) =~= strs_view(v).push(s@));
}

/// The characters with the Unicode `White_Space` property.
pub open spec fn is_white_space(c: char) -> bool {
    let u = c as u32;
    ||| 0x09 <= u <= 0x0d
    ||| u == 0x20
    ||| u == 0x85
    ||| u == 0xa0
    ||| u == 0x1680
    ||| 0x2000 <= u <= 0x200a
    ||| u == 0x2028
    ||| u == 0x2029
    ||| u == 0x202f
    ||| u == 0x205f
    ||| u == 0x3000
}

pub fn char_is_white_space(c: char) -> (r: bool)
    ensures
        r == is_white_space(c),
{
    let u = c as u32;
    (0x09 <= u && u <= 0x0d) || u == 0x20 || u == 0x85 || u == 0xa0 || u == 0x1680 || (0x2000
        <= u && u <= 0x200a) || u == 0x2028 || u == 0x2029 || u == 0x202f || u == 0x205f || u
        == 0x3000
}

pub open spec fn has_white_space(s: Seq<char>) -> bool {
    exists|i: int| 0 <= i < s.len() && is_white_space(#[trigger] s[i])
}

pub fn contains_white_space(s: &str) -> (r: bool)
    ensures
        r == has_white_space(s@),
{
    let n = s.unicode_len();
    let mut i: usize = 0;
    while i < n
        invariant
            n == s@.len(),
            i <= n,
            forall|j: int| 0 <= j < i ==> !is_white_space(#[trigger] s@[j]),
        decreases n - i,
    {
        if char_is_white_space(s.get_char(i)) {
            return true;
        }
        i = i + 1;
    }
    false
}

/// One argument as a shell line shows it: wrapped in double quotes when it
/// holds white space.
pub open spec fn quoted(arg: Seq<char>) -> Seq<char> {
    if has_white_space(arg) {
        seq!['"'] + arg + seq!['"']
    } else {
        arg
    }
}

/// The arguments, each preceded by a space and quoted as needed.
pub open spec fn joined_args(args: Seq<Seq<char>>) -> Seq<char>
    decreases args.len(),
{
    if args.len() == 0 {
        Seq::empty()
    } else {
        joined_args(args.drop_last()) + seq![' '] + quoted(args.last())
    }
}

/// A whole command as one shell line.
pub open spec fn command_line(executable: Seq<char>, args: Seq<Seq<char>>) -> Seq<char> {
    executable + joined_args(args)
}

impl CommandOutput {
    pub fn copy(&self) -> (r: CommandOutput)
        ensures
            r == *self,
    {
        CommandOutput { status: self.status, stdout: self.stdout.clone(), stderr: self.stderr.clone() }
    }

    pub open spec fn success_spec(self) -> bool {
        self.status == ExitStatus::Exited(0)
    }
}

impl Command {
    pub fn new(executable: &str) -> (r: Command)
        ensures
            r.executable@ == executable@,
            r.arguments@.len() == 0,
            r.output is None,
    {
        Command { executable: owned(executable), arguments: Vec::new(), output: None }
    }

    /// A copy with the same executable, arguments and output.
    pub fn copy(&self) -> (r: Command)
        ensures
            r.executable@ == self.executable@,
            r.args_view() == self.args_view(),
            r.output == self.output,
    {
        let arguments = crate::table::copy_strings(self.arguments.as_slice());
        let output = match &self.output {
            Some(o) => Some(o.copy()),
            None => None,
        };
        Command { executable: self.executable.clone(), arguments, output }
    }

    pub open spec fn args_view(self) -> Seq<Seq<char>> {
        strs_view(self.arguments@)
    }

    pub open spec fn success_text(self) -> Seq<char> {
        match self.output {
            None => "Has not run."@,
            Some(o) => if o.success_spec() {
                "Success"@
            } else {
                "Error: "@ + o.status.text()
            },
        }
    }

    /// How the run went, for display.
    pub fn success_string(&self) -> (r: String)
        ensures
            r@ == self.success_text(),
    {
        match &self.output {
            Some(output) => {
                if output.status.success() {
                    owned("Success")
                } else {
                    owned("Error: ").concat(output.status.to_text().as_str())
                }
            },
            None => owned("Has not run."),
        }
    }

    /// The command as one shell line; `None` for a command without arguments.
    pub fn to_cmd_string(&self) -> (r: Option<String>)
        ensures
            self.arguments@.len() == 0 ==> r is None,
            self.arguments@.len() > 0 ==> r is Some && r->0@ == command_line(
                self.executable@,
                self.args_view(),
            ),
    {
        if self.arguments.len() == 0 {
            return None;
        }
        let mut line = self.executable.clone();
        let mut i: usize = 0;
        while i < self.arguments.len()
            invariant
                i <= self.arguments@.len(),
                line@ == command_line(self.executable@, self.args_view().take(i as int)),
            decreases self.arguments.len() - i,
        {
            let argument = &self.arguments[i];
            proof {
                reveal_strlit(" ");
                reveal_strlit("\"");
            }
            line.append(" ");
            if contains_white_space(argument.as_str()) {
                line.append("\"");
                line.append(argument.as_str());
                line.append("\"");
            } else {
                line.append(argument.as_str());
            }
            assert(self.args_view().take(i + 1).drop_last() == self.args_view().take(i as int));
            assert(line@ =~= command_line(self.executable@, self.args_view().take(i + 1)));
            i = i + 1;
        }
        assert(self.args_view().take(i as int) == self.args_view());
        Some(line)
    }
}

/// The shell lines of the commands that have arguments, in order.
pub open spec fn command_lines(commands: Seq<Command>) -> Seq<Seq<char>>
    decreases commands.len(),
{
    if commands.len() == 0 {
        Seq::empty()
    } else {
        let rest = command_lines(commands.drop_last());
        let c = commands.last();
        if c.arguments@.len() > 0 {
            rest.push(command_line(c.executable@, c.args_view()))
        } else {
            rest
        }
    }
}

/// The shell line of each command that has arguments; commands without any
/// are skipped.
pub fn command_strings(commands: &[Command]) -> (r: Vec<String>)
    ensures
        strs_view(r@) == command_lines(commands@),
{
    let mut r: Vec<String> = Vec::new();
    let mut i: usize = 0;
    while i < commands.len()
        invariant
            i <= commands@.len(),
            strs_view(r@) == command_lines(commands@.take(i as int)),
        decreases commands.len() - i,
    {
        assert(commands@.take(i + 1).drop_last() == commands@.take(i as int));
        match commands[i].to_cmd_string() {
            Some(line) => {
                proof {
                    lemma_strs_view_push(r@, line);
                }
                r.push(line);
            },
            None => {},
        }
        i = i + 1;
    }
    assert(commands@.take(i as int) == commands@);
    r
}

/// Lines, each followed by a line break.
pub open spec fn lines_text(lines: Seq<Seq<char>>) -> Seq<char>
    decreases lines.len(),
{
    if lines.len() == 0 {
        Seq::empty()
    } else {
        lines_text(lines.drop_last()) + lines.last() + seq!['\n']
    }
}

/// A POSIX shell script that runs the given command lines in order.
pub open spec fn script(lines: Seq<Seq<char>>) -> Seq<char> {
    "#!/bin/sh\n"@ + lines_text(lines)
}

/// The text of a shell script that runs `lines` one after another.
pub fn script_text(lines: &[String]) -> (r: String)
    ensures
        r@ == script(strs_view(lines@)),
{
    let mut text = owned("#!/bin/sh\n");
    let mut i: usize = 0;
    while i < lines.len()
        invariant
            i <= lines@.len(),
            text@ == script(strs_view(lines@).take(i as int)),
        decreases lines.len() - i,
    {
        proof {
            reveal_strlit("\n");
        }
        text.append(lines[i].as_str());
        text.append("\n");
        assert(strs_view(lines@).take(i + 1).drop_last() == strs_view(lines@).take(i as int));
        assert(text@ =~= script(strs_view(lines@).take(i + 1)));
        i = i + 1;
    }
    assert(strs_view(lines@).take(i as int) == strs_view(lines@));
    text
}

/// What a batch reports when polled.
#[derive(Clone, Copy, Debug, PartialEq, Eq, Structural)]
pub enum CommandHandlerStatus {
    /// The share of finished commands, in percent, rounded to the nearest
    /// integer (halves up).
    Percent(u16),
    Done,
}

/// `done` of `total` as a rounded percentage.
pub open spec fn percent(done: int, total: int) -> int {
    (200 * done + total) / (2 * total)
}

/// The bookkeeping of a batch of commands that run one after another
/// elsewhere: how many there are, and the outcomes received so far, in the
/// order they finished. An outcome is the command after it ran, or the reason
/// it could not be started.
pub struct CommandHandler {
    pub num_commands: usize,
    pub done_commands: Vec<Result<Command, String>>,
}

impl CommandHandler {
    pub open spec fn wf(self) -> bool {
        self.done_commands@.len() <= self.num_commands
    }

    pub open spec fn status_spec(self) -> CommandHandlerStatus {
        if self.done_commands@.len() == self.num_commands {
            CommandHandlerStatus::Done
        } else {
            CommandHandlerStatus::Percent(
                percent(self.done_commands@.len() as int, self.num_commands as int) as u16,
            )
        }
    }

    /// A batch of `num_commands` commands, none finished yet.
    pub fn new(num_commands: usize) -> (r: CommandHandler)
        ensures
            r.wf(),
            r.num_commands == num_commands,
            r.done_commands@.len() == 0,
    {
        CommandHandler { num_commands, done_commands: Vec::new() }
    }

    /// Records one finished command.
    pub fn receive(&mut self, outcome: Result<Command, String>)
        requires
            old(self).wf(),
            old(self).done_commands@.len() < old(self).num_commands,
        ensures
            final(self).wf(),
            final(self).num_commands == old(self).num_commands,
            final(self).done_commands@ == old(self).done_commands@.push(outcome),
    {
        self.done_commands.push(outcome);
    }

    /// Whether every command has finished.
    pub fn is_done(&self) -> (r: bool)
        ensures
            r == (self.done_commands@.len() == self.num_commands),
    {
        self.done_commands.len() == self.num_commands
    }

    /// `Done` once every command has finished, else the rounded share of
    /// finished ones.
    pub fn check(&self) -> (r: CommandHandlerStatus)
        requires
            self.wf(),
        ensures
            r == self.status_spec(),
    {
        let done = self.done_commands.len();
        let total = self.num_commands;
        if done == total {
            CommandHandlerStatus::Done
        } else {
            let d = done as u128;
            let t = total as u128;
            let p = (200 * d + t) / (2 * t);
            proof {
                lemma_percent_bound(d as int, t as int);
            }
            CommandHandlerStatus::Percent(p as u16)
        }
    }

    /// The outcomes, in the order the commands finished.
    pub fn into_results(self) -> (r: Vec<Result<Command, String>>)
        requires
            self.done_commands@.len() == self.num_commands,
        ensures
            r@ == self.done_commands@,
    {
        self.done_commands
    }
}

proof fn lemma_percent_bound(done: int, total: int)
    requires
        0 <= done < total,
    ensures
        0 <= percent(done, total) <= 100,
{
    let x = 200 * done + total;
    let y = 2 * total;
    vstd::arithmetic::div_mod::lemma_fundamental_div_mod(x, y);
    vstd::arithmetic::div_mod::lemma_mod_pos_bound(x, y);
    vstd::arithmetic::div_mod::lemma_div_pos_is_pos(x, y);
    let q = x / y;
    assert(q <= 100) by (nonlinear_arith)
        requires
            x == y * q + x % y,
            0 <= x % y,
            x < 101 * y,
            y > 0,
    ;
}

/// While a batch runs, its percentage stays within 0..=100 and never
/// decreases as results come in.
pub proof fn lemma_percent_monotone(done: int, total: int)
    requires
        0 <= done < total,
    ensures
        percent(done, total) <= percent(done + 1, total),
        0 <= percent(done, total) <= 100,
{
    vstd::arithmetic::div_mod::lemma_div_is_ordered(200 * done + total, 200 * (done + 1) + total, 2 * total);
    lemma_percent_bound(done, total);
}

} // verus!
