//! The console window: a line of text that is read as a command for the
//! player when the enter key is pressed.

use crate::text::{chars_of, leading_run, run_len, str_eq, Separator};
use vstd::prelude::*;
use vstd::string::*;

verus! {

/// The state of the console window.
#[derive(Debug)]
pub struct MpvConsoleWindow {
    /// Whether the window is shown.
    pub open: bool,
    /// The line that has been typed.
    pub cmd_buf: String,
}

/// What the console does with the line.
#[derive(Debug)]
pub enum ConsoleAction {
    /// The line holds no space: nothing is done.
    Nothing,
    /// The complex filter graph of the player is set to the given text.
    SetLavfiComplex(String),
    /// The word before the first space is no command of the console.
    Unknown(String),
}

/// What a console action is, as mathematics.
pub enum ConsoleActionModel {
    Nothing,
    SetLavfiComplex(Seq<char>),
    Unknown(Seq<char>),
}

impl View for ConsoleAction {
    type V = ConsoleActionModel;

    open spec fn view(&self) -> ConsoleActionModel {
        match self {
            ConsoleAction::Nothing => ConsoleActionModel::Nothing,
            ConsoleAction::SetLavfiComplex(s) => ConsoleActionModel::SetLavfiComplex(s@),
            ConsoleAction::Unknown(s) => ConsoleActionModel::Unknown(s@),
        }
    }
}

/// The action that the line `line` asks for. The line is split at its first
/// space into a command and what it applies to; a line without a space asks
/// for nothing.
pub open spec fn action_spec(line: Seq<char>) -> ConsoleActionModel {
    let k = run_len(line, Separator::Space) as int;
    if k >= line.len() {
        ConsoleActionModel::Nothing
    } else if line.take(k) == "lavfi"@ {
        ConsoleActionModel::SetLavfiComplex(line.skip(k + 1))
    } else {
        ConsoleActionModel::Unknown(line.take(k))
    }
}

/// The line that reports the unknown command `cmd`.
pub open spec fn unknown_text(cmd: Seq<char>) -> Seq<char> {
    "Unknown command: "@ + cmd
}

impl Default for MpvConsoleWindow {
    /// The closed window with an empty line.
    fn default() -> (r: Self)
        ensures
            !r.open,
            r.cmd_buf@ == Seq::<char>::empty(),
    {
        MpvConsoleWindow { open: false, cmd_buf: String::new() }
    }
}

impl MpvConsoleWindow {
    /// The text that explains the commands of the console.
    pub fn help() -> (r: &'static str)
        ensures
            r@ == "Help:\n    lavfi <str> - Set lavfi-complex filter\n"@,
    {
        "Help:\n    lavfi <str> - Set lavfi-complex filter\n"
    }

    /// The enter key was pressed: the action that the line asks for. The
    /// line stays as it is.
    pub fn enter_pressed(&self) -> (r: ConsoleAction)
        ensures
            r@ == action_spec(self.cmd_buf@),
    {
        let line = self.cmd_buf.as_str();
        let chars = chars_of(line);
        let k = leading_run(&chars, Separator::Space);
        if k >= chars.len() {
            return ConsoleAction::Nothing;
        }
        let cmd = line.substring_char(0, k);
        assert(line@.subrange(0, k as int) =~= line@.take(k as int));
        if str_eq(cmd, "lavfi") {
            let rest = line.substring_char(k + 1, chars.len());
            assert(line@.subrange(k + 1, line@.len() as int) =~= line@.skip(k + 1));
            ConsoleAction::SetLavfiComplex(String::from_str(rest))
        } else {
            ConsoleAction::Unknown(String::from_str(cmd))
        }
    }
}

impl ConsoleAction {
    /// The line to write to the log for this action, if it has one.
    pub fn log_line(&self) -> (r: Option<String>)
        ensures
            match self@ {
                ConsoleActionModel::Unknown(cmd) => r is Some && r->Some_0@ == unknown_text(cmd),
                _ => r is None,
            },
    {
        match self {
            ConsoleAction::Unknown(cmd) => {
                let mut line = String::from_str("Unknown command: ");
                line.append(cmd.as_str());
                Some(line)
            },
            _ => None,
        }
    }
}

} // verus!
