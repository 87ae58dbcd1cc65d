//! Commands typed on the control line.
use vstd::prelude::*;
use vstd::string::StringExecFns;
use crate::text::{chars_equal, chars_of, string_of, trim, trim_chars};

verus! {

/// Parsed command actions from a control command line.
pub enum CmdAction {
    Status,
    Unknown(String),
}

/// The mathematical value of a [`CmdAction`].
pub enum CmdActionView {
    Status,
    Unknown(Seq<char>),
}

impl View for CmdAction {
    type V = CmdActionView;

    open spec fn view(&self) -> CmdActionView {
        match self {
            CmdAction::Status => CmdActionView::Status,
            CmdAction::Unknown(s) => CmdActionView::Unknown(s@),
        }
    }
}

/// The action a command line asks for: `status` (surrounded by any white space) asks for
/// the status; anything else is unknown and carries the trimmed line.
pub open spec fn command_action(line: Seq<char>) -> CmdActionView {
    if trim(line) == "status"@ {
        CmdActionView::Status
    } else {
        CmdActionView::Unknown(trim(line))
    }
}

/// Parse a line that follows the `/aura ` prefix (the caller strips the leading `/aura `).
pub fn parse_command(line: &str) -> (a: CmdAction)
    ensures
        a@ == command_action(line@),
{
    let s = trim_chars(chars_of(line).as_slice());
    if chars_equal(s.as_slice(), "status") {
        CmdAction::Status
    } else {
        CmdAction::Unknown(string_of(s.as_slice()))
    }
}

/// A human-readable status string for the `status` command.
pub fn status_string() -> (s: String)
    ensures
        s@ == "OK"@,
{
    String::from_str("OK")
}

/// Parsing looks only at the trimmed line: trimming first changes nothing.
pub proof fn lemma_parse_ignores_surrounding_space(line: Seq<char>)
    ensures
        command_action(trim(line)) == command_action(line),
{
    crate::text::lemma_trim_idempotent(line);
}

} // verus!
