//! The ways in which a run can fail.

use crate::lines::{lemma_one_line_concat, one_line};
use vstd::prelude::*;
use vstd::string::*;

verus! {

/// Why a run ended without launching a command.
#[derive(Debug, PartialEq, Eq)]
pub enum AError {
    /// The configuration text is malformed; the message quotes the line.
    Parse(String),
    /// Reading the configuration or talking to a child process failed.
    IO(String),
    /// The command line could not be understood.
    CliArg(String),
    /// The menu program failed.
    MenuSystem(String),
    /// No option key is a prefix of what the user selected.
    NothingSelected,
    /// The configuration holds no menu of the requested name.
    UnknownMenu,
}

impl AError {
    /// What the error carries: the message of its cause, or nothing.
    pub open spec fn detail(&self) -> Seq<char> {
        match self {
            AError::Parse(msg) => msg@,
            AError::IO(msg) => msg@,
            AError::CliArg(msg) => msg@,
            AError::MenuSystem(msg) => msg@,
            AError::NothingSelected => Seq::empty(),
            AError::UnknownMenu => Seq::empty(),
        }
    }

    /// The text shown to the user: what kind of error it is and, on the same
    /// line, what the error carries. It is empty for `NothingSelected`: the
    /// user cancelled, so the run ends silently.
    pub open spec fn message_spec(&self) -> Seq<char> {
        match self {
            AError::Parse(msg) => "Parse error: "@ + msg@,
            AError::IO(msg) => "IO error: "@ + msg@,
            AError::CliArg(msg) => "Error while reading command line arguments: "@ + msg@,
            AError::MenuSystem(msg) => "Error while running the menu: "@ + msg@,
            AError::NothingSelected => Seq::empty(),
            AError::UnknownMenu => "Requested menu not found"@,
        }
    }

    /// The text shown for an error is one line, as long as what the error
    /// carries is.
    pub proof fn lemma_message_one_line(&self)
        requires
            one_line(self.detail()),
        ensures
            one_line(self.message_spec()),
    {
        reveal_strlit("Parse error: ");
        reveal_strlit("IO error: ");
        reveal_strlit("Error while reading command line arguments: ");
        reveal_strlit("Error while running the menu: ");
        reveal_strlit("Requested menu not found");
        match self {
            AError::Parse(msg) => lemma_one_line_concat("Parse error: "@, msg@),
            AError::IO(msg) => lemma_one_line_concat("IO error: "@, msg@),
            AError::CliArg(msg) => lemma_one_line_concat(
                "Error while reading command line arguments: "@,
                msg@,
            ),
            AError::MenuSystem(msg) => lemma_one_line_concat(
                "Error while running the menu: "@,
                msg@,
            ),
            AError::NothingSelected => {},
            AError::UnknownMenu => {},
        }
    }

    /// The text shown to the user for this error. It is one line where what
    /// the error carries is one line.
    pub fn message(&self) -> (r: String)
        ensures
            r@ == self.message_spec(),
            one_line(self.detail()) ==> one_line(r@),
    {
        proof {
            if one_line(self.detail()) {
                self.lemma_message_one_line();
            }
        }
        match self {
            AError::Parse(msg) => String::from_str("Parse error: ").concat(msg.as_str()),
            AError::IO(msg) => String::from_str("IO error: ").concat(msg.as_str()),
            AError::CliArg(msg) => String::from_str(
                "Error while reading command line arguments: ",
            ).concat(msg.as_str()),
            AError::MenuSystem(msg) => String::from_str("Error while running the menu: ").concat(
                msg.as_str(),
            ),
            AError::NothingSelected => String::new(),
            AError::UnknownMenu => String::from_str("Requested menu not found"),
        }
    }
}

} // verus!
