//! What can go wrong around a game.

use vstd::prelude::*;
use vstd::std_specs::convert::FromSpecImpl;
use vstd::string::StringExecFns;

verus! {

/// `std::num::ParseIntError`, the error of `str::parse` for an integer.
/// Nothing is known of a value but that it is one.
#[verifier::external_type_specification]
#[verifier::external_body]
pub struct ExParseIntError(std::num::ParseIntError);

/// The errors of a session.
#[derive(Debug)]
pub enum MineError {
    /// The terminal could not be set up.
    TerminalError(String),
    /// A drawing could not be written.
    OutputError,
    /// An input event could not be read.
    InputError,
    /// The number of mines asked for does not suit the board.
    NbMinesError,
    /// The height or the width asked for is out of range, or one of the
    /// arguments is no number.
    SizeError,
    /// Reading or writing failed.
    IoError(String),
}

impl MineError {
    /// The text shown to the user for this error.
    pub open spec fn spec_message(&self) -> Seq<char> {
        match self {
            MineError::TerminalError(cause) => "Error with the terminal: "@ + cause@,
            MineError::OutputError => "Output error"@,
            MineError::InputError => "Input error"@,
            MineError::NbMinesError => "Wrong number of mines"@,
            MineError::SizeError => "Wrong size arguments, they are limited from 2x2 to 30x24"@,
            MineError::IoError(cause) => "I/O error: "@ + cause@,
        }
    }

    /// The text shown to the user for this error.
    pub fn message(&self) -> (text: String)
        ensures
            text@ == self.spec_message(),
    {
        match self {
            MineError::TerminalError(cause) => String::from_str("Error with the terminal: ").concat(
                cause.as_str(),
            ),
            MineError::OutputError => String::from_str("Output error"),
            MineError::InputError => String::from_str("Input error"),
            MineError::NbMinesError => String::from_str("Wrong number of mines"),
            MineError::SizeError => String::from_str(
                "Wrong size arguments, they are limited from 2x2 to 30x24",
            ),
            MineError::IoError(cause) => String::from_str("I/O error: ").concat(cause.as_str()),
        }
    }
}

impl From<std::num::ParseIntError> for MineError {
    fn from(_err: std::num::ParseIntError) -> (error: MineError) {
        MineError::SizeError
    }
}

impl FromSpecImpl<std::num::ParseIntError> for MineError {
    open spec fn obeys_from_spec() -> bool {
        true
    }

    open spec fn from_spec(_err: std::num::ParseIntError) -> MineError {
        MineError::SizeError
    }
}

} // verus!
