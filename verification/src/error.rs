use vstd::prelude::*;

verus! {

/// Everything that can go wrong while reading input or driving the display.
///
/// Every error is fatal for the run in which it occurs: no function of this
/// crate retries or continues past one.
#[derive(Clone, Copy, Debug, PartialEq, Eq, Structural)]
pub enum DisplayError {
    /// A colour code outside `1..=3`, as the default colour or as the operand
    /// of a set-colour command.
    InvalidColor,
    /// An opcode other than `1` (move cursor) or `2` (set colour).
    InvalidCommand,
    /// The command stream ended before the operands of its last opcode.
    TruncatedInput,
    /// A cursor position outside the grid.
    CursorOutOfBounds,
    /// A token that should be an unsigned integer and is not, or does not fit
    /// the integer type it is read into.
    MalformedNumericInput,
    /// A dimension line that does not hold exactly two numbers.
    InvalidDimensions,
}

impl DisplayError {
    /// A one-line diagnostic naming the violated condition.
    pub fn message(&self) -> (text: &'static str)
        ensures
            text@ == Self::message_of(*self)@,
    {
        match self {
            DisplayError::InvalidColor => "invalid color: expected 1, 2 or 3",
            DisplayError::InvalidCommand => "invalid command: expected opcode 1 or 2",
            DisplayError::TruncatedInput => "truncated input: missing command operands",
            DisplayError::CursorOutOfBounds => "cursor out of bounds",
            DisplayError::MalformedNumericInput => "malformed numeric input",
            DisplayError::InvalidDimensions => "invalid dimensions: expected two numbers",
        }
    }

    /// The diagnostic text that belongs to each error.
    pub open spec fn message_of(e: DisplayError) -> &'static str {
        match e {
            DisplayError::InvalidColor => "invalid color: expected 1, 2 or 3",
            DisplayError::InvalidCommand => "invalid command: expected opcode 1 or 2",
            DisplayError::TruncatedInput => "truncated input: missing command operands",
            DisplayError::CursorOutOfBounds => "cursor out of bounds",
            DisplayError::MalformedNumericInput => "malformed numeric input",
            DisplayError::InvalidDimensions => "invalid dimensions: expected two numbers",
        }
    }
}

} // verus!
