use vstd::prelude::*;
use crate::error::DisplayError;

verus! {

/// The closed set of colours a cell can have.
#[derive(Clone, Copy, Debug, PartialEq, Eq, Structural)]
pub enum Color {
    Red,
    Green,
    Cyan,
}

/// Whether `code` names a colour: the legal codes are 1, 2 and 3.
pub open spec fn is_legal_code(code: int) -> bool {
    1 <= code <= 3
}

impl Color {
    /// The numeric code of a colour: Red is 1, Green is 2, Cyan is 3.
    pub open spec fn spec_code(self) -> u8 {
        match self {
            Color::Red => 1,
            Color::Green => 2,
            Color::Cyan => 3,
        }
    }

    /// The colour named by a legal code.
    pub open spec fn of_code(code: int) -> Color
        recommends
            is_legal_code(code),
    {
        if code == 1 {
            Color::Red
        } else if code == 2 {
            Color::Green
        } else {
            Color::Cyan
        }
    }

    /// The numeric code of this colour.
    #[verifier::when_used_as_spec(spec_code)]
    pub fn code(self) -> (code: u8)
        ensures
            code == self.spec_code(),
            is_legal_code(code as int),
    {
        match self {
            Color::Red => 1,
            Color::Green => 2,
            Color::Cyan => 3,
        }
    }
}

/// Turns a numeric code into a colour, rejecting every code but 1, 2 and 3.
pub fn convert_to_color(color: u64) -> (converted: Result<Color, DisplayError>)
    ensures
        is_legal_code(color as int) ==> converted == Ok::<Color, DisplayError>(
            Color::of_code(color as int),
        ),
        !is_legal_code(color as int) ==> converted == Err::<Color, DisplayError>(
            DisplayError::InvalidColor,
        ),
{
    match color {
        1 => Ok(Color::Red),
        2 => Ok(Color::Green),
        3 => Ok(Color::Cyan),
        _ => Err(DisplayError::InvalidColor),
    }
}

/// Codes and colours correspond one to one: every colour has a legal code
/// that names it, and every legal code is the code of the colour it names.
pub proof fn lemma_code_round_trip(c: Color, code: int)
    ensures
        is_legal_code(c.spec_code() as int),
        Color::of_code(c.spec_code() as int) == c,
        is_legal_code(code) ==> Color::of_code(code).spec_code() == code,
{
}

} // verus!
