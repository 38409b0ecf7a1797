use vstd::prelude::*;
use vstd::string::StringExecFns;

verus! {

/// Why a command addressed to the engine could not be carried out.
///
/// A placement that is well formed but breaks a rule of the game is not an
/// error: it is reported as a rejected placement.
#[derive(Clone, Copy, Debug, PartialEq, Eq, Structural)]
pub enum GameError {
    /// A cell outside the grid was addressed; `x` and `y` are its coordinates.
    OutOfBounds { x: u32, y: u32 },
    /// The active player's inventory has no piece at the index given.
    InvalidPieceIndex,
}

/// The character for a digit below ten.
pub open spec fn digit(value: nat) -> char {
    if value == 0 {
        '0'
    } else if value == 1 {
        '1'
    } else if value == 2 {
        '2'
    } else if value == 3 {
        '3'
    } else if value == 4 {
        '4'
    } else if value == 5 {
        '5'
    } else if value == 6 {
        '6'
    } else if value == 7 {
        '7'
    } else if value == 8 {
        '8'
    } else {
        '9'
    }
}

/// The number in decimal digits, without leading zeros.
pub open spec fn decimal(value: nat) -> Seq<char>
    decreases value,
{
    if value < 10 {
        seq![digit(value)]
    } else {
        decimal(value / 10).push(digit(value % 10))
    }
}

impl GameError {
    /// The words for the error.
    pub open spec fn message_text(self) -> Seq<char> {
        match self {
            GameError::OutOfBounds { x, y } => "Out of bounds ("@ + decimal(x as nat) + ", "@
                + decimal(y as nat) + ")"@,
            GameError::InvalidPieceIndex => "Invalid piece index"@,
        }
    }

    /// The error in words, as it is shown to a player.
    pub fn message(&self) -> (text: String)
        ensures
            text@ == self.message_text(),
    {
        match self {
            GameError::OutOfBounds { x, y } => {
                let mut text = String::from_str("Out of bounds (");
                push_decimal(&mut text, *x);
                text.append(", ");
                push_decimal(&mut text, *y);
                text.append(")");
                text
            },
            GameError::InvalidPieceIndex => String::from_str("Invalid piece index"),
        }
    }
}

fn digit_text(value: u32) -> (text: &'static str)
    requires
        value < 10,
    ensures
        text@ == seq![digit(value as nat)],
{
    proof {
        reveal_strlit("0");
        reveal_strlit("1");
        reveal_strlit("2");
        reveal_strlit("3");
        reveal_strlit("4");
        reveal_strlit("5");
        reveal_strlit("6");
        reveal_strlit("7");
        reveal_strlit("8");
        reveal_strlit("9");
    }
    let text = if value == 0 {
        "0"
    } else if value == 1 {
        "1"
    } else if value == 2 {
        "2"
    } else if value == 3 {
        "3"
    } else if value == 4 {
        "4"
    } else if value == 5 {
        "5"
    } else if value == 6 {
        "6"
    } else if value == 7 {
        "7"
    } else if value == 8 {
        "8"
    } else {
        "9"
    };
    assert(text@ =~= seq![digit(value as nat)]);
    text
}

fn push_decimal(text: &mut String, value: u32)
    ensures
        final(text)@ == old(text)@ + decimal(value as nat),
    decreases value,
{
    if value >= 10 {
        push_decimal(text, value / 10);
    }
    text.append(digit_text(value % 10));
    assert(text@ =~= old(text)@ + decimal(value as nat));
}

} // verus!
