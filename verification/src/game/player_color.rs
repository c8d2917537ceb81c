use vstd::prelude::*;

use crate::util::error::SCError;
use crate::util::error::SCResult;
use crate::util::text::char_upper_code;
use crate::util::text::eq_icase;
use crate::util::text::str_eq_icase;
use crate::util::text::upper_code;

verus! {

/// The color a single letter stands for, up to ASCII case: R(ed) or
/// B(lue).
pub open spec fn color_of_char(c: char) -> Option<PlayerColor> {
    let u = upper_code(c);
    if u == 'R' as u32 {
        Some(PlayerColor::Red)
    } else if u == 'B' as u32 {
        Some(PlayerColor::Blue)
    } else {
        None
    }
}

/// The color a protocol literal names, up to ASCII case.
pub open spec fn color_of_name(s: Seq<char>) -> Option<PlayerColor> {
    if eq_icase(s, "RED"@) {
        Some(PlayerColor::Red)
    } else if eq_icase(s, "BLUE"@) {
        Some(PlayerColor::Blue)
    } else {
        None
    }
}

/// A player color in the game. There are exactly two, and they are
/// each other's opponent.
#[derive(Debug, Copy, Clone, PartialEq, Eq, Hash, Structural)]
pub enum PlayerColor {
    Red,
    Blue,
}

impl PlayerColor {
    /// The other color: Red and Blue swap places.
    pub fn opponent(self) -> (r: Self)
        ensures
            r == self.spec_opponent(),
    {
        match self {
            Self::Red => Self::Blue,
            Self::Blue => Self::Red,
        }
    }

    /// What `opponent` returns.
    pub open spec fn spec_opponent(self) -> Self {
        match self {
            Self::Red => Self::Blue,
            Self::Blue => Self::Red,
        }
    }

    /// Parses a protocol literal, `RED` or `BLUE`, ignoring case.
    pub fn from_str(raw: &str) -> (r: SCResult<Self>)
        ensures
            color_of_name(raw@) is Some ==> r == Ok::<PlayerColor, SCError>(
                color_of_name(raw@).unwrap(),
            ),
            color_of_name(raw@) is None ==> (r matches Err(SCError::UnrecognizedLiteral(s))
                && s@ == raw@),
    {
        if str_eq_icase(raw, "RED") {
            Ok(Self::Red)
        } else if str_eq_icase(raw, "BLUE") {
            Ok(Self::Blue)
        } else {
            Err(SCError::UnrecognizedLiteral(raw.to_owned()))
        }
    }

    /// Parses a one-letter color code, ignoring case.
    pub fn from_char(c: char) -> (r: Option<Self>)
        ensures
            r == color_of_char(c),
    {
        let u = char_upper_code(c);
        if u == 82 {
            Some(Self::Red)
        } else if u == 66 {
            Some(Self::Blue)
        } else {
            None
        }
    }

    /// The one-letter code of this color.
    pub open spec fn spec_char(self) -> char {
        match self {
            Self::Red => 'R',
            Self::Blue => 'B',
        }
    }

    /// Renders the one-letter code of this color.
    pub fn to_char(self) -> (r: char)
        ensures
            r == self.spec_char(),
    {
        match self {
            Self::Red => 'R',
            Self::Blue => 'B',
        }
    }

    /// The protocol literal of this color.
    pub open spec fn spec_name(self) -> Seq<char> {
        match self {
            Self::Red => "RED"@,
            Self::Blue => "BLUE"@,
        }
    }

    /// Renders the protocol literal of this color.
    pub fn to_name(self) -> (r: String)
        ensures
            r@ == self.spec_name(),
    {
        match self {
            Self::Red => String::from_str("RED"),
            Self::Blue => String::from_str("BLUE"),
        }
    }
}

/// Taking the opponent twice gives the original color back, so the
/// two colors are symmetric.
pub proof fn lemma_opponent_involutive(c: PlayerColor)
    ensures
        c.spec_opponent().spec_opponent() == c,
{
}

} // verus!
