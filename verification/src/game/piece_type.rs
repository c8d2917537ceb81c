use vstd::prelude::*;

use crate::util::error::SCError;
use crate::util::error::SCResult;
use crate::util::text::char_upper_code;
use crate::util::text::eq_icase;
use crate::util::text::str_eq_icase;
use crate::util::text::upper_code;

verus! {

/// A game piece type: a closed set of exactly five kinds.
#[derive(Debug, Copy, Clone, PartialEq, Eq, Hash, Structural)]
pub enum PieceType {
    Ant,
    Bee,
    Beetle,
    Grasshopper,
    Spider,
}

/// The piece type a single letter stands for, up to ASCII case:
/// A(nt), B(ee), T (beetle), G(rasshopper), S(pider).
pub open spec fn type_of_char(c: char) -> Option<PieceType> {
    let u = upper_code(c);
    if u == 'A' as u32 {
        Some(PieceType::Ant)
    } else if u == 'B' as u32 {
        Some(PieceType::Bee)
    } else if u == 'T' as u32 {
        Some(PieceType::Beetle)
    } else if u == 'G' as u32 {
        Some(PieceType::Grasshopper)
    } else if u == 'S' as u32 {
        Some(PieceType::Spider)
    } else {
        None
    }
}

/// The piece type a protocol literal names, up to ASCII case.
pub open spec fn type_of_name(s: Seq<char>) -> Option<PieceType> {
    if eq_icase(s, "ANT"@) {
        Some(PieceType::Ant)
    } else if eq_icase(s, "BEE"@) {
        Some(PieceType::Bee)
    } else if eq_icase(s, "BEETLE"@) {
        Some(PieceType::Beetle)
    } else if eq_icase(s, "GRASSHOPPER"@) {
        Some(PieceType::Grasshopper)
    } else if eq_icase(s, "SPIDER"@) {
        Some(PieceType::Spider)
    } else {
        None
    }
}

impl PieceType {
    /// Parses a protocol literal such as `ANT` or `BEE`, ignoring case.
    pub fn from_str(raw: &str) -> (r: SCResult<Self>)
        ensures
            type_of_name(raw@) is Some ==> r == Ok::<PieceType, SCError>(
                type_of_name(raw@).unwrap(),
            ),
            type_of_name(raw@) is None ==> (r matches Err(SCError::UnrecognizedLiteral(s))
                && s@ == raw@),
    {
        if str_eq_icase(raw, "ANT") {
            Ok(Self::Ant)
        } else if str_eq_icase(raw, "BEE") {
            Ok(Self::Bee)
        } else if str_eq_icase(raw, "BEETLE") {
            Ok(Self::Beetle)
        } else if str_eq_icase(raw, "GRASSHOPPER") {
            Ok(Self::Grasshopper)
        } else if str_eq_icase(raw, "SPIDER") {
            Ok(Self::Spider)
        } else {
            Err(SCError::UnrecognizedLiteral(raw.to_owned()))
        }
    }

    /// Parses a one-letter piece code, ignoring case.
    pub fn from_char(c: char) -> (r: Option<Self>)
        ensures
            r == type_of_char(c),
    {
        let u = char_upper_code(c);
        if u == 65 {
            Some(Self::Ant)
        } else if u == 66 {
            Some(Self::Bee)
        } else if u == 84 {
            Some(Self::Beetle)
        } else if u == 71 {
            Some(Self::Grasshopper)
        } else if u == 83 {
            Some(Self::Spider)
        } else {
            None
        }
    }

    /// The one-letter code of this piece type.
    pub open spec fn spec_char(self) -> char {
        match self {
            Self::Ant => 'A',
            Self::Bee => 'B',
            Self::Beetle => 'T',
            Self::Grasshopper => 'G',
            Self::Spider => 'S',
        }
    }

    /// Renders the one-letter code of this piece type.
    pub fn to_char(self) -> (r: char)
        ensures
            r == self.spec_char(),
    {
        match self {
            Self::Ant => 'A',
            Self::Bee => 'B',
            Self::Beetle => 'T',
            Self::Grasshopper => 'G',
            Self::Spider => 'S',
        }
    }

    /// The protocol literal of this piece type.
    pub open spec fn spec_name(self) -> Seq<char> {
        match self {
            Self::Ant => "ANT"@,
            Self::Bee => "BEE"@,
            Self::Beetle => "BEETLE"@,
            Self::Grasshopper => "GRASSHOPPER"@,
            Self::Spider => "SPIDER"@,
        }
    }

    /// Renders the protocol literal of this piece type.
    pub fn to_name(self) -> (r: String)
        ensures
            r@ == self.spec_name(),
    {
        match self {
            Self::Ant => String::from_str("ANT"),
            Self::Bee => String::from_str("BEE"),
            Self::Beetle => String::from_str("BEETLE"),
            Self::Grasshopper => String::from_str("GRASSHOPPER"),
            Self::Spider => String::from_str("SPIDER"),
        }
    }
}

} // verus!
