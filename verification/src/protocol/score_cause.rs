use vstd::prelude::*;

use crate::util::error::SCError;
use crate::util::error::SCResult;
use crate::util::text::str_eq;

verus! {

/// Determines the cause of a game score.
#[derive(Debug, Copy, Clone, PartialEq, Eq, Structural)]
pub enum ScoreCause {
    Regular,
    Left,
    RuleViolation,
    SoftTimeout,
    HardTimeout,
    Unknown,
}

/// The cause a protocol literal names, matched exactly.
pub open spec fn cause_of_name(s: Seq<char>) -> Option<ScoreCause> {
    if s == "REGULAR"@ {
        Some(ScoreCause::Regular)
    } else if s == "LEFT"@ {
        Some(ScoreCause::Left)
    } else if s == "RULE_VIOLATION"@ {
        Some(ScoreCause::RuleViolation)
    } else if s == "SOFT_TIMEOUT"@ {
        Some(ScoreCause::SoftTimeout)
    } else if s == "HARD_TIMEOUT"@ {
        Some(ScoreCause::HardTimeout)
    } else if s == "UNKNOWN"@ {
        Some(ScoreCause::Unknown)
    } else {
        None
    }
}

impl ScoreCause {
    /// Parses a protocol literal naming a score cause.
    pub fn from_str(raw: &str) -> (r: SCResult<Self>)
        ensures
            cause_of_name(raw@) is Some ==> r == Ok::<ScoreCause, SCError>(
                cause_of_name(raw@).unwrap(),
            ),
            cause_of_name(raw@) is None ==> (r matches Err(SCError::UnrecognizedLiteral(s)) && s@
                == raw@),
    {
        if str_eq(raw, "REGULAR") {
            Ok(Self::Regular)
        } else if str_eq(raw, "LEFT") {
            Ok(Self::Left)
        } else if str_eq(raw, "RULE_VIOLATION") {
            Ok(Self::RuleViolation)
        } else if str_eq(raw, "SOFT_TIMEOUT") {
            Ok(Self::SoftTimeout)
        } else if str_eq(raw, "HARD_TIMEOUT") {
            Ok(Self::HardTimeout)
        } else if str_eq(raw, "UNKNOWN") {
            Ok(Self::Unknown)
        } else {
            Err(SCError::UnrecognizedLiteral(raw.to_owned()))
        }
    }
}

} // verus!
