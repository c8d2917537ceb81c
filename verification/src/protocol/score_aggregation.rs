use vstd::prelude::*;

use crate::util::error::SCError;
use crate::util::error::SCResult;
use crate::util::text::str_eq;

verus! {

/// Determines how scores are aggregated: summed up or averaged over.
#[derive(Debug, Copy, Clone, PartialEq, Eq, Structural)]
pub enum ScoreAggregation {
    Sum,
    Average,
}

/// The aggregation a protocol literal names, matched exactly.
pub open spec fn aggregation_of_name(s: Seq<char>) -> Option<ScoreAggregation> {
    if s == "SUM"@ {
        Some(ScoreAggregation::Sum)
    } else if s == "AVERAGE"@ {
        Some(ScoreAggregation::Average)
    } else {
        None
    }
}

impl ScoreAggregation {
    /// Parses a protocol literal, `SUM` or `AVERAGE`.
    pub fn from_str(raw: &str) -> (r: SCResult<Self>)
        ensures
            aggregation_of_name(raw@) is Some ==> r == Ok::<ScoreAggregation, SCError>(
                aggregation_of_name(raw@).unwrap(),
            ),
            aggregation_of_name(raw@) is None ==> (r matches Err(SCError::UnrecognizedLiteral(s))
                && s@ == raw@),
    {
        if str_eq(raw, "SUM") {
            Ok(Self::Sum)
        } else if str_eq(raw, "AVERAGE") {
            Ok(Self::Average)
        } else {
            Err(SCError::UnrecognizedLiteral(raw.to_owned()))
        }
    }
}

} // verus!
