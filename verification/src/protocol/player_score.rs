use vstd::prelude::*;

use crate::protocol::score_cause::ScoreCause;
use crate::protocol::score_cause::cause_of_name;
use crate::util::error::SCResult;
use crate::util::xml_node::FromXmlNode;
use crate::util::xml_node::XmlNode;
use crate::util::xml_node::attr_lookup;

verus! {

/// The score of a game player: its cause and a reason in prose. A
/// missing reason defaults to the empty string.
#[derive(Debug, PartialEq, Eq)]
pub struct PlayerScore {
    pub cause: ScoreCause,
    pub reason: String,
}

/// The score a node denotes, if its `cause` attribute parses.
pub open spec fn spec_score_of_node(n: XmlNode) -> Option<(ScoreCause, Seq<char>)> {
    match attr_lookup(n.attributes@, "cause"@) {
        Some(c) => match cause_of_name(c) {
            Some(cause) => Some(
                (
                    cause,
                    match attr_lookup(n.attributes@, "reason"@) {
                        Some(rs) => rs,
                        None => ""@,
                    },
                ),
            ),
            None => None,
        },
        None => None,
    }
}

impl PlayerScore {
    /// Parses a player score from its `cause` and optional `reason`
    /// attributes.
    pub fn from_node(node: &XmlNode) -> (r: SCResult<Self>)
        ensures
            r is Ok <==> spec_score_of_node(*node) is Some,
            r is Ok ==> r.unwrap().cause == spec_score_of_node(*node).unwrap().0
                && r.unwrap().reason@ == spec_score_of_node(*node).unwrap().1,
    {
        let cause_raw = match node.attribute("cause") {
            Ok(v) => v,
            Err(e) => {
                return Err(e);
            },
        };
        let cause = match ScoreCause::from_str(cause_raw) {
            Ok(c) => c,
            Err(e) => {
                return Err(e);
            },
        };
        let reason = match node.attribute("reason") {
            Ok(v) => v.to_owned(),
            Err(_) => {
                proof {
                    reveal_strlit("");
                }
                String::new()
            },
        };
        Ok(PlayerScore { cause, reason })
    }
}

impl FromXmlNode for PlayerScore {
    fn from_node(node: &XmlNode) -> SCResult<Self> {
        PlayerScore::from_node(node)
    }
}

} // verus!
