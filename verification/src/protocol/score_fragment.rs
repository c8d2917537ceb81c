use vstd::prelude::*;

use crate::protocol::score_aggregation::ScoreAggregation;
use crate::protocol::score_aggregation::aggregation_of_name;
use crate::util::error::SCError;
use crate::util::error::SCResult;
use crate::util::text::parse_bool;
use crate::util::text::spec_parse_bool;
use crate::util::xml_node::FromXmlNode;
use crate::util::xml_node::XmlNode;
use crate::util::xml_node::attr_lookup;
use crate::util::xml_node::child_lookup;

verus! {

/// A single score fragment: its name, how it aggregates, and whether
/// it is relevant for the ranking.
#[derive(Debug, PartialEq, Eq)]
pub struct ScoreFragment {
    pub name: String,
    pub aggregation: ScoreAggregation,
    pub relevant_for_ranking: bool,
}

/// The fragment a node denotes: its `name` attribute, the content of
/// its `aggregation` child, and the content of its
/// `relevantForRanking` child.
pub open spec fn spec_fragment_of_node(n: XmlNode) -> Option<(Seq<char>, ScoreAggregation, bool)> {
    match (
        attr_lookup(n.attributes@, "name"@),
        child_lookup(n.childs@, "aggregation"@),
        child_lookup(n.childs@, "relevantForRanking"@),
    ) {
        (Some(name), Some(agg), Some(rel)) => match (
            aggregation_of_name(agg.content@),
            spec_parse_bool(rel.content@),
        ) {
            (Some(a), Some(b)) => Some((name, a, b)),
            _ => None,
        },
        _ => None,
    }
}

impl ScoreFragment {
    /// Parses a score fragment.
    pub fn from_node(node: &XmlNode) -> (r: SCResult<Self>)
        ensures
            r is Ok <==> spec_fragment_of_node(*node) is Some,
            r is Ok ==> {
                let f = spec_fragment_of_node(*node).unwrap();
                &&& r.unwrap().name@ == f.0
                &&& r.unwrap().aggregation == f.1
                &&& r.unwrap().relevant_for_ranking == f.2
            },
    {
        let name = match node.attribute("name") {
            Ok(v) => v.to_owned(),
            Err(e) => {
                return Err(e);
            },
        };
        let agg_node = match node.child_by_name("aggregation") {
            Ok(n) => n,
            Err(e) => {
                return Err(e);
            },
        };
        let aggregation = match ScoreAggregation::from_str(agg_node.content()) {
            Ok(a) => a,
            Err(e) => {
                return Err(e);
            },
        };
        let rel_node = match node.child_by_name("relevantForRanking") {
            Ok(n) => n,
            Err(e) => {
                return Err(e);
            },
        };
        let relevant_for_ranking = match parse_bool(rel_node.content()) {
            Some(b) => b,
            None => {
                return Err(SCError::MalformedBool(rel_node.content().to_owned()));
            },
        };
        Ok(ScoreFragment { name, aggregation, relevant_for_ranking })
    }
}

impl FromXmlNode for ScoreFragment {
    fn from_node(node: &XmlNode) -> SCResult<Self> {
        ScoreFragment::from_node(node)
    }
}

} // verus!
