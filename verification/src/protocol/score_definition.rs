use vstd::prelude::*;

use crate::protocol::score_aggregation::ScoreAggregation;
use crate::protocol::score_fragment::ScoreFragment;
use crate::protocol::score_fragment::spec_fragment_of_node;
use crate::util::error::SCResult;
use crate::util::xml_node::FromXmlNode;
use crate::util::xml_node::XmlNode;
use crate::util::xml_node::childs_named;

verus! {

/// The definition of a score: its fragments, in order.
#[derive(Debug, PartialEq, Eq)]
pub struct ScoreDefinition {
    pub fragments: Vec<ScoreFragment>,
}

/// The fragments a list of `fragment` nodes denotes, if all parse.
pub open spec fn spec_fragments_of_nodes(ns: Seq<XmlNode>) -> Option<Seq<(Seq<char>, ScoreAggregation, bool)>>
    decreases ns.len(),
{
    if ns.len() == 0 {
        Some(Seq::empty())
    } else {
        match (spec_fragment_of_node(ns.first()), spec_fragments_of_nodes(ns.drop_first())) {
            (Some(f), Some(rest)) => Some(seq![f] + rest),
            _ => None,
        }
    }
}

impl ScoreDefinition {
    /// Parses a score definition from its `fragment` children.
    pub fn from_node(node: &XmlNode) -> (r: SCResult<Self>)
        ensures
            r is Ok <==> spec_fragments_of_nodes(childs_named(node.childs@, "fragment"@)) is Some,
            r is Ok ==> {
                let fs = spec_fragments_of_nodes(childs_named(node.childs@, "fragment"@)).unwrap();
                &&& r.unwrap().fragments@.len() == fs.len()
                &&& forall|k: int|
                    0 <= k < fs.len() ==> {
                        &&& (#[trigger] r.unwrap().fragments@[k]).name@ == fs[k].0
                        &&& r.unwrap().fragments@[k].aggregation == fs[k].1
                        &&& r.unwrap().fragments@[k].relevant_for_ranking == fs[k].2
                    }
            },
    {
        let ns = node.childs_by_name("fragment");
        let ghost src = childs_named(node.childs@, "fragment"@);
        proof {
            assert(src.skip(0) =~= src);
        }
        let mut fragments: Vec<ScoreFragment> = Vec::new();
        let mut i: usize = 0;
        while i < ns.len()
            invariant
                0 <= i <= ns@.len(),
                src == childs_named(node.childs@, "fragment"@),
                ns@.len() == src.len(),
                forall|k: int| 0 <= k < ns@.len() ==> *#[trigger] ns@[k] == src[k],
                spec_fragments_of_nodes(src) is Some <==> spec_fragments_of_nodes(
                    src.skip(i as int),
                ) is Some,
                spec_fragments_of_nodes(src) is Some ==> spec_fragments_of_nodes(src).unwrap()
                    =~= Seq::new(
                    fragments@.len(),
                    |k: int|
                        (
                            fragments@[k].name@,
                            fragments@[k].aggregation,
                            fragments@[k].relevant_for_ranking,
                        ),
                ) + spec_fragments_of_nodes(src.skip(i as int)).unwrap(),
                fragments@.len() == i,
            decreases ns@.len() - i,
        {
            proof {
                assert(src.skip(i as int).first() == src[i as int]);
                assert(src.skip(i as int).drop_first() =~= src.skip(i + 1));
                assert(*ns@[i as int] == src[i as int]);
            }
            let ghost frags_old = fragments@;
            match ScoreFragment::from_node(ns[i]) {
                Ok(f) => {
                    fragments.push(f);
                },
                Err(e) => {
                    return Err(e);
                },
            }
            proof {
                if spec_fragments_of_nodes(src) is Some {
                    assert(Seq::new(
                        fragments@.len(),
                        |k: int|
                            (
                                fragments@[k].name@,
                                fragments@[k].aggregation,
                                fragments@[k].relevant_for_ranking,
                            ),
                    ) =~= Seq::new(
                        frags_old.len(),
                        |k: int|
                            (frags_old[k].name@, frags_old[k].aggregation, frags_old[
                                k
                            ].relevant_for_ranking),
                    ) + seq![
                        (
                            fragments@.last().name@,
                            fragments@.last().aggregation,
                            fragments@.last().relevant_for_ranking,
                        ),
                    ]);
                    assert(spec_fragments_of_nodes(src).unwrap() =~= Seq::new(
                        fragments@.len(),
                        |k: int|
                            (
                                fragments@[k].name@,
                                fragments@[k].aggregation,
                                fragments@[k].relevant_for_ranking,
                            ),
                    ) + spec_fragments_of_nodes(src.skip(i + 1)).unwrap());
                }
            }
            i += 1;
        }
        proof {
            assert(src.skip(src.len() as int) =~= Seq::<XmlNode>::empty());
            if spec_fragments_of_nodes(src) is Some {
                assert(spec_fragments_of_nodes(src).unwrap() =~= Seq::new(
                    fragments@.len(),
                    |k: int|
                        (
                            fragments@[k].name@,
                            fragments@[k].aggregation,
                            fragments@[k].relevant_for_ranking,
                        ),
                ));
            }
        }
        Ok(ScoreDefinition { fragments })
    }
}

impl FromXmlNode for ScoreDefinition {
    fn from_node(node: &XmlNode) -> SCResult<Self> {
        ScoreDefinition::from_node(node)
    }
}

} // verus!
