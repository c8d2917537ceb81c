use vstd::prelude::*;

use crate::game::player::Player;
use crate::game::player::spec_player_of_node;
use crate::game::player_color::PlayerColor;
use crate::protocol::player_score::PlayerScore;
use crate::protocol::player_score::spec_score_of_node;
use crate::protocol::score_aggregation::ScoreAggregation;
use crate::protocol::score_cause::ScoreCause;
use crate::protocol::score_definition::ScoreDefinition;
use crate::protocol::score_definition::spec_fragments_of_nodes;
use crate::util::error::SCResult;
use crate::util::xml_node::FromXmlNode;
use crate::util::xml_node::XmlNode;
use crate::util::xml_node::child_lookup;
use crate::util::xml_node::childs_named;

verus! {

/// The final result of a game: the score definition, the per-player
/// scores, and the winners.
#[derive(Debug)]
pub struct GameResult {
    pub definition: ScoreDefinition,
    pub scores: Vec<PlayerScore>,
    pub winners: Vec<Player>,
}

/// The scores a list of `score` nodes denotes, if every node parses.
pub open spec fn spec_scores_of_nodes(ns: Seq<XmlNode>) -> Option<Seq<(ScoreCause, Seq<char>)>>
    decreases ns.len(),
{
    if ns.len() == 0 {
        Some(Seq::empty())
    } else {
        match (spec_score_of_node(ns.first()), spec_scores_of_nodes(ns.drop_first())) {
            (Some(sc), Some(rest)) => Some(seq![sc] + rest),
            _ => None,
        }
    }
}

/// The players a list of nodes denotes, if every node parses.
pub open spec fn spec_players_of_nodes(ns: Seq<XmlNode>) -> Option<Seq<(PlayerColor, Seq<char>)>>
    decreases ns.len(),
{
    if ns.len() == 0 {
        Some(Seq::empty())
    } else {
        match (spec_player_of_node(ns.first()), spec_players_of_nodes(ns.drop_first())) {
            (Some(p), Some(rest)) => Some(seq![p] + rest),
            _ => None,
        }
    }
}

/// Whether a whole game-result node parses: the `definition` child with
/// its fragments, every `score` child, and every `winner` child.
pub open spec fn spec_game_result_parses(n: XmlNode) -> bool {
    &&& child_lookup(n.childs@, "definition"@) is Some
    &&& spec_fragments_of_nodes(
        childs_named(child_lookup(n.childs@, "definition"@).unwrap().childs@, "fragment"@),
    ) is Some
    &&& spec_scores_of_nodes(childs_named(n.childs@, "score"@)) is Some
    &&& spec_players_of_nodes(childs_named(n.childs@, "winner"@)) is Some
}

/// Whether the parsed result carries exactly what the node describes.
pub open spec fn spec_game_result_matches(gr: GameResult, n: XmlNode) -> bool {
    let fs = spec_fragments_of_nodes(
        childs_named(child_lookup(n.childs@, "definition"@).unwrap().childs@, "fragment"@),
    ).unwrap();
    let scores = spec_scores_of_nodes(childs_named(n.childs@, "score"@)).unwrap();
    let winners = spec_players_of_nodes(childs_named(n.childs@, "winner"@)).unwrap();
    &&& gr.definition.fragments@.len() == fs.len()
    &&& forall|k: int|
        0 <= k < fs.len() ==> {
            &&& (#[trigger] gr.definition.fragments@[k]).name@ == fs[k].0
            &&& gr.definition.fragments@[k].aggregation == fs[k].1
            &&& gr.definition.fragments@[k].relevant_for_ranking == fs[k].2
        }
    &&& gr.scores@.len() == scores.len()
    &&& forall|k: int|
        0 <= k < scores.len() ==> (#[trigger] gr.scores@[k]).cause == scores[k].0
            && gr.scores@[k].reason@ == scores[k].1
    &&& gr.winners@.len() == winners.len()
    &&& forall|k: int|
        0 <= k < winners.len() ==> (#[trigger] gr.winners@[k]).color == winners[k].0
            && gr.winners@[k].display_name@ == winners[k].1
}

impl GameResult {
    /// Parses a game result from its `definition` child, its `score`
    /// children and its `winner` children.
    pub fn from_node(node: &XmlNode) -> (r: SCResult<Self>)
        ensures
            r is Ok <==> spec_game_result_parses(*node),
            r is Ok ==> spec_game_result_matches(r.unwrap(), *node),
    {
        let def_node = match node.child_by_name("definition") {
            Ok(n) => n,
            Err(e) => {
                return Err(e);
            },
        };
        let definition = match ScoreDefinition::from_node(def_node) {
            Ok(d) => d,
            Err(e) => {
                return Err(e);
            },
        };
        let score_nodes = node.childs_by_name("score");
        let ghost ssrc = childs_named(node.childs@, "score"@);
        proof {
            assert(ssrc.skip(0) =~= ssrc);
        }
        let mut scores: Vec<PlayerScore> = Vec::new();
        let mut i: usize = 0;
        while i < score_nodes.len()
            invariant
                0 <= i <= score_nodes@.len(),
                ssrc == childs_named(node.childs@, "score"@),
                score_nodes@.len() == ssrc.len(),
                forall|k: int| 0 <= k < score_nodes@.len() ==> *#[trigger] score_nodes@[k] == ssrc[k],
                scores@.len() == i,
                spec_scores_of_nodes(ssrc) is Some <==> spec_scores_of_nodes(ssrc.skip(i as int))
                    is Some,
                spec_scores_of_nodes(ssrc) is Some ==> spec_scores_of_nodes(ssrc).unwrap()
                    =~= Seq::new(
                    scores@.len(),
                    |k: int| (scores@[k].cause, scores@[k].reason@),
                ) + spec_scores_of_nodes(ssrc.skip(i as int)).unwrap(),
            decreases score_nodes@.len() - i,
        {
            proof {
                assert(ssrc.skip(i as int).first() == ssrc[i as int]);
                assert(ssrc.skip(i as int).drop_first() =~= ssrc.skip(i + 1));
                assert(*score_nodes@[i as int] == ssrc[i as int]);
            }
            let ghost scores_old = scores@;
            match PlayerScore::from_node(score_nodes[i]) {
                Ok(sc) => {
                    scores.push(sc);
                },
                Err(e) => {
                    return Err(e);
                },
            }
            proof {
                if spec_scores_of_nodes(ssrc) is Some {
                    assert(Seq::new(scores@.len(), |k: int| (scores@[k].cause, scores@[k].reason@))
                        =~= Seq::new(
                        scores_old.len(),
                        |k: int| (scores_old[k].cause, scores_old[k].reason@),
                    ) + seq![(scores@.last().cause, scores@.last().reason@)]);
                    assert(spec_scores_of_nodes(ssrc).unwrap() =~= Seq::new(
                        scores@.len(),
                        |k: int| (scores@[k].cause, scores@[k].reason@),
                    ) + spec_scores_of_nodes(ssrc.skip(i + 1)).unwrap());
                }
            }
            i += 1;
        }
        proof {
            assert(ssrc.skip(ssrc.len() as int) =~= Seq::<XmlNode>::empty());
            if spec_scores_of_nodes(ssrc) is Some {
                assert(spec_scores_of_nodes(ssrc).unwrap() =~= Seq::new(
                    scores@.len(),
                    |k: int| (scores@[k].cause, scores@[k].reason@),
                ));
            }
        }
        let winner_nodes = node.childs_by_name("winner");
        let ghost wsrc = childs_named(node.childs@, "winner"@);
        proof {
            assert(wsrc.skip(0) =~= wsrc);
        }
        let mut winners: Vec<Player> = Vec::new();
        let mut j: usize = 0;
        while j < winner_nodes.len()
            invariant
                0 <= j <= winner_nodes@.len(),
                wsrc == childs_named(node.childs@, "winner"@),
                winner_nodes@.len() == wsrc.len(),
                forall|k: int|
                    0 <= k < winner_nodes@.len() ==> *#[trigger] winner_nodes@[k] == wsrc[k],
                winners@.len() == j,
                spec_players_of_nodes(wsrc) is Some <==> spec_players_of_nodes(
                    wsrc.skip(j as int),
                ) is Some,
                spec_players_of_nodes(wsrc) is Some ==> spec_players_of_nodes(wsrc).unwrap()
                    =~= Seq::new(
                    winners@.len(),
                    |k: int| (winners@[k].color, winners@[k].display_name@),
                ) + spec_players_of_nodes(wsrc.skip(j as int)).unwrap(),
            decreases winner_nodes@.len() - j,
        {
            proof {
                assert(wsrc.skip(j as int).first() == wsrc[j as int]);
                assert(wsrc.skip(j as int).drop_first() =~= wsrc.skip(j + 1));
                assert(*winner_nodes@[j as int] == wsrc[j as int]);
            }
            let ghost winners_old = winners@;
            match Player::from_node(winner_nodes[j]) {
                Ok(p) => {
                    winners.push(p);
                },
                Err(e) => {
                    return Err(e);
                },
            }
            proof {
                if spec_players_of_nodes(wsrc) is Some {
                    assert(Seq::new(
                        winners@.len(),
                        |k: int| (winners@[k].color, winners@[k].display_name@),
                    ) =~= Seq::new(
                        winners_old.len(),
                        |k: int| (winners_old[k].color, winners_old[k].display_name@),
                    ) + seq![(winners@.last().color, winners@.last().display_name@)]);
                    assert(spec_players_of_nodes(wsrc).unwrap() =~= Seq::new(
                        winners@.len(),
                        |k: int| (winners@[k].color, winners@[k].display_name@),
                    ) + spec_players_of_nodes(wsrc.skip(j + 1)).unwrap());
                }
            }
            j += 1;
        }
        proof {
            assert(wsrc.skip(wsrc.len() as int) =~= Seq::<XmlNode>::empty());
            if spec_players_of_nodes(wsrc) is Some {
                assert(spec_players_of_nodes(wsrc).unwrap() =~= Seq::new(
                    winners@.len(),
                    |k: int| (winners@[k].color, winners@[k].display_name@),
                ));
            }
        }
        Ok(GameResult { definition, scores, winners })
    }
}

impl FromXmlNode for GameResult {
    fn from_node(node: &XmlNode) -> SCResult<Self> {
        GameResult::from_node(node)
    }
}

} // verus!
