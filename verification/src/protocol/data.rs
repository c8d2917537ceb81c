use vstd::prelude::*;

use crate::game::game_move::Move;
use crate::game::game_move::is_move_node;
use crate::game::game_state::GameState;
use crate::game::game_state::spec_game_state_parses;
use crate::game::game_state::spec_state_matches;
use crate::protocol::game_result::spec_game_result_matches;
use crate::protocol::game_result::spec_game_result_parses;
use crate::game::player_color::PlayerColor;
use crate::game::player_color::color_of_name;
use crate::protocol::game_result::GameResult;
use crate::util::error::SCError;
use crate::util::error::SCResult;
use crate::util::text::str_eq;
use crate::util::xml_node::FromXmlNode;
use crate::util::xml_node::XmlNode;
use crate::util::xml_node::attr_lookup;
use crate::util::xml_node::child_lookup;

verus! {

/// A polymorphic container for game data used by the protocol,
/// distinguished by its `class` attribute.
#[derive(Debug)]
pub enum Data {
    WelcomeMessage { color: PlayerColor },
    Memento { state: GameState },
    Move(Move),
    MoveRequest,
    GameResult(GameResult),
    Error { message: String },
}

/// Whether a data node parses, per its `class` attribute.
pub open spec fn spec_data_parses(n: XmlNode) -> bool {
    match attr_lookup(n.attributes@, "class"@) {
        Some(class) => if class == "welcomeMessage"@ {
            &&& attr_lookup(n.attributes@, "color"@) is Some
            &&& color_of_name(attr_lookup(n.attributes@, "color"@).unwrap()) is Some
        } else if class == "memento"@ {
            &&& child_lookup(n.childs@, "state"@) is Some
            &&& spec_game_state_parses(child_lookup(n.childs@, "state"@).unwrap())
        } else if class == "sc.framework.plugins.protocol.MoveRequest"@ {
            true
        } else if class == "result"@ {
            spec_game_result_parses(n)
        } else if class == "error"@ {
            attr_lookup(n.attributes@, "message"@) is Some
        } else {
            false
        },
        None => false,
    }
}

/// Whether the parsed data carries exactly what the node describes,
/// per its `class` attribute.
pub open spec fn spec_data_matches(d: Data, n: XmlNode) -> bool {
    let class = attr_lookup(n.attributes@, "class"@).unwrap();
    if class == "welcomeMessage"@ {
        &&& d matches Data::WelcomeMessage { color } && color == color_of_name(
            attr_lookup(n.attributes@, "color"@).unwrap(),
        ).unwrap()
    } else if class == "memento"@ {
        &&& d matches Data::Memento { state } && spec_state_matches(
            state,
            child_lookup(n.childs@, "state"@).unwrap(),
        )
    } else if class == "sc.framework.plugins.protocol.MoveRequest"@ {
        d matches Data::MoveRequest
    } else if class == "result"@ {
        &&& d matches Data::GameResult(result) && spec_game_result_matches(result, n)
    } else if class == "error"@ {
        &&& d matches Data::Error { message } && message@ == attr_lookup(
            n.attributes@,
            "message"@,
        ).unwrap()
    } else {
        false
    }
}

impl Data {
    /// Parses room data, dispatching on the `class` attribute:
    /// a welcome message, a state memento, a move request, a game
    /// result, or a server error.
    pub fn from_node(node: &XmlNode) -> (r: SCResult<Self>)
        ensures
            r is Ok <==> spec_data_parses(*node),
            r is Ok ==> spec_data_matches(r.unwrap(), *node),
    {
        proof {
            reveal_strlit("welcomeMessage");
            reveal_strlit("memento");
            reveal_strlit("sc.framework.plugins.protocol.MoveRequest");
            reveal_strlit("result");
            reveal_strlit("error");
            assert("welcomeMessage"@.len() == 14);
            assert("memento"@.len() == 7);
            assert("sc.framework.plugins.protocol.MoveRequest"@.len() == 41);
            assert("result"@.len() == 6);
            assert("error"@.len() == 5);
        }
        let class = match node.attribute("class") {
            Ok(v) => v,
            Err(e) => {
                return Err(e);
            },
        };
        if str_eq(class, "welcomeMessage") {
            let color_raw = match node.attribute("color") {
                Ok(v) => v,
                Err(e) => {
                    return Err(e);
                },
            };
            match PlayerColor::from_str(color_raw) {
                Ok(color) => Ok(Data::WelcomeMessage { color }),
                Err(e) => Err(e),
            }
        } else if str_eq(class, "memento") {
            let state_node = match node.child_by_name("state") {
                Ok(n) => n,
                Err(e) => {
                    return Err(e);
                },
            };
            proof {
                assert(*state_node == child_lookup(node.childs@, "state"@).unwrap());
            }
            match GameState::from_node(state_node) {
                Ok(state) => {
                    proof {
                        assert(spec_game_state_parses(
                            child_lookup(node.childs@, "state"@).unwrap(),
                        ));
                    }
                    Ok(Data::Memento { state })
                },
                Err(e) => {
                    proof {
                        assert(!spec_game_state_parses(
                            child_lookup(node.childs@, "state"@).unwrap(),
                        ));
                    }
                    Err(e)
                },
            }
        } else if str_eq(class, "sc.framework.plugins.protocol.MoveRequest") {
            Ok(Data::MoveRequest)
        } else if str_eq(class, "result") {
            match GameResult::from_node(node) {
                Ok(result) => Ok(Data::GameResult(result)),
                Err(e) => Err(e),
            }
        } else if str_eq(class, "error") {
            match node.attribute("message") {
                Ok(message) => Ok(Data::Error { message: message.to_owned() }),
                Err(e) => Err(e),
            }
        } else {
            Err(SCError::UnrecognizedLiteral(class.to_owned()))
        }
    }

    /// Serializes room data: only a move can be sent back.
    pub fn to_xml(&self) -> (r: SCResult<XmlNode>)
        requires
            *self matches Data::Move(mv) ==> match mv {
                Move::SetMove { destination, .. } => i32::MIN <= -(destination.coords.x
                    + destination.coords.y) <= i32::MAX,
                Move::DragMove { start, destination } => i32::MIN <= -(start.coords.x
                    + start.coords.y) <= i32::MAX && i32::MIN <= -(destination.coords.x
                    + destination.coords.y) <= i32::MAX,
            },
        ensures
            r is Ok <==> *self matches Data::Move(_),
            *self matches Data::Move(mv) ==> r is Ok && is_move_node(r.unwrap(), mv),
    {
        match self {
            Data::Move(mv) => Ok(mv.to_xml()),
            _ => Err(SCError::Custom(String::new())),
        }
    }
}

impl FromXmlNode for Data {
    fn from_node(node: &XmlNode) -> SCResult<Self> {
        Data::from_node(node)
    }
}

} // verus!
