use vstd::prelude::*;

use crate::game::player_color::PlayerColor;
use crate::game::player_color::color_of_name;
use crate::util::error::SCResult;
use crate::util::xml_node::FromXmlNode;
use crate::util::xml_node::XmlNode;
use crate::util::xml_node::attr_lookup;

verus! {

/// The player a node with `color` and `displayName` attributes
/// denotes.
pub open spec fn spec_player_of_node(n: XmlNode) -> Option<(PlayerColor, Seq<char>)> {
    match (attr_lookup(n.attributes@, "color"@), attr_lookup(n.attributes@, "displayName"@)) {
        (Some(c), Some(d)) => match color_of_name(c) {
            Some(color) => Some((color, d)),
            None => None,
        },
        _ => None,
    }
}

/// Metadata about a player: the color it plays and its display name.
#[derive(Debug, PartialEq, Eq, Hash)]
pub struct Player {
    pub color: PlayerColor,
    pub display_name: String,
}

impl Clone for Player {
    /// Clones the player; the copy carries the same color and name.
    fn clone(&self) -> (r: Self)
        ensures
            r.color == self.color,
            r.display_name@ == self.display_name@,
    {
        Player { color: self.color, display_name: self.display_name.clone() }
    }
}


impl Player {
    /// Parses a player from its `color` and `displayName` attributes.
    pub fn from_node(node: &XmlNode) -> (r: SCResult<Self>)
        ensures
            r is Ok <==> spec_player_of_node(*node) is Some,
            r is Ok ==> {
                &&& r.unwrap().color == spec_player_of_node(*node).unwrap().0
                &&& r.unwrap().display_name@ == spec_player_of_node(*node).unwrap().1
            },
    {
        let color_raw = match node.attribute("color") {
            Ok(v) => v,
            Err(e) => {
                return Err(e);
            },
        };
        let display_raw = match node.attribute("displayName") {
            Ok(v) => v,
            Err(e) => {
                return Err(e);
            },
        };
        let color = match PlayerColor::from_str(color_raw) {
            Ok(c) => c,
            Err(e) => {
                return Err(e);
            },
        };
        Ok(Player { color, display_name: display_raw.to_owned() })
    }
}

impl FromXmlNode for Player {
    fn from_node(node: &XmlNode) -> SCResult<Self> {
        Player::from_node(node)
    }
}


} // verus!
