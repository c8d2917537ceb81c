use vstd::prelude::*;

use crate::game::game_move::Move;
use crate::game::game_move::is_move_node;
use crate::protocol::data::Data;
use crate::protocol::data::spec_data_matches;
use crate::protocol::data::spec_data_parses;
use crate::util::error::SCResult;
use crate::util::xml_node::FromXmlNode;
use crate::util::xml_node::XmlNode;
use crate::util::xml_node::attr_lookup;
use crate::util::xml_node::child_lookup;

verus! {

/// A message in a room together with some data.
#[derive(Debug)]
pub struct Room {
    pub room_id: String,
    pub data: Data,
}

/// Whether a whole room node parses: its `roomId` attribute and a
/// parsing `data` child.
pub open spec fn spec_room_parses(n: XmlNode) -> bool {
    &&& attr_lookup(n.attributes@, "roomId"@) is Some
    &&& child_lookup(n.childs@, "data"@) is Some
    &&& spec_data_parses(child_lookup(n.childs@, "data"@).unwrap())
}

impl Room {
    /// Parses a room message from its `roomId` attribute and `data`
    /// child.
    pub fn from_node(node: &XmlNode) -> (r: SCResult<Self>)
        ensures
            r is Ok <==> spec_room_parses(*node),
            r is Ok ==> {
                &&& r.unwrap().room_id@ == attr_lookup(node.attributes@, "roomId"@).unwrap()
                &&& spec_data_matches(
                    r.unwrap().data,
                    child_lookup(node.childs@, "data"@).unwrap(),
                )
            },
    {
        let room_id = match node.attribute("roomId") {
            Ok(v) => v.to_owned(),
            Err(e) => {
                return Err(e);
            },
        };
        let data_node = match node.child_by_name("data") {
            Ok(n) => n,
            Err(e) => {
                return Err(e);
            },
        };
        match Data::from_node(data_node) {
            Ok(data) => Ok(Room { room_id, data }),
            Err(e) => Err(e),
        }
    }

    /// Serializes the room message; only a move can be sent back. The
    /// result is a `room` element with the room id and the serialized
    /// move as its one child.
    pub fn to_xml(&self) -> (r: SCResult<XmlNode>)
        requires
            self.data matches Data::Move(mv) ==> match mv {
                Move::SetMove { destination, .. } => i32::MIN <= -(destination.coords.x
                    + destination.coords.y) <= i32::MAX,
                Move::DragMove { start, destination } => i32::MIN <= -(start.coords.x
                    + start.coords.y) <= i32::MAX && i32::MIN <= -(destination.coords.x
                    + destination.coords.y) <= i32::MAX,
            },
        ensures
            r is Ok <==> self.data matches Data::Move(_),
            r is Ok ==> {
                let n = r.unwrap();
                &&& n.name@ == "room"@
                &&& n.attributes@.len() == 1
                &&& n.attributes@[0].0@ == "roomId"@
                &&& n.attributes@[0].1@ == self.room_id@
                &&& n.childs@.len() == 1
                &&& (self.data matches Data::Move(mv) ==> is_move_node(n.childs@[0], mv))
            },
    {
        let data_node = match self.data.to_xml() {
            Ok(n) => n,
            Err(e) => {
                return Err(e);
            },
        };
        Ok(XmlNode::new("room").attribute("roomId", self.room_id.as_str()).child(data_node).build())
    }
}

impl FromXmlNode for Room {
    fn from_node(node: &XmlNode) -> SCResult<Self> {
        Room::from_node(node)
    }
}

} // verus!
