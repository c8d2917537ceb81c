use vstd::prelude::*;

use crate::util::error::SCResult;
use crate::util::xml_node::FromXmlNode;
use crate::util::xml_node::XmlNode;
use crate::util::xml_node::attr_lookup;

verus! {

/// A message indicating that the client has joined a room with the
/// given id.
#[derive(Debug, PartialEq, Eq)]
pub struct Joined {
    pub room_id: String,
}

impl Joined {
    /// Parses the message from its `roomId` attribute.
    pub fn from_node(node: &XmlNode) -> (r: SCResult<Self>)
        ensures
            r is Ok <==> attr_lookup(node.attributes@, "roomId"@) is Some,
            r is Ok ==> r.unwrap().room_id@ == attr_lookup(node.attributes@, "roomId"@).unwrap(),
    {
        match node.attribute("roomId") {
            Ok(v) => Ok(Joined { room_id: v.to_owned() }),
            Err(e) => Err(e),
        }
    }
}

impl FromXmlNode for Joined {
    fn from_node(node: &XmlNode) -> SCResult<Self> {
        Joined::from_node(node)
    }
}

} // verus!
