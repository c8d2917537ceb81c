use vstd::prelude::*;

use crate::game::piece_type::PieceType;
use crate::game::piece_type::type_of_name;
use crate::game::player_color::PlayerColor;
use crate::game::player_color::color_of_name;
use crate::util::error::SCResult;
use crate::util::xml_node::FromXmlNode;
use crate::util::xml_node::XmlNode;
use crate::util::xml_node::attr_lookup;

verus! {

/// A game piece: an owner and a piece type, with structural equality.
#[derive(Debug, Copy, Clone, PartialEq, Eq, Hash, Structural)]
pub struct Piece {
    pub owner: PlayerColor,
    pub piece_type: PieceType,
}

/// The piece a node with `owner` and `type` attributes denotes, if
/// both literals are recognized.
pub open spec fn spec_piece_of_node(n: XmlNode) -> Option<Piece> {
    match (attr_lookup(n.attributes@, "owner"@), attr_lookup(n.attributes@, "type"@)) {
        (Some(o), Some(t)) => match (color_of_name(o), type_of_name(t)) {
            (Some(c), Some(ty)) => Some(Piece { owner: c, piece_type: ty }),
            _ => None,
        },
        _ => None,
    }
}

impl Piece {
    /// Parses a piece from its `owner` and `type` attributes.
    pub fn from_node(node: &XmlNode) -> (r: SCResult<Self>)
        ensures
            r is Ok <==> spec_piece_of_node(*node) is Some,
            r is Ok ==> r.unwrap() == spec_piece_of_node(*node).unwrap(),
    {
        let owner_raw = match node.attribute("owner") {
            Ok(v) => v,
            Err(e) => {
                return Err(e);
            },
        };
        let type_raw = match node.attribute("type") {
            Ok(v) => v,
            Err(e) => {
                return Err(e);
            },
        };
        let owner = match PlayerColor::from_str(owner_raw) {
            Ok(c) => c,
            Err(e) => {
                return Err(e);
            },
        };
        let piece_type = match PieceType::from_str(type_raw) {
            Ok(t) => t,
            Err(e) => {
                return Err(e);
            },
        };
        Ok(Piece { owner, piece_type })
    }
}

impl FromXmlNode for Piece {
    fn from_node(node: &XmlNode) -> SCResult<Self> {
        Piece::from_node(node)
    }
}


/// Whether `n` is the XML serialization of the piece `p`: a `piece`
/// element whose `owner` and `type` attributes carry the protocol
/// literals.
pub open spec fn is_piece_node(n: XmlNode, p: Piece) -> bool {
    &&& n.name@ == "piece"@
    &&& n.content@ == ""@
    &&& n.attributes@.len() == 2
    &&& n.attributes@[0].0@ == "owner"@
    &&& n.attributes@[0].1@ == p.owner.spec_name()
    &&& n.attributes@[1].0@ == "type"@
    &&& n.attributes@[1].1@ == p.piece_type.spec_name()
    &&& n.childs@.len() == 0
}

impl Piece {
    /// Serializes the piece as a `piece` element.
    pub fn to_xml(&self) -> (r: XmlNode)
        ensures
            is_piece_node(r, *self),
    {
        let owner = self.owner.to_name();
        let ty = self.piece_type.to_name();
        XmlNode::new("piece").attribute("owner", owner.as_str()).attribute(
            "type",
            ty.as_str(),
        ).build()
    }
}


} // verus!
