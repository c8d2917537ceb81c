use vstd::prelude::*;

use crate::game::coords::AxialCoords;
use crate::game::field::FieldV;
use crate::game::piece::Piece;
use crate::game::positioned_field::PositionedField;
use crate::game::positioned_field::is_field_node;
use crate::game::piece::is_piece_node;
use crate::util::xml_node::XmlNode;

verus! {

/// Whether `n` is the XML serialization of a move: a `data` element
/// tagged `setmove` with the piece and the destination, or `dragmove`
/// with the start and the destination.
pub open spec fn is_move_node(n: XmlNode, mv: Move) -> bool {
    match mv {
        Move::SetMove { piece, destination } => {
            &&& n.name@ == "data"@
            &&& n.content@ == ""@
            &&& n.attributes@.len() == 1
            &&& n.attributes@[0].0@ == "class"@ && n.attributes@[0].1@ == "setmove"@
            &&& n.childs@.len() == 2
            &&& is_piece_node(n.childs@[0], piece)
            &&& is_field_node(n.childs@[1], "destination"@, destination.coords, destination.field@)
        },
        Move::DragMove { start, destination } => {
            &&& n.name@ == "data"@
            &&& n.content@ == ""@
            &&& n.attributes@.len() == 1
            &&& n.attributes@[0].0@ == "class"@ && n.attributes@[0].1@ == "dragmove"@
            &&& n.childs@.len() == 2
            &&& is_field_node(n.childs@[0], "start"@, start.coords, start.field@)
            &&& is_field_node(n.childs@[1], "destination"@, destination.coords, destination.field@)
        },
    }
}

/// A transition between two game states: either a piece is set from
/// the undeployed pool onto the board, or an already-placed piece is
/// dragged to another cell.
#[derive(Debug, PartialEq, Eq)]
pub enum Move {
    SetMove { piece: Piece, destination: PositionedField },
    DragMove { start: PositionedField, destination: PositionedField },
}

impl Clone for Move {
    /// Clones the move; the copy names the same cells and pieces.
    fn clone(&self) -> (r: Self)
        ensures
            forall|p: Piece, c: AxialCoords, f: FieldV|
                is_set_move(*self, p, c, f) == #[trigger] is_set_move(r, p, c, f),
            forall|sc: AxialCoords, sf: FieldV, dc: AxialCoords, df: FieldV|
                is_drag_move(*self, sc, sf, dc, df) == #[trigger] is_drag_move(r, sc, sf, dc, df),
    {
        match self {
            Move::SetMove { piece, destination } => Move::SetMove {
                piece: *piece,
                destination: destination.clone(),
            },
            Move::DragMove { start, destination } => Move::DragMove {
                start: start.clone(),
                destination: destination.clone(),
            },
        }
    }
}

/// Whether `mv` sets `piece` onto the cell at `c`, observed with field
/// value `f`.
pub open spec fn is_set_move(mv: Move, piece: Piece, c: AxialCoords, f: FieldV) -> bool {
    match mv {
        Move::SetMove { piece: p, destination: d } => p == piece && d.coords == c && d.field@ == f,
        _ => false,
    }
}

/// Whether `mv` drags the piece at `sc` (observed as `sf`) to `dc`
/// (observed as `df`).
pub open spec fn is_drag_move(
    mv: Move,
    sc: AxialCoords,
    sf: FieldV,
    dc: AxialCoords,
    df: FieldV,
) -> bool {
    match mv {
        Move::DragMove { start: s, destination: d } => s.coords == sc && s.field@ == sf && d.coords
            == dc && d.field@ == df,
        _ => false,
    }
}


impl Move {
    /// Serializes the move as a `data` element, tagged by its kind.
    pub fn to_xml(&self) -> (r: XmlNode)
        requires
            match *self {
                Move::SetMove { destination, .. } => i32::MIN <= -(destination.coords.x
                    + destination.coords.y) <= i32::MAX,
                Move::DragMove { start, destination } => i32::MIN <= -(start.coords.x
                    + start.coords.y) <= i32::MAX && i32::MIN <= -(destination.coords.x
                    + destination.coords.y) <= i32::MAX,
            },
        ensures
            is_move_node(r, *self),
    {
        match self {
            Move::SetMove { piece, destination } => XmlNode::new("data").attribute(
                "class",
                "setmove",
            ).child(piece.to_xml()).child(destination.to_xml("destination")).build(),
            Move::DragMove { start, destination } => XmlNode::new("data").attribute(
                "class",
                "dragmove",
            ).child(start.to_xml("start")).child(destination.to_xml("destination")).build(),
        }
    }
}


} // verus!
