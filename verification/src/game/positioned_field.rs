use vstd::prelude::*;

use crate::game::coords::AxialCoords;
use crate::game::field::Field;
use crate::game::field::FieldV;
use crate::game::piece::is_piece_node;
use crate::util::text::bool_to_string;
use crate::util::text::dec_str_int;
use crate::util::text::i32_to_string;
use crate::util::xml_node::XmlNode;

verus! {

/// Whether `n` serializes an observed field at the given axial
/// coordinates under the given tag name: the cube coordinate triple,
/// the obstruction flag, and one `piece` child per stack entry.
pub open spec fn is_field_node(n: XmlNode, tag: Seq<char>, coords: AxialCoords, f: FieldV) -> bool {
    &&& n.name@ == tag
    &&& n.content@ == ""@
    &&& n.attributes@.len() == 5
    &&& n.attributes@[0].0@ == "class"@ && n.attributes@[0].1@ == "field"@
    &&& n.attributes@[1].0@ == "x"@ && n.attributes@[1].1@ == dec_str_int(coords.x as int)
    &&& n.attributes@[2].0@ == "y"@ && n.attributes@[2].1@ == dec_str_int(coords.y as int)
    &&& n.attributes@[3].0@ == "z"@ && n.attributes@[3].1@ == dec_str_int(-(coords.x + coords.y))
    &&& n.attributes@[4].0@ == "isObstructed"@ && n.attributes@[4].1@ == (if f.obstructed {
        "true"@
    } else {
        "false"@
    })
    &&& n.childs@.len() == f.stack.len()
    &&& forall|k: int| 0 <= k < f.stack.len() ==> is_piece_node(#[trigger] n.childs@[k], f.stack[k])
}

/// An owned field together with its position, as observed when a move
/// was generated.
#[derive(Debug, PartialEq, Eq)]
pub struct PositionedField {
    pub field: Field,
    pub coords: AxialCoords,
}

impl Clone for PositionedField {
    /// Clones the positioned field; the copy observes the same cell.
    fn clone(&self) -> (r: Self)
        ensures
            r.coords == self.coords,
            r.field@ == self.field@,
    {
        PositionedField { field: self.field.clone(), coords: self.coords }
    }
}


impl PositionedField {
    /// Serializes the observed field under the given tag name, with
    /// cube coordinates and the piece stack as children.
    pub fn to_xml(&self, tag: &str) -> (r: XmlNode)
        requires
            i32::MIN <= -(self.coords.x + self.coords.y) <= i32::MAX,
        ensures
            is_field_node(r, tag@, self.coords, self.field@),
    {
        let xs = i32_to_string(self.coords.x);
        let ys = i32_to_string(self.coords.y);
        let z64: i64 = -(self.coords.x as i64 + self.coords.y as i64);
        let zs = i32_to_string(z64 as i32);
        let obs = bool_to_string(self.field.is_obstructed());
        let mut b = XmlNode::new(tag).attribute("class", "field").attribute(
            "x",
            xs.as_str(),
        ).attribute("y", ys.as_str()).attribute("z", zs.as_str()).attribute(
            "isObstructed",
            obs.as_str(),
        );
        let stack = self.field.piece_stack();
        let mut i: usize = 0;
        proof {
            reveal_strlit("field");
            reveal_strlit("");
        }
        while i < stack.len()
            invariant
                0 <= i <= stack@.len(),
                stack@ == self.field@.stack,
                b.name@ == tag@,
                b.content@ == ""@,
                b.attributes@.len() == 5,
                b.attributes@[0].0@ == "class"@ && b.attributes@[0].1@ == "field"@,
                b.attributes@[1].0@ == "x"@ && b.attributes@[1].1@ == dec_str_int(
                    self.coords.x as int,
                ),
                b.attributes@[2].0@ == "y"@ && b.attributes@[2].1@ == dec_str_int(
                    self.coords.y as int,
                ),
                b.attributes@[3].0@ == "z"@ && b.attributes@[3].1@ == dec_str_int(
                    -(self.coords.x + self.coords.y),
                ),
                b.attributes@[4].0@ == "isObstructed"@ && b.attributes@[4].1@ == (
                if self.field@.obstructed {
                    "true"@
                } else {
                    "false"@
                }),
                b.childs@.len() == i,
                forall|k: int|
                    0 <= k < i ==> is_piece_node(#[trigger] b.childs@[k], stack@[k]),
            decreases stack@.len() - i,
        {
            let pn = stack[i].to_xml();
            b = b.child(pn);
            i += 1;
        }
        b.build()
    }
}


} // verus!
