use vstd::prelude::*;

use crate::game::piece::Piece;
use crate::game::piece_type::PieceType;
use crate::game::player_color::PlayerColor;
use crate::game::player_color::color_of_char;
use crate::game::piece_type::type_of_char;
use crate::game::piece::spec_piece_of_node;
use crate::util::error::SCError;
use crate::util::error::SCResult;
use crate::util::text::spec_parse_bool;
use crate::util::text::parse_bool;
use crate::util::xml_node::FromXmlNode;
use crate::util::xml_node::XmlNode;
use crate::util::xml_node::attr_lookup;
use crate::util::xml_node::childs_named;

verus! {

/// The mathematical value of a field: its piece stack (bottom first)
/// and whether the cell is obstructed.
#[verifier::ext_equal]
pub struct FieldV {
    pub stack: Seq<Piece>,
    pub obstructed: bool,
}

impl FieldV {
    /// A field with pieces on it.
    pub open spec fn has_pieces(self) -> bool {
        self.stack.len() > 0
    }

    /// A field counts as occupied when it is obstructed or has pieces.
    pub open spec fn is_occupied(self) -> bool {
        self.obstructed || self.has_pieces()
    }

    /// The opposite of occupied.
    pub open spec fn is_empty(self) -> bool {
        !self.is_occupied()
    }

    /// The top of the piece stack, the only piece that can move.
    pub open spec fn top(self) -> Option<Piece> {
        if self.has_pieces() {
            Some(self.stack.last())
        } else {
            None
        }
    }

    /// The color owning the field: the owner of the top piece.
    pub open spec fn owner(self) -> Option<PlayerColor> {
        match self.top() {
            Some(p) => Some(p.owner),
            None => None,
        }
    }

    /// Whether the given color owns the field.
    pub open spec fn is_owned_by(self, color: PlayerColor) -> bool {
        self.owner() == Some(color)
    }

    /// The empty, unobstructed field.
    pub open spec fn empty() -> FieldV {
        FieldV { stack: Seq::empty(), obstructed: false }
    }
}

/// A field on the game board: an ordered stack of pieces plus an
/// obstruction flag. The field does not know its own position.
#[derive(Debug, PartialEq, Eq, Hash)]
pub struct Field {
    pub piece_stack: Vec<Piece>,
    pub is_obstructed: bool,
}

impl View for Field {
    type V = FieldV;

    open spec fn view(&self) -> FieldV {
        FieldV { stack: self.piece_stack@, obstructed: self.is_obstructed }
    }
}

impl Clone for Field {
    /// Clones the field; the copy has the same stack and flag.
    fn clone(&self) -> (r: Self)
        ensures
            r@ == self@,
    {
        let mut stack: Vec<Piece> = Vec::new();
        let mut i: usize = 0;
        while i < self.piece_stack.len()
            invariant
                0 <= i <= self.piece_stack@.len(),
                stack@ =~= self.piece_stack@.take(i as int),
            decreases self.piece_stack@.len() - i,
        {
            stack.push(self.piece_stack[i]);
            i += 1;
        }
        proof {
            assert(stack@ =~= self.piece_stack@);
        }
        Field { piece_stack: stack, is_obstructed: self.is_obstructed }
    }
}

impl Default for Field {
    /// The default field is empty and unobstructed.
    fn default() -> (r: Self)
        ensures
            r@ =~= FieldV::empty(),
    {
        Field { piece_stack: Vec::new(), is_obstructed: false }
    }
}

/// The field a two-letter ASCII grid token denotes: an empty token is
/// the empty field; an upper-case color letter followed by an
/// upper-case piece letter is a single-piece field; everything else is
/// no field at all.
pub open spec fn spec_token_field(s: Seq<char>) -> Option<FieldV> {
    if s.len() == 0 {
        Some(FieldV::empty())
    } else if s.len() == 2 && is_upper_alpha(s[0]) && is_upper_alpha(s[1]) {
        match (color_of_char(s[0]), type_of_char(s[1])) {
            (Some(c), Some(t)) => Some(
                FieldV { stack: seq![Piece { owner: c, piece_type: t }], obstructed: false },
            ),
            _ => None,
        }
    } else {
        None
    }
}

/// An upper-case ASCII letter.
pub open spec fn is_upper_alpha(c: char) -> bool {
    65 <= c as u32 <= 90
}

impl Field {
    /// Creates a new field from a stack of pieces (bottom first) and an
    /// obstruction flag.
    pub fn new(piece_stack: Vec<Piece>, is_obstructed: bool) -> (r: Self)
        ensures
            r@ == (FieldV { stack: piece_stack@, obstructed: is_obstructed }),
    {
        Self { piece_stack, is_obstructed }
    }

    /// Fetches the player color "owning" the field: the owner of the
    /// top piece.
    pub fn owner(&self) -> (r: Option<PlayerColor>)
        ensures
            r == self@.owner(),
    {
        match self.piece() {
            Some(p) => Some(p.owner),
            None => None,
        }
    }

    /// Tests whether the field is owned by the given color.
    pub fn is_owned_by(&self, color: PlayerColor) -> (r: bool)
        ensures
            r == self@.is_owned_by(color),
    {
        match self.owner() {
            Some(c) => c == color,
            None => false,
        }
    }

    /// Tests whether the field is (directly) obstructed.
    pub fn is_obstructed(&self) -> (r: bool)
        ensures
            r == self@.obstructed,
    {
        self.is_obstructed
    }

    /// Tests whether the field is occupied: obstructed or with pieces.
    pub fn is_occupied(&self) -> (r: bool)
        ensures
            r == self@.is_occupied(),
    {
        self.is_obstructed || self.has_pieces()
    }

    /// Tests whether the field is not occupied.
    pub fn is_empty(&self) -> (r: bool)
        ensures
            r == self@.is_empty(),
    {
        !self.is_occupied()
    }

    /// Fetches the top-most piece.
    pub fn piece(&self) -> (r: Option<Piece>)
        ensures
            r == self@.top(),
    {
        if self.piece_stack.len() == 0 {
            None
        } else {
            Some(self.piece_stack[self.piece_stack.len() - 1])
        }
    }

    /// Tests whether the field contains pieces.
    pub fn has_pieces(&self) -> (r: bool)
        ensures
            r == self@.has_pieces(),
    {
        self.piece_stack.len() > 0
    }

    /// Fetches the piece stack, bottom first.
    pub fn piece_stack(&self) -> (r: &Vec<Piece>)
        ensures
            r@ == self@.stack,
    {
        &self.piece_stack
    }

    /// Pushes a piece onto the top of the piece stack.
    pub fn push(&mut self, piece: Piece)
        ensures
            final(self)@.stack == old(self)@.stack.push(piece),
            final(self)@.obstructed == old(self)@.obstructed,
    {
        self.piece_stack.push(piece);
    }

    /// Pops the top piece from the piece stack, or returns `None` if
    /// the stack is empty.
    pub fn pop(&mut self) -> (r: Option<Piece>)
        ensures
            old(self)@.has_pieces() ==> {
                &&& r == Some(old(self)@.stack.last())
                &&& final(self)@.stack == old(self)@.stack.drop_last()
                &&& final(self)@.obstructed == old(self)@.obstructed
            },
            !old(self)@.has_pieces() ==> r is None && *final(self) == *old(self),
    {
        if self.piece_stack.len() == 0 {
            None
        } else {
            let p = self.piece_stack.remove(self.piece_stack.len() - 1);
            proof {
                assert(self.piece_stack@ =~= old(self).piece_stack@.drop_last());
            }
            Some(p)
        }
    }

    /// Parses a field from a two-character grid token: the first letter
    /// is the owner color, the second the piece type. An empty token is
    /// the empty field. Obstructed fields and stacks have no token.
    pub fn from_str(raw: &str) -> (r: SCResult<Self>)
        ensures
            spec_token_field(raw@) is Some ==> r is Ok && r.unwrap()@ == spec_token_field(
                raw@,
            ).unwrap(),
            spec_token_field(raw@) is None ==> r is Err,
    {
        let n = raw.unicode_len();
        if n == 0 {
            return Ok(Field { piece_stack: Vec::new(), is_obstructed: false });
        }
        if n != 2 {
            return Err(SCError::UnrecognizedLiteral(raw.to_owned()));
        }
        let c0 = raw.get_char(0);
        let c1 = raw.get_char(1);
        let u0 = c0 as u32;
        let u1 = c1 as u32;
        if !(65 <= u0 && u0 <= 90 && 65 <= u1 && u1 <= 90) {
            return Err(SCError::UnrecognizedLiteral(raw.to_owned()));
        }
        let owner = match PlayerColor::from_char(c0) {
            Some(c) => c,
            None => {
                return Err(SCError::UnrecognizedLiteral(raw.to_owned()));
            },
        };
        let piece_type = match PieceType::from_char(c1) {
            Some(t) => t,
            None => {
                return Err(SCError::UnrecognizedLiteral(raw.to_owned()));
            },
        };
        let mut stack: Vec<Piece> = Vec::new();
        stack.push(Piece { owner, piece_type });
        Ok(Field { piece_stack: stack, is_obstructed: false })
    }
}


/// The pieces a list of piece nodes denotes, if every node parses.
pub open spec fn spec_pieces_of_nodes(ns: Seq<XmlNode>) -> Option<Seq<Piece>>
    decreases ns.len(),
{
    if ns.len() == 0 {
        Some(Seq::empty())
    } else {
        match (spec_piece_of_node(ns.first()), spec_pieces_of_nodes(ns.drop_first())) {
            (Some(p), Some(rest)) => Some(seq![p] + rest),
            _ => None,
        }
    }
}

/// The field a node denotes: its stack from the `piece` children, its
/// flag from the `isObstructed` attribute.
pub open spec fn spec_field_of_node(n: XmlNode) -> Option<FieldV> {
    match (spec_pieces_of_nodes(childs_named(n.childs@, "piece"@)), attr_lookup(
        n.attributes@,
        "isObstructed"@,
    )) {
        (Some(ps), Some(b)) => match spec_parse_bool(b) {
            Some(ob) => Some(FieldV { stack: ps, obstructed: ob }),
            None => None,
        },
        _ => None,
    }
}

/// Parses the pieces of a list of piece nodes.
pub(crate) fn parse_piece_nodes(ns: &Vec<&XmlNode>, ghost_src: Ghost<Seq<XmlNode>>) -> (r: SCResult<
    Vec<Piece>,
>)
    requires
        ns@.len() == ghost_src@.len(),
        forall|k: int| 0 <= k < ns@.len() ==> *#[trigger] ns@[k] == ghost_src@[k],
    ensures
        r is Ok <==> spec_pieces_of_nodes(ghost_src@) is Some,
        r is Ok ==> r.unwrap()@ == spec_pieces_of_nodes(ghost_src@).unwrap(),
{
    let ghost src = ghost_src@;
    proof {
        assert(src.skip(0) =~= src);
    }
    let mut out: Vec<Piece> = Vec::new();
    let mut i: usize = 0;
    while i < ns.len()
        invariant
            0 <= i <= ns@.len(),
            src == ghost_src@,
            ns@.len() == src.len(),
            forall|k: int| 0 <= k < ns@.len() ==> *#[trigger] ns@[k] == src[k],
            spec_pieces_of_nodes(src) is Some <==> spec_pieces_of_nodes(src.skip(i as int))
                is Some,
            spec_pieces_of_nodes(src) is Some ==> spec_pieces_of_nodes(src).unwrap() =~= out@
                + spec_pieces_of_nodes(src.skip(i as int)).unwrap(),
        decreases ns@.len() - i,
    {
        proof {
            assert(src.skip(i as int).first() == src[i as int]);
            assert(src.skip(i as int).drop_first() =~= src.skip(i + 1));
        }
        match Piece::from_node(ns[i]) {
            Ok(p) => {
                out.push(p);
            },
            Err(e) => {
                proof {
                    assert(*ns@[i as int] == src[i as int]);
                    assert(spec_piece_of_node(src[i as int]) is None);
                    assert(spec_pieces_of_nodes(src.skip(i as int)) is None);
                }
                return Err(e);
            },
        }
        i += 1;
    }
    proof {
        assert(src.skip(src.len() as int) =~= Seq::<XmlNode>::empty());
        if spec_pieces_of_nodes(src) is Some {
            assert(out@ =~= spec_pieces_of_nodes(src).unwrap());
        }
    }
    Ok(out)
}

impl Field {
    /// Parses a field from its `piece` children and `isObstructed`
    /// attribute.
    pub fn from_node(node: &XmlNode) -> (r: SCResult<Self>)
        ensures
            r is Ok <==> spec_field_of_node(*node) is Some,
            r is Ok ==> r.unwrap()@ == spec_field_of_node(*node).unwrap(),
    {
        let piece_nodes = node.childs_by_name("piece");
        let ghost src = childs_named(node.childs@, "piece"@);
        let piece_stack = match parse_piece_nodes(&piece_nodes, Ghost(src)) {
            Ok(v) => v,
            Err(e) => {
                return Err(e);
            },
        };
        let ob_raw = match node.attribute("isObstructed") {
            Ok(v) => v,
            Err(e) => {
                return Err(e);
            },
        };
        let is_obstructed = match parse_bool(ob_raw) {
            Some(b) => b,
            None => {
                return Err(SCError::MalformedBool(ob_raw.to_owned()));
            },
        };
        Ok(Field { piece_stack, is_obstructed })
    }
}

impl FromXmlNode for Field {
    fn from_node(node: &XmlNode) -> SCResult<Self> {
        Field::from_node(node)
    }
}


} // verus!
