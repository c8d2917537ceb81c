//! The game board: a sparse mapping from axial coordinates to fields,
//! with occupancy queries, neighbor queries, connectivity search and
//! slide-feasibility tests.

use vstd::prelude::*;
use itertools::Itertools;
use vstd::set_lib::lemma_len_subset;
use vstd::set_lib::lemma_subset_equality;

use crate::game::coords::Adjacentable;
use crate::game::coords::AxialCoords;
use crate::game::coords::DoubledCoords;
use crate::game::coords::axial_of_doubled;
use crate::game::coords::div2_trunc;
use crate::game::coords::forms_line_ax;
use crate::game::coords::is_neighbor;
use crate::game::coords::line_cell_ax;
use crate::game::coords::line_len_ax;
use crate::game::coords::sgn;
use crate::game::field::Field;
use crate::game::field::FieldV;
use crate::game::field::spec_token_field;
use crate::util::text::spec_split;
use crate::util::text::spec_trim;
use crate::util::text::split_char;
use crate::util::text::trim;
use crate::game::piece::Piece;
use crate::game::piece_type::PieceType;
use crate::game::player_color::PlayerColor;
use crate::util::error::SCError;
use crate::util::error::SCResult;
use crate::util::text::spec_parse_i32;
use crate::util::xml_node::FromXmlNode;
use crate::util::xml_node::XmlNode;
use crate::util::xml_node::attr_lookup;
use crate::util::xml_node::childs_named;
use crate::game::field::spec_field_of_node;

verus! {

/// The mathematical value of a board: a finite map from coordinates to
/// field values. Coordinates absent from the map do not exist on the
/// board, which is different from a present-but-empty field.
pub type BoardMap = Map<AxialCoords, FieldV>;

/// Folds an association list into a map, later entries winning.
pub open spec fn fields_map(s: Seq<(AxialCoords, Field)>) -> BoardMap
    decreases s.len(),
{
    if s.len() == 0 {
        Map::empty()
    } else {
        fields_map(s.drop_last()).insert(s.last().0, s.last().1@)
    }
}

/// No coordinate occurs twice.
pub open spec fn unique_keys(s: Seq<(AxialCoords, Field)>) -> bool {
    forall|i: int, j: int| 0 <= i < j < s.len() ==> (#[trigger] s[i]).0 != (#[trigger] s[j]).0
}

proof fn lemma_fields_map_dom(s: Seq<(AxialCoords, Field)>)
    ensures
        forall|c: AxialCoords|
            fields_map(s).dom().contains(c) <==> exists|i: int|
                0 <= i < s.len() && (#[trigger] s[i]).0 == c,
        fields_map(s).dom().finite(),
    decreases s.len(),
{
    if s.len() > 0 {
        lemma_fields_map_dom(s.drop_last());
        assert forall|c: AxialCoords| fields_map(s).dom().contains(c) implies exists|i: int|
            0 <= i < s.len() && (#[trigger] s[i]).0 == c by {
            if c == s.last().0 {
                assert(s[s.len() - 1].0 == c);
            } else {
                let i = choose|i: int| 0 <= i < s.len() - 1 && (#[trigger] s.drop_last()[i]).0 == c;
                assert(s[i].0 == c);
            }
        }
        assert forall|c: AxialCoords|
            (exists|i: int| 0 <= i < s.len() && (#[trigger] s[i]).0 == c) implies fields_map(
            s,
        ).dom().contains(c) by {
            let i = choose|i: int| 0 <= i < s.len() && (#[trigger] s[i]).0 == c;
            if i < s.len() - 1 {
                assert(s.drop_last()[i].0 == c);
            }
        }
    }
}

proof fn lemma_fields_map_get(s: Seq<(AxialCoords, Field)>, i: int)
    requires
        unique_keys(s),
        0 <= i < s.len(),
    ensures
        fields_map(s).dom().contains(s[i].0),
        fields_map(s)[s[i].0] == s[i].1@,
    decreases s.len(),
{
    if i == s.len() - 1 {
    } else {
        lemma_fields_map_get(s.drop_last(), i);
        assert(s.drop_last()[i] == s[i]);
        assert(s[i].0 != s.last().0);
    }
}

proof fn lemma_fields_map_len(s: Seq<(AxialCoords, Field)>)
    requires
        unique_keys(s),
    ensures
        fields_map(s).dom().finite(),
        fields_map(s).dom().len() == s.len(),
    decreases s.len(),
{
    lemma_fields_map_dom(s);
    if s.len() > 0 {
        lemma_fields_map_len(s.drop_last());
        lemma_fields_map_dom(s.drop_last());
        assert(!fields_map(s.drop_last()).dom().contains(s.last().0));
    }
}

proof fn lemma_fields_map_update(s: Seq<(AxialCoords, Field)>, i: int, f: Field)
    requires
        unique_keys(s),
        0 <= i < s.len(),
    ensures
        fields_map(s.update(i, (s[i].0, f))) =~= fields_map(s).insert(s[i].0, f@),
    decreases s.len(),
{
    let t = s.update(i, (s[i].0, f));
    if i == s.len() - 1 {
        assert(t.drop_last() =~= s.drop_last());
        assert(t.last() == (s[i].0, f));
    } else {
        lemma_fields_map_update(s.drop_last(), i, f);
        assert(t.drop_last() =~= s.drop_last().update(i, (s[i].0, f)));
        assert(t.last() == s.last());
        assert(s[i].0 != s.last().0);
        assert(fields_map(t) =~= fields_map(s.drop_last().update(i, (s[i].0, f))).insert(
            s.last().0,
            s.last().1@,
        ));
    }
}

/// Two association lists whose entries agree on keys and field values
/// fold to the same map.
proof fn lemma_fields_map_congruent(s1: Seq<(AxialCoords, Field)>, s2: Seq<(AxialCoords, Field)>)
    requires
        s1.len() == s2.len(),
        forall|i: int|
            0 <= i < s1.len() ==> (#[trigger] s1[i]).0 == s2[i].0 && s1[i].1@ == s2[i].1@,
    ensures
        fields_map(s1) =~= fields_map(s2),
    decreases s1.len(),
{
    if s1.len() > 0 {
        lemma_fields_map_congruent(s1.drop_last(), s2.drop_last());
        assert(s1[s1.len() - 1].0 == s2[s1.len() - 1].0);
        assert(s1[s1.len() - 1].1@ == s2[s1.len() - 1].1@);
    }
}

// ---------------------------------------------------------------------
// Spec-level board queries
// ---------------------------------------------------------------------

/// Whether the cell exists and holds pieces (the swarm relation cares
/// about pieces, not about obstructions).
pub open spec fn cell_has_pieces(m: BoardMap, c: AxialCoords) -> bool {
    m.dom().contains(c) && m[c].has_pieces()
}

/// Whether a position blocks movement: occupied, or off the board.
pub open spec fn cell_occupied(m: BoardMap, c: AxialCoords) -> bool {
    !m.dom().contains(c) || m[c].is_occupied()
}

/// Whether the cell exists and is empty.
pub open spec fn cell_empty(m: BoardMap, c: AxialCoords) -> bool {
    m.dom().contains(c) && m[c].is_empty()
}

/// Whether the cell exists and is owned by `color`.
pub open spec fn cell_owned_by(m: BoardMap, c: AxialCoords, color: PlayerColor) -> bool {
    m.dom().contains(c) && m[c].is_owned_by(color)
}

/// Whether some board cell holds pieces.
pub open spec fn board_has_pieces(m: BoardMap) -> bool {
    exists|c: AxialCoords| cell_has_pieces(m, c)
}

/// Whether some neighbor of `c` is owned by `color`.
pub open spec fn next_to(m: BoardMap, color: PlayerColor, c: AxialCoords) -> bool {
    exists|n: AxialCoords| is_neighbor(c, n) && #[trigger] cell_owned_by(m, n, color)
}

/// Whether some neighbor of `c` holds pieces.
pub open spec fn next_to_piece(m: BoardMap, c: AxialCoords) -> bool {
    exists|n: AxialCoords| is_neighbor(c, n) && #[trigger] cell_has_pieces(m, n)
}

/// Whether a bee of the given color stands anywhere in a piece stack.
pub open spec fn placed_bee(m: BoardMap, color: PlayerColor) -> bool {
    exists|c: AxialCoords|
        #[trigger] m.dom().contains(c) && m[c].stack.contains(
            Piece { owner: color, piece_type: PieceType::Bee },
        )
}

/// Whether `c` is an empty cell on the swarm's boundary: empty, and
/// adjacent to an occupied cell.
pub open spec fn on_boundary(m: BoardMap, c: AxialCoords) -> bool {
    cell_empty(m, c) && exists|o: AxialCoords|
        #[trigger] is_neighbor(o, c) && m.dom().contains(o) && m[o].is_occupied()
}

/// The listing contract shared by the board's enumeration functions:
/// `s` holds exactly the cells of `m` satisfying `pred`, each paired
/// with its field value, each coordinate once.
pub open spec fn lists_cells(
    m: BoardMap,
    s: Seq<(AxialCoords, Field)>,
    pred: spec_fn(AxialCoords, FieldV) -> bool,
) -> bool {
    &&& forall|i: int|
        0 <= i < s.len() ==> {
            &&& m.dom().contains((#[trigger] s[i]).0)
            &&& s[i].1@ == m[s[i].0]
            &&& pred(s[i].0, s[i].1@)
        }
    &&& forall|c: AxialCoords|
        m.dom().contains(c) && pred(c, #[trigger] m[c]) ==> exists|i: int|
            0 <= i < s.len() && (#[trigger] s[i]).0 == c
    &&& forall|i: int, j: int| 0 <= i < j < s.len() ==> (#[trigger] s[i]).0 != (#[trigger] s[j]).0
}

// ---------------------------------------------------------------------
// The board itself
// ---------------------------------------------------------------------

/// The game board: a sparse hex grid. A coordinate absent from the
/// board does not exist (it is out of bounds), which is distinct from a
/// present-but-empty field.
#[derive(Debug)]
pub struct Board {
    fields: Vec<(AxialCoords, Field)>,
}

impl View for Board {
    type V = BoardMap;

    closed spec fn view(&self) -> BoardMap {
        fields_map(self.fields@)
    }
}

impl Clone for Board {
    /// Clones the board; the copy denotes the same map.
    fn clone(&self) -> (r: Self)
        ensures
            r@ == self@,
    {
        proof {
            use_type_invariant(self);
        }
        let mut fields: Vec<(AxialCoords, Field)> = Vec::new();
        let mut i: usize = 0;
        while i < self.fields.len()
            invariant
                0 <= i <= self.fields@.len(),
                fields@.len() == i,
                forall|k: int|
                    0 <= k < i ==> (#[trigger] fields@[k]).0 == self.fields@[k].0
                        && fields@[k].1@ == self.fields@[k].1@,
            decreases self.fields@.len() - i,
        {
            let pair = (self.fields[i].0, self.fields[i].1.clone());
            fields.push(pair);
            i += 1;
        }
        proof {
            lemma_fields_map_congruent(fields@, self.fields@);
        }
        Board { fields }
    }
}

impl Board {
    #[verifier::type_invariant]
    spec fn wf(&self) -> bool {
        unique_keys(self.fields@)
    }

    /// The association list index holding `coords`, if any.
    fn find_index(&self, coords: AxialCoords) -> (r: Option<usize>)
        ensures
            match r {
                Some(i) => {
                    &&& i < self.fields@.len()
                    &&& self.fields@[i as int].0 == coords
                    &&& self@.dom().contains(coords)
                    &&& self@[coords] == self.fields@[i as int].1@
                },
                None => !self@.dom().contains(coords),
            },
    {
        proof {
            use_type_invariant(self);
            lemma_fields_map_dom(self.fields@);
        }
        let mut i: usize = 0;
        while i < self.fields.len()
            invariant
                0 <= i <= self.fields@.len(),
                unique_keys(self.fields@),
                self@ == fields_map(self.fields@),
                forall|k: int| 0 <= k < i ==> (#[trigger] self.fields@[k]).0 != coords,
            decreases self.fields@.len() - i,
        {
            if self.fields[i].0 == coords {
                proof {
                    lemma_fields_map_get(self.fields@, i as int);
                }
                return Some(i);
            }
            i += 1;
        }
        None
    }

    /// Creates a new board with the given fields; on a repeated
    /// coordinate the later entry wins, as when collecting into a map.
    pub fn new(fields: Vec<(AxialCoords, Field)>) -> (r: Self)
        ensures
            r@ == fields_map(fields@),
            r@.dom().finite(),
    {
        let mut b = Board { fields: Vec::new() };
        let mut i: usize = 0;
        while i < fields.len()
            invariant
                0 <= i <= fields@.len(),
                b.wf(),
                b@ == fields_map(fields@.take(i as int)),
            decreases fields@.len() - i,
        {
            let pair = (fields[i].0, fields[i].1.clone());
            proof {
                assert(fields@.take(i + 1).drop_last() =~= fields@.take(i as int));
                assert(fields@.take(i + 1).last() == fields@[i as int]);
            }
            b.insert_pair(pair.0, pair.1);
            proof {
                assert(b@ =~= fields_map(fields@.take(i + 1)));
            }
            i += 1;
        }
        proof {
            assert(fields@.take(fields@.len() as int) =~= fields@);
            lemma_fields_map_dom(fields@);
        }
        b
    }

    /// Inserts or replaces one field.
    fn insert_pair(&mut self, coords: AxialCoords, field: Field)
        ensures
            final(self)@ == old(self)@.insert(coords, field@),
            final(self).wf(),
    {
        proof {
            use_type_invariant(&*self);
        }
        let idx = self.find_index(coords);
        let mut fields: Vec<(AxialCoords, Field)> = Vec::new();
        core::mem::swap(&mut self.fields, &mut fields);
        match idx {
            Some(i) => {
                proof {
                    lemma_fields_map_update(fields@, i as int, field);
                }
                let mut entry = fields.remove(i);
                entry.1 = field;
                fields.insert(i, entry);
                proof {
                    assert(fields@ =~= old(self).fields@.update(i as int, (coords, field)));
                }
            },
            None => {
                proof {
                    lemma_fields_map_dom(fields@);
                }
                fields.push((coords, field));
                proof {
                    assert(fields@.drop_last() =~= old(self).fields@);
                    lemma_fields_map_dom(old(self).fields@);
                }
            },
        }
        core::mem::swap(&mut self.fields, &mut fields);
        proof {
            assert(self@ =~= old(self)@.insert(coords, field@));
        }
    }

    /// Fetches a reference to the field at the given coordinates, or
    /// `None` when the coordinate does not exist on the board.
    pub fn field(&self, coords: AxialCoords) -> (r: Option<&Field>)
        ensures
            r is Some <==> self@.dom().contains(coords),
            r is Some ==> r.unwrap()@ == self@[coords],
    {
        match self.find_index(coords) {
            Some(i) => Some(&self.fields[i].1),
            None => None,
        }
    }

    /// Tests whether the board contains the given coordinate.
    pub fn contains_coords(&self, coords: AxialCoords) -> (r: bool)
        ensures
            r == self@.dom().contains(coords),
    {
        self.find_index(coords).is_some()
    }

    /// Tests whether a given position is occupied. Off-board positions
    /// count as occupied: they block movement.
    pub fn is_occupied(&self, coords: AxialCoords) -> (r: bool)
        ensures
            r == cell_occupied(self@, coords),
    {
        match self.field(coords) {
            Some(f) => f.is_occupied(),
            None => true,
        }
    }

    /// Tests whether the board has any pieces.
    pub fn has_pieces(&self) -> (r: bool)
        ensures
            r == board_has_pieces(self@),
    {
        proof {
            use_type_invariant(self);
            lemma_fields_map_dom(self.fields@);
        }
        let mut i: usize = 0;
        while i < self.fields.len()
            invariant
                0 <= i <= self.fields@.len(),
                unique_keys(self.fields@),
                self@ == fields_map(self.fields@),
                forall|k: int| 0 <= k < i ==> !(#[trigger] self.fields@[k]).1@.has_pieces(),
            decreases self.fields@.len() - i,
        {
            if self.fields[i].1.has_pieces() {
                proof {
                    lemma_fields_map_get(self.fields@, i as int);
                    assert(cell_has_pieces(self@, self.fields@[i as int].0));
                }
                return true;
            }
            i += 1;
        }
        proof {
            assert forall|c: AxialCoords| !cell_has_pieces(self@, c) by {
                if self@.dom().contains(c) {
                    lemma_fields_map_dom(self.fields@);
                    let k = choose|k: int|
                        0 <= k < self.fields@.len() && (#[trigger] self.fields@[k]).0 == c;
                    lemma_fields_map_get(self.fields@, k);
                }
            }
        }
        false
    }

    /// Pops the top piece at the given coordinates and returns it, or
    /// returns `None` when the cell does not exist or has no pieces.
    pub fn pop_at(&mut self, coords: AxialCoords) -> (r: Option<Piece>)
        ensures
            !cell_has_pieces(old(self)@, coords) ==> r is None && final(self)@ == old(self)@,
            cell_has_pieces(old(self)@, coords) ==> {
                &&& r == Some(old(self)@[coords].stack.last())
                &&& final(self)@ == old(self)@.insert(
                    coords,
                    FieldV {
                        stack: old(self)@[coords].stack.drop_last(),
                        obstructed: old(self)@[coords].obstructed,
                    },
                )
            },
    {
        proof {
            use_type_invariant(&*self);
        }
        let idx = self.find_index(coords);
        match idx {
            Some(i) => {
                let mut fields: Vec<(AxialCoords, Field)> = Vec::new();
                core::mem::swap(&mut self.fields, &mut fields);
                let mut entry = fields.remove(i);
                let r = entry.1.pop();
                let ghost new_field = entry.1;
                fields.insert(i, entry);
                proof {
                    assert(fields@ =~= old(self).fields@.update(i as int, (coords, new_field)));
                    lemma_fields_map_update(old(self).fields@, i as int, new_field);
                }
                core::mem::swap(&mut self.fields, &mut fields);
                proof {
                    if !old(self)@[coords].has_pieces() {
                        assert(new_field@ =~= old(self)@[coords]);
                        assert(self@ =~= old(self)@);
                    } else {
                        assert(self@ =~= old(self)@.insert(
                            coords,
                            FieldV {
                                stack: old(self)@[coords].stack.drop_last(),
                                obstructed: old(self)@[coords].obstructed,
                            },
                        ));
                    }
                }
                r
            },
            None => None,
        }
    }

    /// Fetches all fields as coordinate-field pairs, each cell once.
    pub fn fields(&self) -> (r: Vec<(AxialCoords, Field)>)
        ensures
            lists_cells(self@, r@, |c: AxialCoords, f: FieldV| true),
            r@.len() == self@.dom().len(),
    {
        proof {
            use_type_invariant(self);
            lemma_fields_map_len(self.fields@);
        }
        let mut r: Vec<(AxialCoords, Field)> = Vec::new();
        let mut i: usize = 0;
        while i < self.fields.len()
            invariant
                0 <= i <= self.fields@.len(),
                unique_keys(self.fields@),
                self@ == fields_map(self.fields@),
                r@.len() == i,
                forall|k: int|
                    0 <= k < i ==> (#[trigger] r@[k]).0 == self.fields@[k].0 && r@[k].1@
                        == self.fields@[k].1@,
            decreases self.fields@.len() - i,
        {
            r.push((self.fields[i].0, self.fields[i].1.clone()));
            i += 1;
        }
        proof {
            assert forall|k: int| 0 <= k < r@.len() implies self@.dom().contains(
                (#[trigger] r@[k]).0,
            ) && r@[k].1@ == self@[r@[k].0] by {
                lemma_fields_map_get(self.fields@, k);
            }
            assert forall|c: AxialCoords|
                self@.dom().contains(c) implies exists|i: int|
                0 <= i < r@.len() && (#[trigger] r@[i]).0 == c by {
                lemma_fields_map_dom(self.fields@);
                let k = choose|k: int|
                    0 <= k < self.fields@.len() && (#[trigger] self.fields@[k]).0 == c;
                assert(r@[k].0 == c);
            }
        }
        r
    }

    /// Fetches all fields owned by the given color.
    pub fn fields_owned_by(&self, color: PlayerColor) -> (r: Vec<(AxialCoords, Field)>)
        ensures
            lists_cells(self@, r@, |c: AxialCoords, f: FieldV| f.is_owned_by(color)),
    {
        let all = self.fields();
        let mut r: Vec<(AxialCoords, Field)> = Vec::new();
        let mut i: usize = 0;
        while i < all.len()
            invariant
                0 <= i <= all@.len(),
                lists_cells(self@, all@, |c: AxialCoords, f: FieldV| true),
                forall|k: int|
                    0 <= k < r@.len() ==> {
                        &&& self@.dom().contains((#[trigger] r@[k]).0)
                        &&& r@[k].1@ == self@[r@[k].0]
                        &&& r@[k].1@.is_owned_by(color)
                    },
                forall|k: int, l: int|
                    0 <= k < l < r@.len() ==> (#[trigger] r@[k]).0 != (#[trigger] r@[l]).0,
                forall|k: int|
                    0 <= k < i && (#[trigger] all@[k]).1@.is_owned_by(color) ==> exists|j: int|
                        0 <= j < r@.len() && (#[trigger] r@[j]).0 == all@[k].0,
                forall|j: int|
                    0 <= j < r@.len() ==> exists|k: int|
                        0 <= k < i && (#[trigger] all@[k]).0 == (#[trigger] r@[j]).0,
            decreases all@.len() - i,
        {
            if all[i].1.is_owned_by(color) {
                let ghost r_old = r@;
                r.push((all[i].0, all[i].1.clone()));
                proof {
                    assert forall|l: int| 0 <= l < r_old.len() implies (#[trigger] r@[l]).0 != r@[
                        r@.len() - 1
                    ].0 by {
                        let k = choose|k: int|
                            0 <= k < i && (#[trigger] all@[k]).0 == (#[trigger] r_old[l]).0;
                    }
                    assert forall|k: int|
                        0 <= k < i && (#[trigger] all@[k]).1@.is_owned_by(color) implies exists|j: int|
                        0 <= j < r@.len() && (#[trigger] r@[j]).0 == all@[k].0 by {
                        let j = choose|j: int|
                            0 <= j < r_old.len() && (#[trigger] r_old[j]).0 == all@[k].0;
                        assert(r@[j].0 == all@[k].0);
                    }
                    assert forall|j: int| 0 <= j < r@.len() implies exists|k: int|
                        0 <= k < i + 1 && (#[trigger] all@[k]).0 == (#[trigger] r@[j]).0 by {
                        if j < r_old.len() {
                            let k = choose|k: int|
                                0 <= k < i && (#[trigger] all@[k]).0 == (#[trigger] r_old[j]).0;
                        } else {
                            assert(all@[i as int].0 == r@[j].0);
                        }
                    }
                    assert(r@[r@.len() - 1].0 == all@[i as int].0);
                }
            }
            i += 1;
        }
        proof {
            assert forall|c: AxialCoords|
                self@.dom().contains(c) && self@[c].is_owned_by(color) implies exists|j: int|
                0 <= j < r@.len() && (#[trigger] r@[j]).0 == c by {
                let k = choose|k: int| 0 <= k < all@.len() && (#[trigger] all@[k]).0 == c;
            }
        }
        r
    }

    /// Fetches all empty fields.
    pub fn empty_fields(&self) -> (r: Vec<(AxialCoords, Field)>)
        ensures
            lists_cells(self@, r@, |c: AxialCoords, f: FieldV| f.is_empty()),
    {
        let all = self.fields();
        let mut r: Vec<(AxialCoords, Field)> = Vec::new();
        let mut i: usize = 0;
        while i < all.len()
            invariant
                0 <= i <= all@.len(),
                lists_cells(self@, all@, |c: AxialCoords, f: FieldV| true),
                forall|k: int|
                    0 <= k < r@.len() ==> {
                        &&& self@.dom().contains((#[trigger] r@[k]).0)
                        &&& r@[k].1@ == self@[r@[k].0]
                        &&& r@[k].1@.is_empty()
                    },
                forall|k: int, l: int|
                    0 <= k < l < r@.len() ==> (#[trigger] r@[k]).0 != (#[trigger] r@[l]).0,
                forall|k: int|
                    0 <= k < i && (#[trigger] all@[k]).1@.is_empty() ==> exists|j: int|
                        0 <= j < r@.len() && (#[trigger] r@[j]).0 == all@[k].0,
                forall|j: int|
                    0 <= j < r@.len() ==> exists|k: int|
                        0 <= k < i && (#[trigger] all@[k]).0 == (#[trigger] r@[j]).0,
            decreases all@.len() - i,
        {
            if all[i].1.is_empty() {
                let ghost r_old = r@;
                r.push((all[i].0, all[i].1.clone()));
                proof {
                    assert forall|l: int| 0 <= l < r_old.len() implies (#[trigger] r@[l]).0 != r@[
                        r@.len() - 1
                    ].0 by {
                        let k = choose|k: int|
                            0 <= k < i && (#[trigger] all@[k]).0 == (#[trigger] r_old[l]).0;
                    }
                    assert forall|k: int|
                        0 <= k < i && (#[trigger] all@[k]).1@.is_empty() implies exists|j: int|
                        0 <= j < r@.len() && (#[trigger] r@[j]).0 == all@[k].0 by {
                        let j = choose|j: int|
                            0 <= j < r_old.len() && (#[trigger] r_old[j]).0 == all@[k].0;
                        assert(r@[j].0 == all@[k].0);
                    }
                    assert forall|j: int| 0 <= j < r@.len() implies exists|k: int|
                        0 <= k < i + 1 && (#[trigger] all@[k]).0 == (#[trigger] r@[j]).0 by {
                        if j < r_old.len() {
                            let k = choose|k: int|
                                0 <= k < i && (#[trigger] all@[k]).0 == (#[trigger] r_old[j]).0;
                        } else {
                            assert(all@[i as int].0 == r@[j].0);
                        }
                    }
                    assert(r@[r@.len() - 1].0 == all@[i as int].0);
                }
            }
            i += 1;
        }
        proof {
            assert forall|c: AxialCoords|
                self@.dom().contains(c) && self@[c].is_empty() implies exists|j: int|
                0 <= j < r@.len() && (#[trigger] r@[j]).0 == c by {
                let k = choose|k: int| 0 <= k < all@.len() && (#[trigger] all@[k]).0 == c;
            }
        }
        r
    }

    /// Fetches all occupied fields.
    pub fn occupied_fields(&self) -> (r: Vec<(AxialCoords, Field)>)
        ensures
            lists_cells(self@, r@, |c: AxialCoords, f: FieldV| f.is_occupied()),
    {
        let all = self.fields();
        let mut r: Vec<(AxialCoords, Field)> = Vec::new();
        let mut i: usize = 0;
        while i < all.len()
            invariant
                0 <= i <= all@.len(),
                lists_cells(self@, all@, |c: AxialCoords, f: FieldV| true),
                forall|k: int|
                    0 <= k < r@.len() ==> {
                        &&& self@.dom().contains((#[trigger] r@[k]).0)
                        &&& r@[k].1@ == self@[r@[k].0]
                        &&& r@[k].1@.is_occupied()
                    },
                forall|k: int, l: int|
                    0 <= k < l < r@.len() ==> (#[trigger] r@[k]).0 != (#[trigger] r@[l]).0,
                forall|k: int|
                    0 <= k < i && (#[trigger] all@[k]).1@.is_occupied() ==> exists|j: int|
                        0 <= j < r@.len() && (#[trigger] r@[j]).0 == all@[k].0,
                forall|j: int|
                    0 <= j < r@.len() ==> exists|k: int|
                        0 <= k < i && (#[trigger] all@[k]).0 == (#[trigger] r@[j]).0,
            decreases all@.len() - i,
        {
            if all[i].1.is_occupied() {
                let ghost r_old = r@;
                r.push((all[i].0, all[i].1.clone()));
                proof {
                    assert forall|l: int| 0 <= l < r_old.len() implies (#[trigger] r@[l]).0 != r@[
                        r@.len() - 1
                    ].0 by {
                        let k = choose|k: int|
                            0 <= k < i && (#[trigger] all@[k]).0 == (#[trigger] r_old[l]).0;
                    }
                    assert forall|k: int|
                        0 <= k < i && (#[trigger] all@[k]).1@.is_occupied() implies exists|j: int|
                        0 <= j < r@.len() && (#[trigger] r@[j]).0 == all@[k].0 by {
                        let j = choose|j: int|
                            0 <= j < r_old.len() && (#[trigger] r_old[j]).0 == all@[k].0;
                        assert(r@[j].0 == all@[k].0);
                    }
                    assert forall|j: int| 0 <= j < r@.len() implies exists|k: int|
                        0 <= k < i + 1 && (#[trigger] all@[k]).0 == (#[trigger] r@[j]).0 by {
                        if j < r_old.len() {
                            let k = choose|k: int|
                                0 <= k < i && (#[trigger] all@[k]).0 == (#[trigger] r_old[j]).0;
                        } else {
                            assert(all@[i as int].0 == r@[j].0);
                        }
                    }
                    assert(r@[r@.len() - 1].0 == all@[i as int].0);
                }
            }
            i += 1;
        }
        proof {
            assert forall|c: AxialCoords|
                self@.dom().contains(c) && self@[c].is_occupied() implies exists|j: int|
                0 <= j < r@.len() && (#[trigger] r@[j]).0 == c by {
                let k = choose|k: int| 0 <= k < all@.len() && (#[trigger] all@[k]).0 == c;
            }
        }
        r
    }

    /// Fetches the (existing) neighbor fields of `coords` on the board,
    /// each exactly once.
    pub fn neighbors(&self, coords: AxialCoords) -> (r: Vec<(AxialCoords, Field)>)
        ensures
            lists_neighbors(self@, coords, r@),
    {
        let mut r: Vec<(AxialCoords, Field)> = Vec::new();
        let mut k: usize = 0;
        while k < 6
            invariant
                0 <= k <= 6,
                forall|i: int|
                    0 <= i < r@.len() ==> {
                        &&& is_neighbor(coords, (#[trigger] r@[i]).0)
                        &&& self@.dom().contains(r@[i].0)
                        &&& r@[i].1@ == self@[r@[i].0]
                    },
                forall|c: AxialCoords|
                    is_neighbor(coords, c) && self@.dom().contains(c) && neighbor_idx(coords, c)
                        < k ==> exists|i: int| 0 <= i < r@.len() && (#[trigger] r@[i]).0 == c,
                forall|i: int, j: int|
                    0 <= i < j < r@.len() ==> (#[trigger] r@[i]).0 != (#[trigger] r@[j]).0,
                forall|i: int|
                    0 <= i < r@.len() ==> neighbor_idx(coords, (#[trigger] r@[i]).0) < k,
            decreases 6 - k,
        {
            match neighbor_checked(coords, k) {
                Some(c) => {
                    match self.field(c) {
                        Some(f) => {
                            let ghost r_old = r@;
                            r.push((c, f.clone()));
                            proof {
                                assert forall|cc: AxialCoords|
                                    is_neighbor(coords, cc) && self@.dom().contains(cc)
                                        && neighbor_idx(coords, cc) < k + 1 implies exists|i: int|
                                    0 <= i < r@.len() && (#[trigger] r@[i]).0 == cc by {
                                    if neighbor_idx(coords, cc) < k {
                                        let i = choose|i: int|
                                            0 <= i < r_old.len() && (#[trigger] r_old[i]).0 == cc;
                                        assert(r@[i].0 == cc);
                                    } else {
                                        assert(cc == c);
                                        assert(r@[r@.len() - 1].0 == cc);
                                    }
                                }
                            }
                        },
                        None => {
                            proof {
                                assert forall|cc: AxialCoords|
                                    is_neighbor(coords, cc) && self@.dom().contains(cc)
                                        && neighbor_idx(coords, cc) < k + 1 implies exists|i: int|
                                    0 <= i < r@.len() && (#[trigger] r@[i]).0 == cc by {
                                    if neighbor_idx(coords, cc) < k {
                                    } else {
                                        assert(cc == c);
                                    }
                                }
                            }
                        },
                    }
                },
                None => {},
            }
            k += 1;
        }
        r
    }

    /// Fetches the unoccupied neighbor fields.
    pub fn empty_neighbors(&self, coords: AxialCoords) -> (r: Vec<(AxialCoords, Field)>)
        ensures
            forall|i: int|
                0 <= i < r@.len() ==> {
                    &&& is_neighbor(coords, (#[trigger] r@[i]).0)
                    &&& cell_empty(self@, r@[i].0)
                    &&& r@[i].1@ == self@[r@[i].0]
                },
            forall|c: AxialCoords|
                is_neighbor(coords, c) && cell_empty(self@, c) ==> exists|i: int|
                    0 <= i < r@.len() && (#[trigger] r@[i]).0 == c,
            forall|i: int, j: int|
                0 <= i < j < r@.len() ==> (#[trigger] r@[i]).0 != (#[trigger] r@[j]).0,
    {
        let all = self.neighbors(coords);
        let mut r: Vec<(AxialCoords, Field)> = Vec::new();
        let mut i: usize = 0;
        while i < all.len()
            invariant
                0 <= i <= all@.len(),
                lists_neighbors(self@, coords, all@),
                forall|k: int|
                    0 <= k < r@.len() ==> {
                        &&& is_neighbor(coords, (#[trigger] r@[k]).0)
                        &&& cell_empty(self@, r@[k].0)
                        &&& r@[k].1@ == self@[r@[k].0]
                    },
                forall|k: int, l: int|
                    0 <= k < l < r@.len() ==> (#[trigger] r@[k]).0 != (#[trigger] r@[l]).0,
                forall|k: int|
                    0 <= k < i && (#[trigger] all@[k]).1@.is_empty() ==> exists|j: int|
                        0 <= j < r@.len() && (#[trigger] r@[j]).0 == all@[k].0,
                forall|j: int|
                    0 <= j < r@.len() ==> exists|k: int|
                        0 <= k < i && (#[trigger] all@[k]).0 == (#[trigger] r@[j]).0,
            decreases all@.len() - i,
        {
            if all[i].1.is_empty() {
                let ghost r_old = r@;
                r.push((all[i].0, all[i].1.clone()));
                proof {
                    assert forall|l: int| 0 <= l < r_old.len() implies (#[trigger] r@[l]).0 != r@[
                        r@.len() - 1
                    ].0 by {
                        let k = choose|k: int|
                            0 <= k < i && (#[trigger] all@[k]).0 == (#[trigger] r_old[l]).0;
                    }
                    assert forall|k: int|
                        0 <= k < i && (#[trigger] all@[k]).1@.is_empty() implies exists|j: int|
                        0 <= j < r@.len() && (#[trigger] r@[j]).0 == all@[k].0 by {
                        let j = choose|j: int|
                            0 <= j < r_old.len() && (#[trigger] r_old[j]).0 == all@[k].0;
                        assert(r@[j].0 == all@[k].0);
                    }
                    assert forall|j: int| 0 <= j < r@.len() implies exists|k: int|
                        0 <= k < i + 1 && (#[trigger] all@[k]).0 == (#[trigger] r@[j]).0 by {
                        if j < r_old.len() {
                            let k = choose|k: int|
                                0 <= k < i && (#[trigger] all@[k]).0 == (#[trigger] r_old[j]).0;
                        } else {
                            assert(all@[i as int].0 == r@[j].0);
                        }
                    }
                    assert(r@[r@.len() - 1].0 == all@[i as int].0);
                }
            }
            i += 1;
        }
        proof {
            assert forall|c: AxialCoords|
                is_neighbor(coords, c) && cell_empty(self@, c) implies exists|i: int|
                0 <= i < r@.len() && (#[trigger] r@[i]).0 == c by {
                let k = choose|k: int| 0 <= k < all@.len() && (#[trigger] all@[k]).0 == c;
            }
        }
        r
    }

    /// Tests whether the bee of the given color has been placed,
    /// anywhere in any stack.
    pub fn has_placed_bee(&self, color: PlayerColor) -> (r: bool)
        ensures
            r == placed_bee(self@, color),
    {
        proof {
            use_type_invariant(self);
        }
        let bee = Piece { owner: color, piece_type: PieceType::Bee };
        let mut i: usize = 0;
        while i < self.fields.len()
            invariant
                0 <= i <= self.fields@.len(),
                unique_keys(self.fields@),
                self@ == fields_map(self.fields@),
                bee == (Piece { owner: color, piece_type: PieceType::Bee }),
                forall|k: int| 0 <= k < i ==> !(#[trigger] self.fields@[k]).1@.stack.contains(bee),
            decreases self.fields@.len() - i,
        {
            if stack_contains(&self.fields[i].1, bee) {
                proof {
                    lemma_fields_map_get(self.fields@, i as int);
                }
                return true;
            }
            i += 1;
        }
        proof {
            assert forall|c: AxialCoords|
                !(#[trigger] self@.dom().contains(c) && self@[c].stack.contains(bee)) by {
                if self@.dom().contains(c) {
                    lemma_fields_map_dom(self.fields@);
                    let k = choose|k: int|
                        0 <= k < self.fields@.len() && (#[trigger] self.fields@[k]).0 == c;
                    lemma_fields_map_get(self.fields@, k);
                }
            }
        }
        false
    }

    /// Tests whether the cell at the given coordinates touches a cell
    /// owned by the given color.
    pub fn is_next_to(&self, color: PlayerColor, coords: AxialCoords) -> (r: bool)
        ensures
            r == next_to(self@, color, coords),
    {
        let ns = self.neighbors(coords);
        let mut i: usize = 0;
        while i < ns.len()
            invariant
                0 <= i <= ns@.len(),
                lists_neighbors(self@, coords, ns@),
                forall|k: int| 0 <= k < i ==> !(#[trigger] ns@[k]).1@.is_owned_by(color),
            decreases ns@.len() - i,
        {
            if ns[i].1.is_owned_by(color) {
                proof {
                    assert(cell_owned_by(self@, ns@[i as int].0, color));
                }
                return true;
            }
            i += 1;
        }
        proof {
            assert forall|n: AxialCoords|
                !(is_neighbor(coords, n) && #[trigger] cell_owned_by(self@, n, color)) by {
                if is_neighbor(coords, n) && self@.dom().contains(n) {
                    let k = choose|k: int| 0 <= k < ns@.len() && (#[trigger] ns@[k]).0 == n;
                }
            }
        }
        false
    }

    /// Tests whether the cell at the given coordinates touches a cell
    /// that holds pieces.
    pub fn is_next_to_piece(&self, coords: AxialCoords) -> (r: bool)
        ensures
            r == next_to_piece(self@, coords),
    {
        let ns = self.neighbors(coords);
        let mut i: usize = 0;
        while i < ns.len()
            invariant
                0 <= i <= ns@.len(),
                lists_neighbors(self@, coords, ns@),
                forall|k: int| 0 <= k < i ==> !(#[trigger] ns@[k]).1@.has_pieces(),
            decreases ns@.len() - i,
        {
            if ns[i].1.has_pieces() {
                proof {
                    assert(cell_has_pieces(self@, ns@[i as int].0));
                }
                return true;
            }
            i += 1;
        }
        proof {
            assert forall|n: AxialCoords|
                !(is_neighbor(coords, n) && #[trigger] cell_has_pieces(self@, n)) by {
                if is_neighbor(coords, n) && self@.dom().contains(n) {
                    let k = choose|k: int| 0 <= k < ns@.len() && (#[trigger] ns@[k]).0 == n;
                }
            }
        }
        false
    }

    /// Fetches the swarm boundary: the empty cells adjacent to occupied
    /// cells. A cell may be listed more than once, once per occupied
    /// neighbor, as when chaining neighbor queries.
    pub fn swarm_boundary(&self) -> (r: Vec<(AxialCoords, Field)>)
        ensures
            forall|i: int|
                0 <= i < r@.len() ==> on_boundary(self@, (#[trigger] r@[i]).0) && r@[i].1@
                    == self@[r@[i].0],
            forall|c: AxialCoords|
                on_boundary(self@, c) ==> exists|i: int|
                    0 <= i < r@.len() && (#[trigger] r@[i]).0 == c,
    {
        let occ = self.occupied_fields();
        let mut r: Vec<(AxialCoords, Field)> = Vec::new();
        let mut i: usize = 0;
        while i < occ.len()
            invariant
                0 <= i <= occ@.len(),
                lists_cells(self@, occ@, |c: AxialCoords, f: FieldV| f.is_occupied()),
                forall|k: int|
                    0 <= k < r@.len() ==> on_boundary(self@, (#[trigger] r@[k]).0) && r@[k].1@
                        == self@[r@[k].0],
                forall|k: int, c: AxialCoords|
                    0 <= k < i && is_neighbor((#[trigger] occ@[k]).0, c) && #[trigger] cell_empty(
                        self@,
                        c,
                    ) ==> exists|j: int| 0 <= j < r@.len() && (#[trigger] r@[j]).0 == c,
            decreases occ@.len() - i,
        {
            let ghost o = occ@[i as int].0;
            let ns = self.empty_neighbors(occ[i].0);
            let mut j: usize = 0;
            while j < ns.len()
                invariant
                    0 <= j <= ns@.len(),
                    0 <= i < occ@.len(),
                    o == occ@[i as int].0,
                    self@.dom().contains(o),
                    self@[o].is_occupied(),
                    forall|k: int|
                        0 <= k < ns@.len() ==> {
                            &&& is_neighbor(o, (#[trigger] ns@[k]).0)
                            &&& cell_empty(self@, ns@[k].0)
                            &&& ns@[k].1@ == self@[ns@[k].0]
                        },
                    forall|c: AxialCoords|
                        is_neighbor(o, c) && cell_empty(self@, c) ==> exists|k: int|
                            0 <= k < ns@.len() && (#[trigger] ns@[k]).0 == c,
                    forall|k: int|
                        0 <= k < r@.len() ==> on_boundary(self@, (#[trigger] r@[k]).0) && r@[k].1@
                            == self@[r@[k].0],
                    forall|k: int, c: AxialCoords|
                        0 <= k < i && is_neighbor((#[trigger] occ@[k]).0, c)
                            && #[trigger] cell_empty(self@, c) ==> exists|l: int|
                            0 <= l < r@.len() && (#[trigger] r@[l]).0 == c,
                    forall|k: int|
                        0 <= k < j ==> exists|l: int|
                            0 <= l < r@.len() && (#[trigger] r@[l]).0 == (#[trigger] ns@[k]).0,
                decreases ns@.len() - j,
            {
                let ghost r_old = r@;
                let pair = (ns[j].0, ns[j].1.clone());
                r.push(pair);
                proof {
                    assert(is_neighbor(o, r@[r@.len() - 1].0));
                    assert(on_boundary(self@, r@[r@.len() - 1].0));
                    assert forall|k: int, c: AxialCoords|
                        0 <= k < i && is_neighbor((#[trigger] occ@[k]).0, c)
                            && #[trigger] cell_empty(self@, c) implies exists|l: int|
                        0 <= l < r@.len() && (#[trigger] r@[l]).0 == c by {
                        let l = choose|l: int| 0 <= l < r_old.len() && (#[trigger] r_old[l]).0 == c;
                        assert(r@[l].0 == c);
                    }
                    assert forall|k: int| 0 <= k < j + 1 implies exists|l: int|
                        0 <= l < r@.len() && (#[trigger] r@[l]).0 == (#[trigger] ns@[k]).0 by {
                        if k < j {
                            let l = choose|l: int|
                                0 <= l < r_old.len() && (#[trigger] r_old[l]).0 == ns@[k].0;
                            assert(r@[l].0 == ns@[k].0);
                        } else {
                            assert(r@[r@.len() - 1].0 == ns@[k].0);
                        }
                    }
                }
                j += 1;
            }
            proof {
                assert forall|c: AxialCoords|
                    is_neighbor(o, c) && #[trigger] cell_empty(self@, c) implies exists|l: int|
                    0 <= l < r@.len() && (#[trigger] r@[l]).0 == c by {
                    let k = choose|k: int| 0 <= k < ns@.len() && (#[trigger] ns@[k]).0 == c;
                    assert(exists|l: int|
                        0 <= l < r@.len() && (#[trigger] r@[l]).0 == (#[trigger] ns@[k]).0);
                }
            }
            i += 1;
        }
        r
    }
}

/// The listing contract of `neighbors`: exactly the on-board neighbor
/// cells of `coords`, each once, with its field value.
pub open spec fn lists_neighbors(
    m: BoardMap,
    coords: AxialCoords,
    s: Seq<(AxialCoords, Field)>,
) -> bool {
    &&& forall|i: int|
        0 <= i < s.len() ==> {
            &&& is_neighbor(coords, (#[trigger] s[i]).0)
            &&& m.dom().contains(s[i].0)
            &&& s[i].1@ == m[s[i].0]
        }
    &&& forall|c: AxialCoords|
        is_neighbor(coords, c) && m.dom().contains(c) ==> exists|i: int|
            0 <= i < s.len() && (#[trigger] s[i]).0 == c
    &&& forall|i: int, j: int| 0 <= i < j < s.len() ==> (#[trigger] s[i]).0 != (#[trigger] s[j]).0
}

/// The index of the offset that takes `a` to `b`, for neighbors.
pub open spec fn neighbor_idx(a: AxialCoords, b: AxialCoords) -> int {
    let dx = b.x - a.x;
    let dy = b.y - a.y;
    if dx == 0 && dy == 1 {
        0
    } else if dx == 1 && dy == 0 {
        1
    } else if dx == 1 && dy == -1 {
        2
    } else if dx == 0 && dy == -1 {
        3
    } else if dx == -1 && dy == 0 {
        4
    } else {
        5
    }
}

/// The `k`-th neighbor of `a` if it is representable in 32 bits.
fn neighbor_checked(a: AxialCoords, k: usize) -> (r: Option<AxialCoords>)
    requires
        k < 6,
    ensures
        match r {
            Some(c) => is_neighbor(a, c) && neighbor_idx(a, c) == k,
            None => forall|c: AxialCoords|
                #[trigger] is_neighbor(a, c) ==> neighbor_idx(a, c) != k,
        },
{
    let (dx, dy): (i64, i64) = match k {
        0 => (0, 1),
        1 => (1, 0),
        2 => (1, -1),
        3 => (0, -1),
        4 => (-1, 0),
        _ => (-1, 1),
    };
    let nx = a.x as i64 + dx;
    let ny = a.y as i64 + dy;
    if nx < i32::MIN as i64 || nx > i32::MAX as i64 || ny < i32::MIN as i64 || ny
        > i32::MAX as i64 {
        None
    } else {
        Some(AxialCoords { x: nx as i32, y: ny as i32 })
    }
}

/// Tests whether a field's stack holds the given piece.
fn stack_contains(f: &Field, p: Piece) -> (r: bool)
    ensures
        r == f@.stack.contains(p),
{
    let mut i: usize = 0;
    while i < f.piece_stack.len()
        invariant
            0 <= i <= f.piece_stack@.len(),
            forall|k: int| 0 <= k < i ==> f.piece_stack@[k] != p,
        decreases f.piece_stack@.len() - i,
    {
        if f.piece_stack[i] == p {
            return true;
        }
        i += 1;
    }
    false
}


// ---------------------------------------------------------------------
// Building hexagonal boards: `filling_radius`
// ---------------------------------------------------------------------

/// Whether `c` lies within the hexagon of the given radius around the
/// origin: every coordinate of its cube form is below `radius` in
/// magnitude.
pub open spec fn in_radius(c: AxialCoords, radius: int) -> bool {
    let i = radius - 1;
    &&& -i <= c.x <= i
    &&& -i <= c.y <= i
    &&& -i <= c.x + c.y <= i
}

/// The number of cells of a hexagon of the given radius: one center
/// cell, plus a ring of `6 * (r - 1)` cells for each radius `r` up to
/// the full radius.
pub open spec fn hex_cell_count(radius: int) -> int
    decreases radius,
{
    if radius <= 1 {
        1
    } else {
        hex_cell_count(radius - 1) + 6 * (radius - 1)
    }
}

/// Every cell within the radius, and hence every on-board neighbor of
/// every cell of a board built by `filling_radius`, has cube
/// coordinates strictly below the radius in magnitude.
pub proof fn lemma_radius_cells_in_bounds(c: AxialCoords, radius: int)
    requires
        in_radius(c, radius),
    ensures
        -radius < c.x < radius,
        -radius < c.y < radius,
        -radius < -(c.x + c.y) < radius,
{
}

/// The hexagon of the standard radius has exactly 91 cells.
pub proof fn lemma_standard_board_count()
    ensures
        hex_cell_count(6) == 91,
{
    lemma_hex_count_closed(6);
}

/// The first x-coordinate of the row at height `y` in a hexagon with
/// inner radius `i`.
pub open spec fn row_lo(i: int, y: int) -> int {
    if -i - y >= -i {
        -i - y
    } else {
        -i
    }
}

/// One past the last x-coordinate of the row at height `y`.
pub open spec fn row_hi(i: int, y: int) -> int {
    if i - y <= i {
        i - y
    } else {
        i
    }
}

/// The cells of the rows strictly below `y`, together with those of
/// row `y` left of `x`.
pub open spec fn hex_region(radius: int, y: int, x: int) -> Set<AxialCoords> {
    Set::new(
        |c: AxialCoords| in_radius(c, radius) && (c.y < y || (c.y == y && c.x < x)),
    )
}

/// The number of cells in the rows `-i .. y - 1` of a hexagon with
/// inner radius `i`.
pub open spec fn rows_total(i: int, y: int) -> int
    decreases y + i,
{
    if y <= -i {
        0
    } else {
        rows_total(i, y - 1) + (row_hi(i, y - 1) - row_lo(i, y - 1) + 1)
    }
}

proof fn lemma_rows_total_closed(i: int, y: int)
    requires
        i >= 0,
        -i <= y <= i + 1,
    ensures
        y <= 0 ==> 2 * rows_total(i, y) == (y + i) * (3 * i + y + 1),
        y > 0 ==> 2 * rows_total(i, y) == i * (3 * i + 1) + 2 * y * (2 * i + 1) - y * (y - 1),
    decreases y + i,
{
    if y == -i {
    } else {
        lemma_rows_total_closed(i, y - 1);
        let rc = row_hi(i, y - 1) - row_lo(i, y - 1) + 1;
        if y - 1 < 0 {
            assert(rc == 2 * i + y);
        } else {
            assert(rc == 2 * i + 1 - (y - 1));
        }
        if y <= 0 {
            assert((y - 1 + i) * (3 * i + y) + 2 * (2 * i + y) == (y + i) * (3 * i + y + 1))
                by (nonlinear_arith);
        } else if y == 1 {
            assert((0 + i) * (3 * i + 0 + 1) + 2 * (2 * i + 1 - 0) == i * (3 * i + 1) + 2 * 1 * (2
                * i + 1) - 1 * (1 - 1)) by (nonlinear_arith);
        } else {
            assert(i * (3 * i + 1) + 2 * (y - 1) * (2 * i + 1) - (y - 1) * (y - 2) + 2 * (2 * i + 1
                - (y - 1)) == i * (3 * i + 1) + 2 * y * (2 * i + 1) - y * (y - 1))
                by (nonlinear_arith);
        }
    }
}

proof fn lemma_hex_count_closed(radius: int)
    requires
        radius >= 1,
    ensures
        hex_cell_count(radius) == 3 * (radius - 1) * (radius - 1) + 3 * (radius - 1) + 1,
    decreases radius,
{
    if radius == 1 {
        assert(3 * (radius - 1) * (radius - 1) + 3 * (radius - 1) + 1 == 1) by (nonlinear_arith)
            requires
                radius == 1,
        ;
    } else {
        lemma_hex_count_closed(radius - 1);
        assert(hex_cell_count(radius) == hex_cell_count(radius - 1) + 6 * (radius - 1));
        assert(hex_cell_count(radius) == 3 * (radius - 1) * (radius - 1) + 3 * (radius - 1) + 1)
            by (nonlinear_arith)
            requires
                hex_cell_count(radius) == hex_cell_count(radius - 1) + 6 * (radius - 1),
                hex_cell_count(radius - 1) == 3 * (radius - 2) * (radius - 2) + 3 * (radius - 2)
                    + 1,
        ;
    }
}

/// The row totals of the whole hexagon give the ring-recurrence count.
proof fn lemma_rows_total_is_hex_count(i: int)
    requires
        i >= 0,
    ensures
        rows_total(i, i + 1) == hex_cell_count(i + 1),
{
    lemma_rows_total_closed(i, i + 1);
    lemma_hex_count_closed(i + 1);
    assert(i * (3 * i + 1) + 2 * (i + 1) * (2 * i + 1) - (i + 1) * i == 2 * (3 * i * i + 3 * i + 1))
        by (nonlinear_arith);
}

impl Board {
    /// Creates a new hexagonal board: the provided fields, padded with
    /// empty fields at every cell within the given radius that is not
    /// already present. On an empty seed the result has exactly
    /// `hex_cell_count(radius)` cells.
    pub fn filling_radius(radius: usize, fields: Vec<(AxialCoords, Field)>) -> (r: Board)
        requires
            radius <= i32::MAX as usize,
        ensures
            r@.dom() =~= fields_map(fields@).dom().union(
                Set::new(|c: AxialCoords| in_radius(c, radius as int)),
            ),
            forall|c: AxialCoords|
                fields_map(fields@).dom().contains(c) ==> r@[c] == #[trigger] fields_map(
                    fields@,
                )[c],
            forall|c: AxialCoords|
                !fields_map(fields@).dom().contains(c) && in_radius(c, radius as int)
                    ==> #[trigger] r@[c] == FieldV::empty(),
            fields@.len() == 0 && radius >= 1 ==> r@.dom().len() == hex_cell_count(radius as int),
            r@.dom().finite(),
    {
        let ghost sm = fields_map(fields@);
        let ghost seed_empty = fields@.len() == 0;
        let mut b = Board::new(fields);
        proof {
            if seed_empty {
                assert(sm =~= Map::<AxialCoords, FieldV>::empty());
                assert(b@.dom().len() == 0) by {
                    assert(b@.dom() =~= Set::<AxialCoords>::empty());
                }
            }
        }
        let inner: i64 = radius as i64 - 1;
        let ghost rad = radius as int;
        let ghost i_spec = rad - 1;
        let mut y: i64 = -inner;
        while y <= inner
            invariant
                -inner <= y <= inner + 1 || (inner < 0 && y == -inner),
                inner == rad - 1,
                0 <= rad <= i32::MAX,
                sm.dom().finite(),
                b@.dom().finite(),
                i_spec == inner as int,
                b@.dom() =~= sm.dom().union(hex_region(rad, y as int, -i_spec)),
                forall|c: AxialCoords| sm.dom().contains(c) ==> b@[c] == #[trigger] sm[c],
                forall|c: AxialCoords|
                    b@.dom().contains(c) && !sm.dom().contains(c) ==> #[trigger] b@[c]
                        == FieldV::empty(),
                seed_empty ==> sm =~= Map::<AxialCoords, FieldV>::empty(),
                seed_empty && inner >= 0 ==> b@.dom().len() == rows_total(i_spec, y as int),
            decreases inner - y + 1,
        {
            let xlo: i64 = if -inner - y >= -inner {
                -inner - y
            } else {
                -inner
            };
            let xhi: i64 = if inner - y <= inner {
                inner - y
            } else {
                inner
            };
            let mut x: i64 = xlo;
            proof {
                assert(hex_region(rad, y as int, xlo as int) =~= hex_region(
                    rad,
                    y as int,
                    -i_spec,
                ));
            }
            while x <= xhi
                invariant
                    xlo <= x <= xhi + 1,
                    xlo == row_lo(i_spec, y as int),
                    xhi == row_hi(i_spec, y as int),
                    -inner <= y <= inner,
                    0 <= inner,
                    inner == rad - 1,
                    rad <= i32::MAX,
                    i_spec == inner as int,
                    sm.dom().finite(),
                    b@.dom().finite(),
                    b@.dom() =~= sm.dom().union(hex_region(rad, y as int, x as int)),
                    forall|c: AxialCoords| sm.dom().contains(c) ==> b@[c] == #[trigger] sm[c],
                    forall|c: AxialCoords|
                        b@.dom().contains(c) && !sm.dom().contains(c) ==> #[trigger] b@[c]
                            == FieldV::empty(),
                    seed_empty ==> sm =~= Map::<AxialCoords, FieldV>::empty(),
                    seed_empty ==> b@.dom().len() == rows_total(i_spec, y as int) + (x - xlo),
                decreases xhi - x + 1,
            {
                let coords = AxialCoords { x: x as i32, y: y as i32 };
                proof {
                    assert(in_radius(coords, rad));
                }
                let ghost dom_old = b@.dom();
                if !b.contains_coords(coords) {
                    b.insert_pair(coords, Field { piece_stack: Vec::new(), is_obstructed: false });
                }
                proof {
                    assert(b@.dom() =~= sm.dom().union(hex_region(rad, y as int, x as int + 1)));
                    if seed_empty {
                        assert(!dom_old.contains(coords));
                        assert(b@.dom() =~= dom_old.insert(coords));
                    }
                }
                x += 1;
            }
            proof {
                assert(hex_region(rad, y as int, xhi as int + 1) =~= hex_region(
                    rad,
                    y as int + 1,
                    -i_spec,
                ));
                if seed_empty {
                    assert(b@.dom().len() == rows_total(i_spec, y as int + 1));
                }
            }
            y += 1;
        }
        proof {
            if inner >= 0 {
                assert(hex_region(rad, y as int, -i_spec) =~= Set::new(
                    |c: AxialCoords| in_radius(c, rad),
                ));
                if seed_empty {
                    lemma_rows_total_is_hex_count(i_spec);
                }
            } else {
                assert(hex_region(rad, y as int, -i_spec) =~= Set::new(
                    |c: AxialCoords| in_radius(c, rad),
                ));
            }
        }
        b
    }
}



// ---------------------------------------------------------------------
// Slide feasibility between adjacent cells
// ---------------------------------------------------------------------

/// Whether `c` is a shared neighbor of `a` and `b` that counts for the
/// sliding rule: adjacent to both, on the board, and not a
/// single-piece cell other than the exception.
pub open spec fn shared_pair(
    m: BoardMap,
    exception: Option<AxialCoords>,
    a: AxialCoords,
    b: AxialCoords,
    c: AxialCoords,
) -> bool {
    &&& is_neighbor(a, c)
    &&& is_neighbor(b, c)
    &&& m.dom().contains(c)
    &&& (m[c].stack.len() != 1 || exception == Some(c))
}

/// Whether exactly one shared neighbor counts.
pub open spec fn exactly_one_shared(
    m: BoardMap,
    exception: Option<AxialCoords>,
    a: AxialCoords,
    b: AxialCoords,
) -> bool {
    exists|c: AxialCoords|
        #[trigger] shared_pair(m, exception, a, b, c) && forall|d: AxialCoords|
            #[trigger] shared_pair(m, exception, a, b, d) ==> d == c
}

/// The sliding rule between two adjacent cells: some counting shared
/// neighbor is occupied (by pieces or an obstruction), and the gap is
/// not boxed in on both flanks (exactly one shared neighbor, or some
/// shared neighbor is empty).
pub open spec fn spec_can_move_between(
    m: BoardMap,
    exception: Option<AxialCoords>,
    a: AxialCoords,
    b: AxialCoords,
) -> bool {
    &&& (exactly_one_shared(m, exception, a, b) || exists|c: AxialCoords|
        #[trigger] shared_pair(m, exception, a, b, c) && m[c].is_empty())
    &&& exists|c: AxialCoords| #[trigger] shared_pair(m, exception, a, b, c) && m[c].is_occupied()
}

/// Whether a piece can slide from `a` onto its neighbor `c`: the cell
/// is on the board, empty, and the sliding rule admits the move.
pub open spec fn accessible_from(
    m: BoardMap,
    exception: Option<AxialCoords>,
    a: AxialCoords,
    c: AxialCoords,
) -> bool {
    &&& is_neighbor(a, c)
    &&& cell_empty(m, c)
    &&& spec_can_move_between(m, exception, a, c)
}

impl Board {
    /// Finds the intersection of `a`'s and `b`'s on-board neighbors,
    /// skipping cells that hold exactly one piece unless they equal the
    /// exception.
    pub fn shared_neighbors(
        &self,
        a: AxialCoords,
        b: AxialCoords,
        exception: Option<AxialCoords>,
    ) -> (r: Vec<(AxialCoords, Field)>)
        ensures
            forall|i: int|
                0 <= i < r@.len() ==> shared_pair(self@, exception, a, b, (#[trigger] r@[i]).0)
                    && r@[i].1@ == self@[r@[i].0],
            forall|c: AxialCoords|
                shared_pair(self@, exception, a, b, c) ==> exists|i: int|
                    0 <= i < r@.len() && (#[trigger] r@[i]).0 == c,
            forall|i: int, j: int|
                0 <= i < j < r@.len() ==> (#[trigger] r@[i]).0 != (#[trigger] r@[j]).0,
    {
        let all = self.neighbors(a);
        let mut r: Vec<(AxialCoords, Field)> = Vec::new();
        let mut i: usize = 0;
        while i < all.len()
            invariant
                0 <= i <= all@.len(),
                lists_neighbors(self@, a, all@),
                forall|k: int|
                    0 <= k < r@.len() ==> shared_pair(
                        self@,
                        exception,
                        a,
                        b,
                        (#[trigger] r@[k]).0,
                    ) && r@[k].1@ == self@[r@[k].0],
                forall|k: int, l: int|
                    0 <= k < l < r@.len() ==> (#[trigger] r@[k]).0 != (#[trigger] r@[l]).0,
                forall|k: int|
                    0 <= k < i && shared_pair(self@, exception, a, b, (#[trigger] all@[k]).0)
                        ==> exists|j: int| 0 <= j < r@.len() && (#[trigger] r@[j]).0 == all@[k].0,
                forall|j: int|
                    0 <= j < r@.len() ==> exists|k: int|
                        0 <= k < i && (#[trigger] all@[k]).0 == (#[trigger] r@[j]).0,
            decreases all@.len() - i,
        {
            let c = all[i].0;
            let counts = {
                let adj = b.is_adjacent_to(c);
                if adj {
                    let single = all[i].1.piece_stack().len() == 1;
                    let is_exc = match exception {
                        Some(e) => e == c,
                        None => false,
                    };
                    !single || is_exc
                } else {
                    false
                }
            };
            if counts {
                let ghost r_old = r@;
                r.push((all[i].0, all[i].1.clone()));
                proof {
                    assert forall|k: int, l: int|
                        0 <= k < l < r@.len() implies (#[trigger] r@[k]).0 != (
                    #[trigger] r@[l]).0 by {
                        if l < r_old.len() {
                        } else {
                            let k2 = choose|k2: int|
                                0 <= k2 < i && (#[trigger] all@[k2]).0 == (#[trigger] r_old[k]).0;
                        }
                    }
                    assert forall|k: int|
                        0 <= k < i + 1 && shared_pair(
                            self@,
                            exception,
                            a,
                            b,
                            (#[trigger] all@[k]).0,
                        ) implies exists|j: int|
                        0 <= j < r@.len() && (#[trigger] r@[j]).0 == all@[k].0 by {
                        if k < i {
                            let j = choose|j: int|
                                0 <= j < r_old.len() && (#[trigger] r_old[j]).0 == all@[k].0;
                            assert(r@[j].0 == all@[k].0);
                        } else {
                            assert(r@[r@.len() - 1].0 == all@[k].0);
                        }
                    }
                    assert forall|j: int| 0 <= j < r@.len() implies exists|k: int|
                        0 <= k < i + 1 && (#[trigger] all@[k]).0 == (#[trigger] r@[j]).0 by {
                        if j < r_old.len() {
                            let k = choose|k: int|
                                0 <= k < i && (#[trigger] all@[k]).0 == (#[trigger] r_old[j]).0;
                        } else {
                            assert(all@[i as int].0 == r@[j].0);
                        }
                    }
                }
            }
            i += 1;
        }
        proof {
            assert forall|c: AxialCoords|
                shared_pair(self@, exception, a, b, c) implies exists|i: int|
                0 <= i < r@.len() && (#[trigger] r@[i]).0 == c by {
                let k = choose|k: int| 0 <= k < all@.len() && (#[trigger] all@[k]).0 == c;
            }
        }
        r
    }

    /// Tests whether a sliding move between the two given cells is
    /// possible, optionally ignoring one single-piece cell.
    pub fn can_move_between_except(
        &self,
        exception: Option<AxialCoords>,
        a: AxialCoords,
        b: AxialCoords,
    ) -> (r: bool)
        ensures
            r == spec_can_move_between(self@, exception, a, b),
    {
        let shared = self.shared_neighbors(a, b, exception);
        let mut any_empty = false;
        let mut any_occupied = false;
        let mut i: usize = 0;
        while i < shared.len()
            invariant
                0 <= i <= shared@.len(),
                forall|k: int|
                    0 <= k < shared@.len() ==> shared_pair(
                        self@,
                        exception,
                        a,
                        b,
                        (#[trigger] shared@[k]).0,
                    ) && shared@[k].1@ == self@[shared@[k].0],
                any_empty <==> exists|k: int|
                    0 <= k < i && (#[trigger] shared@[k]).1@.is_empty(),
                any_occupied <==> exists|k: int|
                    0 <= k < i && (#[trigger] shared@[k]).1@.is_occupied(),
            decreases shared@.len() - i,
        {
            if shared[i].1.is_empty() {
                any_empty = true;
                proof {
                    assert((#[trigger] shared@[i as int]).1@.is_empty());
                }
            }
            if shared[i].1.is_occupied() {
                any_occupied = true;
                proof {
                    assert((#[trigger] shared@[i as int]).1@.is_occupied());
                }
            }
            i += 1;
        }
        let r = (shared.len() == 1 || any_empty) && any_occupied;
        proof {
            let m = self@;
            if r {
                let k = choose|k: int| 0 <= k < shared@.len() && (#[trigger] shared@[k]).1@.is_occupied();
                assert(shared_pair(m, exception, a, b, shared@[k].0) && m[shared@[k].0].is_occupied());
                if shared@.len() == 1 {
                    assert forall|d: AxialCoords| #[trigger] shared_pair(m, exception, a, b, d) implies d
                        == shared@[0].0 by {
                        let j = choose|j: int| 0 <= j < shared@.len() && (#[trigger] shared@[j]).0 == d;
                    }
                    assert(exactly_one_shared(m, exception, a, b));
                } else {
                    let e = choose|e: int| 0 <= e < shared@.len() && (#[trigger] shared@[e]).1@.is_empty();
                    assert(shared_pair(m, exception, a, b, shared@[e].0) && m[shared@[e].0].is_empty());
                }
            } else {
                if !any_occupied {
                    assert forall|c: AxialCoords|
                        !(#[trigger] shared_pair(m, exception, a, b, c) && m[c].is_occupied()) by {
                        if shared_pair(m, exception, a, b, c) {
                            let j = choose|j: int|
                                0 <= j < shared@.len() && (#[trigger] shared@[j]).0 == c;
                        }
                    }
                } else {
                    assert(shared@.len() != 1 && !any_empty);
                    assert forall|c: AxialCoords|
                        !(#[trigger] shared_pair(m, exception, a, b, c) && m[c].is_empty()) by {
                        if shared_pair(m, exception, a, b, c) {
                            let j = choose|j: int|
                                0 <= j < shared@.len() && (#[trigger] shared@[j]).0 == c;
                        }
                    }
                    assert(!exactly_one_shared(m, exception, a, b)) by {
                        if exactly_one_shared(m, exception, a, b) {
                            let c = choose|c: AxialCoords|
                                #[trigger] shared_pair(m, exception, a, b, c) && forall|d: AxialCoords|
                                    #[trigger] shared_pair(m, exception, a, b, d) ==> d == c;
                            if shared@.len() == 0 {
                                let j = choose|j: int|
                                    0 <= j < shared@.len() && (#[trigger] shared@[j]).0 == c;
                                assert(false);
                            } else {
                                assert(shared@.len() >= 2);
                                assert(shared_pair(m, exception, a, b, shared@[0].0));
                                assert(shared_pair(m, exception, a, b, shared@[1].0));
                                assert(shared@[0].0 == c && shared@[1].0 == c);
                                assert(false);
                            }
                        }
                    }
                }
            }
        }
        r
    }

    /// Tests whether a sliding move between the two given cells is
    /// possible.
    pub fn can_move_between(&self, a: AxialCoords, b: AxialCoords) -> (r: bool)
        ensures
            r == spec_can_move_between(self@, None, a, b),
    {
        self.can_move_between_except(None, a, b)
    }

    /// Finds the accessible neighbors of `coords`: the empty on-board
    /// neighbors reachable by a slide, optionally ignoring one
    /// single-piece cell.
    pub fn accessible_neighbors_except(
        &self,
        exception: Option<AxialCoords>,
        coords: AxialCoords,
    ) -> (r: Vec<(AxialCoords, Field)>)
        ensures
            forall|i: int|
                0 <= i < r@.len() ==> accessible_from(self@, exception, coords, (#[trigger] r@[i]).0)
                    && r@[i].1@ == self@[r@[i].0],
            forall|c: AxialCoords|
                #[trigger] accessible_from(self@, exception, coords, c) ==> exists|i: int|
                    0 <= i < r@.len() && (#[trigger] r@[i]).0 == c,
            forall|i: int, j: int|
                0 <= i < j < r@.len() ==> (#[trigger] r@[i]).0 != (#[trigger] r@[j]).0,
    {
        let all = self.neighbors(coords);
        let mut r: Vec<(AxialCoords, Field)> = Vec::new();
        let mut i: usize = 0;
        while i < all.len()
            invariant
                0 <= i <= all@.len(),
                lists_neighbors(self@, coords, all@),
                forall|k: int|
                    0 <= k < r@.len() ==> accessible_from(
                        self@,
                        exception,
                        coords,
                        (#[trigger] r@[k]).0,
                    ) && r@[k].1@ == self@[r@[k].0],
                forall|k: int, l: int|
                    0 <= k < l < r@.len() ==> (#[trigger] r@[k]).0 != (#[trigger] r@[l]).0,
                forall|k: int|
                    0 <= k < i && accessible_from(self@, exception, coords, (#[trigger] all@[k]).0)
                        ==> exists|j: int| 0 <= j < r@.len() && (#[trigger] r@[j]).0 == all@[k].0,
                forall|j: int|
                    0 <= j < r@.len() ==> exists|k: int|
                        0 <= k < i && (#[trigger] all@[k]).0 == (#[trigger] r@[j]).0,
            decreases all@.len() - i,
        {
            let c = all[i].0;
            if all[i].1.is_empty() && self.can_move_between_except(exception, coords, c) {
                let ghost r_old = r@;
                r.push((all[i].0, all[i].1.clone()));
                proof {
                    assert forall|k: int, l: int|
                        0 <= k < l < r@.len() implies (#[trigger] r@[k]).0 != (
                    #[trigger] r@[l]).0 by {
                        if l < r_old.len() {
                        } else {
                            let k2 = choose|k2: int|
                                0 <= k2 < i && (#[trigger] all@[k2]).0 == (#[trigger] r_old[k]).0;
                        }
                    }
                    assert forall|k: int|
                        0 <= k < i + 1 && accessible_from(
                            self@,
                            exception,
                            coords,
                            (#[trigger] all@[k]).0,
                        ) implies exists|j: int|
                        0 <= j < r@.len() && (#[trigger] r@[j]).0 == all@[k].0 by {
                        if k < i {
                            let j = choose|j: int|
                                0 <= j < r_old.len() && (#[trigger] r_old[j]).0 == all@[k].0;
                            assert(r@[j].0 == all@[k].0);
                        } else {
                            assert(r@[r@.len() - 1].0 == all@[k].0);
                        }
                    }
                    assert forall|j: int| 0 <= j < r@.len() implies exists|k: int|
                        0 <= k < i + 1 && (#[trigger] all@[k]).0 == (#[trigger] r@[j]).0 by {
                        if j < r_old.len() {
                            let k = choose|k: int|
                                0 <= k < i && (#[trigger] all@[k]).0 == (#[trigger] r_old[j]).0;
                        } else {
                            assert(all@[i as int].0 == r@[j].0);
                        }
                    }
                }
            }
            i += 1;
        }
        proof {
            assert forall|c: AxialCoords|
                #[trigger] accessible_from(self@, exception, coords, c) implies exists|i: int|
                0 <= i < r@.len() && (#[trigger] r@[i]).0 == c by {
                let k = choose|k: int| 0 <= k < all@.len() && (#[trigger] all@[k]).0 == c;
            }
        }
        r
    }

    /// Finds the accessible neighbors, with no exception.
    pub fn accessible_neighbors(&self, coords: AxialCoords) -> (r: Vec<(AxialCoords, Field)>)
        ensures
            forall|i: int|
                0 <= i < r@.len() ==> accessible_from(self@, None, coords, (#[trigger] r@[i]).0)
                    && r@[i].1@ == self@[r@[i].0],
            forall|c: AxialCoords|
                #[trigger] accessible_from(self@, None, coords, c) ==> exists|i: int|
                    0 <= i < r@.len() && (#[trigger] r@[i]).0 == c,
            forall|i: int, j: int|
                0 <= i < j < r@.len() ==> (#[trigger] r@[i]).0 != (#[trigger] r@[j]).0,
    {
        self.accessible_neighbors_except(None, coords)
    }
}



// ---------------------------------------------------------------------
// Reachability along a relation, and swarm connectivity
// ---------------------------------------------------------------------

/// Applies a binary relation; quantifiers trigger on this application.
pub open spec fn rel_app(
    rel: spec_fn(AxialCoords, AxialCoords) -> bool,
    x: AxialCoords,
    y: AxialCoords,
) -> bool {
    rel(x, y)
}

/// A path under `rel`: a non-empty cell sequence whose consecutive
/// cells are related.
pub open spec fn rel_path(rel: spec_fn(AxialCoords, AxialCoords) -> bool, p: Seq<AxialCoords>) -> bool {
    p.len() >= 1 && forall|k: int| 0 <= k < p.len() - 1 ==> rel_app(rel, #[trigger] p[k], p[k + 1])
}

/// Whether some path under `rel` leads from `a` to `b`. Every cell
/// reaches itself by the one-cell path. Opaque: callers reason through
/// the reachability lemmas below.
#[verifier::opaque]
pub open spec fn rel_reach(
    rel: spec_fn(AxialCoords, AxialCoords) -> bool,
    a: AxialCoords,
    b: AxialCoords,
) -> bool {
    exists|p: Seq<AxialCoords>| #[trigger] rel_path(rel, p) && p.first() == a && p.last() == b
}

/// Reachability is reflexive.
pub proof fn lemma_reach_refl(rel: spec_fn(AxialCoords, AxialCoords) -> bool, a: AxialCoords)
    ensures
        rel_reach(rel, a, a),
{
    reveal(rel_reach);

    let p = seq![a];
    assert(rel_path(rel, p) && p.first() == a && p.last() == a);
}

/// A single related step is a reach.
pub proof fn lemma_reach_step(
    rel: spec_fn(AxialCoords, AxialCoords) -> bool,
    a: AxialCoords,
    b: AxialCoords,
)
    requires
        rel_app(rel, a, b),
    ensures
        rel_reach(rel, a, b),
{
    reveal(rel_reach);

    let p = seq![a, b];
    assert(rel_path(rel, p) && p.first() == a && p.last() == b);
}

/// Reachability is transitive: paths concatenate.
pub proof fn lemma_reach_trans(
    rel: spec_fn(AxialCoords, AxialCoords) -> bool,
    a: AxialCoords,
    b: AxialCoords,
    c: AxialCoords,
)
    requires
        rel_reach(rel, a, b),
        rel_reach(rel, b, c),
    ensures
        rel_reach(rel, a, c),
{
    reveal(rel_reach);
    let p1 = choose|p: Seq<AxialCoords>| #[trigger] rel_path(rel, p) && p.first() == a && p.last() == b;
    let p2 = choose|p: Seq<AxialCoords>| #[trigger] rel_path(rel, p) && p.first() == b && p.last() == c;
    let p = p1 + p2.drop_first();
    assert forall|k: int| 0 <= k < p.len() - 1 implies rel_app(rel, #[trigger] p[k], p[k + 1]) by {
        if k < p1.len() - 1 {
            assert(p[k] == p1[k] && p[k + 1] == p1[k + 1]);
        } else if k == p1.len() - 1 {
            assert(p[k] == p1.last() && p1.last() == b && b == p2[0]);
            assert(p[k + 1] == p2[1]);
            assert(rel_app(rel, p2[0], p2[1]));
        } else {
            let j = k - p1.len();
            assert(p[k] == p2[j + 1] && p[k + 1] == p2[j + 2]);
            assert(rel_app(rel, p2[j + 1], p2[j + 2]));
        }
    }
    assert(rel_path(rel, p) && p.first() == a && p.last() == c);
}

/// Reachability under a symmetric relation is symmetric: paths
/// reverse.
pub proof fn lemma_reach_symmetric(
    rel: spec_fn(AxialCoords, AxialCoords) -> bool,
    a: AxialCoords,
    b: AxialCoords,
)
    requires
        rel_reach(rel, a, b),
        forall|x: AxialCoords, y: AxialCoords| #[trigger] rel_app(rel, x, y) ==> rel_app(rel, y, x),
    ensures
        rel_reach(rel, b, a),
{
    reveal(rel_reach);
    let p = choose|p: Seq<AxialCoords>| #[trigger] rel_path(rel, p) && p.first() == a && p.last() == b;
    let q = p.reverse();
    assert forall|k: int| 0 <= k < q.len() - 1 implies rel_app(rel, #[trigger] q[k], q[k + 1]) by {
        let n = p.len();
        assert(q[k] == p[n - 1 - k] && q[k + 1] == p[n - 2 - k]);
        assert(rel_app(rel, p[n - 2 - k], p[n - 1 - k]));
    }
    assert(rel_path(rel, q) && q.first() == b && q.last() == a);
}

/// A set that contains a path's first cell and is closed under the
/// relation contains the path's last cell.
proof fn lemma_path_in_closed_set(
    rel: spec_fn(AxialCoords, AxialCoords) -> bool,
    vs: Set<AxialCoords>,
    p: Seq<AxialCoords>,
)
    requires
        rel_path(rel, p),
        vs.contains(p.first()),
        forall|x: AxialCoords, y: AxialCoords|
            vs.contains(x) && #[trigger] rel_app(rel, x, y) ==> vs.contains(y),
    ensures
        vs.contains(p.last()),
    decreases p.len(),
{
    if p.len() > 1 {
        let q = p.drop_last();
        assert forall|k: int| 0 <= k < q.len() - 1 implies rel_app(rel, #[trigger] q[k], q[k + 1]) by {
            assert(q[k] == p[k] && q[k + 1] == p[k + 1]);
        }
        assert(rel_path(rel, q));
        lemma_path_in_closed_set(rel, vs, q);
        assert(rel_app(rel, p[p.len() - 2], p[p.len() - 1]));
    }
}

/// A set that contains `a` and is closed under the relation contains
/// everything reachable from `a`.
pub proof fn lemma_reach_in_closed_set(
    rel: spec_fn(AxialCoords, AxialCoords) -> bool,
    vs: Set<AxialCoords>,
    a: AxialCoords,
    b: AxialCoords,
)
    requires
        rel_reach(rel, a, b),
        vs.contains(a),
        forall|x: AxialCoords, y: AxialCoords|
            vs.contains(x) && #[trigger] rel_app(rel, x, y) ==> vs.contains(y),
    ensures
        vs.contains(b),
{
    reveal(rel_reach);
    let p = choose|p: Seq<AxialCoords>| #[trigger] rel_path(rel, p) && p.first() == a && p.last() == b;
    lemma_path_in_closed_set(rel, vs, p);
}

/// The swarm relation: two adjacent cells that both hold pieces.
pub open spec fn swarm_rel(m: BoardMap) -> spec_fn(AxialCoords, AxialCoords) -> bool {
    |a: AxialCoords, b: AxialCoords| is_neighbor(a, b) && cell_has_pieces(m, a) && cell_has_pieces(
        m,
        b,
    )
}

/// The swarm is connected: every two piece-bearing cells are joined by
/// a path of adjacent piece-bearing cells. An empty board is vacuously
/// connected.
pub open spec fn spec_swarm_connected(m: BoardMap) -> bool {
    forall|a: AxialCoords, b: AxialCoords|
        cell_has_pieces(m, a) && cell_has_pieces(m, b) ==> #[trigger] rel_reach(swarm_rel(m), a, b)
}

/// An empty board is swarm-connected.
pub proof fn lemma_empty_board_connected(m: BoardMap)
    requires
        forall|c: AxialCoords| !#[trigger] cell_has_pieces(m, c),
    ensures
        spec_swarm_connected(m),
{
}

/// Tests whether a vector of coordinates contains the given one.
pub(crate) fn coords_vec_contains(v: &Vec<AxialCoords>, c: AxialCoords) -> (r: bool)
    ensures
        r == v@.contains(c),
{
    let mut i: usize = 0;
    while i < v.len()
        invariant
            0 <= i <= v@.len(),
            forall|k: int| 0 <= k < i ==> v@[k] != c,
        decreases v@.len() - i,
    {
        if v[i] == c {
            return true;
        }
        i += 1;
    }
    false
}

/// Tests whether a vector of coordinate-field pairs lists the given
/// coordinate.
fn pair_vec_contains_coords(v: &Vec<(AxialCoords, Field)>, c: AxialCoords) -> (r: bool)
    ensures
        r == exists|i: int| 0 <= i < v@.len() && (#[trigger] v@[i]).0 == c,
{
    let mut i: usize = 0;
    while i < v.len()
        invariant
            0 <= i <= v@.len(),
            forall|k: int| 0 <= k < i ==> (#[trigger] v@[k]).0 != c,
        decreases v@.len() - i,
    {
        if v[i].0 == c {
            return true;
        }
        i += 1;
    }
    false
}

impl Board {
    /// The coordinates of the cells that hold pieces, each once.
    fn cells_with_pieces(&self) -> (r: Vec<AxialCoords>)
        ensures
            forall|i: int| 0 <= i < r@.len() ==> cell_has_pieces(self@, #[trigger] r@[i]),
            forall|c: AxialCoords| #[trigger] cell_has_pieces(self@, c) ==> r@.contains(c),
            r@.no_duplicates(),
    {
        let all = self.fields();
        let mut r: Vec<AxialCoords> = Vec::new();
        let mut i: usize = 0;
        while i < all.len()
            invariant
                0 <= i <= all@.len(),
                lists_cells(self@, all@, |c: AxialCoords, f: FieldV| true),
                forall|k: int| 0 <= k < r@.len() ==> cell_has_pieces(self@, #[trigger] r@[k]),
                forall|k: int, l: int| 0 <= k < l < r@.len() ==> r@[k] != r@[l],
                forall|k: int|
                    0 <= k < i && (#[trigger] all@[k]).1@.has_pieces() ==> r@.contains(all@[k].0),
                forall|j: int|
                    0 <= j < r@.len() ==> exists|k: int|
                        0 <= k < i && (#[trigger] all@[k]).0 == (#[trigger] r@[j]),
            decreases all@.len() - i,
        {
            if all[i].1.has_pieces() {
                let ghost r_old = r@;
                r.push(all[i].0);
                proof {
                    assert forall|k: int, l: int| 0 <= k < l < r@.len() implies r@[k] != r@[l] by {
                        if l == r@.len() - 1 {
                            let k2 = choose|k2: int|
                                0 <= k2 < i && (#[trigger] all@[k2]).0 == (#[trigger] r_old[k]);
                        }
                    }
                    assert forall|k: int|
                        0 <= k < i + 1 && (#[trigger] all@[k]).1@.has_pieces() implies r@.contains(
                        all@[k].0,
                    ) by {
                        if k < i {
                            let j = choose|j: int| 0 <= j < r_old.len() && r_old[j] == all@[k].0;
                            assert(r@[j] == all@[k].0);
                        } else {
                            assert(r@[r@.len() - 1] == all@[k].0);
                        }
                    }
                    assert forall|j: int| 0 <= j < r@.len() implies exists|k: int|
                        0 <= k < i + 1 && (#[trigger] all@[k]).0 == (#[trigger] r@[j]) by {
                        if j < r_old.len() {
                            let k = choose|k: int|
                                0 <= k < i && (#[trigger] all@[k]).0 == (#[trigger] r_old[j]);
                        } else {
                            assert(all@[i as int].0 == r@[j]);
                        }
                    }
                }
            }
            i += 1;
        }
        proof {
            assert forall|c: AxialCoords| #[trigger] cell_has_pieces(self@, c) implies r@.contains(
                c,
            ) by {
                let k = choose|k: int| 0 <= k < all@.len() && (#[trigger] all@[k]).0 == c;
            }
        }
        r
    }


    /// Pushes every piece-bearing neighbor of `c` onto the stack.
    fn push_piece_neighbors(&self, c: AxialCoords, stack: &mut Vec<AxialCoords>)
        ensures
            forall|v: AxialCoords|
                old(stack)@.contains(v) ==> #[trigger] final(stack)@.contains(v),
            forall|w: AxialCoords|
                is_neighbor(c, w) && #[trigger] cell_has_pieces(self@, w)
                    ==> final(stack)@.contains(w),
            forall|v: AxialCoords|
                #[trigger] final(stack)@.contains(v) ==> old(stack)@.contains(v) || (is_neighbor(
                    c,
                    v,
                ) && cell_has_pieces(self@, v)),
    {
        let ghost stack_base = stack@;
        let mut k: usize = 0;
        while k < 6
            invariant
                0 <= k <= 6,
                forall|v: AxialCoords|
                    stack_base.contains(v) ==> #[trigger] stack@.contains(v),
                forall|w: AxialCoords|
                    is_neighbor(c, w) && #[trigger] cell_has_pieces(self@, w) && neighbor_idx(c, w)
                        < k ==> stack@.contains(w),
                forall|v: AxialCoords|
                    #[trigger] stack@.contains(v) ==> stack_base.contains(v) || (is_neighbor(c, v)
                        && cell_has_pieces(self@, v)),
            decreases 6 - k,
        {
            let ghost stack_prev = stack@;
            match neighbor_checked(c, k) {
                Some(n) => {
                    let has = match self.field(n) {
                        Some(f) => f.has_pieces(),
                        None => false,
                    };
                    if has {
                        stack.push(n);
                        proof {
                            assert forall|v: AxialCoords|
                                #[trigger] stack@.contains(v) implies stack_prev.contains(v) || v
                                == n by {
                                let idx = choose|idx: int|
                                    0 <= idx < stack@.len() && stack@[idx] == v;
                                if idx < stack_prev.len() {
                                    assert(stack_prev[idx] == v);
                                }
                            }
                            assert forall|v: AxialCoords|
                                stack_prev.contains(v) implies #[trigger] stack@.contains(v) by {
                                let idx = choose|idx: int|
                                    0 <= idx < stack_prev.len() && stack_prev[idx] == v;
                                assert(stack@[idx] == v);
                            }
                            assert(stack@[stack@.len() - 1] == n);
                            assert forall|w: AxialCoords|
                                is_neighbor(c, w) && #[trigger] cell_has_pieces(self@, w)
                                    && neighbor_idx(c, w) < k + 1 implies stack@.contains(w) by {
                                if neighbor_idx(c, w) < k {
                                    assert(stack_prev.contains(w));
                                } else {
                                    assert(w == n);
                                }
                            }
                        }
                    } else {
                        proof {
                            assert forall|w: AxialCoords|
                                is_neighbor(c, w) && #[trigger] cell_has_pieces(self@, w)
                                    && neighbor_idx(c, w) < k + 1 implies stack@.contains(w) by {
                                if neighbor_idx(c, w) >= k {
                                    assert(w == n);
                                    assert(false);
                                }
                            }
                        }
                    }
                },
                None => {
                    proof {
                        assert forall|w: AxialCoords|
                            is_neighbor(c, w) && #[trigger] cell_has_pieces(self@, w)
                                && neighbor_idx(c, w) < k + 1 implies stack@.contains(w) by {
                            if neighbor_idx(c, w) >= k {
                                assert(false);
                            }
                        }
                    }
                },
            }
            k += 1;
        }
    }

    /// Tests whether the swarm is connected: a depth-first traversal
    /// over piece-bearing cells, run with an explicit stack, visits
    /// every piece-bearing cell. An empty board is connected.
    #[verifier::rlimit(100)]
    #[verifier::spinoff_prover]
    pub fn is_swarm_connected(&self) -> (r: bool)
        ensures
            r == spec_swarm_connected(self@),
    {
        let ghost m = self@;
        let ghost rel = swarm_rel(m);
        let occ = self.cells_with_pieces();
        if occ.len() == 0 {
            proof {
                assert forall|c: AxialCoords| !#[trigger] cell_has_pieces(m, c) by {
                    if cell_has_pieces(m, c) {
                        assert(occ@.contains(c));
                    }
                }
            }
            return true;
        }
        let start = occ[0];
        let mut stack: Vec<AxialCoords> = Vec::new();
        stack.push(start);
        let mut visited: Vec<AxialCoords> = Vec::new();
        proof {
            lemma_reach_refl(rel, start);
            assert(stack@[0] == start);
            assert(stack@.contains(start));
        }
        while stack.len() > 0
            invariant
                m == self@,
                rel == swarm_rel(m),
                occ@.len() >= 1,
                start == occ@[0],
                cell_has_pieces(m, start),
                forall|i: int| 0 <= i < occ@.len() ==> cell_has_pieces(m, #[trigger] occ@[i]),
                forall|c: AxialCoords| #[trigger] cell_has_pieces(m, c) ==> occ@.contains(c),
                occ@.no_duplicates(),
                visited@.no_duplicates(),
                forall|v: AxialCoords|
                    #[trigger] visited@.contains(v) ==> cell_has_pieces(m, v) && rel_reach(
                        rel,
                        start,
                        v,
                    ),
                forall|v: AxialCoords|
                    #[trigger] stack@.contains(v) ==> cell_has_pieces(m, v) && rel_reach(
                        rel,
                        start,
                        v,
                    ),
                forall|v: AxialCoords, w: AxialCoords|
                    visited@.contains(v) && #[trigger] rel_app(rel, v, w) ==> visited@.contains(w)
                        || stack@.contains(w),
                visited@.contains(start) || stack@.contains(start),
                visited@.len() <= occ@.len(),
            decreases occ@.len() - visited@.len(), stack@.len(),
        {
            let ghost stack_old = stack@;
            let copt = stack.pop();
            let c = match copt {
                Some(c) => c,
                None => {
                    proof {
                        assert(false);
                    }
                    start
                },
            };
            let ghost stack_mid = stack@;
            proof {
                assert(stack_old[stack_old.len() - 1] == c);
                assert(stack_old.contains(c));
                assert(cell_has_pieces(m, c) && rel_reach(rel, start, c));
                assert(stack_mid =~= stack_old.drop_last());
                assert forall|v: AxialCoords| #[trigger] stack_mid.contains(v) implies
                    cell_has_pieces(m, v) && rel_reach(rel, start, v) by {
                    let idx = choose|idx: int| 0 <= idx < stack_mid.len() && stack_mid[idx] == v;
                    assert(stack_old[idx] == v);
                    assert(stack_old.contains(v));
                }
                assert forall|w: AxialCoords| #[trigger] stack_old.contains(w) implies stack_mid.contains(
                    w,
                ) || w == c by {
                    let idx = choose|idx: int| 0 <= idx < stack_old.len() && stack_old[idx] == w;
                    if idx < stack_old.len() - 1 {
                        assert(stack_mid[idx] == w);
                    }
                }
            }
            if !coords_vec_contains(&visited, c) {
                let ghost visited_old = visited@;
                visited.push(c);
                proof {
                    assert forall|v: AxialCoords| #[trigger] visited@.contains(v) implies
                        cell_has_pieces(m, v) && rel_reach(rel, start, v) by {
                        let idx = choose|idx: int| 0 <= idx < visited@.len() && visited@[idx] == v;
                        if idx < visited_old.len() {
                            assert(visited_old.contains(v));
                        } else {
                            assert(v == c);
                        }
                    }
                    // the new visited list is still duplicate-free and no
                    // larger than the occupied list
                    assert(visited@.no_duplicates());
                    assert(visited@.len() <= occ@.len()) by {
                        assert(forall|v: AxialCoords|
                            #[trigger] visited@.contains(v) ==> occ@.contains(v));
                        visited@.unique_seq_to_set();
                        occ@.unique_seq_to_set();
                        assert(visited@.to_set().subset_of(occ@.to_set()));
                        lemma_len_subset(visited@.to_set(), occ@.to_set());
                    }
                }
                // push every adjacent piece-bearing cell
                self.push_piece_neighbors(c, &mut stack);
                proof {
                    assert forall|v: AxialCoords|
                        #[trigger] stack@.contains(v) implies cell_has_pieces(m, v) && rel_reach(
                        rel,
                        start,
                        v,
                    ) by {
                        if stack_mid.contains(v) {
                            assert(cell_has_pieces(m, v) && rel_reach(rel, start, v));
                        } else {
                            assert(is_neighbor(c, v) && cell_has_pieces(m, v));
                            assert(rel_app(rel, c, v));
                            lemma_reach_step(rel, c, v);
                            lemma_reach_trans(rel, start, c, v);
                        }
                    }
                    // closure: every piece-bearing neighbor of any visited
                    // cell is visited or on the stack
                    assert forall|v: AxialCoords, w: AxialCoords|
                        visited@.contains(v) && #[trigger] rel_app(rel, v, w) implies
                        visited@.contains(w) || stack@.contains(w) by {
                        let vidx = choose|vidx: int|
                            0 <= vidx < visited@.len() && visited@[vidx] == v;
                        if vidx == visited@.len() - 1 {
                            assert(v == c);
                            assert(is_neighbor(c, w) && cell_has_pieces(m, w));
                            assert(stack@.contains(w));
                        } else {
                            assert(visited_old[vidx] == v);
                            assert(visited_old.contains(v));
                            assert(visited_old.contains(w) || stack_old.contains(w));
                            if visited_old.contains(w) {
                                let idx = choose|idx: int|
                                    0 <= idx < visited_old.len() && visited_old[idx] == w;
                                assert(visited@[idx] == w);
                            } else {
                                assert(stack_mid.contains(w) || w == c);
                                if w == c {
                                    assert(visited@[visited@.len() - 1] == w);
                                } else {
                                    assert(stack@.contains(w));
                                }
                            }
                        }
                    }
                    assert(visited@.contains(start) || stack@.contains(start)) by {
                        if visited_old.contains(start) {
                            let idx = choose|idx: int|
                                0 <= idx < visited_old.len() && visited_old[idx] == start;
                            assert(visited@[idx] == start);
                        } else if c != start {
                            assert(stack_old.contains(start));
                            assert(stack_mid.contains(start));
                            assert(stack@.contains(start));
                        } else {
                            assert(visited@[visited@.len() - 1] == start);
                        }
                    }
                }
            } else {
                proof {
                    assert(visited@.contains(c));
                    assert forall|v: AxialCoords, w: AxialCoords|
                        visited@.contains(v) && #[trigger] rel_app(rel, v, w) implies
                        visited@.contains(w) || stack@.contains(w) by {
                        if !visited@.contains(w) {
                            assert(stack_old.contains(w));
                            assert(stack_mid.contains(w) || w == c);
                        }
                    }
                    assert(visited@.contains(start) || stack@.contains(start)) by {
                        if !visited@.contains(start) {
                            assert(stack_old.contains(start));
                            assert(stack_mid.contains(start) || start == c);
                        }
                    }
                }
            }
        }
        let r = visited.len() == occ.len();
        proof {
            broadcast use vstd::seq_lib::seq_to_set_is_finite;

            let vs = visited@.to_set();
            visited@.unique_seq_to_set();
            occ@.unique_seq_to_set();
            assert(vs.finite());
            assert(occ@.to_set().finite());
            assert(forall|v: AxialCoords| #[trigger] vs.contains(v) == visited@.contains(v));
            assert(forall|v: AxialCoords| #[trigger] visited@.contains(v) ==> occ@.contains(v));
            assert(vs.subset_of(occ@.to_set()));
            assert(vs.contains(start));
            assert forall|x: AxialCoords, y: AxialCoords|
                vs.contains(x) && #[trigger] rel_app(rel, x, y) implies vs.contains(y) by {
                assert(visited@.contains(x));
            }
            if r {
                lemma_len_subset(vs, occ@.to_set());
                lemma_subset_equality(vs, occ@.to_set());
                assert(vs =~= occ@.to_set());
                assert forall|x: AxialCoords, y: AxialCoords|
                    cell_has_pieces(m, x) && cell_has_pieces(m, y) implies #[trigger] rel_reach(
                    rel,
                    x,
                    y,
                ) by {
                    assert(occ@.contains(x) && occ@.contains(y));
                    assert(vs.contains(x) && vs.contains(y));
                    assert(rel_reach(rel, start, x) && rel_reach(rel, start, y));
                    assert forall|u: AxialCoords, v: AxialCoords|
                        #[trigger] rel_app(rel, u, v) implies rel_app(rel, v, u) by {}
                    lemma_reach_symmetric(rel, start, x);
                    lemma_reach_trans(rel, x, start, y);
                }
            } else {
                assert(vs.len() < occ@.to_set().len()) by {
                    lemma_len_subset(vs, occ@.to_set());
                }
                if forall|b: AxialCoords| occ@.to_set().contains(b) ==> #[trigger] vs.contains(b) {
                    assert(occ@.to_set() =~= vs);
                    assert(false);
                }
                let b = choose|b: AxialCoords|
                    occ@.to_set().contains(b) && !#[trigger] vs.contains(b);
                assert(occ@.contains(b));
                assert(cell_has_pieces(m, b));
                assert(!rel_reach(rel, start, b)) by {
                    if rel_reach(rel, start, b) {
                        lemma_reach_in_closed_set(rel, vs, start, b);
                        assert(false);
                    }
                }
                assert(!spec_swarm_connected(m)) by {
                    if spec_swarm_connected(m) {
                        assert(rel_reach(rel, start, b));
                        assert(false);
                    }
                }
            }
        }
        r
    }
}



// ---------------------------------------------------------------------
// Paths along the swarm boundary: the ant and the spider
// ---------------------------------------------------------------------

/// The accessible-step relation used by boundary searches.
pub open spec fn acc_rel(m: BoardMap, exception: Option<AxialCoords>) -> spec_fn(
    AxialCoords,
    AxialCoords,
) -> bool {
    |a: AxialCoords, b: AxialCoords| accessible_from(m, exception, a, b)
}

/// Whether a path of accessible slides leads from `start` to
/// `destination`, the moving piece's own start cell exempted from the
/// single-piece blocking rule. The start must be a board cell.
pub open spec fn spec_boundary_connected(
    m: BoardMap,
    start: AxialCoords,
    destination: AxialCoords,
) -> bool {
    m.dom().contains(start) && rel_reach(acc_rel(m, Some(start)), start, destination)
}

/// The last two steps and the landing of a three-step spider walk.
pub open spec fn spider_tail(
    m: BoardMap,
    start: AxialCoords,
    destination: AxialCoords,
    c1: AxialCoords,
    c2: AxialCoords,
) -> bool {
    &&& accessible_from(m, Some(start), start, c1)
    &&& accessible_from(m, Some(start), c1, c2)
    &&& c2 != start
    &&& accessible_from(m, Some(start), c2, destination)
    &&& destination != start
    &&& destination != c1
    &&& destination != c2
}

/// Whether a walk of exactly three accessible steps through pairwise
/// distinct cells leads from `start` to `destination`.
pub open spec fn spec_spider_path(
    m: BoardMap,
    start: AxialCoords,
    destination: AxialCoords,
) -> bool {
    exists|c1: AxialCoords, c2: AxialCoords| #[trigger] spider_tail(m, start, destination, c1, c2)
}

impl Board {
    /// Pushes every accessible neighbor of `c` onto the stack.
    fn push_accessible_neighbors(
        &self,
        exception: Option<AxialCoords>,
        c: AxialCoords,
        stack: &mut Vec<AxialCoords>,
    )
        ensures
            forall|v: AxialCoords|
                old(stack)@.contains(v) ==> #[trigger] final(stack)@.contains(v),
            forall|w: AxialCoords|
                #[trigger] accessible_from(self@, exception, c, w) ==> final(stack)@.contains(w),
            forall|v: AxialCoords|
                #[trigger] final(stack)@.contains(v) ==> old(stack)@.contains(v)
                    || accessible_from(self@, exception, c, v),
    {
        let ghost stack_base = stack@;
        let ns = self.accessible_neighbors_except(exception, c);
        let mut j: usize = 0;
        while j < ns.len()
            invariant
                0 <= j <= ns@.len(),
                forall|i: int|
                    0 <= i < ns@.len() ==> accessible_from(
                        self@,
                        exception,
                        c,
                        (#[trigger] ns@[i]).0,
                    ),
                forall|w: AxialCoords|
                    #[trigger] accessible_from(self@, exception, c, w) ==> exists|i: int|
                        0 <= i < ns@.len() && (#[trigger] ns@[i]).0 == w,
                forall|v: AxialCoords|
                    stack_base.contains(v) ==> #[trigger] stack@.contains(v),
                forall|i: int| 0 <= i < j ==> stack@.contains((#[trigger] ns@[i]).0),
                forall|v: AxialCoords|
                    #[trigger] stack@.contains(v) ==> stack_base.contains(v) || accessible_from(
                        self@,
                        exception,
                        c,
                        v,
                    ),
            decreases ns@.len() - j,
        {
            let ghost stack_prev = stack@;
            stack.push(ns[j].0);
            proof {
                assert(stack@[stack@.len() - 1] == ns@[j as int].0);
                assert forall|v: AxialCoords|
                    stack_prev.contains(v) implies #[trigger] stack@.contains(v) by {
                    let idx = choose|idx: int| 0 <= idx < stack_prev.len() && stack_prev[idx] == v;
                    assert(stack@[idx] == v);
                }
                assert forall|v: AxialCoords|
                    #[trigger] stack@.contains(v) implies stack_prev.contains(v) || v == ns@[
                        j as int
                    ].0 by {
                    let idx = choose|idx: int| 0 <= idx < stack@.len() && stack@[idx] == v;
                    if idx < stack_prev.len() {
                        assert(stack_prev[idx] == v);
                    }
                }
                assert forall|i: int| 0 <= i < j + 1 implies stack@.contains(
                    (#[trigger] ns@[i]).0,
                ) by {
                    if i < j {
                        assert(stack_prev.contains(ns@[i].0));
                    }
                }
            }
            j += 1;
        }
        proof {
            assert forall|w: AxialCoords|
                #[trigger] accessible_from(self@, exception, c, w) implies stack@.contains(w) by {
                let i = choose|i: int| 0 <= i < ns@.len() && (#[trigger] ns@[i]).0 == w;
            }
        }
    }

    /// Tests whether two cells are connected by a path of accessible
    /// slides along the swarm boundary: a breadth-first search from the
    /// start, run with an explicit worklist.
    #[verifier::rlimit(100)]
    #[verifier::spinoff_prover]
    pub fn connected_by_boundary_path(
        &self,
        start_coords: AxialCoords,
        destination_coords: AxialCoords,
    ) -> (r: bool)
        ensures
            r == spec_boundary_connected(self@, start_coords, destination_coords),
    {
        let ghost m = self@;
        let ghost rel = acc_rel(m, Some(start_coords));
        let start = start_coords;
        let destination = destination_coords;
        if !self.contains_coords(start) {
            return false;
        }
        proof {
            use_type_invariant(self);
            lemma_fields_map_dom(self.fields@);
        }
        let ghost univ = m.dom().insert(start);
        let mut stack: Vec<AxialCoords> = Vec::new();
        stack.push(start);
        let mut visited: Vec<AxialCoords> = Vec::new();
        proof {
            lemma_reach_refl(rel, start);
            assert(stack@[0] == start);
            assert(stack@.contains(start));
        }
        while stack.len() > 0
            invariant
                m == self@,
                rel == acc_rel(m, Some(start)),
                start == start_coords,
                destination == destination_coords,
                m.dom().contains(start),
                univ == m.dom().insert(start),
                univ.finite(),
                visited@.no_duplicates(),
                !visited@.contains(destination),
                forall|v: AxialCoords|
                    #[trigger] visited@.contains(v) ==> univ.contains(v) && rel_reach(
                        rel,
                        start,
                        v,
                    ),
                forall|v: AxialCoords|
                    #[trigger] stack@.contains(v) ==> univ.contains(v) && rel_reach(rel, start, v),
                forall|v: AxialCoords, w: AxialCoords|
                    visited@.contains(v) && #[trigger] rel_app(rel, v, w) ==> visited@.contains(w)
                        || stack@.contains(w),
                visited@.contains(start) || stack@.contains(start),
                visited@.len() <= univ.len(),
            decreases univ.len() - visited@.len(), stack@.len(),
        {
            let ghost stack_old = stack@;
            let copt = stack.pop();
            let c = match copt {
                Some(c) => c,
                None => {
                    proof {
                        assert(false);
                    }
                    start
                },
            };
            let ghost stack_mid = stack@;
            proof {
                assert(stack_old[stack_old.len() - 1] == c);
                assert(stack_old.contains(c));
                assert(univ.contains(c) && rel_reach(rel, start, c));
                assert(stack_mid =~= stack_old.drop_last());
                assert forall|v: AxialCoords| #[trigger] stack_mid.contains(v) implies
                    univ.contains(v) && rel_reach(rel, start, v) by {
                    let idx = choose|idx: int| 0 <= idx < stack_mid.len() && stack_mid[idx] == v;
                    assert(stack_old[idx] == v);
                    assert(stack_old.contains(v));
                }
                assert forall|w: AxialCoords| #[trigger] stack_old.contains(w) implies stack_mid.contains(
                    w,
                ) || w == c by {
                    let idx = choose|idx: int| 0 <= idx < stack_old.len() && stack_old[idx] == w;
                    if idx < stack_old.len() - 1 {
                        assert(stack_mid[idx] == w);
                    }
                }
            }
            if !coords_vec_contains(&visited, c) {
                if c == destination {
                    return true;
                }
                let ghost visited_old = visited@;
                visited.push(c);
                proof {
                    assert forall|v: AxialCoords| #[trigger] visited@.contains(v) implies
                        univ.contains(v) && rel_reach(rel, start, v) by {
                        let idx = choose|idx: int| 0 <= idx < visited@.len() && visited@[idx] == v;
                        if idx < visited_old.len() {
                            assert(visited_old.contains(v));
                        } else {
                            assert(v == c);
                        }
                    }
                    assert(visited@.no_duplicates());
                    assert(visited@.len() <= univ.len()) by {
                        broadcast use vstd::seq_lib::seq_to_set_is_finite;

                        assert(forall|v: AxialCoords|
                            #[trigger] visited@.contains(v) ==> univ.contains(v));
                        visited@.unique_seq_to_set();
                        assert(visited@.to_set().subset_of(univ));
                        lemma_len_subset(visited@.to_set(), univ);
                    }
                }
                self.push_accessible_neighbors(Some(start), c, &mut stack);
                proof {
                    assert forall|v: AxialCoords|
                        #[trigger] stack@.contains(v) implies univ.contains(v) && rel_reach(
                        rel,
                        start,
                        v,
                    ) by {
                        if stack_mid.contains(v) {
                        } else {
                            assert(accessible_from(m, Some(start), c, v));
                            assert(cell_empty(m, v));
                            assert(univ.contains(v));
                            assert(rel_app(rel, c, v));
                            lemma_reach_step(rel, c, v);
                            lemma_reach_trans(rel, start, c, v);
                        }
                    }
                    assert forall|v: AxialCoords, w: AxialCoords|
                        visited@.contains(v) && #[trigger] rel_app(rel, v, w) implies
                        visited@.contains(w) || stack@.contains(w) by {
                        let vidx = choose|vidx: int|
                            0 <= vidx < visited@.len() && visited@[vidx] == v;
                        if vidx == visited@.len() - 1 {
                            assert(v == c);
                            assert(accessible_from(m, Some(start), c, w));
                            assert(stack@.contains(w));
                        } else {
                            assert(visited_old[vidx] == v);
                            assert(visited_old.contains(v));
                            assert(visited_old.contains(w) || stack_old.contains(w));
                            if visited_old.contains(w) {
                                let idx = choose|idx: int|
                                    0 <= idx < visited_old.len() && visited_old[idx] == w;
                                assert(visited@[idx] == w);
                            } else {
                                assert(stack_mid.contains(w) || w == c);
                                if w == c {
                                    assert(visited@[visited@.len() - 1] == w);
                                } else {
                                    assert(stack@.contains(w));
                                }
                            }
                        }
                    }
                    assert(visited@.contains(start) || stack@.contains(start)) by {
                        if visited_old.contains(start) {
                            let idx = choose|idx: int|
                                0 <= idx < visited_old.len() && visited_old[idx] == start;
                            assert(visited@[idx] == start);
                        } else if c != start {
                            assert(stack_old.contains(start));
                            assert(stack_mid.contains(start));
                            assert(stack@.contains(start));
                        } else {
                            assert(visited@[visited@.len() - 1] == start);
                        }
                    }
                }
            } else {
                proof {
                    assert(visited@.contains(c));
                    assert forall|v: AxialCoords, w: AxialCoords|
                        visited@.contains(v) && #[trigger] rel_app(rel, v, w) implies
                        visited@.contains(w) || stack@.contains(w) by {
                        if !visited@.contains(w) {
                            assert(stack_old.contains(w));
                            assert(stack_mid.contains(w) || w == c);
                        }
                    }
                    assert(visited@.contains(start) || stack@.contains(start)) by {
                        if !visited@.contains(start) {
                            assert(stack_old.contains(start));
                            assert(stack_mid.contains(start) || start == c);
                        }
                    }
                }
            }
        }
        proof {
            let vs = visited@.to_set();
            assert(forall|v: AxialCoords| #[trigger] vs.contains(v) == visited@.contains(v));
            assert(vs.contains(start));
            assert forall|x: AxialCoords, y: AxialCoords|
                vs.contains(x) && #[trigger] rel_app(rel, x, y) implies vs.contains(y) by {
                assert(visited@.contains(x));
            }
            assert(!rel_reach(rel, start, destination)) by {
                if rel_reach(rel, start, destination) {
                    lemma_reach_in_closed_set(rel, vs, start, destination);
                    assert(false);
                }
            }
        }
        false
    }

    /// Tests whether the given cell can be reached from `start` by a
    /// walk of exactly three accessible steps through pairwise distinct
    /// cells, as the spider moves.
    pub fn bfs_reachable_in_3_steps(&self, start: AxialCoords, destination: AxialCoords) -> (r:
        bool)
        ensures
            r == spec_spider_path(self@, start, destination),
    {
        let ghost m = self@;
        let n1 = self.accessible_neighbors_except(Some(start), start);
        let mut i: usize = 0;
        while i < n1.len()
            invariant
                m == self@,
                0 <= i <= n1@.len(),
                forall|k: int|
                    0 <= k < n1@.len() ==> accessible_from(
                        m,
                        Some(start),
                        start,
                        (#[trigger] n1@[k]).0,
                    ),
                forall|c1: AxialCoords|
                    #[trigger] accessible_from(m, Some(start), start, c1) ==> exists|k: int|
                        0 <= k < n1@.len() && (#[trigger] n1@[k]).0 == c1,
                forall|k: int, c2: AxialCoords|
                    0 <= k < i ==> !#[trigger] spider_tail(
                        m,
                        start,
                        destination,
                        (#[trigger] n1@[k]).0,
                        c2,
                    ),
            decreases n1@.len() - i,
        {
            let c1 = n1[i].0;
            let n2 = self.accessible_neighbors_except(Some(start), c1);
            let mut j: usize = 0;
            while j < n2.len()
                invariant
                    m == self@,
                    0 <= j <= n2@.len(),
                    0 <= i < n1@.len(),
                    c1 == n1@[i as int].0,
                    accessible_from(m, Some(start), start, c1),
                    forall|k: int|
                        0 <= k < n2@.len() ==> accessible_from(
                            m,
                            Some(start),
                            c1,
                            (#[trigger] n2@[k]).0,
                        ),
                    forall|c2: AxialCoords|
                        #[trigger] accessible_from(m, Some(start), c1, c2) ==> exists|k: int|
                            0 <= k < n2@.len() && (#[trigger] n2@[k]).0 == c2,
                    forall|l: int, c2: AxialCoords|
                        0 <= l < i ==> !#[trigger] spider_tail(
                            m,
                            start,
                            destination,
                            (#[trigger] n1@[l]).0,
                            c2,
                        ),
                    forall|l: int|
                        0 <= l < j ==> !spider_tail(
                            m,
                            start,
                            destination,
                            c1,
                            (#[trigger] n2@[l]).0,
                        ),
                decreases n2@.len() - j,
            {
                let c2 = n2[j].0;
                if c2 != start && destination != start && destination != c1 && destination != c2 {
                    let n3 = self.accessible_neighbors_except(Some(start), c2);
                    if pair_vec_contains_coords(&n3, destination) {
                        proof {
                            let k = choose|k: int|
                                0 <= k < n3@.len() && (#[trigger] n3@[k]).0 == destination;
                            assert(accessible_from(m, Some(start), c2, destination));
                            assert(spider_tail(m, start, destination, c1, c2));
                        }
                        return true;
                    }
                    proof {
                        assert(!accessible_from(m, Some(start), c2, destination)) by {
                            if accessible_from(m, Some(start), c2, destination) {
                                let k = choose|k: int|
                                    0 <= k < n3@.len() && (#[trigger] n3@[k]).0 == destination;
                                assert(false);
                            }
                        }
                        assert(!spider_tail(m, start, destination, c1, c2));
                    }
                } else {
                    proof {
                        assert(!spider_tail(m, start, destination, c1, c2));
                    }
                }
                j += 1;
            }
            proof {
                assert forall|c2: AxialCoords| !#[trigger] spider_tail(
                    m,
                    start,
                    destination,
                    c1,
                    c2,
                ) by {
                    if spider_tail(m, start, destination, c1, c2) {
                        let k = choose|k: int|
                            0 <= k < n2@.len() && (#[trigger] n2@[k]).0 == c2;
                        assert(false);
                    }
                }
            }
            i += 1;
        }
        proof {
            assert(!spec_spider_path(m, start, destination)) by {
                if spec_spider_path(m, start, destination) {
                    let (c1, c2) = choose|c1: AxialCoords, c2: AxialCoords|
                        #[trigger] spider_tail(m, start, destination, c1, c2);
                    let k = choose|k: int| 0 <= k < n1@.len() && (#[trigger] n1@[k]).0 == c1;
                    assert(false);
                }
            }
        }
        false
    }
}

// ---------------------------------------------------------------------
// The grasshopper's line, and set-move destinations
// ---------------------------------------------------------------------

/// Whether every existing cell strictly between the two ends of the
/// line is occupied by pieces or obstruction, so a grasshopper may jump
/// over it.
pub open spec fn spec_grasshopper_clear(m: BoardMap, s: AxialCoords, d: AxialCoords) -> bool {
    forall|k: int|
        1 <= k < line_len_ax(s, d) ==> !cell_empty(m, #[trigger] line_cell_ax(s, d, k))
}

/// Whether some cell owned by `color` is adjacent to `c`.
pub open spec fn has_owned_neighbor(m: BoardMap, color: PlayerColor, c: AxialCoords) -> bool {
    exists|o: AxialCoords| #[trigger] cell_owned_by(m, o, color) && is_neighbor(o, c)
}

/// Whether `c` is a legal destination for setting a piece of `color`:
/// an empty cell touching an own cell and no opponent cell.
pub open spec fn spec_set_destination(m: BoardMap, color: PlayerColor, c: AxialCoords) -> bool {
    &&& cell_empty(m, c)
    &&& has_owned_neighbor(m, color, c)
    &&& !next_to(m, color.spec_opponent(), c)
}

/// The subsequence of first occurrences: what itertools' `unique`
/// leaves of a sequence.
pub open spec fn seq_dedup(s: Seq<AxialCoords>) -> Seq<AxialCoords>
    decreases s.len(),
{
    if s.len() == 0 {
        Seq::empty()
    } else if s.drop_last().contains(s.last()) {
        seq_dedup(s.drop_last())
    } else {
        seq_dedup(s.drop_last()).push(s.last())
    }
}

/// Deduplication keeps membership and leaves no duplicates.
pub proof fn lemma_seq_dedup_props(s: Seq<AxialCoords>)
    ensures
        seq_dedup(s).no_duplicates(),
        forall|x: AxialCoords| seq_dedup(s).contains(x) <==> s.contains(x),
    decreases s.len(),
{
    if s.len() > 0 {
        lemma_seq_dedup_props(s.drop_last());
        let d = seq_dedup(s);
        let dprev = seq_dedup(s.drop_last());
        assert forall|x: AxialCoords| #[trigger] s.contains(x) implies d.contains(x) by {
            let idx = choose|idx: int| 0 <= idx < s.len() && s[idx] == x;
            if idx < s.len() - 1 {
                assert(s.drop_last()[idx] == x);
                assert(s.drop_last().contains(x));
                assert(dprev.contains(x));
                if !s.drop_last().contains(s.last()) {
                    let jdx = choose|jdx: int| 0 <= jdx < dprev.len() && dprev[jdx] == x;
                    assert(d[jdx] == x);
                }
            } else {
                if s.drop_last().contains(s.last()) {
                    assert(dprev.contains(x));
                } else {
                    assert(d[d.len() - 1] == x);
                }
            }
        }
        assert forall|x: AxialCoords| #[trigger] d.contains(x) implies s.contains(x) by {
            if !s.drop_last().contains(s.last()) {
                let idx = choose|idx: int| 0 <= idx < d.len() && d[idx] == x;
                if idx < d.len() - 1 {
                    assert(dprev[idx] == x);
                    assert(dprev.contains(x));
                    assert(s.drop_last().contains(x));
                    let jdx = choose|jdx: int|
                        0 <= jdx < s.drop_last().len() && s.drop_last()[jdx] == x;
                    assert(s[jdx] == x);
                } else {
                    assert(x == s.last());
                    assert(s[s.len() - 1] == x);
                }
            } else {
                assert(dprev.contains(x));
                assert(s.drop_last().contains(x));
                let jdx = choose|jdx: int|
                    0 <= jdx < s.drop_last().len() && s.drop_last()[jdx] == x;
                assert(s[jdx] == x);
            }
        }
        if !s.drop_last().contains(s.last()) {
            assert(!dprev.contains(s.last()));
            assert(d.no_duplicates()) by {
                assert forall|a: int, b: int| 0 <= a < b < d.len() implies d[a] != d[b] by {
                    if b < d.len() - 1 {
                        assert(dprev[a] != dprev[b]);
                    } else {
                        assert(d[a] == dprev[a]);
                        assert(dprev.contains(dprev[a]));
                    }
                }
            }
        }
    }
}

/// Relies on itertools' `unique`: it yields the first occurrence of
/// each distinct element, in the order of first occurrence.
#[verifier::external_body]
fn unique_coords(v: Vec<AxialCoords>) -> (r: Vec<AxialCoords>)
    ensures
        r@ == seq_dedup(v@),
{
    v.into_iter().unique().collect()
}

impl Board {
    /// Tests whether a grasshopper may jump over the cells strictly
    /// between the two ends of a line: none of them may be an existing
    /// empty cell.
    pub fn line_clear_of_empty(&self, start: AxialCoords, destination: AxialCoords) -> (r: bool)
        requires
            forms_line_ax(start, destination),
            start != destination,
        ensures
            r == spec_grasshopper_clear(self@, start, destination),
    {
        let dx: i64 = destination.x as i64 - start.x as i64;
        let dy: i64 = destination.y as i64 - start.y as i64;
        let adx: i64 = if dx >= 0 {
            dx
        } else {
            -dx
        };
        let ady: i64 = if dy >= 0 {
            dy
        } else {
            -dy
        };
        let adz: i64 = if dx + dy >= 0 {
            dx + dy
        } else {
            -(dx + dy)
        };
        let n: i64 = if adx >= ady && adx >= adz {
            adx
        } else if ady >= adz {
            ady
        } else {
            adz
        };
        let sx = sgn_i64_pub(dx);
        let sy = sgn_i64_pub(dy);
        proof {
            assert(n as int == line_len_ax(start, destination));
        }
        let mut k: i64 = 1;
        while k < n
            invariant
                1 <= k <= n || (n < 1 && k == 1),
                n as int == line_len_ax(start, destination),
                forms_line_ax(start, destination),
                start != destination,
                sx as int == sgn(destination.x - start.x),
                sy as int == sgn(destination.y - start.y),
                forall|l: int|
                    1 <= l < k ==> !cell_empty(self@, #[trigger] line_cell_ax(
                        start,
                        destination,
                        l,
                    )),
            decreases n - k,
        {
            proof {
                crate::game::coords::lemma_line_cells(start, destination, k as int);
            }
            let cx: i64 = start.x as i64 + k * sx;
            let cy: i64 = start.y as i64 + k * sy;
            let cell = AxialCoords { x: cx as i32, y: cy as i32 };
            proof {
                assert(cell == line_cell_ax(start, destination, k as int));
            }
            let empty_here = match self.field(cell) {
                Some(f) => f.is_empty(),
                None => false,
            };
            if empty_here {
                return false;
            }
            k += 1;
        }
        true
    }

    /// Fetches the possible destinations for a set move of the given
    /// color: the empty cells next to an own cell and not next to any
    /// opponent cell, each once.
    pub fn possible_set_move_destinations(&self, color: PlayerColor) -> (r: Vec<AxialCoords>)
        ensures
            forall|i: int| 0 <= i < r@.len() ==> spec_set_destination(self@, color, #[trigger] r@[i]),
            forall|c: AxialCoords| #[trigger] spec_set_destination(self@, color, c) ==> r@.contains(c),
            r@.no_duplicates(),
    {
        let ghost m = self@;
        let own = self.fields_owned_by(color);
        let mut cands: Vec<AxialCoords> = Vec::new();
        let mut i: usize = 0;
        while i < own.len()
            invariant
                m == self@,
                0 <= i <= own@.len(),
                lists_cells(m, own@, |c: AxialCoords, f: FieldV| f.is_owned_by(color)),
                forall|k: int|
                    0 <= k < cands@.len() ==> cell_empty(m, #[trigger] cands@[k])
                        && has_owned_neighbor(m, color, cands@[k]),
                forall|k: int, c: AxialCoords|
                    0 <= k < i && is_neighbor((#[trigger] own@[k]).0, c) && #[trigger] cell_empty(
                        m,
                        c,
                    ) ==> cands@.contains(c),
            decreases own@.len() - i,
        {
            let ghost o = own@[i as int].0;
            let ns = self.empty_neighbors(own[i].0);
            let mut j: usize = 0;
            while j < ns.len()
                invariant
                    m == self@,
                    0 <= j <= ns@.len(),
                    0 <= i < own@.len(),
                    o == own@[i as int].0,
                    cell_owned_by(m, o, color),
                    forall|k: int|
                        0 <= k < ns@.len() ==> is_neighbor(o, (#[trigger] ns@[k]).0) && cell_empty(
                            m,
                            ns@[k].0,
                        ),
                    forall|c: AxialCoords|
                        is_neighbor(o, c) && #[trigger] cell_empty(m, c) ==> exists|k: int|
                            0 <= k < ns@.len() && (#[trigger] ns@[k]).0 == c,
                    forall|k: int|
                        0 <= k < cands@.len() ==> cell_empty(m, #[trigger] cands@[k])
                            && has_owned_neighbor(m, color, cands@[k]),
                    forall|k: int, c: AxialCoords|
                        0 <= k < i && is_neighbor((#[trigger] own@[k]).0, c)
                            && #[trigger] cell_empty(m, c) ==> cands@.contains(c),
                    forall|k: int| 0 <= k < j ==> cands@.contains((#[trigger] ns@[k]).0),
                decreases ns@.len() - j,
            {
                let ghost cands_old = cands@;
                cands.push(ns[j].0);
                proof {
                    assert(cands@[cands@.len() - 1] == ns@[j as int].0);
                    assert forall|v: AxialCoords|
                        cands_old.contains(v) implies #[trigger] cands@.contains(v) by {
                        let idx = choose|idx: int|
                            0 <= idx < cands_old.len() && cands_old[idx] == v;
                        assert(cands@[idx] == v);
                    }
                    assert(is_neighbor(o, ns@[j as int].0));
                    assert(cell_owned_by(m, o, color));
                    assert(has_owned_neighbor(m, color, ns@[j as int].0));
                }
                j += 1;
            }
            proof {
                assert forall|c: AxialCoords|
                    is_neighbor(o, c) && #[trigger] cell_empty(m, c) implies cands@.contains(c) by {
                    let k = choose|k: int| 0 <= k < ns@.len() && (#[trigger] ns@[k]).0 == c;
                }
            }
            i += 1;
        }
        proof {
            lemma_seq_dedup_props(cands@);
        }
        let uniq = unique_coords(cands);
        proof {
            assert forall|k: int|
                0 <= k < uniq@.len() implies cell_empty(m, #[trigger] uniq@[k])
                && has_owned_neighbor(m, color, uniq@[k]) by {
                assert(uniq@.contains(uniq@[k]));
                assert(cands@.contains(uniq@[k]));
                let idx = choose|idx: int| 0 <= idx < cands@.len() && cands@[idx] == uniq@[k];
            }
            assert forall|c: AxialCoords|
                #[trigger] spec_set_destination(m, color, c) implies uniq@.contains(c) by {
                let o = choose|o: AxialCoords|
                    #[trigger] cell_owned_by(m, o, color) && is_neighbor(o, c);
                let k = choose|k: int| 0 <= k < own@.len() && (#[trigger] own@[k]).0 == o;
                assert(cands@.contains(c));
            }
        }
        let opponent = color.opponent();
        let mut r: Vec<AxialCoords> = Vec::new();
        let mut i2: usize = 0;
        while i2 < uniq.len()
            invariant
                m == self@,
                0 <= i2 <= uniq@.len(),
                opponent == color.spec_opponent(),
                uniq@.no_duplicates(),
                forall|k: int|
                    0 <= k < uniq@.len() ==> cell_empty(m, #[trigger] uniq@[k])
                        && has_owned_neighbor(m, color, uniq@[k]),
                forall|c: AxialCoords|
                    #[trigger] spec_set_destination(m, color, c) ==> uniq@.contains(c),
                forall|k: int|
                    0 <= k < r@.len() ==> spec_set_destination(m, color, #[trigger] r@[k]),
                r@.no_duplicates(),
                forall|k: int|
                    0 <= k < i2 && !next_to(m, color.spec_opponent(), #[trigger] uniq@[k])
                        ==> r@.contains(uniq@[k]),
                forall|v: AxialCoords|
                    #[trigger] r@.contains(v) ==> exists|k: int| 0 <= k < i2 && uniq@[k] == v,
            decreases uniq@.len() - i2,
        {
            let c = uniq[i2];
            if !self.is_next_to(opponent, c) {
                let ghost r_old = r@;
                r.push(c);
                proof {
                    assert(r@[r@.len() - 1] == c);
                    assert(spec_set_destination(m, color, c));
                    assert forall|v: AxialCoords|
                        r_old.contains(v) implies #[trigger] r@.contains(v) by {
                        let idx = choose|idx: int| 0 <= idx < r_old.len() && r_old[idx] == v;
                        assert(r@[idx] == v);
                    }
                    assert forall|v: AxialCoords| #[trigger] r@.contains(v) implies exists|k: int|
                        0 <= k < i2 + 1 && uniq@[k] == v by {
                        let idx = choose|idx: int| 0 <= idx < r@.len() && r@[idx] == v;
                        if idx < r_old.len() {
                            assert(r_old.contains(v));
                            let k = choose|k: int| 0 <= k < i2 && uniq@[k] == v;
                        } else {
                            assert(uniq@[i2 as int] == v);
                        }
                    }
                    assert(r@.no_duplicates()) by {
                        assert forall|a: int, b: int| 0 <= a < b < r@.len() implies r@[a] != r@[
                            b
                        ] by {
                            if b == r@.len() - 1 {
                                assert(r_old.contains(r@[a]));
                                let ua = choose|ua: int| 0 <= ua < i2 && uniq@[ua] == r@[a];
                                if r@[a] == c {
                                    assert(uniq@[ua] == uniq@[i2 as int]);
                                    assert(false);
                                }
                            }
                        }
                    }
                }
            }
            i2 += 1;
        }
        proof {
            assert forall|c: AxialCoords|
                #[trigger] spec_set_destination(m, color, c) implies r@.contains(c) by {
                let k = choose|k: int| 0 <= k < uniq@.len() && uniq@[k] == c;
            }
        }
        r
    }
}

/// The sign of a 64-bit difference, used by line walks.
fn sgn_i64_pub(d: i64) -> (r: i64)
    ensures
        r == sgn(d as int),
{
    if d > 0 {
        1
    } else if d < 0 {
        -1
    } else {
        0
    }
}



// ---------------------------------------------------------------------
// Parsing ASCII hex-art grids
// ---------------------------------------------------------------------

/// `n` when positive, else zero: a termination measure helper.
pub open spec fn pos_part(n: int) -> int {
    if n > 0 {
        n
    } else {
        0
    }
}

/// Drops leading empty lines.
pub open spec fn skip_empty(ls: Seq<Seq<char>>) -> Seq<Seq<char>>
    decreases ls.len(),
{
    if ls.len() == 0 {
        ls
    } else if ls.first().len() == 0 {
        skip_empty(ls.drop_first())
    } else {
        ls
    }
}

proof fn lemma_skip_empty_index(ls: Seq<Seq<char>>, fst: int)
    requires
        0 <= fst <= ls.len(),
        forall|k: int| 0 <= k < fst ==> #[trigger] ls[k].len() == 0,
        fst == ls.len() || ls[fst].len() > 0,
    ensures
        skip_empty(ls) =~= ls.skip(fst),
    decreases fst,
{
    if fst == 0 {
        assert(ls.skip(0) =~= ls);
        if ls.len() > 0 {
        }
    } else {
        assert(ls[0].len() == 0);
        lemma_skip_empty_index(ls.drop_first(), fst - 1);
        assert(ls.drop_first().skip(fst - 1) =~= ls.skip(fst));
    }
}

/// The content lines of a grid: every line trimmed, then the leading
/// empty lines dropped.
pub open spec fn grid_lines(s: Seq<char>) -> Seq<Seq<char>> {
    skip_empty(spec_split(s, '\n').map_values(|l: Seq<char>| spec_trim(l)))
}

/// The field a grid token denotes, a malformed token degrading to the
/// empty field.
pub open spec fn token_field_or_empty(tok: Seq<char>) -> FieldV {
    match spec_token_field(spec_trim(tok)) {
        Some(f) => f,
        None => FieldV::empty(),
    }
}

/// The cells contributed by the fragments of one grid row: the `u`-th
/// non-empty fragment stands at doubled coordinates
/// `(2u + (t + 1) % 2, t)`.
pub open spec fn row_cells_from(frags: Seq<Seq<char>>, t: int, u: int) -> Seq<
    (DoubledCoords, FieldV),
>
    decreases frags.len(),
{
    if frags.len() == 0 {
        Seq::empty()
    } else if frags.first().len() == 0 {
        row_cells_from(frags.drop_first(), t, u)
    } else {
        seq![
            (
                DoubledCoords { x: (2 * u + (t + 1) % 2) as i32, y: t as i32 },
                token_field_or_empty(frags.first()),
            ),
        ] + row_cells_from(frags.drop_first(), t, u + 1)
    }
}

/// The cells of every grid row from `t` on: the rows stand at line
/// indices `2 + 3 t`.
pub open spec fn grid_cells_from(lines: Seq<Seq<char>>, t: int) -> Seq<(DoubledCoords, FieldV)>
    decreases pos_part(lines.len() - (2 + 3 * t)),
{
    if t < 0 || 2 + 3 * t >= lines.len() {
        Seq::empty()
    } else {
        row_cells_from(spec_split(lines[2 + 3 * t], '|'), t, 0) + grid_cells_from(lines, t + 1)
    }
}

/// The largest doubled x-coordinate of the cells, at least zero.
pub open spec fn cells_max_x(cs: Seq<(DoubledCoords, FieldV)>) -> int
    decreases cs.len(),
{
    if cs.len() == 0 {
        0
    } else {
        let m = cells_max_x(cs.drop_last());
        if cs.last().0.x > m {
            cs.last().0.x as int
        } else {
            m
        }
    }
}

/// The largest doubled y-coordinate of the cells, at least zero.
pub open spec fn cells_max_y(cs: Seq<(DoubledCoords, FieldV)>) -> int
    decreases cs.len(),
{
    if cs.len() == 0 {
        0
    } else {
        let m = cells_max_y(cs.drop_last());
        if cs.last().0.y > m {
            cs.last().0.y as int
        } else {
            m
        }
    }
}

/// The cells recentered on `(cx, cy)` and converted to axial
/// coordinates.
pub open spec fn axial_cells(cs: Seq<(DoubledCoords, FieldV)>, cx: int, cy: int) -> Seq<
    (AxialCoords, FieldV),
> {
    cs.map_values(
        |p: (DoubledCoords, FieldV)|
            (
                AxialCoords {
                    x: axial_of_doubled(p.0.x - cx, p.0.y - cy).0 as i32,
                    y: axial_of_doubled(p.0.x - cx, p.0.y - cy).1 as i32,
                },
                p.1,
            ),
    )
}

/// Folds cells into a board map, later entries winning.
pub open spec fn cells_map_v(s: Seq<(AxialCoords, FieldV)>) -> BoardMap
    decreases s.len(),
{
    if s.len() == 0 {
        Map::empty()
    } else {
        cells_map_v(s.drop_last()).insert(s.last().0, s.last().1)
    }
}

proof fn lemma_fields_map_is_cells_map(s: Seq<(AxialCoords, Field)>, t: Seq<(AxialCoords, FieldV)>)
    requires
        s.len() == t.len(),
        forall|i: int|
            0 <= i < s.len() ==> (#[trigger] s[i]).0 == t[i].0 && s[i].1@ == t[i].1,
    ensures
        fields_map(s) =~= cells_map_v(t),
    decreases s.len(),
{
    if s.len() > 0 {
        lemma_fields_map_is_cells_map(s.drop_last(), t.drop_last());
        assert(s[s.len() - 1].0 == t[s.len() - 1].0 && s[s.len() - 1].1@ == t[s.len() - 1].1);
    }
}

/// The board a whole ASCII hex grid denotes.
pub open spec fn spec_parse_grid(s: Seq<char>) -> BoardMap {
    let cells = grid_cells_from(grid_lines(s), 0);
    let cx = div2_trunc(cells_max_x(cells));
    let cy = div2_trunc(cells_max_y(cells));
    cells_map_v(axial_cells(cells, cx, cy))
}

/// The cells of a grid all have bounded, non-negative doubled
/// coordinates.
proof fn lemma_row_cells_bounds(frags: Seq<Seq<char>>, t: int, u: int, bound: int)
    requires
        0 <= t <= bound,
        0 <= u,
        u + frags.len() <= bound,
        bound <= 0x2000_0000,
    ensures
        forall|k: int|
            0 <= k < row_cells_from(frags, t, u).len() ==> {
                &&& 0 <= (#[trigger] row_cells_from(frags, t, u)[k]).0.x <= 2 * bound + 1
                &&& 0 <= row_cells_from(frags, t, u)[k].0.y <= bound
            },
    decreases frags.len(),
{
    if frags.len() > 0 {
        if frags.first().len() == 0 {
            lemma_row_cells_bounds(frags.drop_first(), t, u, bound);
            assert(row_cells_from(frags, t, u) =~= row_cells_from(frags.drop_first(), t, u));
        } else {
            lemma_row_cells_bounds(frags.drop_first(), t, u + 1, bound);
            let cs = row_cells_from(frags, t, u);
            let rest = row_cells_from(frags.drop_first(), t, u + 1);
            let head = (
                DoubledCoords { x: (2 * u + (t + 1) % 2) as i32, y: t as i32 },
                token_field_or_empty(frags.first()),
            );
            assert(cs =~= seq![head] + rest);
            assert forall|k: int|
                0 <= k < cs.len() implies {
                &&& 0 <= (#[trigger] cs[k]).0.x <= 2 * bound + 1
                &&& 0 <= cs[k].0.y <= bound
            } by {
                if k == 0 {
                    assert(cs[0] == head);
                    assert(0 <= 2 * u + (t + 1) % 2 <= 2 * bound + 1);
                    assert(head.0.x == 2 * u + (t + 1) % 2);
                    assert(head.0.y == t);
                } else {
                    assert(cs[k] == rest[k - 1]);
                }
            }
        }
    }
}



impl Board {
    /// Parses a board from a plain-text hex grid: rows of two-letter
    /// tokens between `|` bars, every third line starting at the third
    /// non-empty line. Malformed tokens degrade to empty fields. The
    /// parsed cells are recentered on half the largest doubled
    /// coordinates and converted to axial coordinates.
    pub fn from_ascii_hex_grid(grid: &str) -> (r: SCResult<Board>)
        requires
            grid@.len() < 0x2000_0000,
        ensures
            r is Ok,
            r.unwrap()@ == spec_parse_grid(grid@),
    {
        let ghost bound: int = 0x2000_0000;
        let raw_lines = split_char(grid, '\n');
        let mut lines: Vec<String> = Vec::new();
        let mut li: usize = 0;
        while li < raw_lines.len()
            invariant
                0 <= li <= raw_lines@.len(),
                lines@.len() == li,
                forall|k: int|
                    0 <= k < li ==> (#[trigger] lines@[k])@ == spec_trim(raw_lines@[k]@),
            decreases raw_lines@.len() - li,
        {
            let t = trim(raw_lines[li].as_str()).to_owned();
            lines.push(t);
            li += 1;
        }
        proof {
            assert(lines@.map_values(|t: String| t@) =~= raw_lines@.map_values(
                |t: String| t@,
            ).map_values(|l: Seq<char>| spec_trim(l)));
        }
        let ghost trimmed = lines@.map_values(|t: String| t@);
        let mut fst: usize = 0;
        while fst < lines.len() && lines[fst].as_str().unicode_len() == 0
            invariant
                0 <= fst <= lines@.len(),
                trimmed == lines@.map_values(|t: String| t@),
                forall|k: int| 0 <= k < fst ==> #[trigger] trimmed[k].len() == 0,
            decreases lines@.len() - fst,
        {
            fst += 1;
        }
        proof {
            lemma_skip_empty_index(trimmed, fst as int);
        }
        let ghost content = trimmed.skip(fst as int);
        proof {
            assert(grid_lines(grid@) =~= content);
            // every content line is a trimmed subrange of the grid, so
            // its length is bounded
            crate::util::text::lemma_split_count(grid@, '\n');
            assert(trimmed.len() <= bound);
            assert forall|k: int| 0 <= k < content.len() implies #[trigger] content[k].len()
                < bound by {
                assert(content[k] == trimmed[k + fst]);
                assert(trimmed[k + fst] == spec_trim(raw_lines@.map_values(|t: String| t@)[k
                    + fst]));
                crate::util::text::lemma_trim_len(raw_lines@.map_values(|t: String| t@)[k + fst]);
            }
        }
        let n_lines = lines.len();
        let mut cells: Vec<(DoubledCoords, Field)> = Vec::new();
        let mut t: u64 = 0;
        while (fst as u64) + 2 + 3 * t < n_lines as u64
            invariant
                bound == 0x2000_0000,
                0 <= t <= n_lines as u64,
                n_lines as int <= bound,
                n_lines == lines@.len(),
                fst <= n_lines,
                trimmed == lines@.map_values(|tt: String| tt@),
                content == trimmed.skip(fst as int),
                content.len() == n_lines - fst,
                content.len() <= bound,
                forall|k: int| 0 <= k < content.len() ==> #[trigger] content[k].len() < bound,
                grid_cells_from(content, 0) =~= cells@.map_values(
                    |p: (DoubledCoords, Field)| (p.0, p.1@),
                ) + grid_cells_from(content, t as int),
                forall|k: int|
                    0 <= k < cells@.len() ==> {
                        &&& 0 <= (#[trigger] cells@[k]).0.x <= 2 * bound + 1
                        &&& 0 <= cells@[k].0.y <= bound
                    },
            decreases pos_part(n_lines - (fst as int) - 2 - 3 * (t as int) + 1),
        {
            let idx: usize = fst + 2 + 3 * (t as usize);
            proof {
                assert(content[2 + 3 * (t as int)] == trimmed[idx as int]);
            }
            let frags = split_char(lines[idx].as_str(), '|');
            let ghost frag_views = frags@.map_values(|f: String| f@);
            proof {
                assert(frag_views =~= spec_split(content[2 + 3 * (t as int)], '|'));
                crate::util::text::lemma_split_count(content[2 + 3 * (t as int)], '|');
                assert(frag_views.len() <= bound);
                lemma_row_cells_bounds(frag_views, t as int, 0, bound);
            }
            let ghost cells_row_start = cells@;
            proof {
                assert(frag_views.skip(0) =~= frag_views);
                assert(cells@.map_values(|p: (DoubledCoords, Field)| (p.0, p.1@)).skip(
                    cells_row_start.len() as int,
                ) =~= Seq::<(DoubledCoords, FieldV)>::empty());
                assert(2 + 3 * (t as int) < content.len());
            }
            let mut u: u64 = 0;
            let mut j: usize = 0;
            while j < frags.len()
                invariant
                    bound == 0x2000_0000,
                    0 <= j <= frags@.len(),
                    0 <= u <= j,
                    0 <= t,
                    t as int + 1 <= bound,
                    frag_views == frags@.map_values(|f: String| f@),
                    frag_views.len() <= bound,
                    row_cells_from(frag_views, t as int, 0) =~= cells@.map_values(
                        |p: (DoubledCoords, Field)| (p.0, p.1@),
                    ).skip(cells_row_start.len() as int) + row_cells_from(
                        frag_views.skip(j as int),
                        t as int,
                        u as int,
                    ),
                    cells@.len() >= cells_row_start.len(),
                    forall|k: int|
                        0 <= k < cells_row_start.len() ==> #[trigger] cells@[k]
                            == cells_row_start[k],
                    forall|k: int|
                        0 <= k < cells@.len() ==> {
                            &&& 0 <= (#[trigger] cells@[k]).0.x <= 2 * bound + 1
                            &&& 0 <= cells@[k].0.y <= bound
                        },
                decreases frags@.len() - j,
            {
                let ghost cells_old = cells@;
                proof {
                    assert(frag_views.skip(j as int).first() == frag_views[j as int]);
                    assert(frag_views.skip(j as int).drop_first() =~= frag_views.skip(j + 1));
                }
                if frags[j].as_str().unicode_len() > 0 {
                    let tok = trim(frags[j].as_str());
                    let field = match Field::from_str(tok) {
                        Ok(f) => f,
                        Err(_) => Field { piece_stack: Vec::new(), is_obstructed: false },
                    };
                    proof {
                        assert(field@ =~= token_field_or_empty(frag_views[j as int]));
                        assert(0 <= 2 * (u as int) + (t as int + 1) % 2 < 0x8000_0000);
                    }
                    let x64: u64 = 2 * u + (t + 1) % 2;
                    let coords = DoubledCoords { x: x64 as i32, y: t as i32 };
                    cells.push((coords, field));
                    proof {
                        assert(cells@.map_values(|p: (DoubledCoords, Field)| (p.0, p.1@))
                            =~= cells_old.map_values(|p: (DoubledCoords, Field)| (p.0, p.1@)).push(
                            (coords, field@),
                        ));
                        assert(row_cells_from(frag_views.skip(j as int), t as int, u as int)
                            =~= seq![(coords, field@)] + row_cells_from(
                            frag_views.skip(j + 1),
                            t as int,
                            u as int + 1,
                        ));
                        assert(cells@.map_values(|p: (DoubledCoords, Field)| (p.0, p.1@)).skip(
                            cells_row_start.len() as int,
                        ) =~= cells_old.map_values(|p: (DoubledCoords, Field)| (p.0, p.1@)).skip(
                            cells_row_start.len() as int,
                        ).push((coords, field@)));
                    }
                    u += 1;
                } else {
                    proof {
                        assert(row_cells_from(frag_views.skip(j as int), t as int, u as int)
                            =~= row_cells_from(frag_views.skip(j + 1), t as int, u as int));
                    }
                }
                j += 1;
            }
            proof {
                assert(frag_views.skip(frag_views.len() as int) =~= Seq::<Seq<char>>::empty());
                assert(row_cells_from(frag_views, t as int, 0) =~= cells@.map_values(
                    |p: (DoubledCoords, Field)| (p.0, p.1@),
                ).skip(cells_row_start.len() as int));
                assert(grid_cells_from(content, t as int) =~= row_cells_from(
                    frag_views,
                    t as int,
                    0,
                ) + grid_cells_from(content, t as int + 1));
                assert(cells@.map_values(|p: (DoubledCoords, Field)| (p.0, p.1@))
                    =~= cells_row_start.map_values(|p: (DoubledCoords, Field)| (p.0, p.1@))
                    + cells@.map_values(|p: (DoubledCoords, Field)| (p.0, p.1@)).skip(
                    cells_row_start.len() as int,
                ));
                assert(grid_cells_from(content, 0) =~= cells@.map_values(
                    |p: (DoubledCoords, Field)| (p.0, p.1@),
                ) + grid_cells_from(content, t as int + 1));
            }
            t += 1;
        }
        proof {
            assert(grid_cells_from(content, t as int) =~= Seq::<(DoubledCoords, FieldV)>::empty());
            assert(grid_cells_from(content, 0) =~= cells@.map_values(
                |p: (DoubledCoords, Field)| (p.0, p.1@),
            ));
        }
        let ghost cell_views = cells@.map_values(|p: (DoubledCoords, Field)| (p.0, p.1@));
        // the largest doubled coordinates locate the grid's center
        let mut mx: i32 = 0;
        let mut my: i32 = 0;
        let mut ci: usize = 0;
        while ci < cells.len()
            invariant
                bound == 0x2000_0000,
                0 <= ci <= cells@.len(),
                cell_views == cells@.map_values(|p: (DoubledCoords, Field)| (p.0, p.1@)),
                mx as int == cells_max_x(cell_views.take(ci as int)),
                my as int == cells_max_y(cell_views.take(ci as int)),
                0 <= mx as int <= 2 * bound + 1,
                0 <= my as int <= bound,
                forall|k: int|
                    0 <= k < cells@.len() ==> {
                        &&& 0 <= (#[trigger] cells@[k]).0.x <= 2 * bound + 1
                        &&& 0 <= cells@[k].0.y <= bound
                    },
            decreases cells@.len() - ci,
        {
            proof {
                assert(cell_views.take(ci + 1).drop_last() =~= cell_views.take(ci as int));
                assert(cell_views.take(ci + 1).last() == cell_views[ci as int]);
            }
            if cells[ci].0.x > mx {
                mx = cells[ci].0.x;
            }
            if cells[ci].0.y > my {
                my = cells[ci].0.y;
            }
            ci += 1;
        }
        proof {
            assert(cell_views.take(cell_views.len() as int) =~= cell_views);
        }
        let cx = mx / 2;
        let cy = my / 2;
        proof {
            assert(cx as int == div2_trunc(cells_max_x(cell_views)));
            assert(cy as int == div2_trunc(cells_max_y(cell_views)));
        }
        // recenter and convert to axial coordinates
        let mut pairs: Vec<(AxialCoords, Field)> = Vec::new();
        let mut pi: usize = 0;
        while pi < cells.len()
            invariant
                bound == 0x2000_0000,
                0 <= pi <= cells@.len(),
                cell_views == cells@.map_values(|p: (DoubledCoords, Field)| (p.0, p.1@)),
                0 <= cx as int <= bound + 1,
                0 <= cy as int <= bound,
                forall|k: int|
                    0 <= k < cells@.len() ==> {
                        &&& 0 <= (#[trigger] cells@[k]).0.x <= 2 * bound + 1
                        &&& 0 <= cells@[k].0.y <= bound
                    },
                pairs@.len() == pi,
                forall|k: int|
                    0 <= k < pi ==> (#[trigger] pairs@[k]).0 == axial_cells(
                        cell_views,
                        cx as int,
                        cy as int,
                    )[k].0 && pairs@[k].1@ == axial_cells(cell_views, cx as int, cy as int)[k].1,
            decreases cells@.len() - pi,
        {
            let dc = cells[pi].0;
            let field = cells[pi].1.clone();
            let rel = DoubledCoords { x: dc.x - cx, y: dc.y - cy };
            let ax = rel.to_axial();
            pairs.push((ax, field));
            pi += 1;
        }
        let board = Board::new(pairs);
        proof {
            lemma_fields_map_is_cells_map(pairs@, axial_cells(cell_views, cx as int, cy as int));
            assert(board@ =~= spec_parse_grid(grid@));
        }
        Ok(board)
    }
}



// ---------------------------------------------------------------------
// Parsing a board from an XML state description
// ---------------------------------------------------------------------

/// The cell a `field` node denotes: cube coordinates from its `x`, `y`
/// and `z` attributes (the `z` must parse but is redundant and is
/// dropped), and the field value from the node itself.
pub open spec fn spec_cell_of_node(f: XmlNode) -> Option<(AxialCoords, FieldV)> {
    match (
        attr_lookup(f.attributes@, "x"@),
        attr_lookup(f.attributes@, "y"@),
        attr_lookup(f.attributes@, "z"@),
    ) {
        (Some(xs), Some(ys), Some(zs)) => match (
            spec_parse_i32(xs),
            spec_parse_i32(ys),
            spec_parse_i32(zs),
            spec_field_of_node(f),
        ) {
            (Some(x), Some(y), Some(_z), Some(fv)) => Some((AxialCoords { x, y }, fv)),
            _ => None,
        },
        _ => None,
    }
}

/// The cells a list of `field` nodes denotes, if every node parses.
pub open spec fn spec_cells_of_nodes(fs: Seq<XmlNode>) -> Option<Seq<(AxialCoords, FieldV)>>
    decreases fs.len(),
{
    if fs.len() == 0 {
        Some(Seq::empty())
    } else {
        match (spec_cell_of_node(fs.first()), spec_cells_of_nodes(fs.drop_first())) {
            (Some(c), Some(rest)) => Some(seq![c] + rest),
            _ => None,
        }
    }
}

/// The cells of every `fields` group of a board node, concatenated.
pub open spec fn spec_groups_cells(gs: Seq<XmlNode>) -> Option<Seq<(AxialCoords, FieldV)>>
    decreases gs.len(),
{
    if gs.len() == 0 {
        Some(Seq::empty())
    } else {
        match (
            spec_cells_of_nodes(childs_named(gs.first().childs@, "field"@)),
            spec_groups_cells(gs.drop_first()),
        ) {
            (Some(c), Some(rest)) => Some(c + rest),
            _ => None,
        }
    }
}

/// The cells a whole board node describes.
pub open spec fn spec_board_cells(n: XmlNode) -> Option<Seq<(AxialCoords, FieldV)>> {
    spec_groups_cells(childs_named(n.childs@, "fields"@))
}

/// Whether `bm` is the board the node describes: the parsed cells,
/// padded with empty fields up to the standard radius of 6.
pub open spec fn spec_board_matches(bm: BoardMap, n: XmlNode) -> bool {
    let cells = spec_board_cells(n).unwrap();
    &&& bm.dom() =~= cells_map_v(cells).dom().union(Set::new(|c: AxialCoords| in_radius(c, 6)))
    &&& forall|c: AxialCoords|
        cells_map_v(cells).dom().contains(c) ==> bm[c] == #[trigger] cells_map_v(cells)[c]
    &&& forall|c: AxialCoords|
        !cells_map_v(cells).dom().contains(c) && in_radius(c, 6) ==> #[trigger] bm[c]
            == FieldV::empty()
}

impl Board {
    /// Parses the cells of one list of `field` nodes.
    fn parse_field_nodes(ns: &Vec<&XmlNode>, ghost_src: Ghost<Seq<XmlNode>>) -> (r: SCResult<
        Vec<(AxialCoords, Field)>,
    >)
        requires
            ns@.len() == ghost_src@.len(),
            forall|k: int| 0 <= k < ns@.len() ==> *#[trigger] ns@[k] == ghost_src@[k],
        ensures
            r is Ok <==> spec_cells_of_nodes(ghost_src@) is Some,
            r is Ok ==> {
                let cells = spec_cells_of_nodes(ghost_src@).unwrap();
                &&& r.unwrap()@.len() == cells.len()
                &&& forall|k: int|
                    0 <= k < cells.len() ==> (#[trigger] r.unwrap()@[k]).0 == cells[k].0
                        && r.unwrap()@[k].1@ == cells[k].1
            },
    {
        let ghost src = ghost_src@;
        proof {
            assert(src.skip(0) =~= src);
        }
        let mut out: Vec<(AxialCoords, Field)> = Vec::new();
        let mut i: usize = 0;
        while i < ns.len()
            invariant
                0 <= i <= ns@.len(),
                src == ghost_src@,
                ns@.len() == src.len(),
                forall|k: int| 0 <= k < ns@.len() ==> *#[trigger] ns@[k] == src[k],
                spec_cells_of_nodes(src) is Some <==> spec_cells_of_nodes(src.skip(i as int))
                    is Some,
                spec_cells_of_nodes(src) is Some ==> {
                    let cells = spec_cells_of_nodes(src).unwrap();
                    &&& out@.len() == i
                    &&& cells =~= Seq::new(out@.len(), |k: int| (out@[k].0, out@[k].1@))
                        + spec_cells_of_nodes(src.skip(i as int)).unwrap()
                },
            decreases ns@.len() - i,
        {
            proof {
                assert(src.skip(i as int).first() == src[i as int]);
                assert(src.skip(i as int).drop_first() =~= src.skip(i + 1));
                assert(*ns@[i as int] == src[i as int]);
            }
            let node = ns[i];
            let xr = match node.attribute("x") {
                Ok(v) => v,
                Err(e) => {
                    return Err(e);
                },
            };
            let yr = match node.attribute("y") {
                Ok(v) => v,
                Err(e) => {
                    return Err(e);
                },
            };
            let zr = match node.attribute("z") {
                Ok(v) => v,
                Err(e) => {
                    return Err(e);
                },
            };
            let x = match crate::util::text::parse_i32(xr) {
                Some(v) => v,
                None => {
                    return Err(SCError::MalformedNumber(xr.to_owned()));
                },
            };
            let y = match crate::util::text::parse_i32(yr) {
                Some(v) => v,
                None => {
                    return Err(SCError::MalformedNumber(yr.to_owned()));
                },
            };
            let _z = match crate::util::text::parse_i32(zr) {
                Some(v) => v,
                None => {
                    return Err(SCError::MalformedNumber(zr.to_owned()));
                },
            };
            let field = match Field::from_node(node) {
                Ok(f) => f,
                Err(e) => {
                    return Err(e);
                },
            };
            let ghost out_old = out@;
            out.push((AxialCoords { x, y }, field));
            proof {
                let cells_opt = spec_cells_of_nodes(src);
                if cells_opt is Some {
                    assert(Seq::new(out@.len(), |k: int| (out@[k].0, out@[k].1@)) =~= Seq::new(
                        out_old.len(),
                        |k: int| (out_old[k].0, out_old[k].1@),
                    ) + seq![(AxialCoords { x, y }, field@)]);
                    assert(cells_opt.unwrap() =~= Seq::new(
                        out@.len(),
                        |k: int| (out@[k].0, out@[k].1@),
                    ) + spec_cells_of_nodes(src.skip(i + 1)).unwrap());
                }
            }
            i += 1;
        }
        proof {
            assert(src.skip(src.len() as int) =~= Seq::<XmlNode>::empty());
            if spec_cells_of_nodes(src) is Some {
                assert(spec_cells_of_nodes(src).unwrap() =~= Seq::new(
                    out@.len(),
                    |k: int| (out@[k].0, out@[k].1@),
                ));
            }
        }
        Ok(out)
    }

    /// Parses a board from a state description: the cells of every
    /// `fields` group, padded with empty fields up to the standard
    /// radius of 6.
    pub fn from_node(node: &XmlNode) -> (r: SCResult<Board>)
        ensures
            r is Ok <==> spec_board_cells(*node) is Some,
            r is Ok ==> spec_board_matches(r.unwrap()@, *node),
    {
        let groups = node.childs_by_name("fields");
        let ghost gsrc = childs_named(node.childs@, "fields"@);
        proof {
            assert(gsrc.skip(0) =~= gsrc);
        }
        let mut cells: Vec<(AxialCoords, Field)> = Vec::new();
        let mut i: usize = 0;
        while i < groups.len()
            invariant
                0 <= i <= groups@.len(),
                gsrc == childs_named(node.childs@, "fields"@),
                groups@.len() == gsrc.len(),
                forall|k: int| 0 <= k < groups@.len() ==> *#[trigger] groups@[k] == gsrc[k],
                spec_groups_cells(gsrc) is Some <==> spec_groups_cells(gsrc.skip(i as int))
                    is Some,
                spec_groups_cells(gsrc) is Some ==> spec_groups_cells(gsrc).unwrap() =~= Seq::new(
                    cells@.len(),
                    |k: int| (cells@[k].0, cells@[k].1@),
                ) + spec_groups_cells(gsrc.skip(i as int)).unwrap(),
            decreases groups@.len() - i,
        {
            proof {
                assert(gsrc.skip(i as int).first() == gsrc[i as int]);
                assert(gsrc.skip(i as int).drop_first() =~= gsrc.skip(i + 1));
                assert(*groups@[i as int] == gsrc[i as int]);
            }
            let fnodes = groups[i].childs_by_name("field");
            let ghost fsrc = childs_named(gsrc[i as int].childs@, "field"@);
            let mut group_cells = match Board::parse_field_nodes(&fnodes, Ghost(fsrc)) {
                Ok(v) => v,
                Err(e) => {
                    return Err(e);
                },
            };
            let ghost cells_old = cells@;
            cells.append(&mut group_cells);
            proof {
                if spec_groups_cells(gsrc) is Some {
                    assert(Seq::new(cells@.len(), |k: int| (cells@[k].0, cells@[k].1@))
                        =~= Seq::new(cells_old.len(), |k: int| (cells_old[k].0, cells_old[k].1@))
                        + spec_cells_of_nodes(fsrc).unwrap());
                    assert(spec_groups_cells(gsrc).unwrap() =~= Seq::new(
                        cells@.len(),
                        |k: int| (cells@[k].0, cells@[k].1@),
                    ) + spec_groups_cells(gsrc.skip(i + 1)).unwrap());
                }
            }
            i += 1;
        }
        proof {
            assert(gsrc.skip(gsrc.len() as int) =~= Seq::<XmlNode>::empty());
            assert(spec_groups_cells(gsrc) is Some);
            assert(spec_groups_cells(gsrc).unwrap() =~= Seq::new(
                cells@.len(),
                |k: int| (cells@[k].0, cells@[k].1@),
            ));
        }
        let board = Board::filling_radius(6, cells);
        proof {
            lemma_fields_map_is_cells_map(
                cells@,
                Seq::new(cells@.len(), |k: int| (cells@[k].0, cells@[k].1@)),
            );
        }
        Ok(board)
    }
}

impl FromXmlNode for Board {
    fn from_node(node: &XmlNode) -> SCResult<Self> {
        Board::from_node(node)
    }
}



// ---------------------------------------------------------------------
// Rendering a board as text
// ---------------------------------------------------------------------

/// The two-character token of a display cell: `00` off the board, `[]`
/// for an empty cell, the owner and piece letters for a topped cell.
pub open spec fn token_of(fopt: Option<FieldV>) -> Seq<char> {
    match fopt {
        None => seq!['0', '0'],
        Some(f) => match f.top() {
            None => seq!['[', ']'],
            Some(p) => seq![p.owner.spec_char(), p.piece_type.spec_char()],
        },
    }
}

/// The token of the display cell at row `y`, column `x`: the board cell
/// at axial `(-y, -x)`.
pub open spec fn spec_render_cell(m: BoardMap, y: int, x: int) -> Seq<char> {
    let c = AxialCoords { x: (-y) as i32, y: (-x) as i32 };
    if m.dom().contains(c) {
        token_of(Some(m[c]))
    } else {
        token_of(None)
    }
}

/// One display row from column `x` to `maxx`, ending in a newline.
pub open spec fn spec_render_row(m: BoardMap, y: int, x: int, maxx: int) -> Seq<char>
    decreases pos_part(maxx - x + 1),
{
    if x > maxx {
        seq!['\n']
    } else {
        spec_render_cell(m, y, x) + spec_render_row(m, y, x + 1, maxx)
    }
}

/// The display rows from `y` to `maxy`.
pub open spec fn spec_render_rows(m: BoardMap, y: int, maxy: int, minx: int, maxx: int) -> Seq<
    char,
>
    decreases pos_part(maxy - y + 1),
{
    if y > maxy {
        Seq::empty()
    } else {
        spec_render_row(m, y, minx, maxx) + spec_render_rows(m, y + 1, maxy, minx, maxx)
    }
}

/// Whether the four values are the tight coordinate bounds of the
/// board's cells.
pub open spec fn bounds_of(m: BoardMap, minx: int, maxx: int, miny: int, maxy: int) -> bool {
    &&& forall|c: AxialCoords|
        #[trigger] m.dom().contains(c) ==> minx <= c.x <= maxx && miny <= c.y <= maxy
    &&& exists|c: AxialCoords| #[trigger] m.dom().contains(c) && c.x == minx
    &&& exists|c: AxialCoords| #[trigger] m.dom().contains(c) && c.x == maxx
    &&& exists|c: AxialCoords| #[trigger] m.dom().contains(c) && c.y == miny
    &&& exists|c: AxialCoords| #[trigger] m.dom().contains(c) && c.y == maxy
}

fn append_token(s: &mut String, fopt: Option<&Field>)
    ensures
        final(s)@ == old(s)@ + token_of(
            match fopt {
                Some(f) => Some(f@),
                None => None,
            },
        ),
{
    proof {
        reveal_strlit("00");
        reveal_strlit("[]");
        reveal_strlit("RA");
        reveal_strlit("RB");
        reveal_strlit("RT");
        reveal_strlit("RG");
        reveal_strlit("RS");
        reveal_strlit("BA");
        reveal_strlit("BB");
        reveal_strlit("BT");
        reveal_strlit("BG");
        reveal_strlit("BS");
    }
    match fopt {
        None => s.append("00"),
        Some(f) => {
            match f.piece() {
                None => s.append("[]"),
                Some(p) => {
                    match (p.owner, p.piece_type) {
                        (PlayerColor::Red, PieceType::Ant) => s.append("RA"),
                        (PlayerColor::Red, PieceType::Bee) => s.append("RB"),
                        (PlayerColor::Red, PieceType::Beetle) => s.append("RT"),
                        (PlayerColor::Red, PieceType::Grasshopper) => s.append("RG"),
                        (PlayerColor::Red, PieceType::Spider) => s.append("RS"),
                        (PlayerColor::Blue, PieceType::Ant) => s.append("BA"),
                        (PlayerColor::Blue, PieceType::Bee) => s.append("BB"),
                        (PlayerColor::Blue, PieceType::Beetle) => s.append("BT"),
                        (PlayerColor::Blue, PieceType::Grasshopper) => s.append("BG"),
                        (PlayerColor::Blue, PieceType::Spider) => s.append("BS"),
                    }
                },
            }
        },
    }
}

impl Board {
    /// Renders the board as one line of two-character cell tokens per
    /// display row, rows and columns spanning the tight coordinate
    /// bounds; fails only on a board without cells.
    pub fn display_string(&self) -> (r: SCResult<String>)
        requires
            forall|c: AxialCoords|
                #[trigger] self@.dom().contains(c) ==> i32::MIN < c.x < i32::MAX && i32::MIN < c.y
                    < i32::MAX,
        ensures
            r is Ok <==> exists|c: AxialCoords| #[trigger] self@.dom().contains(c),
            r is Ok ==> exists|minx: int, maxx: int, miny: int, maxy: int|
                #[trigger] bounds_of(self@, minx, maxx, miny, maxy) && r.unwrap()@
                    == spec_render_rows(self@, miny, maxy, minx, maxx),
    {
        let ghost m = self@;
        let all = self.fields();
        if all.len() == 0 {
            proof {
                assert forall|c: AxialCoords| !#[trigger] m.dom().contains(c) by {
                    if m.dom().contains(c) {
                        let v = m[c];
                        let k = choose|k: int| 0 <= k < all@.len() && (#[trigger] all@[k]).0 == c;
                    }
                }
            }
            return Err(SCError::Custom(String::new()));
        }
        let mut min_x = all[0].0.x;
        let mut max_x = all[0].0.x;
        let mut min_y = all[0].0.y;
        let mut max_y = all[0].0.y;
        let mut i: usize = 1;
        while i < all.len()
            invariant
                m == self@,
                1 <= i <= all@.len(),
                all@.len() >= 1,
                lists_cells(m, all@, |c: AxialCoords, f: FieldV| true),
                forall|k: int|
                    0 <= k < i ==> min_x <= (#[trigger] all@[k]).0.x <= max_x && min_y <= all@[
                        k
                    ].0.y <= max_y,
                exists|k: int| 0 <= k < i && (#[trigger] all@[k]).0.x == min_x,
                exists|k: int| 0 <= k < i && (#[trigger] all@[k]).0.x == max_x,
                exists|k: int| 0 <= k < i && (#[trigger] all@[k]).0.y == min_y,
                exists|k: int| 0 <= k < i && (#[trigger] all@[k]).0.y == max_y,
            decreases all@.len() - i,
        {
            if all[i].0.x < min_x {
                min_x = all[i].0.x;
            }
            if all[i].0.x > max_x {
                max_x = all[i].0.x;
            }
            if all[i].0.y < min_y {
                min_y = all[i].0.y;
            }
            if all[i].0.y > max_y {
                max_y = all[i].0.y;
            }
            i += 1;
        }
        proof {
            let kx1 = choose|k: int| 0 <= k < i && (#[trigger] all@[k]).0.x == min_x;
            let kx2 = choose|k: int| 0 <= k < i && (#[trigger] all@[k]).0.x == max_x;
            let ky1 = choose|k: int| 0 <= k < i && (#[trigger] all@[k]).0.y == min_y;
            let ky2 = choose|k: int| 0 <= k < i && (#[trigger] all@[k]).0.y == max_y;
            assert(m.dom().contains(all@[kx1].0) && all@[kx1].0.x == min_x);
            assert(m.dom().contains(all@[kx2].0) && all@[kx2].0.x == max_x);
            assert(m.dom().contains(all@[ky1].0) && all@[ky1].0.y == min_y);
            assert(m.dom().contains(all@[ky2].0) && all@[ky2].0.y == max_y);
            assert forall|c: AxialCoords| #[trigger] m.dom().contains(c) implies min_x <= c.x
                <= max_x && min_y <= c.y <= max_y by {
                let v = m[c];
                let k = choose|k: int| 0 <= k < all@.len() && (#[trigger] all@[k]).0 == c;
            }
            assert(bounds_of(m, min_x as int, max_x as int, min_y as int, max_y as int));
            // the bounds are attained by board cells, so negating any
            // coordinate in range stays representable, and the loop
            // counters cannot overflow
            assert(min_y > i32::MIN && min_x > i32::MIN);
            assert(max_y < i32::MAX && max_x < i32::MAX);
        }
        let mut s = String::new();
        let mut y = min_y;
        proof {
            assert(s@ + spec_render_rows(m, min_y as int, max_y as int, min_x as int, max_x as int)
                =~= spec_render_rows(m, min_y as int, max_y as int, min_x as int, max_x as int));
        }
        while y <= max_y
            invariant
                m == self@,
                min_y <= y,
                y <= max_y + 1,
                max_y < i32::MAX,
                max_x < i32::MAX,
                min_y > i32::MIN,
                min_x > i32::MIN,
                min_x <= max_x,
                spec_render_rows(m, min_y as int, max_y as int, min_x as int, max_x as int) =~= s@
                    + spec_render_rows(m, y as int, max_y as int, min_x as int, max_x as int),
            decreases max_y - y + 1,
        {
            let ghost row_start = s@;
            proof {
                assert(s@.skip(row_start.len() as int) =~= Seq::<char>::empty());
            }
            let mut x = min_x;
            while x <= max_x
                invariant
                    m == self@,
                    min_x <= x,
                    x <= max_x + 1,
                    max_x < i32::MAX,
                    min_x > i32::MIN,
                    min_y <= y <= max_y,
                    min_y > i32::MIN,
                    spec_render_row(m, y as int, min_x as int, max_x as int) =~= s@.skip(
                        row_start.len() as int,
                    ) + spec_render_row(m, y as int, x as int, max_x as int),
                    s@.len() >= row_start.len(),
                    forall|k: int| 0 <= k < row_start.len() ==> #[trigger] s@[k] == row_start[k],
                decreases max_x - x + 1,
            {
                let ghost s_old = s@;
                let cell = AxialCoords { x: -y, y: -x };
                let fopt = self.field(cell);
                append_token(&mut s, fopt);
                proof {
                    assert(spec_render_cell(m, y as int, x as int) == token_of(
                        match fopt {
                            Some(f) => Some(f@),
                            None => None,
                        },
                    ));
                    assert(s@.skip(row_start.len() as int) =~= s_old.skip(row_start.len() as int)
                        + spec_render_cell(m, y as int, x as int));
                    assert(spec_render_row(m, y as int, x as int, max_x as int)
                        =~= spec_render_cell(m, y as int, x as int) + spec_render_row(
                        m,
                        y as int,
                        x as int + 1,
                        max_x as int,
                    ));
                }
                x += 1;
            }
            proof {
                reveal_strlit("\n");
            }
            s.append("\n");
            proof {
                assert(spec_render_row(m, y as int, max_x as int + 1, max_x as int) =~= seq![
                    '\n',
                ]);
                assert(s@ =~= row_start + spec_render_row(
                    m,
                    y as int,
                    min_x as int,
                    max_x as int,
                ));
                assert(spec_render_rows(m, y as int, max_y as int, min_x as int, max_x as int)
                    =~= spec_render_row(m, y as int, min_x as int, max_x as int)
                    + spec_render_rows(m, y as int + 1, max_y as int, min_x as int, max_x as int));
            }
            y += 1;
        }
        proof {
            assert(spec_render_rows(m, y as int, max_y as int, min_x as int, max_x as int)
                =~= Seq::<char>::empty());
            assert(s@ =~= spec_render_rows(
                m,
                min_y as int,
                max_y as int,
                min_x as int,
                max_x as int,
            ));
        }
        Ok(s)
    }
}


} // verus!
