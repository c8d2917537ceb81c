use vstd::prelude::*;

use crate::game::piece::Piece;
use crate::game::piece_type::PieceType;
use crate::game::player_color::PlayerColor;

verus! {

/// The round limit of a game.
pub const ROUND_LIMIT: usize = 30;

/// The radius of the standard playing board.
pub const BOARD_RADIUS: usize = 6;

/// The number of cells of the standard playing board.
pub const FIELD_COUNT: usize = 91;

/// The number of pieces each player starts with.
pub const INITIAL_PIECE_COUNT: usize = 11;

/// The piece types each player starts with: one bee, three spiders,
/// two grasshoppers, two beetles and three ants.
pub open spec fn initial_piece_types_spec() -> Seq<PieceType> {
    seq![
        PieceType::Bee,
        PieceType::Spider,
        PieceType::Spider,
        PieceType::Spider,
        PieceType::Grasshopper,
        PieceType::Grasshopper,
        PieceType::Beetle,
        PieceType::Beetle,
        PieceType::Ant,
        PieceType::Ant,
        PieceType::Ant,
    ]
}

/// The piece types each player starts with.
pub fn initial_piece_types() -> (r: Vec<PieceType>)
    ensures
        r@ == initial_piece_types_spec(),
{
    let mut r: Vec<PieceType> = Vec::new();
    r.push(PieceType::Bee);
    r.push(PieceType::Spider);
    r.push(PieceType::Spider);
    r.push(PieceType::Spider);
    r.push(PieceType::Grasshopper);
    r.push(PieceType::Grasshopper);
    r.push(PieceType::Beetle);
    r.push(PieceType::Beetle);
    r.push(PieceType::Ant);
    r.push(PieceType::Ant);
    r.push(PieceType::Ant);
    proof {
        assert(r@ =~= initial_piece_types_spec());
    }
    r
}

/// The full undeployed pool of one color.
pub fn initial_pieces(color: PlayerColor) -> (r: Vec<Piece>)
    ensures
        r@ == initial_piece_types_spec().map_values(
            |t: PieceType| Piece { owner: color, piece_type: t },
        ),
{
    let types = initial_piece_types();
    let mut r: Vec<Piece> = Vec::new();
    let mut i: usize = 0;
    while i < types.len()
        invariant
            0 <= i <= types@.len(),
            types@ == initial_piece_types_spec(),
            r@ =~= types@.take(i as int).map_values(
                |t: PieceType| Piece { owner: color, piece_type: t },
            ),
        decreases types@.len() - i,
    {
        r.push(Piece { owner: color, piece_type: types[i] });
        proof {
            assert(types@.take(i + 1).drop_last() =~= types@.take(i as int));
            assert(r@ =~= types@.take(i + 1).map_values(
                |t: PieceType| Piece { owner: color, piece_type: t },
            ));
        }
        i += 1;
    }
    proof {
        assert(types@.take(types@.len() as int) =~= types@);
    }
    r
}

} // verus!
