use vstd::prelude::*;

use crate::game::board::Board;
use crate::game::board::BoardMap;
use crate::game::board::acc_rel;
use crate::game::board::board_has_pieces;
use crate::game::board::cell_empty;
use crate::game::board::cell_has_pieces;
use crate::game::board::cell_owned_by;
use crate::game::board::lists_cells;
use crate::game::board::next_to;
use crate::game::board::on_boundary;
use crate::game::board::placed_bee;
use crate::game::board::rel_reach;
use crate::game::board::shared_pair;
use crate::game::board::spec_boundary_connected;
use crate::game::board::spec_can_move_between;
use crate::game::board::spec_grasshopper_clear;
use crate::game::board::spec_set_destination;
use crate::game::board::spec_spider_path;
use crate::game::board::spec_swarm_connected;
use crate::game::board::spec_board_cells;
use crate::game::board::spec_board_matches;
use crate::game::board::cells_map_v;
use crate::game::board::in_radius;
use crate::game::player::spec_player_of_node;
use crate::game::player_color::color_of_name;
use crate::util::text::spec_parse_u32;
use crate::util::xml_node::FromXmlNode;
use crate::util::xml_node::XmlNode;
use crate::util::xml_node::attr_lookup;
use crate::util::xml_node::child_lookup;
use crate::util::xml_node::childs_named;
use crate::game::coords::Adjacentable;
use crate::game::coords::AxialCoords;
use crate::game::coords::forms_line_ax;
use crate::game::coords::is_neighbor;
use crate::game::field::Field;
use crate::game::field::FieldV;
use crate::game::game_move::Move;
use crate::game::game_move::is_drag_move;
use crate::game::game_move::is_set_move;
use crate::game::piece::Piece;
use crate::game::piece_type::PieceType;
use crate::game::player::Player;
use crate::game::player_color::PlayerColor;
use crate::game::positioned_field::PositionedField;
use crate::util::error::SCError;
use crate::util::error::SCResult;
use crate::util::error::ValidationReason;

verus! {

/// A snapshot of the game's state at a specific turn: the board and
/// information about both players. Validation and enumeration are pure
/// queries against one snapshot.
#[derive(Debug)]
pub struct GameState {
    pub turn: u32,
    pub start_player_color: PlayerColor,
    pub current_player_color: PlayerColor,
    pub board: Board,
    pub red_player: Player,
    pub blue_player: Player,
    pub undeployed_red_pieces: Vec<Piece>,
    pub undeployed_blue_pieces: Vec<Piece>,
}

/// The board with the top piece removed from the cell at `start`.
pub open spec fn board_without_top(m: BoardMap, start: AxialCoords) -> BoardMap {
    m.insert(
        start,
        FieldV { stack: m[start].stack.drop_last(), obstructed: m[start].obstructed },
    )
}

/// Whether some cell belongs to `color`.
pub open spec fn owns_any(m: BoardMap, color: PlayerColor) -> bool {
    exists|c: AxialCoords| #[trigger] cell_owned_by(m, c, color)
}

impl GameState {
    /// The undeployed pool of the given color, as a sequence.
    pub open spec fn spec_undeployed(&self, color: PlayerColor) -> Seq<Piece> {
        match color {
            PlayerColor::Red => self.undeployed_red_pieces@,
            PlayerColor::Blue => self.undeployed_blue_pieces@,
        }
    }

    /// The current round: half the turn counter.
    pub open spec fn spec_round(&self) -> int {
        self.turn as int / 2
    }
}

/// The rules a set move must obey, checked in order; the first broken
/// rule names the rejection.
pub open spec fn spec_validate_set_move(
    gs: &GameState,
    color: PlayerColor,
    piece: Piece,
    destination: AxialCoords,
) -> Result<(), ValidationReason> {
    let m = gs.board@;
    if !m.dom().contains(destination) {
        Err(ValidationReason::DestinationOutOfBounds)
    } else if m[destination].obstructed {
        Err(ValidationReason::DestinationObstructed)
    } else if !board_has_pieces(m) {
        Ok(())
    } else if !owns_any(m, color) {
        if next_to(m, color.spec_opponent(), destination) {
            Ok(())
        } else {
            Err(ValidationReason::MustTouchOpponentSwarm)
        }
    } else if gs.spec_round() == 3 && !placed_bee(m, color) && piece.piece_type != PieceType::Bee {
        Err(ValidationReason::BeeDeadline)
    } else if !gs.spec_undeployed(color).contains(piece) {
        Err(ValidationReason::PieceNotUndeployed)
    } else if !next_to(m, color, destination) {
        Err(ValidationReason::MustTouchOwnSwarm)
    } else if next_to(m, color.spec_opponent(), destination) {
        Err(ValidationReason::MustNotTouchOpponentSwarm)
    } else {
        Ok(())
    }
}

/// The per-type movement rule of a drag move whose shared preconditions
/// all hold.
pub open spec fn spec_validate_piece_rule(
    m: BoardMap,
    piece_type: PieceType,
    start: AxialCoords,
    destination: AxialCoords,
) -> Result<(), ValidationReason> {
    match piece_type {
        PieceType::Ant => if rel_reach(acc_rel(m, Some(start)), start, destination) {
            Ok(())
        } else {
            Err(ValidationReason::NoAntPath)
        },
        PieceType::Bee => if !is_neighbor(start, destination) {
            Err(ValidationReason::NotAdjacent)
        } else if spec_can_move_between(m, None, start, destination) {
            Ok(())
        } else {
            Err(ValidationReason::NoSlidePath)
        },
        PieceType::Beetle => if !is_neighbor(start, destination) {
            Err(ValidationReason::NotAdjacent)
        } else if (exists|c: AxialCoords|
            #[trigger] shared_pair(m, None, start, destination, c) && m[c].is_occupied())
            || m[destination].is_occupied() {
            Ok(())
        } else {
            Err(ValidationReason::BeetleMustStayWithSwarm)
        },
        PieceType::Grasshopper => if !forms_line_ax(start, destination) {
            Err(ValidationReason::GrasshopperNeedsLine)
        } else if is_neighbor(start, destination) {
            Err(ValidationReason::GrasshopperMustJump)
        } else if !spec_grasshopper_clear(m, start, destination) {
            Err(ValidationReason::GrasshopperOverEmpty)
        } else {
            Ok(())
        },
        PieceType::Spider => if spec_spider_path(m, start, destination) {
            Ok(())
        } else {
            Err(ValidationReason::NoSpiderPath)
        },
    }
}

/// The rules a drag move must obey, checked in order; the first broken
/// rule names the rejection. The swarm must stay connected when the
/// dragged piece leaves its start cell.
pub open spec fn spec_validate_drag_move(
    gs: &GameState,
    color: PlayerColor,
    start: AxialCoords,
    destination: AxialCoords,
) -> Result<(), ValidationReason> {
    let m = gs.board@;
    if !placed_bee(m, color) {
        Err(ValidationReason::BeeNotPlaced)
    } else if !m.dom().contains(start) {
        Err(ValidationReason::StartOutOfBounds)
    } else if !m.dom().contains(destination) {
        Err(ValidationReason::DestinationOutOfBounds)
    } else if !m[start].has_pieces() {
        Err(ValidationReason::NoPieceToMove)
    } else {
        let piece = m[start].stack.last();
        if piece.owner != color {
            Err(ValidationReason::OpponentPiece)
        } else if start == destination {
            Err(ValidationReason::StartIsDestination)
        } else if m[destination].is_occupied() && piece.piece_type != PieceType::Beetle {
            Err(ValidationReason::OnlyBeetlesClimb)
        } else if !spec_swarm_connected(board_without_top(m, start)) {
            Err(ValidationReason::WouldDisconnectSwarm)
        } else {
            spec_validate_piece_rule(m, piece.piece_type, start, destination)
        }
    }
}

/// The rules any move must obey.
pub open spec fn spec_validate_move(gs: &GameState, color: PlayerColor, mv: Move) -> Result<
    (),
    ValidationReason,
> {
    match mv {
        Move::SetMove { piece, destination } => spec_validate_set_move(
            gs,
            color,
            piece,
            destination.coords,
        ),
        Move::DragMove { start, destination } => spec_validate_drag_move(
            gs,
            color,
            start.coords,
            destination.coords,
        ),
    }
}

/// Whether a piece may be set at all this turn: once five turns have
/// passed without the bee, only the bee may be set.
pub open spec fn spec_set_move_piece_ok(gs: &GameState, color: PlayerColor, piece: Piece) -> bool {
    if !placed_bee(gs.board@, color) && gs.turn > 5 {
        piece == (Piece { owner: color, piece_type: PieceType::Bee })
    } else {
        gs.spec_undeployed(color).contains(piece)
    }
}

/// The candidate destinations for a set move this turn: every empty
/// cell on the very first turn; the empty cells next to the opponent on
/// the second player's first turn; the regular set destinations after
/// that.
pub open spec fn spec_set_move_destination_ok(
    gs: &GameState,
    color: PlayerColor,
    c: AxialCoords,
) -> bool {
    let m = gs.board@;
    let pool_full = gs.spec_undeployed(color).len() == 11;
    let opponent_full = gs.spec_undeployed(color.spec_opponent()).len() == 11;
    if pool_full && opponent_full {
        cell_empty(m, c)
    } else if pool_full {
        cell_empty(m, c) && next_to(m, color.spec_opponent(), c)
    } else {
        spec_set_destination(m, color, c)
    }
}

/// Whether the pair names a drag-move candidate that full validation
/// accepts: the start is an own cell, the destination is on the swarm
/// boundary (or any neighbor, for a beetle), and the move is valid.
pub open spec fn spec_drag_pair_ok(
    gs: &GameState,
    color: PlayerColor,
    sc: AxialCoords,
    dc: AxialCoords,
) -> bool {
    let m = gs.board@;
    &&& cell_owned_by(m, sc, color)
    &&& (on_boundary(m, dc) || (m[sc].has_pieces() && m[sc].stack.last().piece_type
        == PieceType::Beetle && is_neighbor(sc, dc) && m.dom().contains(dc)))
    &&& spec_validate_drag_move(gs, color, sc, dc) is Ok
}

/// Whether `mv` is a sound set move for this state: an allowed piece
/// set onto an allowed destination, carrying the observed field.
pub open spec fn sound_set_move(gs: &GameState, color: PlayerColor, mv: Move) -> bool {
    exists|piece: Piece, c: AxialCoords|
        #[trigger] is_set_move(mv, piece, c, gs.board@[c]) && spec_set_move_piece_ok(
            gs,
            color,
            piece,
        ) && spec_set_move_destination_ok(gs, color, c)
}

/// Whether `mv` is a sound drag move for this state: a valid drag
/// candidate, carrying the observed fields.
pub open spec fn sound_drag_move(gs: &GameState, color: PlayerColor, mv: Move) -> bool {
    exists|sc: AxialCoords, dc: AxialCoords|
        #[trigger] is_drag_move(mv, sc, gs.board@[sc], dc, gs.board@[dc]) && spec_drag_pair_ok(
            gs,
            color,
            sc,
            dc,
        )
}

/// The listing contract of set-move enumeration: exactly one move per
/// allowed piece and destination, carrying the observed field.
pub open spec fn lists_set_moves(gs: &GameState, color: PlayerColor, s: Seq<Move>) -> bool {
    &&& forall|i: int| 0 <= i < s.len() ==> sound_set_move(gs, color, #[trigger] s[i])
    &&& forall|piece: Piece, c: AxialCoords|
        #[trigger] spec_set_move_piece_ok(gs, color, piece)
            && #[trigger] spec_set_move_destination_ok(gs, color, c) && gs.board@.dom().contains(c)
            ==> exists|i: int|
            0 <= i < s.len() && #[trigger] is_set_move(s[i], piece, c, gs.board@[c])
    &&& forall|i: int, j: int, piece: Piece, c: AxialCoords, f1: FieldV, f2: FieldV|
        0 <= i < s.len() && 0 <= j < s.len() && #[trigger] is_set_move(s[i], piece, c, f1)
            && #[trigger] is_set_move(s[j], piece, c, f2) ==> i == j
}

/// The listing contract of drag-move enumeration: every listed move is
/// a valid drag candidate, and every valid drag candidate is listed.
pub open spec fn lists_drag_moves(gs: &GameState, color: PlayerColor, s: Seq<Move>) -> bool {
    &&& forall|i: int| 0 <= i < s.len() ==> sound_drag_move(gs, color, #[trigger] s[i])
    &&& forall|sc: AxialCoords, dc: AxialCoords|
        #[trigger] spec_drag_pair_ok(gs, color, sc, dc) ==> exists|i: int|
            0 <= i < s.len() && #[trigger] is_drag_move(s[i], sc, gs.board@[sc], dc, gs.board@[dc])
}

impl GameState {
    /// Fetches the undeployed pieces of a specific color.
    pub fn undeployed_pieces(&self, color: PlayerColor) -> (r: &Vec<Piece>)
        ensures
            r@ == self.spec_undeployed(color),
    {
        match color {
            PlayerColor::Red => &self.undeployed_red_pieces,
            PlayerColor::Blue => &self.undeployed_blue_pieces,
        }
    }

    /// Fetches the player data of a given color.
    pub fn player(&self, color: PlayerColor) -> (r: &Player)
        ensures
            color == PlayerColor::Red ==> r == &self.red_player,
            color == PlayerColor::Blue ==> r == &self.blue_player,
    {
        match color {
            PlayerColor::Red => &self.red_player,
            PlayerColor::Blue => &self.blue_player,
        }
    }

    /// Fetches the current round: half the turn counter.
    pub fn round(&self) -> (r: u32)
        ensures
            r as int == self.spec_round(),
    {
        self.turn / 2
    }

    /// Ensures that the destination is a direct neighbor of the start.
    fn validate_adjacent(&self, start: AxialCoords, destination: AxialCoords) -> (r: SCResult<()>)
        ensures
            r is Ok <==> is_neighbor(start, destination),
            r is Err ==> r == Err::<(), SCError>(
                SCError::Validation(ValidationReason::NotAdjacent),
            ),
    {
        if start.is_adjacent_to(destination) {
            Ok(())
        } else {
            Err(SCError::Validation(ValidationReason::NotAdjacent))
        }
    }

    fn validate_ant_move(&self, start: AxialCoords, destination: AxialCoords) -> (r: SCResult<()>)
        requires
            self.board@.dom().contains(start),
        ensures
            r == result_of(spec_validate_piece_rule(self.board@, PieceType::Ant, start, destination)),
    {
        if self.board.connected_by_boundary_path(start, destination) {
            Ok(())
        } else {
            Err(SCError::Validation(ValidationReason::NoAntPath))
        }
    }

    fn validate_bee_move(&self, start: AxialCoords, destination: AxialCoords) -> (r: SCResult<()>)
        ensures
            r == result_of(spec_validate_piece_rule(self.board@, PieceType::Bee, start, destination)),
    {
        let adj = self.validate_adjacent(start, destination);
        if adj.is_err() {
            return adj;
        }
        if self.board.can_move_between(start, destination) {
            Ok(())
        } else {
            Err(SCError::Validation(ValidationReason::NoSlidePath))
        }
    }

    fn validate_beetle_move(&self, start: AxialCoords, destination: AxialCoords) -> (r: SCResult<
        (),
    >)
        requires
            self.board@.dom().contains(destination),
        ensures
            r == result_of(
                spec_validate_piece_rule(self.board@, PieceType::Beetle, start, destination),
            ),
    {
        let adj = self.validate_adjacent(start, destination);
        if adj.is_err() {
            return adj;
        }
        let shared = self.board.shared_neighbors(start, destination, None);
        let mut any_occupied = false;
        let mut i: usize = 0;
        while i < shared.len()
            invariant
                0 <= i <= shared@.len(),
                forall|k: int|
                    0 <= k < shared@.len() ==> shared_pair(
                        self.board@,
                        None,
                        start,
                        destination,
                        (#[trigger] shared@[k]).0,
                    ) && shared@[k].1@ == self.board@[shared@[k].0],
                any_occupied <==> exists|k: int|
                    0 <= k < i && (#[trigger] shared@[k]).1@.is_occupied(),
            decreases shared@.len() - i,
        {
            if shared[i].1.is_occupied() {
                any_occupied = true;
                proof {
                    assert((#[trigger] shared@[i as int]).1@.is_occupied());
                }
            }
            i += 1;
        }
        let dest_occupied = match self.board.field(destination) {
            Some(f) => f.is_occupied(),
            None => false,
        };
        proof {
            let m = self.board@;
            if any_occupied {
                let k = choose|k: int|
                    0 <= k < shared@.len() && (#[trigger] shared@[k]).1@.is_occupied();
                assert(shared_pair(m, None, start, destination, shared@[k].0)
                    && m[shared@[k].0].is_occupied());
            } else {
                assert forall|c: AxialCoords|
                    !(#[trigger] shared_pair(m, None, start, destination, c)
                        && m[c].is_occupied()) by {
                    if shared_pair(m, None, start, destination, c) {
                        let j = choose|j: int|
                            0 <= j < shared@.len() && (#[trigger] shared@[j]).0 == c;
                    }
                }
            }
        }
        if any_occupied || dest_occupied {
            Ok(())
        } else {
            Err(SCError::Validation(ValidationReason::BeetleMustStayWithSwarm))
        }
    }

    fn validate_grasshopper_move(&self, start: AxialCoords, destination: AxialCoords) -> (r:
        SCResult<()>)
        requires
            start != destination,
        ensures
            r == result_of(
                spec_validate_piece_rule(self.board@, PieceType::Grasshopper, start, destination),
            ),
    {
        let za: i64 = -(start.x as i64 + start.y as i64);
        let zb: i64 = -(destination.x as i64 + destination.y as i64);
        let forms_line = start.x == destination.x || start.y == destination.y || za == zb;
        if !forms_line {
            Err(SCError::Validation(ValidationReason::GrasshopperNeedsLine))
        } else if start.is_adjacent_to(destination) {
            Err(SCError::Validation(ValidationReason::GrasshopperMustJump))
        } else if !self.board.line_clear_of_empty(start, destination) {
            Err(SCError::Validation(ValidationReason::GrasshopperOverEmpty))
        } else {
            Ok(())
        }
    }

    fn validate_spider_move(&self, start: AxialCoords, destination: AxialCoords) -> (r: SCResult<
        (),
    >)
        ensures
            r == result_of(
                spec_validate_piece_rule(self.board@, PieceType::Spider, start, destination),
            ),
    {
        if self.board.bfs_reachable_in_3_steps(start, destination) {
            Ok(())
        } else {
            Err(SCError::Validation(ValidationReason::NoSpiderPath))
        }
    }

    fn validate_set_move(&self, color: PlayerColor, piece: Piece, destination: AxialCoords) -> (r:
        SCResult<()>)
        ensures
            r == result_of(spec_validate_set_move(self, color, piece, destination)),
    {
        if !self.board.contains_coords(destination) {
            return Err(SCError::Validation(ValidationReason::DestinationOutOfBounds));
        }
        let obstructed = match self.board.field(destination) {
            Some(f) => f.is_obstructed(),
            None => true,
        };
        if obstructed {
            return Err(SCError::Validation(ValidationReason::DestinationObstructed));
        }
        if !self.board.has_pieces() {
            return Ok(());
        }
        let own_fields = self.board.fields_owned_by(color);
        if own_fields.len() == 0 {
            proof {
                assert forall|c: AxialCoords| !#[trigger] cell_owned_by(self.board@, c, color) by {
                    if cell_owned_by(self.board@, c, color) {
                        let k = choose|k: int|
                            0 <= k < own_fields@.len() && (#[trigger] own_fields@[k]).0 == c;
                    }
                }
            }
            if self.board.is_next_to(color.opponent(), destination) {
                return Ok(());
            } else {
                return Err(SCError::Validation(ValidationReason::MustTouchOpponentSwarm));
            }
        }
        proof {
            assert(cell_owned_by(self.board@, own_fields@[0].0, color));
        }
        if self.round() == 3 && !self.board.has_placed_bee(color) && !(piece.piece_type
            == PieceType::Bee) {
            return Err(SCError::Validation(ValidationReason::BeeDeadline));
        }
        if !piece_vec_contains(self.undeployed_pieces(color), piece) {
            return Err(SCError::Validation(ValidationReason::PieceNotUndeployed));
        }
        if !self.board.is_next_to(color, destination) {
            return Err(SCError::Validation(ValidationReason::MustTouchOwnSwarm));
        }
        if self.board.is_next_to(color.opponent(), destination) {
            return Err(SCError::Validation(ValidationReason::MustNotTouchOpponentSwarm));
        }
        Ok(())
    }

    fn validate_drag_move(&self, color: PlayerColor, start: AxialCoords, destination: AxialCoords)
        -> (r: SCResult<()>)
        ensures
            r == result_of(spec_validate_drag_move(self, color, start, destination)),
    {
        if !self.board.has_placed_bee(color) {
            return Err(SCError::Validation(ValidationReason::BeeNotPlaced));
        }
        if !self.board.contains_coords(start) {
            return Err(SCError::Validation(ValidationReason::StartOutOfBounds));
        }
        if !self.board.contains_coords(destination) {
            return Err(SCError::Validation(ValidationReason::DestinationOutOfBounds));
        }
        let dragged = match self.board.field(start) {
            Some(f) => f.piece(),
            None => None,
        };
        let piece = match dragged {
            Some(p) => p,
            None => {
                return Err(SCError::Validation(ValidationReason::NoPieceToMove));
            },
        };
        if !(piece.owner == color) {
            return Err(SCError::Validation(ValidationReason::OpponentPiece));
        }
        if start == destination {
            return Err(SCError::Validation(ValidationReason::StartIsDestination));
        }
        let dest_occupied = match self.board.field(destination) {
            Some(f) => f.is_occupied(),
            None => false,
        };
        if dest_occupied && !(piece.piece_type == PieceType::Beetle) {
            return Err(SCError::Validation(ValidationReason::OnlyBeetlesClimb));
        }
        let mut without_piece = self.board.clone();
        without_piece.pop_at(start);
        proof {
            assert(without_piece@ == board_without_top(self.board@, start));
        }
        if !without_piece.is_swarm_connected() {
            return Err(SCError::Validation(ValidationReason::WouldDisconnectSwarm));
        }
        match piece.piece_type {
            PieceType::Ant => self.validate_ant_move(start, destination),
            PieceType::Bee => self.validate_bee_move(start, destination),
            PieceType::Beetle => self.validate_beetle_move(start, destination),
            PieceType::Grasshopper => self.validate_grasshopper_move(start, destination),
            PieceType::Spider => self.validate_spider_move(start, destination),
        }
    }

    /// Tests whether the given move is valid; a rejection names the
    /// first rule the move broke.
    pub fn validate_move(&self, color: PlayerColor, game_move: &Move) -> (r: SCResult<()>)
        ensures
            r == result_of(spec_validate_move(self, color, *game_move)),
    {
        match game_move {
            Move::SetMove { piece, destination } => self.validate_set_move(
                color,
                *piece,
                destination.coords,
            ),
            Move::DragMove { start, destination } => self.validate_drag_move(
                color,
                start.coords,
                destination.coords,
            ),
        }
    }
}

/// Maps a rule verdict to the crate's result type.
pub open spec fn result_of(v: Result<(), ValidationReason>) -> SCResult<()> {
    match v {
        Ok(()) => Ok(()),
        Err(reason) => Err(SCError::Validation(reason)),
    }
}

/// Tests whether a vector of pieces contains the given piece.
fn piece_vec_contains(v: &Vec<Piece>, p: Piece) -> (r: bool)
    ensures
        r == v@.contains(p),
{
    let mut i: usize = 0;
    while i < v.len()
        invariant
            0 <= i <= v@.len(),
            forall|k: int| 0 <= k < i ==> v@[k] != p,
        decreases v@.len() - i,
    {
        if v[i] == p {
            return true;
        }
        i += 1;
    }
    false
}


impl GameState {
    /// Fetches every possible set move of the given color: one per
    /// allowed piece and allowed destination.
    fn possible_set_moves(&self, color: PlayerColor) -> (r: Vec<Move>)
        ensures
            lists_set_moves(self, color, r@),
    {
        let ghost m = self.board@;
        let opponent = color.opponent();
        let undeployed_len = self.undeployed_pieces(color).len();
        let opp_len = self.undeployed_pieces(opponent).len();
        // the candidate destinations, each once
        let mut dests: Vec<AxialCoords> = Vec::new();
        if undeployed_len == 11 && opp_len == 11 {
            let ef = self.board.empty_fields();
            let mut i: usize = 0;
            while i < ef.len()
                invariant
                    m == self.board@,
                    0 <= i <= ef@.len(),
                    lists_cells(m, ef@, |c: AxialCoords, f: FieldV| f.is_empty()),
                    dests@.len() == i,
                    forall|k: int| 0 <= k < i ==> #[trigger] dests@[k] == ef@[k].0,
                decreases ef@.len() - i,
            {
                dests.push(ef[i].0);
                i += 1;
            }
            proof {
                assert forall|c: AxialCoords|
                    spec_set_move_destination_ok(self, color, c) implies dests@.contains(c) by {
                    let k = choose|k: int| 0 <= k < ef@.len() && (#[trigger] ef@[k]).0 == c;
                    assert(dests@[k] == c);
                }
                assert forall|k: int|
                    0 <= k < dests@.len() implies spec_set_move_destination_ok(
                    self,
                    color,
                    #[trigger] dests@[k],
                ) by {
                    assert(dests@[k] == ef@[k].0);
                }
            }
        } else if undeployed_len == 11 {
            let opp_fields = self.board.fields_owned_by(opponent);
            let mut i: usize = 0;
            while i < opp_fields.len()
                invariant
                    m == self.board@,
                    opponent == color.spec_opponent(),
                    0 <= i <= opp_fields@.len(),
                    lists_cells(m, opp_fields@, |c: AxialCoords, f: FieldV| f.is_owned_by(opponent)),
                    forall|k: int|
                        0 <= k < dests@.len() ==> cell_empty(m, #[trigger] dests@[k]) && next_to(
                            m,
                            opponent,
                            dests@[k],
                        ),
                    forall|k: int, l: int| 0 <= k < l < dests@.len() ==> dests@[k] != dests@[l],
                    forall|k: int, c: AxialCoords|
                        0 <= k < i && is_neighbor((#[trigger] opp_fields@[k]).0, c)
                            && #[trigger] cell_empty(m, c) ==> dests@.contains(c),
                decreases opp_fields@.len() - i,
            {
                let ghost o = opp_fields@[i as int].0;
                let ns = self.board.empty_neighbors(opp_fields[i].0);
                let mut j: usize = 0;
                while j < ns.len()
                    invariant
                        m == self.board@,
                        opponent == color.spec_opponent(),
                        0 <= j <= ns@.len(),
                        0 <= i < opp_fields@.len(),
                        o == opp_fields@[i as int].0,
                        cell_owned_by(m, o, opponent),
                        forall|k: int|
                            0 <= k < ns@.len() ==> is_neighbor(o, (#[trigger] ns@[k]).0)
                                && cell_empty(m, ns@[k].0),
                        forall|c: AxialCoords|
                            is_neighbor(o, c) && #[trigger] cell_empty(m, c) ==> exists|k: int|
                                0 <= k < ns@.len() && (#[trigger] ns@[k]).0 == c,
                        forall|k: int|
                            0 <= k < dests@.len() ==> cell_empty(m, #[trigger] dests@[k])
                                && next_to(m, opponent, dests@[k]),
                        forall|k: int, l: int| 0 <= k < l < dests@.len() ==> dests@[k] != dests@[l],
                        forall|k: int, c: AxialCoords|
                            0 <= k < i && is_neighbor((#[trigger] opp_fields@[k]).0, c)
                                && #[trigger] cell_empty(m, c) ==> dests@.contains(c),
                        forall|k: int| 0 <= k < j ==> dests@.contains((#[trigger] ns@[k]).0),
                    decreases ns@.len() - j,
                {
                    let c = ns[j].0;
                    let ghost dests_old = dests@;
                    if !crate::game::board::coords_vec_contains(&dests, c) {
                        dests.push(c);
                        proof {
                            assert(dests@[dests@.len() - 1] == c);
                            assert(cell_owned_by(m, o, opponent) && is_neighbor(c, o)) by {
                                crate::game::coords::lemma_is_neighbor_symmetric(o, c);
                            }
                            assert(next_to(m, opponent, c));
                            assert forall|v: AxialCoords|
                                dests_old.contains(v) implies #[trigger] dests@.contains(v) by {
                                let idx = choose|idx: int|
                                    0 <= idx < dests_old.len() && dests_old[idx] == v;
                                assert(dests@[idx] == v);
                            }
                        }
                    } else {
                        proof {
                            assert(dests@.contains(c));
                        }
                    }
                    proof {
                        assert forall|k: int, cc: AxialCoords|
                            0 <= k < i && is_neighbor((#[trigger] opp_fields@[k]).0, cc)
                                && #[trigger] cell_empty(m, cc) implies dests@.contains(cc) by {
                            let idx = choose|idx: int|
                                0 <= idx < dests_old.len() && dests_old[idx] == cc;
                            assert(dests@[idx] == cc);
                        }
                        assert forall|k: int| 0 <= k < j + 1 implies dests@.contains(
                            (#[trigger] ns@[k]).0,
                        ) by {
                            if k < j {
                                let idx = choose|idx: int|
                                    0 <= idx < dests_old.len() && dests_old[idx] == ns@[k].0;
                                assert(dests@[idx] == ns@[k].0);
                            }
                        }
                    }
                    j += 1;
                }
                proof {
                    assert forall|c: AxialCoords|
                        is_neighbor(o, c) && #[trigger] cell_empty(m, c) implies dests@.contains(
                        c,
                    ) by {
                        let k = choose|k: int| 0 <= k < ns@.len() && (#[trigger] ns@[k]).0 == c;
                    }
                }
                i += 1;
            }
            proof {
                assert forall|c: AxialCoords|
                    spec_set_move_destination_ok(self, color, c) implies dests@.contains(c) by {
                    assert(next_to(m, opponent, c));
                    let o = choose|o: AxialCoords|
                        is_neighbor(c, o) && #[trigger] cell_owned_by(m, o, opponent);
                    crate::game::coords::lemma_is_neighbor_symmetric(c, o);
                    let k = choose|k: int|
                        0 <= k < opp_fields@.len() && (#[trigger] opp_fields@[k]).0 == o;
                }
                assert forall|k: int|
                    0 <= k < dests@.len() implies spec_set_move_destination_ok(
                    self,
                    color,
                    #[trigger] dests@[k],
                ) by {}
            }
        } else {
            dests = self.board.possible_set_move_destinations(color);
        }
        // the candidate pieces, each once
        let mut pieces: Vec<Piece> = Vec::new();
        if !self.board.has_placed_bee(color) && self.turn > 5 {
            pieces.push(Piece { owner: color, piece_type: PieceType::Bee });
            proof {
                assert(pieces@[0] == (Piece { owner: color, piece_type: PieceType::Bee }));
            }
        } else {
            let pool = self.undeployed_pieces(color);
            let mut i: usize = 0;
            while i < pool.len()
                invariant
                    0 <= i <= pool@.len(),
                    pool@ == self.spec_undeployed(color),
                    forall|k: int| 0 <= k < pieces@.len() ==> pool@.contains(#[trigger] pieces@[k]),
                    forall|k: int, l: int|
                        0 <= k < l < pieces@.len() ==> pieces@[k] != pieces@[l],
                    forall|k: int| 0 <= k < i ==> pieces@.contains(#[trigger] pool@[k]),
                decreases pool@.len() - i,
            {
                let p = pool[i];
                let ghost pieces_old = pieces@;
                if !piece_vec_contains(&pieces, p) {
                    pieces.push(p);
                }
                proof {
                    if pieces@ != pieces_old {
                        assert(pieces@[pieces@.len() - 1] == p);
                        assert(pool@.contains(pool@[i as int]));
                    }
                    assert forall|k: int| 0 <= k < i + 1 implies pieces@.contains(
                        (#[trigger] pool@[k]),
                    ) by {
                        if k < i {
                            let idx = choose|idx: int|
                                0 <= idx < pieces_old.len() && pieces_old[idx] == pool@[k];
                            assert(pieces@[idx] == pool@[k]);
                        } else {
                            if pieces_old.contains(p) {
                                let idx = choose|idx: int|
                                    0 <= idx < pieces_old.len() && pieces_old[idx] == p;
                                assert(pieces@[idx] == p);
                            } else {
                                assert(pieces@[pieces@.len() - 1] == p);
                            }
                        }
                    }
                }
                i += 1;
            }
        }
        proof {
            assert forall|p: Piece|
                #[trigger] spec_set_move_piece_ok(self, color, p) implies pieces@.contains(p) by {
                if !(!placed_bee(m, color) && self.turn > 5) {
                    let k = choose|k: int|
                        0 <= k < self.spec_undeployed(color).len() && self.spec_undeployed(color)[k]
                            == p;
                }
            }
            assert forall|k: int|
                0 <= k < pieces@.len() implies spec_set_move_piece_ok(
                self,
                color,
                #[trigger] pieces@[k],
            ) by {}
        }
        proof {
            assert forall|k: int|
                0 <= k < dests@.len() implies spec_set_move_destination_ok(
                self,
                color,
                #[trigger] dests@[k],
            ) && m.dom().contains(dests@[k]) by {
                if self.spec_undeployed(color).len() == 11 {
                } else {
                    assert(spec_set_destination(m, color, dests@[k]));
                }
            }
            assert forall|c: AxialCoords|
                #[trigger] spec_set_move_destination_ok(self, color, c) && m.dom().contains(
                    c,
                ) implies dests@.contains(c) by {}
        }
        // the cross product, destination-major as moves are generated
        let r = self.cross_set_moves(&pieces, &dests);
        proof {
            let npi = pieces@.len() as int;
            let nd = dests@.len() as int;
            assert forall|k: int| 0 <= k < r@.len() implies sound_set_move(
                self,
                color,
                #[trigger] r@[k],
            ) by {
                vstd::arithmetic::div_mod::lemma_fundamental_div_mod(k, npi);
                vstd::arithmetic::div_mod::lemma_mod_bound(k, npi);
                assert(0 <= k / npi < nd) by (nonlinear_arith)
                    requires
                        0 <= k < nd * npi,
                        npi > 0,
                        k == npi * (k / npi) + k % npi,
                        0 <= k % npi < npi,
                ;
                assert(is_set_move(
                    r@[k],
                    pieces@[k % npi],
                    dests@[k / npi],
                    self.board@[dests@[k / npi]],
                ));
                assert(spec_set_move_piece_ok(self, color, pieces@[k % npi]));
                assert(spec_set_move_destination_ok(self, color, dests@[k / npi]));
                assert(sound_set_move(self, color, r@[k]));
            }
            assert forall|piece: Piece, cc: AxialCoords|
                #[trigger] spec_set_move_piece_ok(self, color, piece)
                    && #[trigger] spec_set_move_destination_ok(self, color, cc)
                    && m.dom().contains(cc) implies exists|i: int|
                0 <= i < r@.len() && #[trigger] is_set_move(r@[i], piece, cc, self.board@[cc]) by {
                let a = choose|a: int| 0 <= a < pieces@.len() && pieces@[a] == piece;
                let b = choose|b: int| 0 <= b < dests@.len() && dests@[b] == cc;
                let k = b * npi + a;
                vstd::arithmetic::div_mod::lemma_fundamental_div_mod_converse(k, npi, b, a);
                assert(0 <= k < nd * npi) by (nonlinear_arith)
                    requires
                        k == b * npi + a,
                        0 <= a < npi,
                        0 <= b < nd,
                ;
                assert(is_set_move(r@[k], pieces@[a], dests@[b], self.board@[dests@[b]]));
            }
            assert forall|i: int, j: int, piece: Piece, cc: AxialCoords, f1: FieldV, f2: FieldV|
                0 <= i < r@.len() && 0 <= j < r@.len() && #[trigger] is_set_move(
                    r@[i],
                    piece,
                    cc,
                    f1,
                ) && #[trigger] is_set_move(r@[j], piece, cc, f2) implies i == j by {
                assert(is_set_move(r@[i], pieces@[i % npi], dests@[i / npi], m[dests@[i / npi]]));
                assert(is_set_move(r@[j], pieces@[j % npi], dests@[j / npi], m[dests@[j / npi]]));
                vstd::arithmetic::div_mod::lemma_fundamental_div_mod(i, npi);
                vstd::arithmetic::div_mod::lemma_mod_bound(i, npi);
                vstd::arithmetic::div_mod::lemma_fundamental_div_mod(j, npi);
                vstd::arithmetic::div_mod::lemma_mod_bound(j, npi);
                assert(0 <= i / npi < nd) by (nonlinear_arith)
                    requires
                        0 <= i < nd * npi,
                        npi > 0,
                        i == npi * (i / npi) + i % npi,
                        0 <= i % npi < npi,
                ;
                assert(0 <= j / npi < nd) by (nonlinear_arith)
                    requires
                        0 <= j < nd * npi,
                        npi > 0,
                        j == npi * (j / npi) + j % npi,
                        0 <= j % npi < npi,
                ;
                assert(pieces@[i % npi] == piece && pieces@[j % npi] == piece);
                assert(dests@[i / npi] == cc && dests@[j / npi] == cc);
                assert(i % npi == j % npi);
                assert(i / npi == j / npi);
            }
        }
        r
    }

    /// Builds one set move for every destination-piece pair, the
    /// destinations outermost, and returns them indexed accordingly.
    fn cross_set_moves(&self, pieces: &Vec<Piece>, dests: &Vec<AxialCoords>) -> (r: Vec<Move>)
        requires
            forall|k: int|
                0 <= k < dests@.len() ==> self.board@.dom().contains(#[trigger] dests@[k]),
        ensures
            r@.len() == dests@.len() * pieces@.len(),
            forall|k: int|
                #![trigger r@[k]]
                0 <= k < r@.len() ==> is_set_move(
                    r@[k],
                    pieces@[k % (pieces@.len() as int)],
                    dests@[k / (pieces@.len() as int)],
                    self.board@[dests@[k / (pieces@.len() as int)]],
                ),
    {
        let ghost m = self.board@;
        let np = pieces.len();
        let mut r: Vec<Move> = Vec::new();
        let mut di: usize = 0;
        while di < dests.len()
            invariant
                m == self.board@,
                0 <= di <= dests@.len(),
                np == pieces@.len(),
                forall|k: int|
                    0 <= k < dests@.len() ==> m.dom().contains(#[trigger] dests@[k]),
                r@.len() == di * np,
                forall|k: int|
                    #![trigger r@[k]]
                    0 <= k < r@.len() ==> is_set_move(
                        r@[k],
                        pieces@[k % (np as int)],
                        dests@[k / (np as int)],
                        m[dests@[k / (np as int)]],
                    ),
            decreases dests@.len() - di,
        {
            let c = dests[di];
            let fopt = self.board.field(c);
            let f = match fopt {
                Some(f) => f,
                None => {
                    proof {
                        assert(false);
                    }
                    return r;
                },
            };
            let mut pi: usize = 0;
            while pi < np
                invariant
                    m == self.board@,
                    0 <= pi <= np,
                    0 <= di < dests@.len(),
                    np == pieces@.len(),
                    c == dests@[di as int],
                    m.dom().contains(c),
                    f@ == m[c],
                    r@.len() == di * np + pi,
                    forall|k: int|
                        #![trigger r@[k]]
                        0 <= k < r@.len() ==> is_set_move(
                            r@[k],
                            pieces@[k % (np as int)],
                            dests@[k / (np as int)],
                            m[dests@[k / (np as int)]],
                        ),
                decreases np - pi,
            {
                let mv = Move::SetMove {
                    piece: pieces[pi],
                    destination: PositionedField { coords: c, field: f.clone() },
                };
                r.push(mv);
                proof {
                    let npi = np as int;
                    let knew = r@.len() - 1;
                    vstd::arithmetic::div_mod::lemma_fundamental_div_mod_converse(
                        knew,
                        npi,
                        di as int,
                        pi as int,
                    );
                    assert(is_set_move(r@[knew], pieces@[pi as int], dests@[di as int], m[dests@[
                        di as int
                    ]]));
                }
                pi += 1;
            }
            proof {
                assert(di * np + np == (di + 1) * np) by (nonlinear_arith);
            }
            di += 1;
        }
        r
    }

    /// Returns the given move when it validates, or the rejection.
    fn validated(&self, color: PlayerColor, game_move: Move) -> (r: SCResult<Move>)
        ensures
            spec_validate_move(self, color, game_move) is Ok ==> r == Ok::<Move, SCError>(
                game_move,
            ),
            spec_validate_move(self, color, game_move) is Err ==> r is Err,
    {
        match self.validate_move(color, &game_move) {
            Ok(()) => Ok(game_move),
            Err(e) => Err(e),
        }
    }

    /// Fetches every possible drag move of the given color: for every
    /// own cell, the swarm-boundary cells (plus all neighbor cells for
    /// a beetle), each passed through full validation.
    fn possible_drag_moves(&self, color: PlayerColor) -> (r: Vec<Move>)
        ensures
            lists_drag_moves(self, color, r@),
    {
        let ghost m = self.board@;
        let own = self.board.fields_owned_by(color);
        let boundary = self.board.swarm_boundary();
        let mut r: Vec<Move> = Vec::new();
        let mut i: usize = 0;
        while i < own.len()
            invariant
                m == self.board@,
                0 <= i <= own@.len(),
                lists_cells(m, own@, |c: AxialCoords, f: FieldV| f.is_owned_by(color)),
                forall|k: int|
                    0 <= k < boundary@.len() ==> on_boundary(m, (#[trigger] boundary@[k]).0)
                        && boundary@[k].1@ == m[boundary@[k].0],
                forall|c: AxialCoords|
                    on_boundary(m, c) ==> exists|k: int|
                        0 <= k < boundary@.len() && (#[trigger] boundary@[k]).0 == c,
                forall|k: int|
                    0 <= k < r@.len() ==> sound_drag_move(self, color, #[trigger] r@[k]),
                forall|k: int, dc: AxialCoords|
                    0 <= k < i && #[trigger] spec_drag_pair_ok(
                        self,
                        color,
                        (#[trigger] own@[k]).0,
                        dc,
                    ) ==> exists|l: int|
                        0 <= l < r@.len() && #[trigger] is_drag_move(
                            r@[l],
                            own@[k].0,
                            m[own@[k].0],
                            dc,
                            m[dc],
                        ),
            decreases own@.len() - i,
        {
            let sc = own[i].0;
            let ghost sci = i as int;
            // candidate destinations: the boundary, plus all neighbors
            // for a beetle
            let mut targets: Vec<(AxialCoords, Field)> = Vec::new();
            let mut bi: usize = 0;
            while bi < boundary.len()
                invariant
                    m == self.board@,
                    0 <= bi <= boundary@.len(),
                    forall|k: int|
                        0 <= k < boundary@.len() ==> on_boundary(m, (#[trigger] boundary@[k]).0)
                            && boundary@[k].1@ == m[boundary@[k].0],
                    targets@.len() == bi,
                    forall|k: int|
                        0 <= k < bi ==> (#[trigger] targets@[k]).0 == boundary@[k].0
                            && targets@[k].1@ == m[targets@[k].0] && on_boundary(
                            m,
                            targets@[k].0,
                        ),
                decreases boundary@.len() - bi,
            {
                targets.push((boundary[bi].0, boundary[bi].1.clone()));
                bi += 1;
            }
            let is_beetle = match own[i].1.piece() {
                Some(p) => p.piece_type == PieceType::Beetle,
                None => false,
            };
            let ghost targets_boundary = targets@;
            if is_beetle {
                let ns = self.board.neighbors(sc);
                let mut ni: usize = 0;
                while ni < ns.len()
                    invariant
                        m == self.board@,
                        0 <= ni <= ns@.len(),
                        forall|k: int|
                            0 <= k < ns@.len() ==> is_neighbor(sc, (#[trigger] ns@[k]).0)
                                && m.dom().contains(ns@[k].0) && ns@[k].1@ == m[ns@[k].0],
                        targets@.len() == targets_boundary.len() + ni,
                        forall|k: int|
                            0 <= k < targets_boundary.len() ==> #[trigger] targets@[k]
                                == targets_boundary[k],
                        forall|k: int|
                            0 <= k < ni ==> (#[trigger] targets@[targets_boundary.len() + k]).0
                                == ns@[k].0 && targets@[targets_boundary.len() + k].1@ == m[ns@[
                                k
                            ].0],
                    decreases ns@.len() - ni,
                {
                    targets.push((ns[ni].0, ns[ni].1.clone()));
                    ni += 1;
                }
                proof {
                    assert forall|c: AxialCoords|
                        is_neighbor(sc, c) && m.dom().contains(c) implies exists|k: int|
                        0 <= k < targets@.len() && (#[trigger] targets@[k]).0 == c && targets@[
                            k
                        ].1@ == m[c] by {
                        let k = choose|k: int| 0 <= k < ns@.len() && (#[trigger] ns@[k]).0 == c;
                        assert(targets@[targets_boundary.len() + k].0 == c);
                    }
                    assert forall|k: int|
                        targets_boundary.len() <= k < targets@.len() implies is_neighbor(
                        sc,
                        (#[trigger] targets@[k]).0,
                    ) && m.dom().contains(targets@[k].0) && targets@[k].1@ == m[targets@[k].0] by {
                        let k2 = k - targets_boundary.len();
                        assert(targets@[targets_boundary.len() + k2].0 == ns@[k2].0);
                        assert(targets@[targets_boundary.len() + k2].1@ == m[ns@[k2].0]);
                    }
                }
            }
            proof {
                assert forall|k: int|
                    0 <= k < targets@.len() implies m.dom().contains((#[trigger] targets@[k]).0)
                    && targets@[k].1@ == m[targets@[k].0] && (k < targets_boundary.len()
                    ==> on_boundary(m, targets@[k].0)) && (k >= targets_boundary.len()
                    ==> is_beetle && is_neighbor(sc, targets@[k].0)) by {
                    if k < targets_boundary.len() {
                        assert(targets@[k] == targets_boundary[k]);
                        assert(on_boundary(m, targets_boundary[k].0));
                        assert(cell_empty(m, targets@[k].0));
                    }
                }
                assert forall|c: AxialCoords| on_boundary(m, c) implies exists|k: int|
                    0 <= k < targets@.len() && (#[trigger] targets@[k]).0 == c by {
                    let k = choose|k: int|
                        0 <= k < boundary@.len() && (#[trigger] boundary@[k]).0 == c;
                    assert(targets@[k] == targets_boundary[k]);
                    assert(targets@[k].0 == c);
                }
            }
            let sf = own[i].1.clone();
            let mut j: usize = 0;
            while j < targets.len()
                invariant
                    m == self.board@,
                    0 <= j <= targets@.len(),
                    0 <= sci < own@.len(),
                    sc == own@[sci].0,
                    cell_owned_by(m, sc, color),
                    own@[sci].1@ == m[sc],
                    sf@ == m[sc],
                    is_beetle == (m[sc].has_pieces() && m[sc].stack.last().piece_type
                        == PieceType::Beetle),
                    lists_cells(m, own@, |c: AxialCoords, f: FieldV| f.is_owned_by(color)),
                    forall|k: int|
                        0 <= k < targets@.len() ==> m.dom().contains((#[trigger] targets@[k]).0)
                            && targets@[k].1@ == m[targets@[k].0],
                    forall|c: AxialCoords|
                        on_boundary(m, c) ==> exists|k: int|
                            0 <= k < targets@.len() && (#[trigger] targets@[k]).0 == c,
                    is_beetle ==> forall|c: AxialCoords|
                        is_neighbor(sc, c) && m.dom().contains(c) ==> exists|k: int|
                            0 <= k < targets@.len() && (#[trigger] targets@[k]).0 == c,
                    targets_boundary.len() <= targets@.len(),
                    forall|k: int|
                        0 <= k < targets_boundary.len() ==> on_boundary(
                            m,
                            (#[trigger] targets@[k]).0,
                        ),
                    forall|k: int|
                        targets_boundary.len() <= k < targets@.len() ==> is_beetle && is_neighbor(
                            sc,
                            (#[trigger] targets@[k]).0,
                        ),
                    forall|k: int|
                        0 <= k < r@.len() ==> sound_drag_move(self, color, #[trigger] r@[k]),
                    forall|k: int, dc: AxialCoords|
                        0 <= k < sci && #[trigger] spec_drag_pair_ok(
                            self,
                            color,
                            (#[trigger] own@[k]).0,
                            dc,
                        ) ==> exists|l: int|
                            0 <= l < r@.len() && #[trigger] is_drag_move(
                                r@[l],
                                own@[k].0,
                                m[own@[k].0],
                                dc,
                                m[dc],
                            ),
                    forall|k: int|
                        0 <= k < j && spec_drag_pair_ok(
                            self,
                            color,
                            sc,
                            (#[trigger] targets@[k]).0,
                        ) ==> exists|l: int|
                            0 <= l < r@.len() && #[trigger] is_drag_move(
                                r@[l],
                                sc,
                                m[sc],
                                targets@[k].0,
                                m[targets@[k].0],
                            ),
                decreases targets@.len() - j,
            {
                let dc = targets[j].0;
                let ghost r_old = r@;
                let verdict = self.validate_drag_move(color, sc, dc);
                if verdict.is_ok() {
                    let mv = Move::DragMove {
                        start: PositionedField { coords: sc, field: sf.clone() },
                        destination: PositionedField { coords: dc, field: targets[j].1.clone() },
                    };
                    r.push(mv);
                    proof {
                        assert(is_drag_move(r@[r@.len() - 1], sc, m[sc], dc, m[dc]));
                        assert(spec_drag_pair_ok(self, color, sc, dc)) by {
                            if (j as int) < targets_boundary.len() {
                                assert(on_boundary(m, dc));
                            } else {
                                assert(is_beetle && is_neighbor(sc, dc) && m.dom().contains(dc));
                            }
                        }
                    }
                }
                proof {
                    assert forall|k: int|
                        0 <= k < r@.len() implies sound_drag_move(self, color, #[trigger] r@[k]) by {
                        if k < r_old.len() {
                            assert(r@[k] == r_old[k]);
                            assert(sound_drag_move(self, color, r_old[k]));
                        } else {
                            assert(is_drag_move(r@[k], sc, self.board@[sc], dc, self.board@[dc]));
                            assert(sound_drag_move(self, color, r@[k]));
                        }
                    }
                    assert forall|k: int, dcc: AxialCoords|
                        0 <= k < sci && #[trigger] spec_drag_pair_ok(
                            self,
                            color,
                            (#[trigger] own@[k]).0,
                            dcc,
                        ) implies exists|l: int|
                        0 <= l < r@.len() && #[trigger] is_drag_move(
                            r@[l],
                            own@[k].0,
                            m[own@[k].0],
                            dcc,
                            m[dcc],
                        ) by {
                        let l = choose|l: int|
                            0 <= l < r_old.len() && #[trigger] is_drag_move(
                                r_old[l],
                                own@[k].0,
                                m[own@[k].0],
                                dcc,
                                m[dcc],
                            );
                        assert(r@[l] == r_old[l]);
                    }
                    assert forall|k: int|
                        0 <= k < j + 1 && spec_drag_pair_ok(
                            self,
                            color,
                            sc,
                            (#[trigger] targets@[k]).0,
                        ) implies exists|l: int|
                        0 <= l < r@.len() && #[trigger] is_drag_move(
                            r@[l],
                            sc,
                            m[sc],
                            targets@[k].0,
                            m[targets@[k].0],
                        ) by {
                        if k < j {
                            let l = choose|l: int|
                                0 <= l < r_old.len() && #[trigger] is_drag_move(
                                    r_old[l],
                                    sc,
                                    m[sc],
                                    targets@[k].0,
                                    m[targets@[k].0],
                                );
                            assert(r@[l] == r_old[l]);
                        } else {
                            assert(is_drag_move(r@[r@.len() - 1], sc, m[sc], dc, m[dc]));
                        }
                    }
                }
                j += 1;
            }
            proof {
                assert forall|dc: AxialCoords|
                    #[trigger] spec_drag_pair_ok(self, color, sc, dc) implies exists|l: int|
                    0 <= l < r@.len() && #[trigger] is_drag_move(r@[l], sc, m[sc], dc, m[dc]) by {
                    let k = choose|k: int|
                        0 <= k < targets@.len() && (#[trigger] targets@[k]).0 == dc;
                }
            }
            i += 1;
        }
        proof {
            assert forall|sc: AxialCoords, dc: AxialCoords|
                #[trigger] spec_drag_pair_ok(self, color, sc, dc) implies exists|l: int|
                0 <= l < r@.len() && #[trigger] is_drag_move(r@[l], sc, m[sc], dc, m[dc]) by {
                let k = choose|k: int| 0 <= k < own@.len() && (#[trigger] own@[k]).0 == sc;
            }
        }
        r
    }

    /// Fetches every possible move of the given color: all set moves,
    /// then all drag moves.
    pub fn possible_moves(&self, color: PlayerColor) -> (r: Vec<Move>)
        ensures
            forall|i: int|
                0 <= i < r@.len() ==> sound_set_move(self, color, #[trigger] r@[i])
                    || sound_drag_move(self, color, r@[i]),
            forall|piece: Piece, c: AxialCoords|
                #[trigger] spec_set_move_piece_ok(self, color, piece)
                    && #[trigger] spec_set_move_destination_ok(self, color, c)
                    && self.board@.dom().contains(c) ==> exists|i: int|
                    0 <= i < r@.len() && #[trigger] is_set_move(r@[i], piece, c, self.board@[c]),
            forall|sc: AxialCoords, dc: AxialCoords|
                #[trigger] spec_drag_pair_ok(self, color, sc, dc) ==> exists|i: int|
                    0 <= i < r@.len() && #[trigger] is_drag_move(
                        r@[i],
                        sc,
                        self.board@[sc],
                        dc,
                        self.board@[dc],
                    ),
            forall|i: int, j: int, piece: Piece, c: AxialCoords, f1: FieldV, f2: FieldV|
                0 <= i < r@.len() && 0 <= j < r@.len() && #[trigger] is_set_move(r@[i], piece, c, f1)
                    && #[trigger] is_set_move(r@[j], piece, c, f2) ==> i == j,
    {
        let ghost m = self.board@;
        let mut moves = self.possible_set_moves(color);
        let ghost sets = moves@;
        let mut drags = self.possible_drag_moves(color);
        let ghost dragsv = drags@;
        moves.append(&mut drags);
        proof {
            assert(moves@ =~= sets + dragsv);
            assert forall|i: int, j: int, piece: Piece, c: AxialCoords, f1: FieldV, f2: FieldV|
                0 <= i < moves@.len() && 0 <= j < moves@.len() && #[trigger] is_set_move(
                    moves@[i],
                    piece,
                    c,
                    f1,
                ) && #[trigger] is_set_move(moves@[j], piece, c, f2) implies i == j by {
                if i >= sets.len() {
                    let (sc, dc) = choose|sc: AxialCoords, dc: AxialCoords|
                        is_drag_move(#[trigger] dragsv[i - sets.len()], sc, m[sc], dc, m[dc])
                            && spec_drag_pair_ok(self, color, sc, dc);
                    assert(false);
                }
                if j >= sets.len() {
                    let (sc, dc) = choose|sc: AxialCoords, dc: AxialCoords|
                        is_drag_move(#[trigger] dragsv[j - sets.len()], sc, m[sc], dc, m[dc])
                            && spec_drag_pair_ok(self, color, sc, dc);
                    assert(false);
                }
            }
            assert forall|piece: Piece, c: AxialCoords|
                #[trigger] spec_set_move_piece_ok(self, color, piece)
                    && #[trigger] spec_set_move_destination_ok(self, color, c)
                    && m.dom().contains(c) implies exists|i: int|
                0 <= i < moves@.len() && #[trigger] is_set_move(moves@[i], piece, c, m[c]) by {
                let i = choose|i: int|
                    0 <= i < sets.len() && #[trigger] is_set_move(sets[i], piece, c, m[c]);
                assert(moves@[i] == sets[i]);
            }
            assert forall|sc: AxialCoords, dc: AxialCoords|
                #[trigger] spec_drag_pair_ok(self, color, sc, dc) implies exists|i: int|
                0 <= i < moves@.len() && #[trigger] is_drag_move(moves@[i], sc, m[sc], dc, m[dc]) by {
                let i = choose|i: int|
                    0 <= i < dragsv.len() && #[trigger] is_drag_move(dragsv[i], sc, m[sc], dc, m[
                        dc
                    ]);
                assert(moves@[sets.len() + i] == dragsv[i]);
            }
        }
        moves
    }
}



/// On the very first turn — both undeployed pools full and no piece on
/// the board — every empty cell accepts every undeployed piece as a
/// set move, and no drag move exists at all. Together with the listing
/// contract of `possible_moves`, the first turn's moves are exactly
/// one set move per empty cell and undeployed piece.
pub proof fn lemma_first_turn_moves(gs: &GameState, color: PlayerColor)
    requires
        gs.spec_undeployed(color).len() == 11,
        gs.spec_undeployed(color.spec_opponent()).len() == 11,
        !board_has_pieces(gs.board@),
        gs.turn <= 5,
    ensures
        forall|c: AxialCoords|
            #[trigger] spec_set_move_destination_ok(gs, color, c) <==> cell_empty(gs.board@, c),
        forall|p: Piece|
            #[trigger] spec_set_move_piece_ok(gs, color, p) <==> gs.spec_undeployed(
                color,
            ).contains(p),
        forall|sc: AxialCoords, dc: AxialCoords| !#[trigger] spec_drag_pair_ok(gs, color, sc, dc),
{
    assert forall|sc: AxialCoords, dc: AxialCoords|
        !#[trigger] spec_drag_pair_ok(gs, color, sc, dc) by {
        if spec_drag_pair_ok(gs, color, sc, dc) {
            assert(cell_owned_by(gs.board@, sc, color));
            assert(gs.board@[sc].has_pieces());
            assert(cell_has_pieces(gs.board@, sc));
            assert(board_has_pieces(gs.board@));
        }
    }
}

/// A drag move whose removal of the source piece would disconnect the
/// swarm is always rejected, whatever the per-piece geometric rule
/// would say.
pub proof fn lemma_disconnecting_drag_rejected(
    gs: &GameState,
    color: PlayerColor,
    start: AxialCoords,
    destination: AxialCoords,
)
    requires
        !spec_swarm_connected(board_without_top(gs.board@, start)),
    ensures
        spec_validate_drag_move(gs, color, start, destination) != Ok::<(), ValidationReason>(()),
{
}

/// A grasshopper move is rejected outright when start and destination
/// are adjacent, rejected when they do not lie on a straight cube
/// line, and rejected when some existing intervening line cell is
/// empty.
pub proof fn lemma_grasshopper_rejections(
    gs: &GameState,
    color: PlayerColor,
    start: AxialCoords,
    destination: AxialCoords,
)
    requires
        gs.board@.dom().contains(start),
        gs.board@[start].has_pieces(),
        gs.board@[start].stack.last().piece_type == PieceType::Grasshopper,
    ensures
        is_neighbor(start, destination) ==> spec_validate_drag_move(gs, color, start, destination)
            != Ok::<(), ValidationReason>(()),
        !forms_line_ax(start, destination) ==> spec_validate_drag_move(gs, color, start, destination)
            != Ok::<(), ValidationReason>(()),
        !spec_grasshopper_clear(gs.board@, start, destination) ==> spec_validate_drag_move(
            gs,
            color,
            start,
            destination,
        ) != Ok::<(), ValidationReason>(()),
{
}



/// The undeployed pool a container node denotes: its `piece` children.
pub open spec fn spec_pool_of_node(n: XmlNode) -> Option<Seq<Piece>> {
    crate::game::field::spec_pieces_of_nodes(childs_named(n.childs@, "piece"@))
}

/// Whether a whole game-state node parses: the turn and color
/// attributes, both players, the board, and both undeployed pools.
pub open spec fn spec_game_state_parses(n: XmlNode) -> bool {
    &&& attr_lookup(n.attributes@, "turn"@) is Some
    &&& spec_parse_u32(attr_lookup(n.attributes@, "turn"@).unwrap()) is Some
    &&& attr_lookup(n.attributes@, "startPlayerColor"@) is Some
    &&& color_of_name(attr_lookup(n.attributes@, "startPlayerColor"@).unwrap()) is Some
    &&& attr_lookup(n.attributes@, "currentPlayerColor"@) is Some
    &&& color_of_name(attr_lookup(n.attributes@, "currentPlayerColor"@).unwrap()) is Some
    &&& child_lookup(n.childs@, "red"@) is Some
    &&& spec_player_of_node(child_lookup(n.childs@, "red"@).unwrap()) is Some
    &&& child_lookup(n.childs@, "blue"@) is Some
    &&& spec_player_of_node(child_lookup(n.childs@, "blue"@).unwrap()) is Some
    &&& child_lookup(n.childs@, "board"@) is Some
    &&& spec_board_cells(child_lookup(n.childs@, "board"@).unwrap()) is Some
    &&& child_lookup(n.childs@, "undeployedRedPieces"@) is Some
    &&& spec_pool_of_node(child_lookup(n.childs@, "undeployedRedPieces"@).unwrap()) is Some
    &&& child_lookup(n.childs@, "undeployedBluePieces"@) is Some
    &&& spec_pool_of_node(child_lookup(n.childs@, "undeployedBluePieces"@).unwrap()) is Some
}

/// Whether the parsed state carries exactly what the node describes:
/// the turn, the colors, both players with their display names, both
/// undeployed pools, and the board with its cell values.
pub open spec fn spec_state_matches(gs: GameState, n: XmlNode) -> bool {
    &&& gs.turn == spec_parse_u32(attr_lookup(n.attributes@, "turn"@).unwrap()).unwrap()
    &&& gs.start_player_color == color_of_name(
        attr_lookup(n.attributes@, "startPlayerColor"@).unwrap(),
    ).unwrap()
    &&& gs.current_player_color == color_of_name(
        attr_lookup(n.attributes@, "currentPlayerColor"@).unwrap(),
    ).unwrap()
    &&& gs.red_player.color == spec_player_of_node(
        child_lookup(n.childs@, "red"@).unwrap(),
    ).unwrap().0
    &&& gs.red_player.display_name@ == spec_player_of_node(
        child_lookup(n.childs@, "red"@).unwrap(),
    ).unwrap().1
    &&& gs.blue_player.color == spec_player_of_node(
        child_lookup(n.childs@, "blue"@).unwrap(),
    ).unwrap().0
    &&& gs.blue_player.display_name@ == spec_player_of_node(
        child_lookup(n.childs@, "blue"@).unwrap(),
    ).unwrap().1
    &&& gs.undeployed_red_pieces@ == spec_pool_of_node(
        child_lookup(n.childs@, "undeployedRedPieces"@).unwrap(),
    ).unwrap()
    &&& gs.undeployed_blue_pieces@ == spec_pool_of_node(
        child_lookup(n.childs@, "undeployedBluePieces"@).unwrap(),
    ).unwrap()
    &&& spec_board_matches(gs.board@, child_lookup(n.childs@, "board"@).unwrap())
}

impl GameState {
    /// Parses a game state from a state node: the turn, the colors,
    /// both players, the board (padded to the standard radius) and both
    /// undeployed pools.
    pub fn from_node(node: &XmlNode) -> (r: SCResult<GameState>)
        ensures
            r is Ok <==> spec_game_state_parses(*node),
            r is Ok ==> spec_state_matches(r.unwrap(), *node),
    {
        let turn_raw = match node.attribute("turn") {
            Ok(v) => v,
            Err(e) => {
                return Err(e);
            },
        };
        let turn = match crate::util::text::parse_u32(turn_raw) {
            Some(v) => v,
            None => {
                return Err(SCError::MalformedNumber(turn_raw.to_owned()));
            },
        };
        let start_raw = match node.attribute("startPlayerColor") {
            Ok(v) => v,
            Err(e) => {
                return Err(e);
            },
        };
        let start_player_color = match PlayerColor::from_str(start_raw) {
            Ok(c) => c,
            Err(e) => {
                return Err(e);
            },
        };
        let current_raw = match node.attribute("currentPlayerColor") {
            Ok(v) => v,
            Err(e) => {
                return Err(e);
            },
        };
        let current_player_color = match PlayerColor::from_str(current_raw) {
            Ok(c) => c,
            Err(e) => {
                return Err(e);
            },
        };
        let red_node = match node.child_by_name("red") {
            Ok(n) => n,
            Err(e) => {
                return Err(e);
            },
        };
        let red_player = match Player::from_node(red_node) {
            Ok(p) => p,
            Err(e) => {
                return Err(e);
            },
        };
        let blue_node = match node.child_by_name("blue") {
            Ok(n) => n,
            Err(e) => {
                return Err(e);
            },
        };
        let blue_player = match Player::from_node(blue_node) {
            Ok(p) => p,
            Err(e) => {
                return Err(e);
            },
        };
        let board_node = match node.child_by_name("board") {
            Ok(n) => n,
            Err(e) => {
                return Err(e);
            },
        };
        let board = match Board::from_node(board_node) {
            Ok(b) => b,
            Err(e) => {
                return Err(e);
            },
        };
        let red_pool_node = match node.child_by_name("undeployedRedPieces") {
            Ok(n) => n,
            Err(e) => {
                return Err(e);
            },
        };
        let red_piece_nodes = red_pool_node.childs_by_name("piece");
        let ghost red_src = childs_named(red_pool_node.childs@, "piece"@);
        let undeployed_red_pieces = match crate::game::field::parse_piece_nodes(
            &red_piece_nodes,
            Ghost(red_src),
        ) {
            Ok(v) => v,
            Err(e) => {
                return Err(e);
            },
        };
        let blue_pool_node = match node.child_by_name("undeployedBluePieces") {
            Ok(n) => n,
            Err(e) => {
                return Err(e);
            },
        };
        let blue_piece_nodes = blue_pool_node.childs_by_name("piece");
        let ghost blue_src = childs_named(blue_pool_node.childs@, "piece"@);
        let undeployed_blue_pieces = match crate::game::field::parse_piece_nodes(
            &blue_piece_nodes,
            Ghost(blue_src),
        ) {
            Ok(v) => v,
            Err(e) => {
                return Err(e);
            },
        };
        Ok(
            GameState {
                turn,
                start_player_color,
                current_player_color,
                board,
                red_player,
                blue_player,
                undeployed_red_pieces,
                undeployed_blue_pieces,
            },
        )
    }
}

impl FromXmlNode for GameState {
    fn from_node(node: &XmlNode) -> SCResult<Self> {
        GameState::from_node(node)
    }
}


} // verus!
