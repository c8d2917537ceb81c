//! The game structures: coordinates, pieces, fields, the board and the
//! per-turn game state with its movement rules.

pub mod board;
pub mod constants;
pub mod coords;
pub mod field;
pub mod game_move;
pub mod game_state;
pub mod piece;
pub mod positioned_field;
pub mod piece_type;
pub mod player;
pub mod player_color;

pub use board::Board;
pub use board::BoardMap;
pub use coords::Adjacentable;
pub use coords::AxialCoords;
pub use coords::CubeCoords;
pub use coords::DoubledCoords;
pub use coords::LineFormable;
pub use coords::LineIter;
pub use constants::BOARD_RADIUS;
pub use constants::FIELD_COUNT;
pub use constants::INITIAL_PIECE_COUNT;
pub use constants::ROUND_LIMIT;
pub use field::Field;
pub use field::FieldV;
pub use game_move::Move;
pub use game_state::GameState;
pub use piece::Piece;
pub use positioned_field::PositionedField;
pub use piece_type::PieceType;
pub use player::Player;
pub use player_color::PlayerColor;
