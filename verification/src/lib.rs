//! Rules engine for a two-player hexagonal-grid board game in the Hive
//! family, written for the Software-Challenge 2020 wire protocol.
//!
//! The crate is organised leaf-to-root:
//! - [`game`] holds the coordinate geometry, the board with its
//!   connectivity algorithms, and the move validation / enumeration rules;
//! - [`util`] holds the error taxonomy and an in-memory XML tree;
//! - [`protocol`] holds the messages exchanged with a game server;
//! - [`client`] holds the message-dispatch state machine of a client.
//!
//! All of it is verified with Verus: every public function carries a
//! contract, and the global game laws (coordinate round trips, board cell
//! counts, swarm connectivity) are proved as lemmas next to the code.

pub mod client;
pub mod game;
pub mod protocol;
pub mod util;
