//! The decision core of a game client: it dispatches one parsed server
//! message at a time, keeps the latest game state, asks its delegate
//! for moves, and tells the surrounding I/O loop what to do next. The
//! network transport itself stays outside this crate.

use vstd::prelude::*;

use crate::game::game_move::Move;
use crate::game::game_move::is_move_node;
use crate::game::game_state::GameState;
use crate::game::player_color::PlayerColor;
use crate::protocol::data::Data;
use crate::protocol::game_result::GameResult;
use crate::protocol::room::Room;
use crate::game::game_state::spec_state_matches;
use crate::protocol::data::spec_data_matches;
use crate::protocol::room::spec_room_parses;
use crate::util::text::str_eq;
use crate::util::xml_node::XmlNode;
use crate::util::xml_node::attr_lookup;
use crate::util::xml_node::child_lookup;

verus! {

/// Whether the node is a parsing room message whose data child carries
/// the given `class` attribute.
pub open spec fn spec_room_message_with_class(node: XmlNode, class: Seq<char>) -> bool {
    &&& node.name@ == "room"@
    &&& spec_room_parses(node)
    &&& attr_lookup(
        child_lookup(node.childs@, "data"@).unwrap().attributes@,
        "class"@,
    ) == Some(class)
}

/// A handler that implements the game player's behavior, usually
/// employing some custom move selection strategy.
pub trait SCClientDelegate {
    /// Invoked whenever the game state updates.
    fn on_update_state(&mut self, state: &GameState);

    /// Invoked when the game ends.
    fn on_game_end(&mut self, result: GameResult);

    /// Invoked when the welcome message is received with the player's
    /// color.
    fn on_welcome_message(&mut self, color: &PlayerColor);

    /// Requests a move from the delegate: the "main" game logic. A
    /// returned move must name coordinates whose cube form fits the
    /// wire format.
    fn request_move(&mut self, state: &GameState, my_color: PlayerColor) -> (r: Option<Move>)
        ensures
            r is Some ==> match r.unwrap() {
                Move::SetMove { destination, .. } => i32::MIN <= -(destination.coords.x
                    + destination.coords.y) <= i32::MAX,
                Move::DragMove { start, destination } => i32::MIN <= -(start.coords.x
                    + start.coords.y) <= i32::MAX && i32::MIN <= -(destination.coords.x
                    + destination.coords.y) <= i32::MAX,
            },
    ;
}

/// A configuration that determines whether the reader and/or the
/// writer of a stream should be swapped by standard I/O to ease
/// debugging.
#[derive(Debug, Copy, Clone, PartialEq, Eq, Structural)]
pub struct DebugMode {
    pub debug_reader: bool,
    pub debug_writer: bool,
}

/// What the surrounding I/O loop should do after one message was
/// dispatched: send a reply, close the connection, or read on.
#[derive(Debug)]
pub enum Reaction {
    Reply(XmlNode),
    Close,
    Proceed,
}

/// The client which handles parsed messages, manages the game state
/// and invokes the delegate.
pub struct SCClient<D: SCClientDelegate> {
    pub delegate: D,
    pub debug_mode: DebugMode,
    pub game_state: Option<GameState>,
}

impl<D: SCClientDelegate> SCClient<D> {
    /// Creates a new client using the given delegate.
    pub fn new(delegate: D, debug_mode: DebugMode) -> (r: Self)
        ensures
            r.debug_mode == debug_mode,
            r.game_state is None,
    {
        Self { delegate, debug_mode, game_state: None }
    }

    /// Dispatches one parsed message: room data drives the delegate and
    /// may produce a reply, a join or leave notice is acknowledged, and
    /// a close request ends the loop.
    pub fn process_message(&mut self, node: &XmlNode) -> (r: Reaction)
        ensures
            node.name@ == "close"@ || node.name@ == "sc.protocol.responses.CloseConnection"@
                ==> r is Close,
            spec_room_message_with_class(*node, "memento"@) ==> final(self).game_state is Some
                && spec_state_matches(
                final(self).game_state.unwrap(),
                child_lookup(
                    child_lookup(node.childs@, "data"@).unwrap().childs@,
                    "state"@,
                ).unwrap(),
            ),
            r matches Reaction::Reply(reply) ==> {
                &&& reply.name@ == "room"@
                &&& reply.childs@.len() == 1
                &&& exists|mv: Move| is_move_node(#[trigger] reply.childs@[0], mv)
                &&& old(self).game_state is Some
                &&& spec_room_message_with_class(
                    *node,
                    "sc.framework.plugins.protocol.MoveRequest"@,
                )
            },
    {
        proof {
            reveal_strlit("room");
            reveal_strlit("joined");
            reveal_strlit("left");
            reveal_strlit("close");
            reveal_strlit("sc.protocol.responses.CloseConnection");
            assert("room"@.len() == 4);
            assert("joined"@.len() == 6);
            assert("left"@.len() == 4);
            assert("close"@.len() == 5);
            assert("sc.protocol.responses.CloseConnection"@.len() == 37);
            assert("room"@[0] == 'r' && "left"@[0] == 'l' && "close"@[0] == 'c');
            reveal_strlit("welcomeMessage");
            reveal_strlit("memento");
            reveal_strlit("sc.framework.plugins.protocol.MoveRequest");
            reveal_strlit("result");
            reveal_strlit("error");
            assert("welcomeMessage"@.len() == 14);
            assert("memento"@.len() == 7);
            assert("sc.framework.plugins.protocol.MoveRequest"@.len() == 41);
            assert("result"@.len() == 6);
            assert("error"@.len() == 5);
        }
        let name = node.name();
        if str_eq(name, "close") || str_eq(name, "sc.protocol.responses.CloseConnection") {
            return Reaction::Close;
        }
        if str_eq(name, "room") {
            match Room::from_node(node) {
                Ok(room) => {
                    match room.data {
                        Data::WelcomeMessage { color } => {
                            self.delegate.on_welcome_message(&color);
                            Reaction::Proceed
                        },
                        Data::Memento { state } => {
                            self.delegate.on_update_state(&state);
                            self.game_state = Some(state);
                            Reaction::Proceed
                        },
                        Data::MoveRequest => {
                            match &self.game_state {
                                Some(state) => {
                                    let color = state.current_player_color;
                                    match self.delegate.request_move(state, color) {
                                        Some(new_move) => {
                                            let reply = Room {
                                                room_id: room.room_id,
                                                data: Data::Move(new_move),
                                            };
                                            match reply.to_xml() {
                                                Ok(reply_node) => Reaction::Reply(reply_node),
                                                Err(_) => Reaction::Proceed,
                                            }
                                        },
                                        None => Reaction::Proceed,
                                    }
                                },
                                None => Reaction::Proceed,
                            }
                        },
                        Data::GameResult(result) => {
                            self.delegate.on_game_end(result);
                            Reaction::Proceed
                        },
                        Data::Error { message: _ } => Reaction::Proceed,
                        Data::Move(_) => Reaction::Proceed,
                    }
                },
                Err(_) => Reaction::Proceed,
            }
        } else {
            Reaction::Proceed
        }
    }
}

} // verus!
