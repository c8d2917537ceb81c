use socha_client_2020::game::AxialCoords;
use socha_client_2020::game::Board;
use socha_client_2020::game::Field;
use socha_client_2020::game::GameState;
use socha_client_2020::game::Move;
use socha_client_2020::game::Piece;
use socha_client_2020::game::PieceType;
use socha_client_2020::game::Player;
use socha_client_2020::game::PlayerColor;
use socha_client_2020::game::PositionedField;
use socha_client_2020::game::constants::initial_pieces;
use socha_client_2020::util::SCError;
use socha_client_2020::util::ValidationReason;
use socha_client_2020::util::XmlNode;
use socha_client_2020::util::text::i32_to_string;
use socha_client_2020::util::text::parse_bool;
use socha_client_2020::util::text::parse_i32;
use socha_client_2020::util::text::parse_u32;
use socha_client_2020::client::DebugMode;
use socha_client_2020::client::Reaction;
use socha_client_2020::client::SCClient;
use socha_client_2020::client::SCClientDelegate;
use socha_client_2020::protocol::GameResult;

struct Quiet;

impl SCClientDelegate for Quiet {
    fn on_update_state(&mut self, _state: &GameState) {}
    fn on_game_end(&mut self, _result: GameResult) {}
    fn on_welcome_message(&mut self, _color: &PlayerColor) {}
    fn request_move(&mut self, state: &GameState, my_color: PlayerColor) -> Option<Move> {
        state.possible_moves(my_color).into_iter().next()
    }
}

fn piece(color: PlayerColor, piece_type: PieceType) -> Piece {
    Piece { owner: color, piece_type }
}

fn single(color: PlayerColor, piece_type: PieceType) -> Field {
    Field::new(vec![piece(color, piece_type)], false)
}

fn state_with(board: Board, turn: u32, red_pool: Vec<Piece>, blue_pool: Vec<Piece>) -> GameState {
    GameState {
        turn,
        start_player_color: PlayerColor::Red,
        current_player_color: PlayerColor::Red,
        board,
        red_player: Player { color: PlayerColor::Red, display_name: String::from("red") },
        blue_player: Player { color: PlayerColor::Blue, display_name: String::from("blue") },
        undeployed_red_pieces: red_pool,
        undeployed_blue_pieces: blue_pool,
    }
}

#[test]
fn first_turn_moves_are_all_set_moves() {
    // a radius-2 board has 7 empty cells; with both pools full every
    // empty cell accepts each of the 5 distinct pieces, and there are
    // no drag moves at all
    let gs = state_with(
        Board::filling_radius(2, Vec::new()),
        0,
        initial_pieces(PlayerColor::Red),
        initial_pieces(PlayerColor::Blue),
    );
    let moves = gs.possible_moves(PlayerColor::Red);
    assert_eq!(moves.len(), 35);
    for mv in &moves {
        assert!(matches!(mv, Move::SetMove { .. }));
    }
}

#[test]
fn disconnecting_drag_is_rejected() {
    // three pieces in a row; dragging the middle bee would split the
    // swarm, even though the slide itself would be legal
    let board = Board::filling_radius(
        4,
        vec![
            (AxialCoords::new(0, 0), single(PlayerColor::Red, PieceType::Bee)),
            (AxialCoords::new(1, 0), single(PlayerColor::Blue, PieceType::Bee)),
            (AxialCoords::new(2, 0), single(PlayerColor::Red, PieceType::Ant)),
        ],
    );
    let start = AxialCoords::new(1, 0);
    let dest = AxialCoords::new(1, 1);
    let gs = state_with(board.clone(), 6, Vec::new(), Vec::new());
    let mv = Move::DragMove {
        start: PositionedField { coords: start, field: board.field(start).unwrap().clone() },
        destination: PositionedField { coords: dest, field: board.field(dest).unwrap().clone() },
    };
    let verdict = gs.validate_move(PlayerColor::Blue, &mv);
    assert_eq!(
        verdict,
        Err(SCError::Validation(ValidationReason::WouldDisconnectSwarm))
    );
}

#[test]
fn grasshopper_rules() {
    // a grasshopper at the end of a chain: jumping over the chain is
    // fine, hopping to a neighbor or over an empty cell is not
    let board = Board::filling_radius(
        4,
        vec![
            (AxialCoords::new(0, 0), single(PlayerColor::Red, PieceType::Bee)),
            (AxialCoords::new(1, 0), single(PlayerColor::Blue, PieceType::Bee)),
            (AxialCoords::new(2, 0), single(PlayerColor::Red, PieceType::Grasshopper)),
        ],
    );
    let start = AxialCoords::new(2, 0);
    let gs = state_with(board.clone(), 6, Vec::new(), Vec::new());
    let drag = |dest: AxialCoords| Move::DragMove {
        start: PositionedField { coords: start, field: board.field(start).unwrap().clone() },
        destination: PositionedField { coords: dest, field: board.field(dest).unwrap().clone() },
    };
    // over the unbroken chain: lands just past it
    assert_eq!(gs.validate_move(PlayerColor::Red, &drag(AxialCoords::new(-1, 0))), Ok(()));
    // adjacent destination is rejected outright
    assert_eq!(
        gs.validate_move(PlayerColor::Red, &drag(AxialCoords::new(3, 0))),
        Err(SCError::Validation(ValidationReason::GrasshopperMustJump))
    );
    // an empty intervening cell breaks the jump
    assert_eq!(
        gs.validate_move(PlayerColor::Red, &drag(AxialCoords::new(2, -2))),
        Err(SCError::Validation(ValidationReason::GrasshopperOverEmpty))
    );
    // off the line entirely
    assert_eq!(
        gs.validate_move(PlayerColor::Red, &drag(AxialCoords::new(0, 1))),
        Err(SCError::Validation(ValidationReason::GrasshopperNeedsLine))
    );
}

#[test]
fn set_move_rules() {
    let board = Board::filling_radius(
        4,
        vec![
            (AxialCoords::new(0, 0), single(PlayerColor::Red, PieceType::Bee)),
            (AxialCoords::new(1, 0), single(PlayerColor::Blue, PieceType::Bee)),
        ],
    );
    let gs = state_with(board.clone(), 2, initial_pieces(PlayerColor::Red), Vec::new());
    let set = |p: Piece, dest: AxialCoords| Move::SetMove {
        piece: p,
        destination: PositionedField {
            coords: dest,
            field: board.field(dest).unwrap().clone(),
        },
    };
    // next to an own piece only: fine
    assert_eq!(
        gs.validate_move(PlayerColor::Red, &set(piece(PlayerColor::Red, PieceType::Ant), AxialCoords::new(-1, 0))),
        Ok(())
    );
    // touching the opponent's swarm is forbidden
    assert_eq!(
        gs.validate_move(PlayerColor::Red, &set(piece(PlayerColor::Red, PieceType::Ant), AxialCoords::new(1, -1))),
        Err(SCError::Validation(ValidationReason::MustNotTouchOpponentSwarm))
    );
    // away from the own swarm is forbidden
    assert_eq!(
        gs.validate_move(PlayerColor::Red, &set(piece(PlayerColor::Red, PieceType::Ant), AxialCoords::new(-3, 0))),
        Err(SCError::Validation(ValidationReason::MustTouchOwnSwarm))
    );
    // a piece that is not in the pool cannot be set
    let gs_empty_pool = state_with(board.clone(), 2, Vec::new(), Vec::new());
    assert_eq!(
        gs_empty_pool.validate_move(PlayerColor::Red, &set(piece(PlayerColor::Red, PieceType::Ant), AxialCoords::new(-1, 0))),
        Err(SCError::Validation(ValidationReason::PieceNotUndeployed))
    );
    // out of bounds
    assert_eq!(
        gs.validate_move(PlayerColor::Red, &Move::SetMove {
            piece: piece(PlayerColor::Red, PieceType::Ant),
            destination: PositionedField { coords: AxialCoords::new(9, 9), field: Field::new(Vec::new(), false) },
        }),
        Err(SCError::Validation(ValidationReason::DestinationOutOfBounds))
    );
}

#[test]
fn bee_deadline_enforced() {
    let board = Board::filling_radius(
        4,
        vec![
            (AxialCoords::new(0, 0), single(PlayerColor::Red, PieceType::Ant)),
            (AxialCoords::new(1, 0), single(PlayerColor::Blue, PieceType::Bee)),
        ],
    );
    // round 3, bee not yet placed: only the bee may be set
    let gs = state_with(board.clone(), 6, initial_pieces(PlayerColor::Red), Vec::new());
    let set = |p: Piece, dest: AxialCoords| Move::SetMove {
        piece: p,
        destination: PositionedField {
            coords: dest,
            field: board.field(dest).unwrap().clone(),
        },
    };
    assert_eq!(
        gs.validate_move(PlayerColor::Red, &set(piece(PlayerColor::Red, PieceType::Ant), AxialCoords::new(-1, 0))),
        Err(SCError::Validation(ValidationReason::BeeDeadline))
    );
    assert_eq!(
        gs.validate_move(PlayerColor::Red, &set(piece(PlayerColor::Red, PieceType::Bee), AxialCoords::new(-1, 0))),
        Ok(())
    );
}

#[test]
fn parse_state_from_node() {
    let attr = |k: &str, v: &str| (k.to_string(), v.to_string());
    let piece_node = |owner: &str, ty: &str| XmlNode {
        name: "piece".to_string(),
        content: String::new(),
        attributes: vec![attr("owner", owner), attr("type", ty)],
        childs: Vec::new(),
    };
    let field_node = |x: &str, y: &str, z: &str, pieces: Vec<XmlNode>| XmlNode {
        name: "field".to_string(),
        content: String::new(),
        attributes: vec![
            attr("x", x),
            attr("y", y),
            attr("z", z),
            attr("isObstructed", "false"),
        ],
        childs: pieces,
    };
    let state_node = XmlNode {
        name: "state".to_string(),
        content: String::new(),
        attributes: vec![
            attr("turn", "3"),
            attr("startPlayerColor", "RED"),
            attr("currentPlayerColor", "BLUE"),
        ],
        childs: vec![
            XmlNode {
                name: "red".to_string(),
                content: String::new(),
                attributes: vec![attr("color", "RED"), attr("displayName", "ferris")],
                childs: Vec::new(),
            },
            XmlNode {
                name: "blue".to_string(),
                content: String::new(),
                attributes: vec![attr("color", "BLUE"), attr("displayName", "crab")],
                childs: Vec::new(),
            },
            XmlNode {
                name: "board".to_string(),
                content: String::new(),
                attributes: Vec::new(),
                childs: vec![XmlNode {
                    name: "fields".to_string(),
                    content: String::new(),
                    attributes: Vec::new(),
                    childs: vec![field_node("1", "-1", "0", vec![piece_node("RED", "BEE")])],
                }],
            },
            XmlNode {
                name: "undeployedRedPieces".to_string(),
                content: String::new(),
                attributes: Vec::new(),
                childs: vec![piece_node("RED", "ANT")],
            },
            XmlNode {
                name: "undeployedBluePieces".to_string(),
                content: String::new(),
                attributes: Vec::new(),
                childs: Vec::new(),
            },
        ],
    };
    let gs = GameState::from_node(&state_node).expect("state should parse");
    assert_eq!(gs.turn, 3);
    assert_eq!(gs.start_player_color, PlayerColor::Red);
    assert_eq!(gs.current_player_color, PlayerColor::Blue);
    assert_eq!(gs.red_player.display_name, "ferris");
    assert_eq!(gs.undeployed_red_pieces, vec![piece(PlayerColor::Red, PieceType::Ant)]);
    assert!(gs.undeployed_blue_pieces.is_empty());
    // the standard radius pads the board to 91 cells
    assert_eq!(gs.board.fields().len(), 91);
    let placed = gs.board.field(AxialCoords::new(1, -1)).unwrap();
    assert_eq!(placed.piece(), Some(piece(PlayerColor::Red, PieceType::Bee)));
    assert!(gs.board.has_placed_bee(PlayerColor::Red));
}

#[test]
fn parse_errors_are_distinguished() {
    let node = XmlNode {
        name: "piece".to_string(),
        content: String::new(),
        attributes: vec![
            ("owner".to_string(), "GREEN".to_string()),
            ("type".to_string(), "BEE".to_string()),
        ],
        childs: Vec::new(),
    };
    // a missing attribute names its key
    assert_eq!(
        XmlNode {
            name: "piece".to_string(),
            content: String::new(),
            attributes: Vec::new(),
            childs: Vec::new(),
        }
        .attribute("owner"),
        Err(SCError::MissingAttribute("owner".to_string()))
    );
    // an unrecognized literal names itself
    assert_eq!(
        Piece::from_node(&node),
        Err(SCError::UnrecognizedLiteral("GREEN".to_string()))
    );
    // a malformed number
    let field = XmlNode {
        name: "field".to_string(),
        content: String::new(),
        attributes: vec![
            ("x".to_string(), "one".to_string()),
            ("y".to_string(), "0".to_string()),
            ("z".to_string(), "0".to_string()),
            ("isObstructed".to_string(), "false".to_string()),
        ],
        childs: Vec::new(),
    };
    let board_node = XmlNode {
        name: "board".to_string(),
        content: String::new(),
        attributes: Vec::new(),
        childs: vec![XmlNode {
            name: "fields".to_string(),
            content: String::new(),
            attributes: Vec::new(),
            childs: vec![field],
        }],
    };
    assert_eq!(
        Board::from_node(&board_node).unwrap_err(),
        SCError::MalformedNumber("one".to_string())
    );
    // a malformed boolean
    let bad_bool = XmlNode {
        name: "field".to_string(),
        content: String::new(),
        attributes: vec![("isObstructed".to_string(), "maybe".to_string())],
        childs: Vec::new(),
    };
    assert_eq!(
        Field::from_node(&bad_bool).unwrap_err(),
        SCError::MalformedBool("maybe".to_string())
    );
}

#[test]
fn move_serialization_shape() {
    let mv = Move::SetMove {
        piece: piece(PlayerColor::Red, PieceType::Bee),
        destination: PositionedField {
            coords: AxialCoords::new(1, -2),
            field: Field::new(Vec::new(), false),
        },
    };
    let node = mv.to_xml();
    assert_eq!(node.name, "data");
    assert_eq!(node.attributes, vec![("class".to_string(), "setmove".to_string())]);
    assert_eq!(node.childs.len(), 2);
    assert_eq!(node.childs[0].name, "piece");
    assert_eq!(
        node.childs[0].attributes,
        vec![
            ("owner".to_string(), "RED".to_string()),
            ("type".to_string(), "BEE".to_string()),
        ]
    );
    let dest = &node.childs[1];
    assert_eq!(dest.name, "destination");
    assert_eq!(
        dest.attributes,
        vec![
            ("class".to_string(), "field".to_string()),
            ("x".to_string(), "1".to_string()),
            ("y".to_string(), "-2".to_string()),
            ("z".to_string(), "1".to_string()),
            ("isObstructed".to_string(), "false".to_string()),
        ]
    );
}

#[test]
fn text_parsing_edges() {
    assert_eq!(parse_i32("-2147483648"), Some(i32::MIN));
    assert_eq!(parse_i32("2147483647"), Some(i32::MAX));
    assert_eq!(parse_i32("2147483648"), None);
    assert_eq!(parse_i32("+17"), Some(17));
    assert_eq!(parse_i32(""), None);
    assert_eq!(parse_i32("1x"), None);
    assert_eq!(parse_u32("4294967295"), Some(u32::MAX));
    assert_eq!(parse_u32("-1"), None);
    assert_eq!(parse_bool("true"), Some(true));
    assert_eq!(parse_bool("false"), Some(false));
    assert_eq!(parse_bool("True"), None);
    assert_eq!(i32_to_string(-120), "-120");
    assert_eq!(i32_to_string(0), "0");
    assert_eq!(i32_to_string(2147483647), "2147483647");
}

#[test]
fn close_message_ends_the_loop() {
    let mut client = SCClient::new(Quiet, DebugMode { debug_reader: false, debug_writer: false });
    let close = XmlNode {
        name: "close".to_string(),
        content: String::new(),
        attributes: Vec::new(),
        childs: Vec::new(),
    };
    assert!(matches!(client.process_message(&close), Reaction::Close));
}

#[test]
fn obstructed_cells_count_as_occupied() {
    // slide contact: the only piece-less contact the slide has is an
    // obstructed cell, which counts as occupied
    let board = Board::filling_radius(
        4,
        vec![
            (AxialCoords::new(0, 0), single(PlayerColor::Red, PieceType::Bee)),
            (AxialCoords::new(0, 1), Field::new(Vec::new(), true)),
        ],
    );
    assert!(board.can_move_between(AxialCoords::new(0, 0), AxialCoords::new(1, 0)));
    // climb gate: an obstructed, piece-less destination is occupied, so
    // only a beetle may move onto it
    let board2 = Board::filling_radius(
        4,
        vec![
            (AxialCoords::new(0, 0), single(PlayerColor::Red, PieceType::Bee)),
            (AxialCoords::new(1, 0), single(PlayerColor::Blue, PieceType::Bee)),
            (AxialCoords::new(0, 1), Field::new(Vec::new(), true)),
        ],
    );
    let gs = state_with(board2.clone(), 6, Vec::new(), Vec::new());
    let mv = Move::DragMove {
        start: PositionedField {
            coords: AxialCoords::new(0, 0),
            field: board2.field(AxialCoords::new(0, 0)).unwrap().clone(),
        },
        destination: PositionedField {
            coords: AxialCoords::new(0, 1),
            field: board2.field(AxialCoords::new(0, 1)).unwrap().clone(),
        },
    };
    assert_eq!(
        gs.validate_move(PlayerColor::Red, &mv),
        Err(SCError::Validation(ValidationReason::OnlyBeetlesClimb))
    );
}
