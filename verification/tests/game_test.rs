use std::collections::HashSet;

use socha_client_2020::game::AxialCoords;
use socha_client_2020::game::Board;
use socha_client_2020::game::CubeCoords;
use socha_client_2020::game::Field;
use socha_client_2020::game::Piece;
use socha_client_2020::game::PieceType;
use socha_client_2020::game::PlayerColor;
use socha_client_2020::game::BOARD_RADIUS;
use socha_client_2020::game::FIELD_COUNT;

#[test]
pub fn test_empty_ascii_hex_grid() {
    let ascii_hex = r#"    /\  /\    
   /  \/  \   
   |   |   |  
  /\  /\  /\  
 /  \/  \/  \ 
 |   |   |   |
 \  /\  /\  / 
  \/  \/  \/  
   |   |   |  
   \  /\  /   
    \/  \/    "#;
    let board = Board::from_ascii_hex_grid(ascii_hex).expect("Board could not be converted");
    assert_eq!(board.fields().len(), 7);
    assert!(!board.has_pieces());
}

#[test]
pub fn test_filled_ascii_hex_grid() {
    let ascii_hex = r#"    /\  /\  /\
   /  \/  \ / \
   |   |   |   | 
  /\  /\  /\  /\
 /  \/  \/  \/  \
 |   |RB |BA |BA |
 \  /\  /\  /\  /
  \/  \/  \/  \/
   |   |RG |   |
  /\  /\  /\  /\
 /  \/  \/  \/  \
 |   |   |   |   |
 \  /\  /\  /\  /
  \/  \/  \/  \/
   |   |   |   | 
   \  /\  /\  /
    \/  \/  \/"#;
    let board = Board::from_ascii_hex_grid(ascii_hex).expect("Board could not be converted");
    assert_eq!(board.fields().len(), 17);
    assert!(board.has_pieces());
    let red: HashSet<(AxialCoords, Field)> = board
        .fields_owned_by(PlayerColor::Red)
        .into_iter()
        .collect();
    let red_expected: HashSet<(AxialCoords, Field)> = vec![
        (
            AxialCoords::new(0, 0),
            Field::new(
                vec![Piece { piece_type: PieceType::Grasshopper, owner: PlayerColor::Red }],
                false,
            ),
        ),
        (
            AxialCoords::new(0, 1),
            Field::new(
                vec![Piece { piece_type: PieceType::Bee, owner: PlayerColor::Red }],
                false,
            ),
        ),
    ]
    .into_iter()
    .collect();
    assert_eq!(red, red_expected);
    let blue: HashSet<(AxialCoords, Field)> = board
        .fields_owned_by(PlayerColor::Blue)
        .into_iter()
        .collect();
    let blue_expected: HashSet<(AxialCoords, Field)> = vec![
        (
            AxialCoords::new(1, 0),
            Field::new(
                vec![Piece { piece_type: PieceType::Ant, owner: PlayerColor::Blue }],
                false,
            ),
        ),
        (
            AxialCoords::new(2, -1),
            Field::new(
                vec![Piece { piece_type: PieceType::Ant, owner: PlayerColor::Blue }],
                false,
            ),
        ),
    ]
    .into_iter()
    .collect();
    assert_eq!(blue, blue_expected);
}

#[test]
fn test_filling_radius() {
    let board = Board::filling_radius(BOARD_RADIUS, Vec::new());
    assert_eq!(board.fields().len(), FIELD_COUNT);
    for (c, _) in board.fields() {
        let cube = c.to_cube();
        assert_eq!(cube.x() + cube.y() + cube.z(), 0);
    }
}

#[test]
fn fields_and_neighbors() {
    let board = Board::filling_radius(2, Vec::new());
    let origin = AxialCoords::new(0, 0);
    let actual: HashSet<AxialCoords> = board.fields().into_iter().map(|(c, _)| c).collect();
    let mut expected: HashSet<AxialCoords> = HashSet::new();
    expected.insert(origin);
    for n in origin.coord_neighbors() {
        expected.insert(n);
    }
    assert_eq!(actual, expected);
}

#[test]
fn neighbors_in_bounds() {
    let board = Board::filling_radius(BOARD_RADIUS, Vec::new());
    let radius = BOARD_RADIUS as i32;
    for (c, _) in board.fields() {
        for (n, _) in board.neighbors(c) {
            let cube: CubeCoords = n.to_cube();
            assert!(cube.x().abs() < radius);
            assert!(cube.y().abs() < radius);
            assert!(cube.z().abs() < radius);
        }
    }
}

#[test]
fn coord_neighbors_in_order() {
    let c = AxialCoords::new(2, -1);
    let ns: Vec<AxialCoords> = c.coord_neighbors().into_iter().collect();
    assert_eq!(
        ns,
        vec![
            AxialCoords::new(2, 0),
            AxialCoords::new(3, -1),
            AxialCoords::new(3, -2),
            AxialCoords::new(2, -2),
            AxialCoords::new(1, -1),
            AxialCoords::new(1, 0),
        ]
    );
}

#[test]
fn hex_cell_counts_by_radius() {
    assert_eq!(Board::filling_radius(1, Vec::new()).fields().len(), 1);
    assert_eq!(Board::filling_radius(2, Vec::new()).fields().len(), 7);
    assert_eq!(Board::filling_radius(3, Vec::new()).fields().len(), 19);
    assert_eq!(Board::filling_radius(6, Vec::new()).fields().len(), 91);
    assert_eq!(Board::filling_radius(0, Vec::new()).fields().len(), 0);
}

#[test]
fn swarm_connectivity() {
    // an empty board is connected
    let empty = Board::filling_radius(3, Vec::new());
    assert!(empty.is_swarm_connected());
    // two occupied cells with no occupied path between them are not
    let bee = |color| Piece { owner: color, piece_type: PieceType::Bee };
    let split = Board::filling_radius(
        3,
        vec![
            (AxialCoords::new(0, 0), Field::new(vec![bee(PlayerColor::Red)], false)),
            (AxialCoords::new(2, 0), Field::new(vec![bee(PlayerColor::Blue)], false)),
        ],
    );
    assert!(!split.is_swarm_connected());
    // an adjacent pair is connected
    let joined = Board::filling_radius(
        3,
        vec![
            (AxialCoords::new(0, 0), Field::new(vec![bee(PlayerColor::Red)], false)),
            (AxialCoords::new(1, 0), Field::new(vec![bee(PlayerColor::Blue)], false)),
        ],
    );
    assert!(joined.is_swarm_connected());
}

#[test]
fn set_move_destinations_are_unique() {
    let bee = |color| Piece { owner: color, piece_type: PieceType::Bee };
    let ant = |color| Piece { owner: color, piece_type: PieceType::Ant };
    // two red pieces share empty neighbors; each destination must be
    // listed exactly once
    let board = Board::filling_radius(
        4,
        vec![
            (AxialCoords::new(0, 0), Field::new(vec![bee(PlayerColor::Red)], false)),
            (AxialCoords::new(1, 0), Field::new(vec![ant(PlayerColor::Red)], false)),
        ],
    );
    let dests = board.possible_set_move_destinations(PlayerColor::Red);
    let as_set: HashSet<AxialCoords> = dests.iter().cloned().collect();
    assert_eq!(dests.len(), as_set.len());
    assert_eq!(dests.len(), 8);
}

#[test]
fn board_display() {
    let board = Board::filling_radius(4, Vec::new());
    assert_eq!(board.display_string().unwrap(), r#"000000[][][][]
0000[][][][][]
00[][][][][][]
[][][][][][][]
[][][][][][]00
[][][][][]0000
[][][][]000000
"#.to_owned());
}
