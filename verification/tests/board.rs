use guards::board::{
    Board, BoardError, BoardSquareCoords, ParsePointError, Square, SquareEdge, SquareOccupant,
    WallSet,
};
use guards::game::Team;
use std::str::FromStr;

const OPEN_MAP: &str =
    "0000000\n0000000\n0000000\n0000000\n0000000\n0000000\n0000000\n0000000\n0000000\n";

fn occupant_at(board: &Board, x: u32, y: u32) -> SquareOccupant {
    board.get(BoardSquareCoords(x, y)).unwrap().occupant
}

#[test]
fn opposite_edges_pair_up() {
    assert_eq!(SquareEdge::North.get_opposite(), SquareEdge::South);
    assert_eq!(SquareEdge::South.get_opposite(), SquareEdge::North);
    assert_eq!(SquareEdge::East.get_opposite(), SquareEdge::West);
    assert_eq!(SquareEdge::West.get_opposite(), SquareEdge::East);
}

#[test]
fn opposite_is_an_involution() {
    for edge in [SquareEdge::North, SquareEdge::East, SquareEdge::South, SquareEdge::West] {
        assert_eq!(edge.get_opposite().get_opposite(), edge);
        assert_ne!(edge.get_opposite(), edge);
    }
}

#[test]
fn wall_set_starts_empty_and_takes_edges() {
    let mut walls = WallSet::new();
    for edge in [SquareEdge::North, SquareEdge::East, SquareEdge::South, SquareEdge::West] {
        assert!(!walls.contains(&edge));
    }
    assert!(walls.insert(SquareEdge::East));
    assert!(!walls.insert(SquareEdge::East));
    assert!(walls.contains(&SquareEdge::East));
    assert!(!walls.contains(&SquareEdge::West));
    assert!(!walls.contains(&SquareEdge::North));
    assert!(!walls.contains(&SquareEdge::South));
}

#[test]
fn map_digit_bits_name_the_walls() {
    let west = WallSet::from_digit(1);
    assert!(west.west && !west.north && !west.east && !west.south);
    let north = WallSet::from_digit(2);
    assert!(!north.west && north.north && !north.east && !north.south);
    let east = WallSet::from_digit(4);
    assert!(!east.west && !east.north && east.east && !east.south);
    let south = WallSet::from_digit(8);
    assert!(!south.west && !south.north && !south.east && south.south);
    let all = WallSet::from_digit(15);
    assert!(all.west && all.north && all.east && all.south);
    let mixed = WallSet::from_digit(0xA);
    assert!(!mixed.west && mixed.north && !mixed.east && mixed.south);
}

#[test]
fn square_new_keeps_its_parts() {
    let walls = WallSet::from_digit(5);
    let square = Square::new(SquareOccupant::Guard(Team::White), walls);
    assert_eq!(square.occupant, SquareOccupant::Guard(Team::White));
    assert_eq!(square.wall, walls);
}

#[test]
fn owner_of_each_kind_of_piece() {
    assert_eq!(SquareOccupant::Empty.get_owner(), None);
    assert_eq!(SquareOccupant::Guard(Team::Neutral).get_owner(), Some(Team::Neutral));
    assert_eq!(SquareOccupant::Citizen(Team::Purple).get_owner(), Some(Team::Purple));
    assert_eq!(SquareOccupant::Magistrate(Team::White).get_owner(), Some(Team::White));
}

#[test]
fn coords_are_written_in_parentheses() {
    assert_eq!(BoardSquareCoords(3, 4).to_string(), "(3,4)");
    assert_eq!(BoardSquareCoords(0, 0).to_string(), "(0,0)");
    assert_eq!(BoardSquareCoords(10, 205).to_string(), "(10,205)");
    assert_eq!(BoardSquareCoords(u32::MAX, 7).to_string(), "(4294967295,7)");
}

#[test]
fn coords_are_read_from_their_written_form() {
    assert_eq!(BoardSquareCoords::from_str("(3,4)"), Ok(BoardSquareCoords(3, 4)));
    assert_eq!(BoardSquareCoords::from_str("(0,0)"), Ok(BoardSquareCoords(0, 0)));
    assert_eq!(BoardSquareCoords::from_str("(12,345)"), Ok(BoardSquareCoords(12, 345)));
    assert_eq!("(7,8)".parse::<BoardSquareCoords>(), Ok(BoardSquareCoords(7, 8)));
    assert_eq!(
        BoardSquareCoords::from_str("(4294967295,4294967295)"),
        Ok(BoardSquareCoords(u32::MAX, u32::MAX))
    );
    assert_eq!(BoardSquareCoords::from_str("(007,08)"), Ok(BoardSquareCoords(7, 8)));
}

#[test]
fn other_forms_are_no_coords() {
    for text in [
        "",
        "(",
        ")",
        "()",
        "(,)",
        "(1,)",
        "(,2)",
        "1,2",
        "(1,2",
        "1,2)",
        "(1;2)",
        "(1 2)",
        "(1,2,3)",
        "( 1,2)",
        "(1, 2)",
        "(1,2) ",
        " (1,2)",
        "(-1,2)",
        "(+1,2)",
        "(1,+2)",
        "(a,2)",
        "(1,b)",
        "(1.0,2)",
        "(4294967296,0)",
        "(0,4294967296)",
        "(99999999999999999999,0)",
        "[1,2]",
        "((1,2))",
        "(١,٢)",
    ] {
        assert_eq!(BoardSquareCoords::from_str(text), Err(ParsePointError), "{text:?}");
    }
}

#[test]
fn written_coords_read_back() {
    for c in [
        BoardSquareCoords(0, 0),
        BoardSquareCoords(6, 8),
        BoardSquareCoords(10, 100),
        BoardSquareCoords(4294967295, 1000000000),
    ] {
        assert_eq!(BoardSquareCoords::from_str(&c.to_string()), Ok(c));
    }
}

#[test]
fn open_map_is_seven_by_nine() {
    let board = Board::new(OPEN_MAP).unwrap();
    assert_eq!(board.width, 7);
    assert_eq!(board.height, 9);
    assert_eq!(board.get_squares().len(), 9);
    assert!(board.get_squares().iter().all(|row| row.len() == 7));
}

#[test]
fn starting_pieces_stand_on_their_squares() {
    let board = Board::new(OPEN_MAP).unwrap();
    let mut guards = 0;
    let mut purple = 0;
    let mut white = 0;
    let mut magistrates = 0;
    let mut empty = 0;
    for y in 0..9 {
        for x in 0..7 {
            match occupant_at(&board, x, y) {
                SquareOccupant::Guard(team) => {
                    assert_eq!(team, Team::Neutral);
                    guards += 1;
                }
                SquareOccupant::Citizen(Team::Purple) => purple += 1,
                SquareOccupant::Citizen(Team::White) => white += 1,
                SquareOccupant::Citizen(Team::Neutral) => panic!("a neutral citizen at {x},{y}"),
                SquareOccupant::Magistrate(team) => {
                    assert_eq!(team, Team::Neutral);
                    magistrates += 1;
                }
                SquareOccupant::Empty => empty += 1,
            }
        }
    }
    assert_eq!((guards, purple, white, magistrates, empty), (2, 7, 7, 1, 46));
    assert_eq!(occupant_at(&board, 6, 0), SquareOccupant::Guard(Team::Neutral));
    assert_eq!(occupant_at(&board, 0, 8), SquareOccupant::Guard(Team::Neutral));
    assert_eq!(occupant_at(&board, 3, 4), SquareOccupant::Magistrate(Team::Neutral));
    for (x, y) in [(2, 2), (3, 2), (4, 2), (2, 3), (3, 3), (4, 3), (4, 4)] {
        assert_eq!(occupant_at(&board, x, y), SquareOccupant::Citizen(Team::Purple));
    }
    for (x, y) in [(2, 4), (2, 5), (3, 5), (4, 5), (2, 6), (3, 6), (4, 6)] {
        assert_eq!(occupant_at(&board, x, y), SquareOccupant::Citizen(Team::White));
    }
    assert_eq!(occupant_at(&board, 0, 0), SquareOccupant::Empty);
    assert_eq!(occupant_at(&board, 6, 8), SquareOccupant::Empty);
}

#[test]
fn map_digits_become_walls() {
    let board = Board::new("0123\n4567\n89ab\nCDEF").unwrap();
    assert_eq!(board.width, 4);
    assert_eq!(board.height, 4);
    for y in 0..4u32 {
        for x in 0..4u32 {
            let value = (y * 4 + x) as u8;
            let square = board.get(BoardSquareCoords(x, y)).unwrap();
            assert_eq!(square.wall.contains(&SquareEdge::West), value & 1 != 0);
            assert_eq!(square.wall.contains(&SquareEdge::North), value & 2 != 0);
            assert_eq!(square.wall.contains(&SquareEdge::East), value & 4 != 0);
            assert_eq!(square.wall.contains(&SquareEdge::South), value & 8 != 0);
        }
    }
}

#[test]
fn final_line_feed_is_optional() {
    let with = Board::new("00\n00\n").unwrap();
    let without = Board::new("00\n00").unwrap();
    assert_eq!((with.width, with.height), (2, 2));
    assert_eq!((without.width, without.height), (2, 2));
}

#[test]
fn carriage_returns_before_line_feeds_are_dropped() {
    let board = Board::new("012\r\n345\r\n").unwrap();
    assert_eq!((board.width, board.height), (3, 2));
    assert!(board.get(BoardSquareCoords(2, 1)).unwrap().wall.contains(&SquareEdge::West));
}

#[test]
fn carriage_return_without_line_feed_is_no_digit() {
    assert_eq!(Board::new("00\n00\r").err(), Some(BoardError::InvalidDigit));
}

#[test]
fn empty_text_is_an_empty_board() {
    let board = Board::new("").unwrap();
    assert_eq!((board.width, board.height), (0, 0));
    assert!(board.get(BoardSquareCoords(0, 0)).is_none());
}

#[test]
fn invalid_digit_is_refused() {
    assert_eq!(Board::new("00\n0g\n").err(), Some(BoardError::InvalidDigit));
    assert_eq!(Board::new("0 \n00\n").err(), Some(BoardError::InvalidDigit));
    assert_eq!(Board::new("é").err(), Some(BoardError::InvalidDigit));
}

#[test]
fn short_line_is_refused() {
    assert_eq!(Board::new("000\n00\n").err(), Some(BoardError::ShortLine));
    assert_eq!(Board::new("00\n000\n").err(), Some(BoardError::ShortLine));
    assert_eq!(Board::new("00\n\n00\n").err(), Some(BoardError::ShortLine));
}

#[test]
fn invalid_digit_is_reported_before_short_line() {
    assert_eq!(Board::new("000\n0x\n").err(), Some(BoardError::InvalidDigit));
    assert_eq!(Board::new("0\n00x\n").err(), Some(BoardError::InvalidDigit));
}

#[test]
fn squares_outside_the_board_are_absent() {
    let board = Board::new(OPEN_MAP).unwrap();
    assert!(board.get(BoardSquareCoords(6, 8)).is_some());
    assert!(board.get(BoardSquareCoords(7, 0)).is_none());
    assert!(board.get(BoardSquareCoords(0, 9)).is_none());
    assert!(board.get(BoardSquareCoords(7, 9)).is_none());
    assert!(board.get(BoardSquareCoords(u32::MAX, 0)).is_none());
    assert!(board.get(BoardSquareCoords(0, u32::MAX)).is_none());
    assert!(board.get(BoardSquareCoords(u32::MAX, u32::MAX)).is_none());
}

#[test]
fn neighbours_come_north_east_south_west() {
    let board = Board::new(OPEN_MAP).unwrap();
    assert_eq!(
        board.neighbours(BoardSquareCoords(3, 3)),
        vec![
            (SquareEdge::North, BoardSquareCoords(3, 2)),
            (SquareEdge::East, BoardSquareCoords(4, 3)),
            (SquareEdge::South, BoardSquareCoords(3, 4)),
            (SquareEdge::West, BoardSquareCoords(2, 3)),
        ]
    );
}

#[test]
fn neighbours_beyond_the_edge_are_left_out() {
    let board = Board::new(OPEN_MAP).unwrap();
    assert_eq!(
        board.neighbours(BoardSquareCoords(0, 0)),
        vec![
            (SquareEdge::East, BoardSquareCoords(1, 0)),
            (SquareEdge::South, BoardSquareCoords(0, 1)),
        ]
    );
    assert_eq!(
        board.neighbours(BoardSquareCoords(6, 8)),
        vec![
            (SquareEdge::North, BoardSquareCoords(6, 7)),
            (SquareEdge::West, BoardSquareCoords(5, 8)),
        ]
    );
    assert_eq!(
        board.neighbours(BoardSquareCoords(7, 4)),
        vec![(SquareEdge::West, BoardSquareCoords(6, 4))]
    );
    assert_eq!(board.neighbours(BoardSquareCoords(20, 20)), vec![]);
}

#[test]
fn neighbours_do_not_wrap_around() {
    let board = Board::new(OPEN_MAP).unwrap();
    assert_eq!(board.neighbours(BoardSquareCoords(u32::MAX, 0)), vec![]);
    assert_eq!(board.neighbours(BoardSquareCoords(0, u32::MAX)), vec![]);
    assert_eq!(board.neighbours(BoardSquareCoords(u32::MAX, u32::MAX)), vec![]);
    assert_eq!(Board::step(BoardSquareCoords(u32::MAX, 3), SquareEdge::East), None);
    assert_eq!(Board::step(BoardSquareCoords(3, u32::MAX), SquareEdge::South), None);
    assert_eq!(Board::step(BoardSquareCoords(0, 3), SquareEdge::West), None);
    assert_eq!(Board::step(BoardSquareCoords(3, 0), SquareEdge::North), None);
    assert_eq!(
        Board::step(BoardSquareCoords(3, 3), SquareEdge::North),
        Some(BoardSquareCoords(3, 2))
    );
}

#[test]
fn set_occupant_changes_one_square() {
    let mut board = Board::new(OPEN_MAP).unwrap();
    let walls_before = board.get(BoardSquareCoords(1, 1)).unwrap().wall;
    assert!(board.set_occupant(BoardSquareCoords(1, 1), SquareOccupant::Guard(Team::Purple)));
    assert_eq!(occupant_at(&board, 1, 1), SquareOccupant::Guard(Team::Purple));
    assert_eq!(board.get(BoardSquareCoords(1, 1)).unwrap().wall, walls_before);
    assert_eq!(occupant_at(&board, 1, 2), SquareOccupant::Empty);
    assert_eq!(occupant_at(&board, 2, 2), SquareOccupant::Citizen(Team::Purple));
    assert!(!board.set_occupant(BoardSquareCoords(7, 1), SquareOccupant::Guard(Team::Purple)));
    assert!(!board.set_occupant(BoardSquareCoords(1, 9), SquareOccupant::Guard(Team::Purple)));
}
