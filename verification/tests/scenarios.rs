use hexgame::board::check_board_size;
use hexgame::hex_cells::HexCells;
use hexgame::neighbors::get_neighbors;
use hexgame::{
    Board, Color, Coords, Edge, Game, InvalidBoard, InvalidMove, Status, MAX_BOARD_SIZE,
    MIN_BOARD_SIZE,
};

fn board_with(black: &[(u8, u8)], white: &[(u8, u8)]) -> Board {
    let mut board = Board::new(5);
    for &(row, column) in black {
        board.play(Coords { row, column }, Color::Black).unwrap();
    }
    for &(row, column) in white {
        board.play(Coords { row, column }, Color::White).unwrap();
    }
    board
}

#[test]
fn test_attacked_bridge_between_two_stones() {
    let board = board_with(&[(1, 3), (3, 2)], &[(2, 2)]);
    assert_eq!(
        board.find_attacked_bridges(Coords::new(2, 2)),
        vec![Coords::new(2, 3)]
    );
}

#[test]
fn test_three_attacked_bridges_around_one_stone() {
    let board = board_with(&[(2, 1), (1, 3), (3, 2)], &[(2, 2)]);
    assert_eq!(
        board.find_attacked_bridges(Coords::new(2, 2)),
        vec![Coords::new(1, 2), Coords::new(2, 3), Coords::new(3, 1)]
    );
}

#[test]
fn test_no_attacked_bridge_without_neighbors() {
    let board = board_with(&[], &[(2, 2)]);
    assert_eq!(board.find_attacked_bridges(Coords::new(2, 2)), vec![]);
}

#[test]
fn test_no_attacked_bridge_without_stone() {
    let board = board_with(&[(1, 3), (3, 2)], &[]);
    assert_eq!(board.find_attacked_bridges(Coords::new(2, 2)), vec![]);
}

#[test]
fn test_attacked_bridge_to_the_edge_in_the_corner() {
    let board = board_with(&[(1, 0)], &[(0, 1)]);
    assert_eq!(
        board.find_attacked_bridges(Coords::new(0, 1)),
        vec![Coords::new(0, 0)]
    );
}

#[test]
fn test_attacked_bridges_of_white() {
    // a black stone between two white stones, and between a white stone and
    // the left edge
    let board = board_with(&[(2, 1)], &[(1, 1), (3, 1), (2, 2)]);
    assert_eq!(
        board.find_attacked_bridges(Coords::new(2, 1)),
        vec![Coords::new(1, 2)]
    );
    let board = board_with(&[(2, 0)], &[(1, 1)]);
    assert_eq!(
        board.find_attacked_bridges(Coords::new(2, 0)),
        vec![Coords::new(1, 0)]
    );
}

#[test]
fn test_six_stones_around_leave_no_bridge() {
    let board = board_with(
        &[(2, 1), (1, 2), (1, 3), (2, 3), (3, 2), (3, 1)],
        &[(2, 2)],
    );
    assert_eq!(board.find_attacked_bridges(Coords::new(2, 2)), vec![]);
}

#[test]
fn test_alternating_stones_and_gaps_around() {
    // left, top right and bottom right hold stones; each gap is a bridge,
    // the one that closes the round comes last
    let board = board_with(&[(2, 1), (1, 3), (3, 2)], &[(2, 2)]);
    let bridges = board.find_attacked_bridges(Coords::new(2, 2));
    assert_eq!(bridges.len(), 3);
    let board = board_with(&[(1, 2), (2, 3), (3, 1)], &[(2, 2)]);
    assert_eq!(
        board.find_attacked_bridges(Coords::new(2, 2)),
        vec![Coords::new(1, 3), Coords::new(3, 2), Coords::new(2, 1)]
    );
}

#[test]
fn test_game_on_three_rows() {
    let mut game = Game::new(3);
    assert_eq!(game.get_status(), Status::Ongoing(Color::Black));
    assert_eq!(game.play(Coords::new(0, 0)), Ok(()));
    assert_eq!(game.get_status(), Status::Ongoing(Color::White));
    assert_eq!(game.play(Coords::new(0, 1)), Ok(()));
    assert_eq!(game.play(Coords::new(1, 0)), Ok(()));
    assert_eq!(game.play(Coords::new(1, 1)), Ok(()));
    assert_eq!(game.get_status(), Status::Ongoing(Color::Black));
    assert_eq!(game.play(Coords::new(2, 0)), Ok(()));
    assert_eq!(game.get_status(), Status::Finished(Color::Black));
    assert_eq!(game.get_current_player(), None);
    assert_eq!(game.play(Coords::new(2, 2)), Err(InvalidMove::GameOver));
    assert_eq!(game.play(Coords::new(0, 0)), Err(InvalidMove::GameOver));
    assert_eq!(game.play(Coords::new(9, 9)), Err(InvalidMove::GameOver));
    assert_eq!(game.get_status(), Status::Finished(Color::Black));
    assert_eq!(game.get_board().get_color(Coords::new(2, 2)), None);
}

#[test]
fn test_invalid_moves_keep_the_turn() {
    let mut game = Game::new(3);
    assert_eq!(
        game.play(Coords::new(3, 0)),
        Err(InvalidMove::OutOfBounds(Coords::new(3, 0)))
    );
    assert_eq!(game.get_status(), Status::Ongoing(Color::Black));
    assert_eq!(game.play(Coords::new(1, 1)), Ok(()));
    assert_eq!(
        game.play(Coords::new(1, 1)),
        Err(InvalidMove::CellOccupied(Coords::new(1, 1)))
    );
    assert_eq!(game.get_status(), Status::Ongoing(Color::White));
    assert_eq!(game.get_current_player(), Some(Color::White));
}

#[test]
fn test_moves_off_the_board() {
    for size in MIN_BOARD_SIZE..=MAX_BOARD_SIZE {
        let mut board = Board::new(size);
        for other in [0, size - 1] {
            for coords in [
                Coords::new(size, other),
                Coords::new(other, size),
                Coords::new(size, size),
                Coords::new(255, other),
            ] {
                assert_eq!(
                    board.play(coords, Color::White),
                    Err(InvalidMove::OutOfBounds(coords))
                );
            }
        }
        assert_eq!(board.get_empty_cells().len(), size as usize * size as usize);
    }
}

#[test]
fn test_second_stone_on_a_cell_of_either_color() {
    for first in [Color::Black, Color::White] {
        for second in [Color::Black, Color::White] {
            let mut board = Board::new(2);
            let coords = Coords::new(1, 0);
            assert_eq!(board.play(coords, first), Ok(()));
            assert_eq!(
                board.play(coords, second),
                Err(InvalidMove::CellOccupied(coords))
            );
            assert_eq!(board.get_color(coords), Some(first));
        }
    }
}

#[test]
fn test_stone_matrix_round_trip() {
    let black = Some(Color::Black);
    let white = Some(Color::White);
    let matrices = vec![
        vec![vec![None, None], vec![None, None]],
        vec![vec![black, white], vec![white, black]],
        vec![
            vec![black, None, white],
            vec![black, black, white],
            vec![None, white, None],
        ],
        vec![vec![white; 19]; 19],
    ];
    for matrix in matrices {
        let board = Board::from_stone_matrix(matrix.clone()).unwrap();
        assert_eq!(board.size() as usize, matrix.len());
        assert_eq!(board.to_stone_matrix(), matrix);
        let again = Board::from_stone_matrix(board.to_stone_matrix()).unwrap();
        assert_eq!(again.to_stone_matrix(), matrix);
    }
}

#[test]
fn test_stone_matrix_errors() {
    let empty: Vec<Vec<Option<Color>>> = vec![];
    assert_eq!(
        Board::from_stone_matrix(empty).err().unwrap(),
        InvalidBoard::SizeOutOfBounds(0, 2, 19)
    );
    // the size comes before the shape
    assert_eq!(
        Board::from_stone_matrix(vec![vec![None, None]])
            .err()
            .unwrap(),
        InvalidBoard::SizeOutOfBounds(1, 2, 19)
    );
    // the first row of another length is named
    assert_eq!(
        Board::from_stone_matrix(vec![vec![None; 3], vec![None; 2], vec![None; 4]])
            .err()
            .unwrap(),
        InvalidBoard::NotSquare(1, 3)
    );
    assert_eq!(
        Board::from_stone_matrix(vec![vec![], vec![None; 2]])
            .err()
            .unwrap(),
        InvalidBoard::NotSquare(0, 2)
    );
    assert_eq!(
        Game::load(vec![vec![None; 2], vec![None; 3]], None)
            .err()
            .unwrap(),
        InvalidBoard::NotSquare(1, 2)
    );
}

#[test]
fn test_loaded_matrix_is_connected_like_played_stones() {
    let black = Some(Color::Black);
    let white = Some(Color::White);
    let matrix = vec![
        vec![black, white, None],
        vec![black, white, None],
        vec![black, None, white],
    ];
    let mut board = Board::from_stone_matrix(matrix).unwrap();
    assert!(board.is_in_same_set(Edge::Top, Edge::Bottom));
    assert!(!board.is_in_same_set(Edge::Left, Edge::Right));
    assert!(board.is_in_same_set(Coords::new(0, 1), Coords::new(1, 1)));
    assert!(board.is_in_same_set(Coords::new(2, 2), Edge::Right));
    assert!(!board.is_in_same_set(Coords::new(2, 2), Coords::new(1, 1)));
}

#[test]
fn test_load_prefers_black_as_winner() {
    let black = Some(Color::Black);
    let white = Some(Color::White);
    let game = Game::load(
        vec![vec![black, white], vec![black, white]],
        Some(Color::White),
    )
    .unwrap();
    assert_eq!(game.get_status(), Status::Finished(Color::Black));
    let game = Game::load(vec![vec![white, white], vec![black, None]], None).unwrap();
    assert_eq!(game.get_status(), Status::Finished(Color::White));
}

#[test]
fn test_neighbor_counts() {
    for size in 2..=7u8 {
        let cells = HexCells::new(size);
        for row in 0..size {
            for column in 0..size {
                let index = cells.index_from_coords(Coords::new(row, column));
                let neighbors = get_neighbors(&cells, index);
                let edges = neighbors
                    .iter()
                    .filter(|&&neighbor| neighbor >= cells.left())
                    .count();
                let last = size - 1;
                let on_row_border = row == 0 || row == last;
                let on_column_border = column == 0 || column == last;
                let acute_corner = (row == 0 && column == 0) || (row == last && column == last);
                let obtuse_corner = (row == 0 && column == last) || (row == last && column == 0);
                if acute_corner {
                    assert_eq!((neighbors.len(), edges), (4, 2));
                } else if obtuse_corner {
                    assert_eq!((neighbors.len(), edges), (5, 2));
                } else if on_row_border || on_column_border {
                    assert_eq!((neighbors.len(), edges), (5, 1));
                } else {
                    assert_eq!((neighbors.len(), edges), (6, 0));
                }
                let mut sorted = neighbors.clone();
                sorted.sort();
                sorted.dedup();
                assert_eq!(sorted.len(), neighbors.len());
                assert!(!neighbors.contains(&index));
            }
        }
    }
}

#[test]
fn test_neighbors_on_the_smallest_board() {
    let cells = HexCells::new(2);
    assert_eq!(get_neighbors(&cells, 0), vec![4, 5, 1, 2]);
    assert_eq!(get_neighbors(&cells, 1), vec![0, 5, 6, 3, 2]);
    assert_eq!(get_neighbors(&cells, 2), vec![4, 0, 1, 3, 7]);
    assert_eq!(get_neighbors(&cells, 3), vec![2, 1, 6, 7]);
}

#[test]
fn test_opponent_color() {
    assert_eq!(Color::Black.opponent_color(), Color::White);
    assert_eq!(Color::White.opponent_color(), Color::Black);
    assert_eq!(
        Color::Black.opponent_color().opponent_color(),
        Color::Black
    );
}

#[test]
fn test_empty_cells_row_by_row() {
    let mut board = Board::new(3);
    board.play(Coords::new(1, 1), Color::White).unwrap();
    board.play(Coords::new(0, 2), Color::Black).unwrap();
    assert_eq!(
        board.get_empty_cells(),
        vec![
            Coords::new(0, 0),
            Coords::new(0, 1),
            Coords::new(1, 0),
            Coords::new(1, 2),
            Coords::new(2, 0),
            Coords::new(2, 1),
            Coords::new(2, 2),
        ]
    );
}

#[test]
fn test_check_board_size() {
    assert_eq!(check_board_size(2), Ok(2));
    assert_eq!(check_board_size(19), Ok(19));
    assert_eq!(
        check_board_size(1),
        Err(InvalidBoard::SizeOutOfBounds(1, 2, 19))
    );
    assert_eq!(
        check_board_size(20),
        Err(InvalidBoard::SizeOutOfBounds(20, 2, 19))
    );
    assert_eq!(
        check_board_size(258),
        Err(InvalidBoard::SizeOutOfBounds(258, 2, 19))
    );
}
