use hexgame::{Board, Color, CoordValue, Coords, CoordsOrEdge, Edge, InvalidMove};

const EDGES: [Edge; 4] = [Edge::Left, Edge::Top, Edge::Right, Edge::Bottom];

fn all_nodes(size: CoordValue) -> Vec<CoordsOrEdge> {
    let mut nodes = Vec::new();
    for row in 0..size {
        for column in 0..size {
            nodes.push(CoordsOrEdge::Coords(Coords { row, column }));
        }
    }
    for edge in EDGES {
        nodes.push(CoordsOrEdge::Edge(edge));
    }
    nodes
}

fn touches(size: CoordValue, coords: Coords, edge: Edge) -> bool {
    match edge {
        Edge::Left => coords.column == 0,
        Edge::Top => coords.row == 0,
        Edge::Right => coords.column == size - 1,
        Edge::Bottom => coords.row == size - 1,
    }
}

fn adjacent(size: CoordValue, a: CoordsOrEdge, b: CoordsOrEdge) -> bool {
    match (a, b) {
        (CoordsOrEdge::Coords(p), CoordsOrEdge::Coords(q)) => {
            let rows = q.row as i32 - p.row as i32;
            let columns = q.column as i32 - p.column as i32;
            matches!(
                (rows, columns),
                (0, 1) | (0, -1) | (1, 0) | (-1, 0) | (-1, 1) | (1, -1)
            )
        }
        (CoordsOrEdge::Coords(p), CoordsOrEdge::Edge(edge)) => touches(size, p, edge),
        (CoordsOrEdge::Edge(edge), CoordsOrEdge::Coords(p)) => touches(size, p, edge),
        (CoordsOrEdge::Edge(_), CoordsOrEdge::Edge(_)) => false,
    }
}

/// Breadth-first search over like-colored adjacent cells and edges.
fn reachable(board: &Board, from: CoordsOrEdge) -> Vec<CoordsOrEdge> {
    let nodes = all_nodes(board.size());
    let mut found = vec![from];
    let color = board.get_color(from);
    if color.is_none() {
        return found;
    }
    let mut next = 0;
    while next < found.len() {
        let current = found[next];
        next += 1;
        for &node in &nodes {
            if !found.contains(&node)
                && adjacent(board.size(), current, node)
                && board.get_color(node) == color
            {
                found.push(node);
            }
        }
    }
    found
}

fn assert_sets_are_connected_groups(board: &mut Board) {
    let nodes = all_nodes(board.size());
    for &a in &nodes {
        let group = reachable(board, a);
        for &b in &nodes {
            assert_eq!(
                board.is_in_same_set(a, b),
                group.contains(&b),
                "{:?} and {:?}",
                a,
                b
            );
        }
    }
}

struct Numbers(u64);

impl Numbers {
    fn next(&mut self, bound: u64) -> u64 {
        self.0 = self
            .0
            .wrapping_mul(6364136223846793005)
            .wrapping_add(1442695040888963407);
        (self.0 >> 33) % bound
    }
}

#[test]
fn test_sets_are_the_groups_of_connected_stones() {
    let mut numbers = Numbers(2024);
    for size in 2..=6u8 {
        for _ in 0..6 {
            let mut board = Board::new(size);
            assert_sets_are_connected_groups(&mut board);
            let moves = 2 * (size as u64) * (size as u64);
            for step in 0..moves {
                let coords = Coords {
                    row: numbers.next(size as u64) as u8,
                    column: numbers.next(size as u64) as u8,
                };
                let color = if numbers.next(2) == 0 {
                    Color::Black
                } else {
                    Color::White
                };
                let before = board.get_color(coords);
                let result = board.play(coords, color);
                match before {
                    None => {
                        assert_eq!(result, Ok(()));
                        assert_eq!(board.get_color(coords), Some(color));
                    }
                    Some(stone) => {
                        assert_eq!(result, Err(InvalidMove::CellOccupied(coords)));
                        assert_eq!(board.get_color(coords), Some(stone));
                    }
                }
                if step % 3 == 0 {
                    assert_sets_are_connected_groups(&mut board);
                }
            }
            assert_sets_are_connected_groups(&mut board);
        }
    }
}

#[test]
fn test_full_boards_of_one_color() {
    for color in [Color::Black, Color::White] {
        let mut board = Board::new(4);
        for row in 0..4 {
            for column in 0..4 {
                board.play(Coords { row, column }, color).unwrap();
            }
        }
        assert_sets_are_connected_groups(&mut board);
        assert_eq!(
            board.is_in_same_set(Edge::Top, Edge::Bottom),
            color == Color::Black
        );
        assert_eq!(
            board.is_in_same_set(Edge::Left, Edge::Right),
            color == Color::White
        );
        assert!(!board.is_in_same_set(Edge::Top, Edge::Left));
        assert!(board.get_empty_cells().is_empty());
    }
}

#[test]
fn test_stones_in_order_of_columns_and_in_reverse() {
    // the result does not depend on the order in which the stones were placed
    let stones = [(0u8, 2u8), (1, 1), (1, 2), (2, 0), (2, 1), (3, 0)];
    let mut forward = Board::new(4);
    for &(row, column) in stones.iter() {
        forward.play(Coords { row, column }, Color::Black).unwrap();
    }
    let mut backward = Board::new(4);
    for &(row, column) in stones.iter().rev() {
        backward.play(Coords { row, column }, Color::Black).unwrap();
    }
    assert_sets_are_connected_groups(&mut forward);
    assert_sets_are_connected_groups(&mut backward);
    assert!(forward.is_in_same_set(Edge::Top, Edge::Bottom));
    assert!(backward.is_in_same_set(Edge::Top, Edge::Bottom));
    assert_eq!(forward.to_stone_matrix(), backward.to_stone_matrix());
}

#[test]
fn test_everything_is_in_the_same_set_as_itself() {
    let mut board = Board::new(2);
    let empty = Coords { row: 1, column: 1 };
    assert!(board.is_in_same_set(empty, empty));
    assert!(board.is_in_same_set(Edge::Left, Edge::Left));
    assert!(!board.is_in_same_set(empty, Coords { row: 0, column: 0 }));
}
