use hexgame::hex_cells::{HexCells, Index};
use hexgame::{Color, Coords, CoordsOrEdge, Edge};

const EDGES: [Edge; 4] = [Edge::Left, Edge::Top, Edge::Right, Edge::Bottom];

#[test]
fn hex_cells_test_constructor() {
    let cells = HexCells::new(3);
    assert_eq!(cells.size, 3);
    assert_eq!(cells.get_color_at_coords(Coords::new(0, 0)), None);
}

#[test]
fn hex_cells_test_index_from_coords() {
    let cells = HexCells::new(3);
    assert_eq!(cells.index_from_coords(Coords::new(1, 2)), 5);
}

#[test]
fn test_index_from_edge() {
    let cells = HexCells::new(3);
    assert_eq!(cells.index_from_edge(EDGES[0]), 9);
    assert_eq!(cells.index_from_edge(EDGES[1]), 10);
    assert_eq!(cells.index_from_edge(EDGES[2]), 11);
    assert_eq!(cells.index_from_edge(EDGES[3]), 12);
}

#[test]
fn test_decode_index() {
    let cells = HexCells::new(3);
    assert_eq!(
        cells.decode_index(0),
        CoordsOrEdge::Coords(Coords::new(0, 0))
    );
    assert_eq!(cells.decode_index(9), CoordsOrEdge::Edge(EDGES[0]));
    assert_eq!(cells.decode_index(12), CoordsOrEdge::Edge(EDGES[3]));
}

#[test]
fn test_set_color_at_index() {
    let color = Color::Black;
    let mut cells = HexCells::new(3);
    cells.set_color_at_index(5, color);
    assert_eq!(cells.get_color_at_index(5), Some(color));
    assert_eq!(cells.get_color_at_coords(Coords::new(1, 2)), Some(color));
}

#[test]
fn test_set_parent_at_index() {
    let parent: Index = 127;
    let mut cells = HexCells::new(3);
    cells.set_parent_at_index(5, parent);
    assert_eq!(cells.get_parent_at_index(5), Some(parent));
}
