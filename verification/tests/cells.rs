use hexgame::cells::{Cell, Cells};
use hexgame::{Color, Coords};

#[test]
fn cells_test_constructor() {
    let cells = Cells::new(3);
    assert_eq!(cells.size, 3);
    assert_eq!(cells.at_coord(Coords::new(0, 0)), Cell::default());
}

#[test]
fn cells_test_index_from_coords() {
    let cells = Cells::new(3);
    assert_eq!(cells.index_from_coords(Coords::new(1, 2)), 5);
}

#[test]
fn cells_test_set_index() {
    let cell = Cell {
        color: Some(Color::Black),
        parent: None,
    };
    let mut cells = Cells::new(3);
    cells.set_index(5, cell);
    assert_eq!(cells.at_index(5), cell);
    assert_eq!(cells.at_coord(Coords::new(1, 2)), cell);
}
