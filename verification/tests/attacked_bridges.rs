use hexgame::attacked_bridges::find_attacked_bridges;
use hexgame::edges::set_edge_colors;
use hexgame::hex_cells::HexCells;
use hexgame::{Color, Coords};

const CENTER: Coords = Coords { row: 2, column: 2 };

fn empty_cells_with_colored_edges() -> HexCells {
    let mut cells = HexCells::new(5);
    set_edge_colors(&mut cells);
    cells
}

#[test]
fn test_coords_without_stone() {
    let cells = empty_cells_with_colored_edges();
    assert_eq!(find_attacked_bridges(&cells, CENTER), vec![]);
}

#[test]
fn test_coords_without_neighbors() {
    let mut cells = empty_cells_with_colored_edges();
    let _ = cells.set_color_at_coords(CENTER, Color::White);
    assert_eq!(find_attacked_bridges(&cells, CENTER), vec![]);
}

#[test]
fn test_simple_bridge_in_center() {
    //  a  b  c  d  e
    // 1\.  .  .  .  .\1
    //  2\.  .  .  ●  .\2
    //   3\.  .  ○  .  .\3
    //    4\.  .  ●  .  .\4
    let mut cells = empty_cells_with_colored_edges();
    let _ = cells.set_color_at_coords(Coords { row: 1, column: 3 }, Color::Black);
    let _ = cells.set_color_at_coords(Coords { row: 3, column: 2 }, Color::Black);
    let _ = cells.set_color_at_coords(CENTER, Color::White);

    assert_eq!(
        find_attacked_bridges(&cells, CENTER),
        vec![Coords { row: 2, column: 3 }]
    );
}

#[test]
fn test_bridge_with_preceding_stone_in_center() {
    //  a  b  c  d  e
    // 1\.  .  .  .  .\1
    //  2\.  .  ●  .  .\2
    //   3\.  ●  ○  ●  .\3
    let mut cells = empty_cells_with_colored_edges();
    let _ = cells.set_color_at_coords(Coords { row: 2, column: 1 }, Color::Black);
    let _ = cells.set_color_at_coords(Coords { row: 1, column: 2 }, Color::Black);
    let _ = cells.set_color_at_coords(Coords { row: 2, column: 3 }, Color::Black);
    let _ = cells.set_color_at_coords(CENTER, Color::White);

    assert_eq!(
        find_attacked_bridges(&cells, CENTER),
        vec![Coords { row: 1, column: 3 }]
    );
}

#[test]
fn test_non_bridge_with_preceding_stone_in_center() {
    //  a  b  c  d  e
    // 1\.  .  .  .  .\1
    //  2\.  .  ○  .  .\2
    //   3\.  ●  ○  ●  .\3
    let mut cells = empty_cells_with_colored_edges();
    let _ = cells.set_color_at_coords(Coords { row: 2, column: 1 }, Color::Black);
    let _ = cells.set_color_at_coords(Coords { row: 1, column: 2 }, Color::White);
    let _ = cells.set_color_at_coords(Coords { row: 2, column: 3 }, Color::Black);
    let _ = cells.set_color_at_coords(CENTER, Color::White);

    assert_eq!(find_attacked_bridges(&cells, CENTER), vec![]);
}

#[test]
fn test_three_bridges_in_center() {
    //  a  b  c  d  e
    // 1\.  .  .  .  .\1
    //  2\.  .  .  ●  .\2
    //   3\.  ●  ○  .  .\3
    //    4\.  .  ●  .  .\4
    let mut cells = empty_cells_with_colored_edges();
    let _ = cells.set_color_at_coords(Coords { row: 2, column: 1 }, Color::Black);
    let _ = cells.set_color_at_coords(Coords { row: 1, column: 3 }, Color::Black);
    let _ = cells.set_color_at_coords(Coords { row: 3, column: 2 }, Color::Black);
    let _ = cells.set_color_at_coords(CENTER, Color::White);

    assert_eq!(
        find_attacked_bridges(&cells, CENTER),
        vec![
            Coords { row: 1, column: 2 },
            Coords { row: 2, column: 3 },
            Coords { row: 3, column: 1 },
        ]
    );
}

#[test]
fn test_bridge_overlapping_from_last_to_first_neighbor() {
    //  a  b  c  d  e
    // 1\.  .  .  .  .\1
    //  2\.  .  ●  .  .\2
    //   3\.  .  ○  .  .\3
    //    4\.  ●  .  .  .\4
    let mut cells = empty_cells_with_colored_edges();
    let _ = cells.set_color_at_coords(Coords { row: 3, column: 1 }, Color::Black);
    let _ = cells.set_color_at_coords(Coords { row: 1, column: 2 }, Color::Black);
    let _ = cells.set_color_at_coords(CENTER, Color::White);

    assert_eq!(
        find_attacked_bridges(&cells, CENTER),
        vec![Coords { row: 2, column: 1 },]
    );
}

#[test]
fn test_bridge_in_obtuse_corner() {
    //  a  b  c  d  e
    // 1\.  ○  .  .  .\1
    //  2\●  .  .  .  .\2
    let mut cells = empty_cells_with_colored_edges();
    let attacked_coords = Coords { row: 0, column: 1 };
    let _ = cells.set_color_at_coords(Coords { row: 1, column: 0 }, Color::Black);
    let _ = cells.set_color_at_coords(attacked_coords, Color::White);

    assert_eq!(
        find_attacked_bridges(&cells, attacked_coords),
        vec![Coords { row: 0, column: 0 },]
    );
}

#[test]
fn test_bridge_next_to_obtuse_corner() {
    //  a  b  c  d  e
    // 1\○  .  .  .  .\1
    //  2\●  .  .  .  .\2
    let mut cells = empty_cells_with_colored_edges();
    let attacked_coords = Coords { row: 0, column: 0 };
    let _ = cells.set_color_at_coords(Coords { row: 1, column: 0 }, Color::Black);
    let _ = cells.set_color_at_coords(attacked_coords, Color::White);

    assert_eq!(
        find_attacked_bridges(&cells, attacked_coords),
        vec![Coords { row: 0, column: 1 },]
    );
}

#[test]
fn test_bridge_to_own_edge() {
    //  a  b  c  d  e
    // 1\.  .  ○  .  .\1
    //  2\.  .  ●  .  .\2
    let mut cells = empty_cells_with_colored_edges();
    let attacked_coords = Coords { row: 0, column: 2 };
    let _ = cells.set_color_at_coords(Coords { row: 1, column: 2 }, Color::Black);
    let _ = cells.set_color_at_coords(attacked_coords, Color::White);

    assert_eq!(
        find_attacked_bridges(&cells, attacked_coords),
        vec![Coords { row: 0, column: 3 },]
    );
}

#[test]
fn test_no_bridge_on_other_players_edge() {
    //  a  b  c  d  e
    // 1\.  .  .  .  .\1
    //  2\.  .  .  .  .\2
    //   3\○  ●  .  .  .\3
    let mut cells = empty_cells_with_colored_edges();
    let attacked_coords = Coords { row: 2, column: 0 };
    let _ = cells.set_color_at_coords(Coords { row: 2, column: 1 }, Color::Black);
    let _ = cells.set_color_at_coords(attacked_coords, Color::White);

    assert_eq!(find_attacked_bridges(&cells, attacked_coords), vec![]);
}
