use vstd::prelude::*;
use crate::coords::{CoordValue, Coords};
use crate::edges::{CoordsOrEdge, Edge};
use crate::hex_cells::{
    cell_count, index_of, index_of_coords, lemma_node_at, node_at, HexCells, Index,
};

verus! {

/// The cell in the given row and column, as a cell or edge.
pub open spec fn cell(row: int, column: int) -> CoordsOrEdge {
    CoordsOrEdge::Coords(Coords { row: row as CoordValue, column: column as CoordValue })
}

/// Whether a cell lies directly at an edge of a board with `size` rows and columns.
pub open spec fn touches(size: int, coords: Coords, edge: Edge) -> bool {
    match edge {
        Edge::Left => coords.column == 0,
        Edge::Top => coords.row == 0,
        Edge::Right => coords.column == size - 1,
        Edge::Bottom => coords.row == size - 1,
    }
}

/// Whether two cells or edges are neighbors on the hexagonal grid: two cells in
/// the same row or the same column next to each other, or on the diagonal that
/// runs from bottom left to top right; a cell and an edge that it touches.
pub open spec fn adjacent(size: int, a: CoordsOrEdge, b: CoordsOrEdge) -> bool {
    match (a, b) {
        (CoordsOrEdge::Coords(p), CoordsOrEdge::Coords(q)) => {
            let rows = q.row - p.row;
            let columns = q.column - p.column;
            ||| rows == 0 && (columns == 1 || columns == -1)
            ||| columns == 0 && (rows == 1 || rows == -1)
            ||| rows == -1 && columns == 1
            ||| rows == 1 && columns == -1
        },
        (CoordsOrEdge::Coords(p), CoordsOrEdge::Edge(edge)) => touches(size, p, edge),
        (CoordsOrEdge::Edge(edge), CoordsOrEdge::Coords(p)) => touches(size, p, edge),
        (CoordsOrEdge::Edge(_), CoordsOrEdge::Edge(_)) => false,
    }
}

/// The neighbors of a cell in clockwise order, starting at the left neighbor:
/// left, top left, top right, right, bottom right, bottom left. Where the left,
/// top left, right or bottom right neighbor would lie off the board, the edge
/// takes its place; the top right and the bottom left neighbor are left out
/// where they would lie off the board.
pub open spec fn neighbors_of(size: int, coords: Coords) -> Seq<CoordsOrEdge> {
    let row = coords.row as int;
    let column = coords.column as int;
    let left = if column == 0 {
        CoordsOrEdge::Edge(Edge::Left)
    } else {
        cell(row, column - 1)
    };
    let top_left = if row == 0 {
        CoordsOrEdge::Edge(Edge::Top)
    } else {
        cell(row - 1, column)
    };
    let top_right = cell(row - 1, column + 1);
    let right = if column == size - 1 {
        CoordsOrEdge::Edge(Edge::Right)
    } else {
        cell(row, column + 1)
    };
    let bottom_right = if row == size - 1 {
        CoordsOrEdge::Edge(Edge::Bottom)
    } else {
        cell(row + 1, column)
    };
    let bottom_left = cell(row + 1, column - 1);
    let has_top_right = row > 0 && column < size - 1;
    let has_bottom_left = row < size - 1 && column > 0;
    if has_top_right && has_bottom_left {
        seq![left, top_left, top_right, right, bottom_right, bottom_left]
    } else if has_top_right {
        seq![left, top_left, top_right, right, bottom_right]
    } else if has_bottom_left {
        seq![left, top_left, right, bottom_right, bottom_left]
    } else {
        seq![left, top_left, right, bottom_right]
    }
}

/// The cell that a slot below the slots of the edges stands for.
pub open spec fn coords_at(size: int, index: int) -> Coords {
    Coords { row: (index / size) as CoordValue, column: (index % size) as CoordValue }
}

/// The slots of the neighbors of the cell in slot `index`, in clockwise order.
pub open spec fn neighbor_indices(size: int, index: int) -> Seq<int> {
    neighbors_of(size, coords_at(size, index)).map_values(|n: CoordsOrEdge| index_of(size, n))
}

/// A cell has one neighbor in each of the six directions, less one if it lies
/// in the top row or the right column, less one if it lies in the bottom row
/// or the left column. All of them lie on the board and differ from the cell.
pub proof fn lemma_neighbors_of(size: int, coords: Coords)
    requires
        0 < size <= CoordValue::MAX,
        coords.on_board(size),
    ensures
        neighbors_of(size, coords).len() == 6 - (if coords.row == 0 || coords.column == size - 1 {
            1int
        } else {
            0int
        }) - (if coords.row == size - 1 || coords.column == 0 {
            1int
        } else {
            0int
        }),
        forall|k: int|
            0 <= k < neighbors_of(size, coords).len() ==> {
                &&& (#[trigger] neighbors_of(size, coords)[k]).on_board(size)
                &&& neighbors_of(size, coords)[k] != CoordsOrEdge::Coords(coords)
            },
{
}

/// The count of neighbors by the place of a cell: six in the interior of the
/// board; five on the border away from the corners; four in the two acute
/// corners (top left and bottom right), namely two cells and two edges.
pub proof fn lemma_neighbor_count(size: int, coords: Coords)
    requires
        2 <= size <= CoordValue::MAX,
        coords.on_board(size),
        !(coords.row == 0 && coords.column == size - 1),
        !(coords.row == size - 1 && coords.column == 0),
    ensures
        neighbors_of(size, coords).len() == if (coords.row == 0 || coords.row == size - 1) && (
        coords.column == 0 || coords.column == size - 1) {
            4int
        } else if coords.row == 0 || coords.row == size - 1 || coords.column == 0 || coords.column
            == size - 1 {
            5int
        } else {
            6int
        },
        coords.row == 0 && coords.column == 0 ==> neighbors_of(size, coords) == seq![
            CoordsOrEdge::Edge(Edge::Left),
            CoordsOrEdge::Edge(Edge::Top),
            cell(0, 1),
            cell(1, 0),
        ],
        coords.row == size - 1 && coords.column == size - 1 ==> neighbors_of(size, coords) == seq![
            cell(size - 1, size - 2),
            cell(size - 2, size - 1),
            CoordsOrEdge::Edge(Edge::Right),
            CoordsOrEdge::Edge(Edge::Bottom),
        ],
{
}

/// In the two obtuse corners (top right and bottom left) a cell has five
/// neighbors: three cells and two edges.
pub proof fn lemma_neighbor_count_obtuse_corner(size: int, coords: Coords)
    requires
        2 <= size <= CoordValue::MAX,
        coords.on_board(size),
        (coords.row == 0 && coords.column == size - 1) || (coords.row == size - 1 && coords.column
            == 0),
    ensures
        neighbors_of(size, coords).len() == 5,
{
}

/// The list of neighbors of a cell holds exactly the cells and edges of the
/// board that are adjacent to it.
pub proof fn lemma_neighbors_are_the_adjacent(size: int, coords: Coords, other: CoordsOrEdge)
    requires
        0 < size <= CoordValue::MAX,
        coords.on_board(size),
        other.on_board(size),
    ensures
        neighbors_of(size, coords).contains(other) <==> adjacent(
            size,
            CoordsOrEdge::Coords(coords),
            other,
        ),
{
    let n = neighbors_of(size, coords);
    lemma_neighbors_of(size, coords);
    if adjacent(size, CoordsOrEdge::Coords(coords), other) {
        let k = choose|k: int| 0 <= k < n.len() && n[k] == other;
        assert(0 <= k < n.len() && n[k] == other) by {
            assert(n[0] == other || n[1] == other || n[2] == other || n[3] == other || (n.len() > 4
                && n[4] == other) || (n.len() > 5 && n[5] == other));
        }
    }
    if n.contains(other) {
        let k = choose|k: int| 0 <= k < n.len() && n[k] == other;
        assert(0 <= k < n.len() && n[k] == other);
    }
}

/// Two neighbors of a cell that follow each other in the list are adjacent to
/// each other, unless both are edges; two such edges belong to different players.
pub proof fn lemma_consecutive_neighbors(size: int, coords: Coords, k: int)
    requires
        0 < size <= CoordValue::MAX,
        coords.on_board(size),
        0 <= k < neighbors_of(size, coords).len() - 1,
    ensures
        adjacent(size, neighbors_of(size, coords)[k], neighbors_of(size, coords)[k + 1]) || (
        neighbors_of(size, coords)[k] matches CoordsOrEdge::Edge(first) && neighbors_of(
            size,
            coords,
        )[k + 1] matches CoordsOrEdge::Edge(second) && first.owner() != second.owner()),
{
}

/// The cell in a slot below the slots of the edges lies on the board, and so
/// do its neighbors, whose slots differ from the slot of the cell.
pub proof fn lemma_neighbor_indices(size: int, index: int)
    requires
        0 < size <= CoordValue::MAX,
        0 <= index < cell_count(size),
    ensures
        coords_at(size, index).on_board(size),
        CoordsOrEdge::Coords(coords_at(size, index)) == node_at(size, index),
        index_of_coords(size, coords_at(size, index)) == index,
        forall|k: int|
            0 <= k < neighbor_indices(size, index).len() ==> 0 <= #[trigger] neighbor_indices(
                size,
                index,
            )[k] < size * size + 4 && neighbor_indices(size, index)[k] != index,
{
    lemma_neighbor_slots(size, index);
}

/// The slots of the neighbors can be computed from the slot of the cell alone.
proof fn lemma_neighbor_slots(size: int, index: int)
    requires
        0 < size <= CoordValue::MAX,
        0 <= index < cell_count(size),
    ensures
        coords_at(size, index).on_board(size),
        CoordsOrEdge::Coords(coords_at(size, index)) == node_at(size, index),
        index_of_coords(size, coords_at(size, index)) == index,
        neighbor_indices(size, index) =~= neighbor_slots(size, index),
        forall|k: int|
            0 <= k < neighbor_indices(size, index).len() ==> 0 <= #[trigger] neighbor_indices(
                size,
                index,
            )[k] < size * size + 4 && neighbor_indices(size, index)[k] != index,
{
    lemma_node_at(size, index);
    let coords = coords_at(size, index);
    let row = coords.row as int;
    let column = coords.column as int;
    assert(index == row * size + column);
    assert((row - 1) * size == row * size - size && (row + 1) * size == row * size + size && size
        * (size - 1) == size * size - size) by (nonlinear_arith);
    assert(row == 0 <==> index < size) by (nonlinear_arith)
        requires
            index == row * size + column,
            0 <= row < size,
            0 <= column < size,
    ;
    assert(row == size - 1 <==> index >= size * (size - 1)) by (nonlinear_arith)
        requires
            index == row * size + column,
            0 <= row < size,
            0 <= column < size,
    ;
    lemma_neighbors_of(size, coords);
}

/// The slots of the neighbors as they are computed from the slot of the cell.
spec fn neighbor_slots(size: int, index: int) -> Seq<int> {
    let left = if index % size == 0 {
        size * size
    } else {
        index - 1
    };
    let top_left = if index < size {
        size * size + 1
    } else {
        index - size
    };
    let top_right = index - size + 1;
    let right = if index % size == size - 1 {
        size * size + 2
    } else {
        index + 1
    };
    let bottom_right = if index >= size * (size - 1) {
        size * size + 3
    } else {
        index + size
    };
    let bottom_left = index + size - 1;
    let has_top_right = index >= size && index % size < size - 1;
    let has_bottom_left = index < size * (size - 1) && index % size > 0;
    if has_top_right && has_bottom_left {
        seq![left, top_left, top_right, right, bottom_right, bottom_left]
    } else if has_top_right {
        seq![left, top_left, top_right, right, bottom_right]
    } else if has_bottom_left {
        seq![left, top_left, right, bottom_right, bottom_left]
    } else {
        seq![left, top_left, right, bottom_right]
    }
}

/// Return the slots of the neighbors of the cell in slot `index`, in clockwise
/// order starting at the left neighbor. Neighbors off the board are replaced
/// by the edge that lies there, or left out.
pub fn get_neighbors(cells: &HexCells, index: Index) -> (neighbors: Vec<Index>)
    requires
        index < cell_count(cells.size as int),
    ensures
        neighbors@.map_values(|i: Index| i as int) == neighbor_indices(
            cells.size as int,
            index as int,
        ),
        neighbors@.len() == neighbors_of(
            cells.size as int,
            coords_at(cells.size as int, index as int),
        ).len(),
        forall|k: int|
            0 <= k < neighbors@.len() ==> #[trigger] neighbors@[k] as int == index_of(
                cells.size as int,
                neighbors_of(cells.size as int, coords_at(cells.size as int, index as int))[k],
            ),
{
    assert(0 < cells.size) by (nonlinear_arith)
        requires
            0 <= index < cells.size * cells.size,
    ;
    assert(cells.size * cells.size + 4 <= Index::MAX && cells.size * (cells.size - 1)
        <= cells.size * cells.size) by (nonlinear_arith)
        requires
            0 < cells.size <= CoordValue::MAX,
    ;
    proof {
        lemma_neighbor_slots(cells.size as int, index as int);
    }
    let size = cells.size as Index;
    let mut neighbors: Vec<Index> = Vec::new();
    if index % size == 0 {
        neighbors.push(cells.left());
    } else {
        neighbors.push(index - 1);
    }
    if index < size {
        neighbors.push(cells.top());
    } else {
        neighbors.push(index - size);
    }
    if index >= size && index % size < size - 1 {
        neighbors.push(index - size + 1);
    }
    if index % size == size - 1 {
        neighbors.push(cells.right());
    } else {
        neighbors.push(index + 1);
    }
    if index >= size * (size - 1) {
        neighbors.push(cells.bottom());
    } else {
        neighbors.push(index + size);
    }
    if index < size * (size - 1) && index % size > 0 {
        neighbors.push(index + size - 1);
    }
    assert(neighbors@.map_values(|i: Index| i as int) =~= neighbor_slots(
        cells.size as int,
        index as int,
    ));
    neighbors
}

} // verus!
