use vstd::prelude::*;
use vstd::std_specs::convert::IntoSpec;
use vstd::arithmetic::div_mod::lemma_fundamental_div_mod_converse;
use crate::attacked_bridges::{attacked_bridges, find_attacked_bridges};
use crate::color::Color;
use crate::connectivity::{
    color_at, complete_except, connected, connects, lemma_adjacent_connected,
    lemma_connected_symmetric, lemma_connected_transitive, lemma_partition_is_connectivity,
    lemma_same_roots, lemma_stone_keeps_connections, linked, sound,
};
use crate::coords::{CoordValue, Coords};
use crate::edges::{edges_colored, set_edge_colors, with_edge_colors, CoordsOrEdge, Edge};
use crate::errors::{InvalidBoard, InvalidMove};
use crate::hex_cells::{
    cell_count, index_of, index_of_coords, index_of_edge, lemma_index_of, lemma_index_of_coords,
    lemma_node_at, node_at, slot_count, HexCells, Index,
};
use crate::neighbors::{
    adjacent, coords_at, get_neighbors, lemma_consecutive_neighbors, lemma_neighbor_indices,
    lemma_neighbors_are_the_adjacent, lemma_neighbors_of, neighbors_of,
};
use crate::union_find::{
    compressed, is_forest, lemma_compressed_roots, lemma_merged_roots, merged, root_of, same_set,
    UnionFind,
};

verus! {

/// Minimal supported board size.
/// (Some neighbor calculations assume that the size is at least 2.)
pub const MIN_BOARD_SIZE: CoordValue = 2;

/// Maximal supported board size.
pub const MAX_BOARD_SIZE: CoordValue = 19;

/// What a board shows: its size and the color of every slot of its grid, the
/// cells row by row and then the four edges.
pub struct BoardView {
    pub size: int,
    pub colors: Seq<Option<Color>>,
}

impl BoardView {
    /// The size is supported, every slot is there, and each edge has the color
    /// of its owner.
    pub open spec fn wf(self) -> bool {
        &&& MIN_BOARD_SIZE <= self.size <= MAX_BOARD_SIZE
        &&& self.colors.len() == slot_count(self.size)
        &&& edges_colored(self.size, self.colors)
    }

    /// The color of a cell or an edge; `None` for an empty cell.
    pub open spec fn color_of(self, target: CoordsOrEdge) -> Option<Color> {
        color_at(self.size, self.colors, target)
    }

    /// Whether a path of like-colored stones leads from `a` to `b`.
    pub open spec fn connected(self, a: CoordsOrEdge, b: CoordsOrEdge) -> bool {
        connected(self.size, self.colors, a, b)
    }

    /// The board with one more stone.
    pub open spec fn with_stone(self, coords: Coords, color: Color) -> BoardView {
        BoardView {
            size: self.size,
            colors: self.colors.update(index_of_coords(self.size, coords), Some(color)),
        }
    }

    /// Whether a stone may be placed on `coords`, and if not, why not.
    pub open spec fn play_result(self, coords: Coords) -> Result<(), InvalidMove> {
        if !coords.on_board(self.size) {
            Err(InvalidMove::OutOfBounds(coords))
        } else if self.color_of(CoordsOrEdge::Coords(coords)).is_some() {
            Err(InvalidMove::CellOccupied(coords))
        } else {
            Ok(())
        }
    }

    /// The board after an attempt to place a stone: with the stone if the
    /// move is valid, unchanged if it is not.
    pub open spec fn after_play(self, coords: Coords, color: Color) -> BoardView {
        if self.play_result(coords).is_ok() {
            self.with_stone(coords, color)
        } else {
            self
        }
    }
}

/// What a board of the given size shows before the first move: the edges have
/// the colors of their owners, the cells are empty.
pub open spec fn empty_board(size: int) -> BoardView {
    BoardView {
        size,
        colors: with_edge_colors(size, Seq::new(slot_count(size) as nat, |i: int| None::<Color>)),
    }
}

/// On a board without stones nothing is connected but to itself.
pub proof fn lemma_empty_board_unconnected(size: int, a: CoordsOrEdge, b: CoordsOrEdge)
    requires
        is_board_size(size),
        a != b,
    ensures
        !empty_board(size).connected(a, b),
{
    let view = empty_board(size);
    if view.connected(a, b) {
        let path = choose|path: Seq<CoordsOrEdge>| connects(size, view.colors, path, a, b);
        assert(path[0] == a && path[path.len() - 1] == b);
        assert(path[0].on_board(size) && path[1].on_board(size));
        assert(adjacent(size, path[0], path[1]));
        lemma_index_of(size, path[0]);
        lemma_index_of(size, path[1]);
        assert(color_at(size, view.colors, path[0]).is_some());
        assert(color_at(size, view.colors, path[1]).is_some());
        assert(false);
    }
}

/// `Board` represents the Hex board and all placed stones.
///
/// The `play` method can be used to place stones on the board. `Board` has no
/// notion of a current player and will allow to place any amount of stones in
/// any color.
#[derive(Clone)]
pub struct Board {
    cells: HexCells,
}

impl View for Board {
    type V = BoardView;

    closed spec fn view(&self) -> BoardView {
        BoardView { size: self.cells.size as int, colors: self.cells.colors() }
    }
}

impl Board {
    /// The forest of the grid is well formed, joins only what is connected,
    /// and joins all that is adjacent and has the same color but for the pairs
    /// with the slot `except`.
    closed spec fn tracked_except(&self, except: int) -> bool {
        &&& self.cells.wf()
        &&& is_forest(self.cells.links())
        &&& sound(self.cells.size as int, self.cells.colors(), self.cells.links())
        &&& complete_except(self.cells.size as int, self.cells.colors(), self.cells.links(), except)
    }

    /// The sets of the disjoint-set forest are the groups of connected stones.
    pub closed spec fn connectivity_tracked(&self) -> bool {
        self.tracked_except(-1)
    }

    /// The invariant of a board: what it shows is well formed, and it tracks
    /// which stones are connected. `new` and `from_stone_matrix` establish it,
    /// every method keeps it.
    pub open spec fn wf(&self) -> bool {
        &&& self@.wf()
        &&& self.connectivity_tracked()
    }

    /// Whether the two belong to the same set of the disjoint-set forest.
    pub closed spec fn in_same_set(&self, a: CoordsOrEdge, b: CoordsOrEdge) -> bool {
        same_set(
            self.cells.links(),
            index_of(self.cells.size as int, a),
            index_of(self.cells.size as int, b),
        )
    }

    /// On a well-formed board two cells or edges belong to the same set if
    /// and only if a path of like-colored stones connects them.
    pub proof fn lemma_sets_are_connected_groups(&self, a: CoordsOrEdge, b: CoordsOrEdge)
        requires
            self.wf(),
            a.on_board(self@.size),
            b.on_board(self@.size),
        ensures
            self.in_same_set(a, b) <==> self@.connected(a, b),
    {
        lemma_partition_is_connectivity(
            self.cells.size as int,
            self.cells.colors(),
            self.cells.links(),
        );
    }

    /// Create a new board with the given size. Boards are always square.
    pub fn new(size: CoordValue) -> (board: Self)
        requires
            MIN_BOARD_SIZE <= size <= MAX_BOARD_SIZE,
        ensures
            board.wf(),
            board@ == empty_board(size as int),
            forall|coords: Coords|
                coords.on_board(size as int) ==> #[trigger] board@.color_of(
                    CoordsOrEdge::Coords(coords),
                ).is_none(),
    {
        let mut cells = HexCells::new(size);
        set_edge_colors(&mut cells);
        let board = Self { cells };
        proof {
            let n = size as int;
            let colors = board.cells.colors();
            let links = board.cells.links();
            assert forall|a: int, b: int|
                #![trigger same_set(links, a, b)]
                0 <= a < links.len() && 0 <= b < links.len() && same_set(
                    links,
                    a,
                    b,
                ) implies connected(n, colors, node_at(n, a), node_at(n, b)) by {
                assert(root_of(links, a) == a);
                assert(root_of(links, b) == b);
            }
            assert forall|a: int, b: int|
                #![trigger same_set(links, a, b)]
                0 <= a < links.len() && 0 <= b < links.len() && linked(
                    n,
                    colors,
                    a,
                    b,
                ) implies same_set(links, a, b) by {
                lemma_node_at(n, a);
                lemma_node_at(n, b);
            }
            assert(n * n + 4 <= Index::MAX) by (nonlinear_arith)
                requires
                    0 <= n <= MAX_BOARD_SIZE,
            ;
            assert forall|coords: Coords| coords.on_board(n) implies #[trigger] board@.color_of(
                CoordsOrEdge::Coords(coords),
            ).is_none() by {
                lemma_index_of_coords(n, coords);
            }
        }
        board
    }

    /// Return the size of this board. Boards are always square.
    pub fn size(&self) -> (size: CoordValue)
        ensures
            size == self@.size,
    {
        self.cells.size
    }

    /// Return the color at the given coordinates or edge.
    /// If no stone has been placed in the given cell, this method will return None.
    pub fn get_color<T: Into<CoordsOrEdge>>(&self, coords_or_edge: T) -> (color: Option<Color>)
        requires
            self.wf(),
            <T as IntoSpec<CoordsOrEdge>>::obeys_into_spec(),
            <T as IntoSpec<CoordsOrEdge>>::into_spec(coords_or_edge).on_board(self@.size),
        ensures
            color == self@.color_of(<T as IntoSpec<CoordsOrEdge>>::into_spec(coords_or_edge)),
    {
        let target: CoordsOrEdge = coords_or_edge.into();
        let index = self.cells.index_from_coords_or_edge(target);
        self.cells.get_color_at_index(index)
    }

    fn get_color_at_index(&self, index: Index) -> (color: Option<Color>)
        requires
            (index as int) < self@.colors.len(),
        ensures
            color == self@.colors[index as int],
    {
        self.cells.get_color_at_index(index)
    }

    /// Return whether a path of like-colored stones connects the two cells or
    /// edges. The search may shorten the parent links inside the board; what
    /// the board shows and what is connected stay as they are.
    pub fn is_in_same_set<S: Into<CoordsOrEdge>, T: Into<CoordsOrEdge>>(
        &mut self,
        s: S,
        t: T,
    ) -> (same: bool)
        requires
            old(self).wf(),
            <S as IntoSpec<CoordsOrEdge>>::obeys_into_spec(),
            <T as IntoSpec<CoordsOrEdge>>::obeys_into_spec(),
            <S as IntoSpec<CoordsOrEdge>>::into_spec(s).on_board(old(self)@.size),
            <T as IntoSpec<CoordsOrEdge>>::into_spec(t).on_board(old(self)@.size),
        ensures
            final(self).wf(),
            final(self)@ == old(self)@,
            same == old(self)@.connected(
                <S as IntoSpec<CoordsOrEdge>>::into_spec(s),
                <T as IntoSpec<CoordsOrEdge>>::into_spec(t),
            ),
    {
        let a: CoordsOrEdge = s.into();
        let b: CoordsOrEdge = t.into();
        let first = self.cells.index_from_coords_or_edge(a);
        let second = self.cells.index_from_coords_or_edge(b);
        proof {
            self.lemma_sets_are_connected_groups(a, b);
        }
        let ghost size = self.cells.size as int;
        let ghost before = self.cells.links();
        let same = self.cells.is_in_same_set(first, second);
        proof {
            let once = compressed(before, first as int);
            let twice = self.cells.links();
            assert forall|a: int, b: int|
                #![trigger same_set(twice, a, b)]
                0 <= a < before.len() && 0 <= b < before.len() implies (same_set(before, a, b)
                <==> same_set(twice, a, b)) by {
                lemma_compressed_roots(before, first as int, a);
                lemma_compressed_roots(before, first as int, b);
                lemma_compressed_roots(once, second as int, a);
                lemma_compressed_roots(once, second as int, b);
            }
            lemma_compressed_roots(before, first as int, 0);
            lemma_compressed_roots(once, second as int, 0);
            lemma_same_roots(size, self.cells.colors(), before, twice, -1);
        }
        same
    }

    /// Place a stone of the given color on the given cell. The move is
    /// refused, and the board left as it is, if the coordinates are not on
    /// the board or if the cell already holds a stone.
    pub fn play(&mut self, coords: Coords, color: Color) -> (result: Result<(), InvalidMove>)
        requires
            old(self).wf(),
        ensures
            final(self).wf(),
            result == old(self)@.play_result(coords),
            final(self)@ == old(self)@.after_play(coords, color),
            result.is_err() ==> *final(self) == *old(self),
    {
        if coords.row >= self.size() || coords.column >= self.size() {
            return Err(InvalidMove::OutOfBounds(coords));
        }
        let index = self.cells.index_from_coords(coords);
        if self.get_color_at_index(index).is_some() {
            return Err(InvalidMove::CellOccupied(coords));
        }
        let ghost size = self.cells.size as int;
        let ghost before = self.cells.colors();
        let ghost links = self.cells.links();
        self.cells.set_color_at_index(index, color);
        proof {
            let after = self.cells.colors();
            assert forall|a: int, b: int|
                #![trigger same_set(links, a, b)]
                0 <= a < links.len() && 0 <= b < links.len() && same_set(
                    links,
                    a,
                    b,
                ) implies connected(size, after, node_at(size, a), node_at(size, b)) by {
                lemma_stone_keeps_connections(
                    size,
                    before,
                    index as int,
                    color,
                    node_at(size, a),
                    node_at(size, b),
                );
            }
            assert forall|a: int, b: int|
                #![trigger same_set(links, a, b)]
                0 <= a < links.len() && 0 <= b < links.len() && a != index && b != index && linked(
                    size,
                    after,
                    a,
                    b,
                ) implies same_set(links, a, b) by {
                assert(linked(size, before, a, b));
            }
            assert forall|edge: Edge| #[trigger]
                after[index_of_edge(size, edge)] == Some(edge.owner()) by {
                assert(before[index_of_edge(size, edge)] == Some(edge.owner()));
            }
        }
        self.merge_with_neighbors(index, color);
        Ok(())
    }

    /// Merge the set of the stone that was just placed in slot `index` with
    /// the sets of its neighbors of the same color. After one neighbor was
    /// merged, the next one in the list is passed over: if it also has the
    /// same color, it is adjacent to the one before and so belongs to the
    /// same set already.
    fn merge_with_neighbors(&mut self, index: Index, color: Color)
        requires
            old(self)@.wf(),
            old(self).tracked_except(index as int),
            index < cell_count(old(self)@.size),
            old(self)@.colors[index as int] == Some(color),
        ensures
            final(self)@ == old(self)@,
            final(self).connectivity_tracked(),
    {
        let ghost size = self.cells.size as int;
        let ghost colors = self.cells.colors();
        let ghost coords = coords_at(size, index as int);
        let ghost nodes = neighbors_of(size, coords);
        let neighbors = get_neighbors(&self.cells, index);
        proof {
            lemma_neighbor_indices(size, index as int);
            lemma_neighbors_of(size, coords);
            assert forall|j: int| 0 <= j < neighbors@.len() implies {
                &&& #[trigger] neighbors@[j] as int == index_of(size, nodes[j])
                &&& neighbors@[j] != index
                &&& (neighbors@[j] as int) < slot_count(size)
                &&& node_at(size, neighbors@[j] as int) == nodes[j]
                &&& nodes[j].on_board(size)
            } by {
                lemma_index_of(size, nodes[j]);
            }
        }
        let mut k: usize = 0;
        while k < neighbors.len()
            invariant
                self.cells.size as int == size,
                self.cells.colors() == colors,
                self@.wf(),
                self.tracked_except(index as int),
                index < cell_count(size),
                colors[index as int] == Some(color),
                coords == coords_at(size, index as int),
                coords.on_board(size),
                node_at(size, index as int) == CoordsOrEdge::Coords(coords),
                nodes == neighbors_of(size, coords),
                neighbors@.len() == nodes.len(),
                forall|j: int|
                    0 <= j < neighbors@.len() ==> {
                        &&& #[trigger] neighbors@[j] as int == index_of(size, nodes[j])
                        &&& neighbors@[j] != index
                        &&& (neighbors@[j] as int) < slot_count(size)
                        &&& node_at(size, neighbors@[j] as int) == nodes[j]
                        &&& nodes[j].on_board(size)
                    },
                forall|j: int|
                    0 <= j < neighbors@.len() && j < k && colors[#[trigger] neighbors@[j] as int]
                        == Some(color) ==> same_set(
                        self.cells.links(),
                        index as int,
                        neighbors@[j] as int,
                    ),
            decreases neighbors.len() + 1 - k,
        {
            let neighbor = neighbors[k];
            let same_color = match self.get_color_at_index(neighbor) {
                Some(found) => found == color,
                None => false,
            };
            if same_color {
                let ghost links = self.cells.links();
                proof {
                    assert(nodes[k as int] == node_at(size, neighbor as int));
                    lemma_neighbors_are_the_adjacent(size, coords, nodes[k as int]);
                    lemma_merge_step(size, colors, links, index as int, neighbor as int);
                    if k + 1 < neighbors.len() && colors[neighbors@[k + 1] as int] == Some(color) {
                        let next = neighbors@[k + 1] as int;
                        lemma_consecutive_neighbors(size, coords, k as int);
                        assert(node_at(size, neighbor as int) == nodes[k as int]);
                        assert(node_at(size, next) == nodes[k + 1]);
                        if nodes[k as int] is Edge && nodes[k + 1] is Edge {
                            let first = nodes[k as int]->Edge_0;
                            let second = nodes[k + 1]->Edge_0;
                            assert(colors[index_of_edge(size, first)] == Some(first.owner()));
                            assert(colors[index_of_edge(size, second)] == Some(second.owner()));
                        }
                        assert(linked(size, colors, neighbor as int, next));
                        assert(same_set(links, neighbor as int, next));
                    }
                }
                self.cells.merge(index, neighbor);
                proof {
                    let after = self.cells.links();
                    assert forall|j: int|
                        0 <= j < neighbors@.len() && j < k + 2 && colors[#[trigger] neighbors@[j] as int]
                            == Some(color) implies same_set(
                        after,
                        index as int,
                        neighbors@[j] as int,
                    ) by {
                        if j < k {
                            assert(same_set(links, index as int, neighbors@[j] as int));
                        }
                        assert(same_set(after, index as int, neighbors@[j] as int));
                    }
                }
                k = k + 2;
            } else {
                k = k + 1;
            }
        }
        proof {
            let links = self.cells.links();
            assert forall|a: int, b: int|
                #![trigger same_set(links, a, b)]
                0 <= a < links.len() && 0 <= b < links.len() && linked(
                    size,
                    colors,
                    a,
                    b,
                ) implies same_set(links, a, b) by {
                lemma_node_at(size, a);
                lemma_node_at(size, b);
                if a == index || b == index {
                    let other = if a == index {
                        b
                    } else {
                        a
                    };
                    lemma_neighbors_are_the_adjacent(size, coords, node_at(size, other));
                    let j = choose|j: int| 0 <= j < nodes.len() && nodes[j] == node_at(size, other);
                    assert(neighbors@[j] as int == other);
                    assert(same_set(links, index as int, neighbors@[j] as int));
                }
            }
        }
    }
}

/// Merging the sets of a stone and of an adjacent stone of the same color
/// keeps the forest sound and joins no less than before.
proof fn lemma_merge_step(
    size: int,
    colors: Seq<Option<Color>>,
    links: Seq<Option<Index>>,
    stone: int,
    neighbor: int,
)
    requires
        0 < size <= CoordValue::MAX,
        colors.len() == slot_count(size),
        links.len() == slot_count(size),
        is_forest(links),
        sound(size, colors, links),
        complete_except(size, colors, links, stone),
        0 <= stone < slot_count(size),
        0 <= neighbor < slot_count(size),
        linked(size, colors, stone, neighbor),
    ensures
        merged(links, stone, neighbor).len() == links.len(),
        is_forest(merged(links, stone, neighbor)),
        sound(size, colors, merged(links, stone, neighbor)),
        complete_except(size, colors, merged(links, stone, neighbor), stone),
        forall|j: int|
            0 <= j < links.len() && (same_set(links, stone, j) || same_set(links, neighbor, j))
                ==> #[trigger] same_set(merged(links, stone, neighbor), stone, j),
{
    let after = merged(links, stone, neighbor);
    lemma_merged_roots(links, stone, neighbor, stone);
    lemma_node_at(size, stone);
    lemma_node_at(size, neighbor);
    let s = node_at(size, stone);
    let n = node_at(size, neighbor);
    lemma_adjacent_connected(size, colors, s, n);
    lemma_connected_symmetric(size, colors, s, n);
    assert forall|a: int, b: int|
        #![trigger same_set(after, a, b)]
        0 <= a < after.len() && 0 <= b < after.len() && same_set(after, a, b) implies connected(
        size,
        colors,
        node_at(size, a),
        node_at(size, b),
    ) by {
        lemma_merged_roots(links, stone, neighbor, a);
        lemma_merged_roots(links, stone, neighbor, b);
        let x = node_at(size, a);
        let y = node_at(size, b);
        if same_set(links, a, b) {
        } else {
            // both sets were merged: each of the two is connected to the
            // stone or to its neighbor
            let near_a = if same_set(links, stone, a) {
                stone
            } else {
                neighbor
            };
            let near_b = if same_set(links, stone, b) {
                stone
            } else {
                neighbor
            };
            assert(same_set(links, a, near_a));
            assert(same_set(links, near_b, b));
            lemma_connected_transitive(size, colors, x, node_at(size, near_a), node_at(
                size,
                near_b,
            ));
            lemma_connected_transitive(size, colors, x, node_at(size, near_b), y);
        }
    }
    assert forall|a: int, b: int|
        #![trigger same_set(after, a, b)]
        0 <= a < after.len() && 0 <= b < after.len() && a != stone && b != stone && linked(
            size,
            colors,
            a,
            b,
        ) implies same_set(after, a, b) by {
        lemma_merged_roots(links, stone, neighbor, a);
        lemma_merged_roots(links, stone, neighbor, b);
        assert(same_set(links, a, b));
    }
    assert forall|j: int|
        0 <= j < links.len() && (same_set(links, stone, j) || same_set(
            links,
            neighbor,
            j,
        )) implies #[trigger] same_set(after, stone, j) by {
        lemma_merged_roots(links, stone, neighbor, j);
    }
}

/// A board as a matrix of `Option<Color>`, one row after the other. Each
/// entry is the stone on the respective cell, with `None` for an empty cell.
///
/// The following board is `vec![vec![None, Some(Color::Black)], vec![Some(Color::White), None]]`:
/// ```text
///  0  1
/// 0\.  ●\0
///  1\○  .\1
///     0  1
/// ```
pub type StoneMatrix = Vec<Vec<Option<Color>>>;

/// The rows of a stone matrix.
pub open spec fn rows_of(stones: StoneMatrix) -> Seq<Seq<Option<Color>>> {
    stones@.map_values(|row: Vec<Option<Color>>| row@)
}

/// Whether the size of a board is supported.
pub open spec fn is_board_size(size: int) -> bool {
    MIN_BOARD_SIZE <= size <= MAX_BOARD_SIZE
}

/// Whether every row has as many entries as there are rows.
pub open spec fn is_square(rows: Seq<Seq<Option<Color>>>) -> bool {
    forall|r: int| 0 <= r < rows.len() ==> (#[trigger] rows[r]).len() == rows.len()
}

/// Whether `row` is the first row that has more or fewer entries than there are rows.
pub open spec fn is_first_ragged_row(rows: Seq<Seq<Option<Color>>>, row: int) -> bool {
    &&& 0 <= row < rows.len()
    &&& rows[row].len() != rows.len()
    &&& forall|r: int| 0 <= r < row ==> (#[trigger] rows[r]).len() == rows.len()
}

/// Whether the rows are those of a board: a supported number of rows of that length.
pub open spec fn is_stone_matrix(rows: Seq<Seq<Option<Color>>>) -> bool {
    is_board_size(rows.len() as int) && is_square(rows)
}

/// Whether `error` says what is wrong with the rows: the number of rows if it
/// is not supported, else the first row of another length.
pub open spec fn is_matrix_error(rows: Seq<Seq<Option<Color>>>, error: InvalidBoard) -> bool {
    match error {
        InvalidBoard::SizeOutOfBounds(size, min, max) => {
            &&& !is_board_size(rows.len() as int)
            &&& size == rows.len()
            &&& min == MIN_BOARD_SIZE
            &&& max == MAX_BOARD_SIZE
        },
        InvalidBoard::NotSquare(row, size) => {
            &&& is_board_size(rows.len() as int)
            &&& size == rows.len()
            &&& is_first_ragged_row(rows, row as int)
        },
        InvalidBoard::NoCurrentPlayer => false,
    }
}

/// What a board shows that holds the stones of the matrix.
pub open spec fn board_of_matrix(rows: Seq<Seq<Option<Color>>>) -> BoardView {
    let size = rows.len() as int;
    BoardView {
        size,
        colors: Seq::new(
            slot_count(size) as nat,
            |i: int|
                if i < size * size {
                    rows[i / size][i % size]
                } else {
                    Some(node_at(size, i)->Edge_0.owner())
                },
        ),
    }
}

/// The stones of a board as the rows of a matrix.
pub open spec fn matrix_of(view: BoardView) -> Seq<Seq<Option<Color>>> {
    Seq::new(
        view.size as nat,
        |r: int| Seq::new(view.size as nat, |c: int| view.colors[r * view.size + c]),
    )
}

/// All cells of a board, row by row.
pub open spec fn all_cells(size: int) -> Seq<Coords> {
    Seq::new((size * size) as nat, |i: int| coords_at(size, i))
}

/// The test for a cell without a stone.
pub open spec fn is_empty_cell(view: BoardView) -> spec_fn(Coords) -> bool {
    |coords: Coords| view.color_of(CoordsOrEdge::Coords(coords)).is_none()
}

/// The cells without a stone, row by row.
pub open spec fn empty_cells(view: BoardView) -> Seq<Coords> {
    all_cells(view.size).filter(is_empty_cell(view))
}

/// A matrix that is loaded into a board and stored again is the same matrix.
pub proof fn lemma_matrix_round_trip(rows: Seq<Seq<Option<Color>>>)
    requires
        is_stone_matrix(rows),
    ensures
        board_of_matrix(rows).wf(),
        matrix_of(board_of_matrix(rows)) == rows,
{
    let size = rows.len() as int;
    let view = board_of_matrix(rows);
    let back = matrix_of(view);
    assert forall|edge: Edge| #[trigger]
        view.colors[index_of_edge(size, edge)] == Some(edge.owner()) by {
        lemma_index_of(size, CoordsOrEdge::Edge(edge));
    }
    assert forall|r: int| 0 <= r < size implies #[trigger] back[r] == rows[r] by {
        assert forall|c: int| 0 <= c < size implies #[trigger] back[r][c] == rows[r][c] by {
            lemma_fundamental_div_mod_converse(r * size + c, size, r, c);
            assert(r * size + c < size * size) by (nonlinear_arith)
                requires
                    0 <= r < size,
                    0 <= c < size,
            ;
        }
        assert(back[r] =~= rows[r]);
    }
    assert(back =~= rows);
}

/// A move changes nothing but the cell on which the stone is placed: a board
/// stays well formed, the edges keep their colors, and a stone that was
/// placed once is neither replaced nor removed.
pub proof fn lemma_play_keeps_stones(
    view: BoardView,
    coords: Coords,
    color: Color,
    target: CoordsOrEdge,
)
    requires
        view.wf(),
        target.on_board(view.size),
    ensures
        view.after_play(coords, color).wf(),
        view.color_of(target).is_some() || target != CoordsOrEdge::Coords(coords)
            ==> view.after_play(coords, color).color_of(target) == view.color_of(target),
{
    let after = view.after_play(coords, color);
    lemma_index_of(view.size, target);
    if view.play_result(coords).is_ok() {
        lemma_index_of(view.size, CoordsOrEdge::Coords(coords));
        assert forall|edge: Edge| #[trigger]
            after.colors[index_of_edge(view.size, edge)] == Some(edge.owner()) by {
            lemma_index_of(view.size, CoordsOrEdge::Edge(edge));
            assert(view.colors[index_of_edge(view.size, edge)] == Some(edge.owner()));
        }
    }
}

/// A move off the board is refused as out of bounds. Once a move on a cell of
/// the board was tried, every further move on that cell is refused because the
/// cell is occupied, whatever the colors of the two stones.
pub proof fn lemma_play_twice(view: BoardView, coords: Coords, first: Color, second: Color)
    requires
        view.wf(),
    ensures
        !coords.on_board(view.size) ==> view.play_result(coords) == Err::<(), InvalidMove>(
            InvalidMove::OutOfBounds(coords),
        ),
        coords.on_board(view.size) ==> view.after_play(coords, first).play_result(coords) == Err::<
            (),
            InvalidMove,
        >(InvalidMove::CellOccupied(coords)),
        view.after_play(coords, first).after_play(coords, second) == view.after_play(
            coords,
            first,
        ),
{
    if coords.on_board(view.size) {
        lemma_index_of_coords(view.size, coords);
    }
}

/// Return the size if it is supported, and say so if it is not.
pub fn check_board_size(input: usize) -> (result: Result<CoordValue, InvalidBoard>)
    ensures
        match result {
            Ok(size) => is_board_size(input as int) && size == input,
            Err(error) => !is_board_size(input as int) && error == InvalidBoard::SizeOutOfBounds(
                input,
                MIN_BOARD_SIZE,
                MAX_BOARD_SIZE,
            ),
        },
{
    if MIN_BOARD_SIZE as usize <= input && input <= MAX_BOARD_SIZE as usize {
        Ok(input as CoordValue)
    } else {
        Err(InvalidBoard::SizeOutOfBounds(input, MIN_BOARD_SIZE, MAX_BOARD_SIZE))
    }
}

impl Board {
    /// Load a board from a `StoneMatrix`. The stones are placed one by one,
    /// row by row, as `play` places them.
    pub fn from_stone_matrix(stones: StoneMatrix) -> (result: Result<Self, InvalidBoard>)
        ensures
            match result {
                Ok(board) => {
                    &&& is_stone_matrix(rows_of(stones))
                    &&& board.wf()
                    &&& board@ == board_of_matrix(rows_of(stones))
                },
                Err(error) => is_matrix_error(rows_of(stones), error),
            },
    {
        let size = match check_board_size(stones.len()) {
            Ok(size) => size,
            Err(error) => {
                return Err(error);
            },
        };
        let mut board = Self::new(size);
        let ghost rows = rows_of(stones);
        let ghost target = board_of_matrix(rows);
        let ghost n = size as int;
        proof {
            assert forall|i: int| 0 <= i < n * n implies (#[trigger] board@.colors[i]).is_none() by {
                lemma_node_at(n, i);
                assert(board@.color_of(CoordsOrEdge::Coords(node_at(n, i)->Coords_0)).is_none());
            }
        }
        let mut row: CoordValue = 0;
        while row < size
            invariant
                row <= size,
                n == size,
                n == stones@.len(),
                is_board_size(n),
                rows == rows_of(stones),
                target == board_of_matrix(rows),
                board.wf(),
                board@.size == n,
                forall|r: int| 0 <= r < row ==> (#[trigger] rows[r]).len() == n,
                forall|i: int|
                    0 <= i < n * n ==> #[trigger] board@.colors[i] == (if i < row * n {
                        target.colors[i]
                    } else {
                        None
                    }),
            decreases size - row,
        {
            let stones_in_row = &stones[row as usize];
            assert(rows[row as int] == stones_in_row@);
            if stones_in_row.len() != size as usize {
                return Err(InvalidBoard::NotSquare(row, size));
            }
            let mut column: CoordValue = 0;
            while column < size
                invariant
                    row < size,
                    column <= size,
                    n == size,
                    is_board_size(n),
                    rows.len() == n,
                    stones_in_row@ == rows[row as int],
                    stones_in_row@.len() == n,
                    target == board_of_matrix(rows),
                    board.wf(),
                    board@.size == n,
                    forall|i: int|
                        0 <= i < n * n ==> #[trigger] board@.colors[i] == (if i < row * n + column {
                            target.colors[i]
                        } else {
                            None
                        }),
                decreases size - column,
            {
                let coords = Coords { row, column };
                let cell = stones_in_row[column as usize];
                proof {
                    lemma_index_of_coords(n, coords);
                }
                let ghost before = board@;
                if let Some(color) = cell {
                    let played = board.play(coords, color);
                }
                proof {
                    let slot = row * n + column;
                    assert(before.colors[slot].is_none());
                    assert(target.colors[slot] == rows[row as int][column as int]);
                    assert(cell == rows[row as int][column as int]);
                    assert forall|i: int| 0 <= i < n * n implies #[trigger] board@.colors[i] == (
                    if i < slot + 1 {
                        target.colors[i]
                    } else {
                        None
                    }) by {
                        assert(before.colors[i] == (if i < slot {
                            target.colors[i]
                        } else {
                            None
                        }));
                    }
                }
                column = column + 1;
            }
            proof {
                assert(row * n + n == (row + 1) * n) by (nonlinear_arith);
            }
            row = row + 1;
        }
        proof {
            assert forall|i: int| 0 <= i < slot_count(n) implies #[trigger] board@.colors[i]
                == target.colors[i] by {
                if i >= n * n {
                    lemma_node_at(n, i);
                    let edge = node_at(n, i)->Edge_0;
                    assert(board@.colors[index_of_edge(n, edge)] == Some(edge.owner()));
                }
            }
            assert(board@.colors =~= target.colors);
        }
        Ok(board)
    }

    /// Convert this board to a `StoneMatrix`.
    pub fn to_stone_matrix(&self) -> (stones: StoneMatrix)
        requires
            self.wf(),
        ensures
            rows_of(stones) == matrix_of(self@),
    {
        let size = self.size();
        let ghost n = size as int;
        let mut stones: Vec<Vec<Option<Color>>> = Vec::new();
        let mut row: CoordValue = 0;
        while row < size
            invariant
                self.wf(),
                n == size,
                n == self@.size,
                row <= size,
                stones@.len() == row,
                forall|r: int| 0 <= r < row ==> (#[trigger] stones@[r])@ == matrix_of(self@)[r],
            decreases size - row,
        {
            let mut stones_in_row: Vec<Option<Color>> = Vec::new();
            let mut column: CoordValue = 0;
            while column < size
                invariant
                    self.wf(),
                    n == size,
                    n == self@.size,
                    row < size,
                    column <= size,
                    stones_in_row@.len() == column,
                    forall|c: int|
                        0 <= c < column ==> #[trigger] stones_in_row@[c] == self@.colors[row * n
                            + c],
                decreases size - column,
            {
                let index = self.cells.index_from_coords(Coords::new(row, column));
                stones_in_row.push(self.get_color_at_index(index));
                column = column + 1;
            }
            assert(stones_in_row@ =~= matrix_of(self@)[row as int]);
            stones.push(stones_in_row);
            row = row + 1;
        }
        assert(rows_of(stones) =~= matrix_of(self@));
        stones
    }

    /// Return all empty cells, row by row.
    pub fn get_empty_cells(&self) -> (cells: Vec<Coords>)
        requires
            self.wf(),
        ensures
            cells@ == empty_cells(self@),
    {
        let size = self.size();
        let ghost n = size as int;
        let ghost all = all_cells(n);
        let ghost test = is_empty_cell(self@);
        let mut result: Vec<Coords> = Vec::new();
        assert(all.take(0) =~= Seq::<Coords>::empty());
        assert(Seq::<Coords>::empty().filter(test) =~= Seq::<Coords>::empty()) by {
            Seq::<Coords>::empty().lemma_filter_len(test);
        }
        let mut row: CoordValue = 0;
        while row < size
            invariant
                self.wf(),
                n == size,
                n == self@.size,
                all == all_cells(n),
                test == is_empty_cell(self@),
                row <= size,
                result@ == all.take(row * n).filter(test),
            decreases size - row,
        {
            let mut column: CoordValue = 0;
            while column < size
                invariant
                    self.wf(),
                    n == size,
                    n == self@.size,
                    all == all_cells(n),
                    test == is_empty_cell(self@),
                    row < size,
                    column <= size,
                    result@ == all.take(row * n + column).filter(test),
                decreases size - column,
            {
                let coords = Coords { row, column };
                proof {
                    lemma_index_of_coords(n, coords);
                    let slot = row * n + column;
                    assert(coords_at(n, slot) == coords);
                    assert(all.take(slot + 1) =~= all.take(slot).push(coords));
                    all.take(slot).lemma_filter_push(coords, test);
                }
                let index = self.cells.index_from_coords(coords);
                if self.get_color_at_index(index).is_none() {
                    result.push(coords);
                }
                column = column + 1;
            }
            proof {
                assert(row * n + n == (row + 1) * n) by (nonlinear_arith);
            }
            row = row + 1;
        }
        assert(all.take(n * n) =~= all);
        result
    }

    /// Return all bridges that are attacked by the stone on `coords`.
    ///
    /// A bridge is the most common virtual connection pattern in Hex. In the
    /// following example, White cannot prevent Black from connecting their
    /// stones: if White places a stone between the black stones, Black may
    /// just choose the other cell between the black stones.
    /// ```text
    ///  a  b  c
    /// 1\.  .  .\1
    ///  2\.  .  ●\2
    ///   3\●  .  .\3
    ///      a  b  c
    /// ```
    ///
    /// This method assumes that one player has just played on `coords`. It
    /// computes all bridges of the other player that are being attacked by
    /// this move. For each attacked bridge, the free cell in the middle is
    /// returned. Bridges that connect a stone to one of the attacked player's
    /// own edges are found too. If the cell at `coords` is empty, the list is
    /// empty.
    pub fn find_attacked_bridges(&self, coords: Coords) -> (bridges: Vec<Coords>)
        requires
            self.wf(),
            coords.on_board(self@.size),
        ensures
            bridges@ == attacked_bridges(self@.size, self@.colors, coords),
    {
        find_attacked_bridges(&self.cells, coords)
    }
}

} // verus!
