use vstd::prelude::*;
use vstd::arithmetic::div_mod::lemma_fundamental_div_mod_converse;
use crate::color::Color;
use crate::coords::{CoordValue, Coords};
use crate::edges::{CoordsOrEdge, Edge};
use crate::union_find::UnionFind;
pub use crate::union_find::Index;

verus! {

/// The number of cells of a board with `size` rows and columns.
pub open spec fn cell_count(size: int) -> int {
    size * size
}

/// The number of slots of the grid: one per cell, then one per edge.
pub open spec fn slot_count(size: int) -> int {
    size * size + 4
}

/// The slot of a cell: the cells fill the first slots, row by row.
pub open spec fn index_of_coords(size: int, coords: Coords) -> int {
    coords.row * size + coords.column
}

/// The slot of an edge: the four edges follow the cells, in the order left,
/// top, right, bottom.
pub open spec fn index_of_edge(size: int, edge: Edge) -> int {
    size * size + match edge {
        Edge::Left => 0int,
        Edge::Top => 1int,
        Edge::Right => 2int,
        Edge::Bottom => 3int,
    }
}

/// The slot of a cell or of an edge.
pub open spec fn index_of(size: int, target: CoordsOrEdge) -> int {
    match target {
        CoordsOrEdge::Coords(coords) => index_of_coords(size, coords),
        CoordsOrEdge::Edge(edge) => index_of_edge(size, edge),
    }
}

/// The cell or edge that a slot stands for.
pub open spec fn node_at(size: int, index: int) -> CoordsOrEdge {
    if index < size * size {
        CoordsOrEdge::Coords(
            Coords { row: (index / size) as CoordValue, column: (index % size) as CoordValue },
        )
    } else if index == size * size {
        CoordsOrEdge::Edge(Edge::Left)
    } else if index == size * size + 1 {
        CoordsOrEdge::Edge(Edge::Top)
    } else if index == size * size + 2 {
        CoordsOrEdge::Edge(Edge::Right)
    } else {
        CoordsOrEdge::Edge(Edge::Bottom)
    }
}

/// The slot of a cell of the board lies below the slots of the edges, and the
/// cell is found again from its slot.
pub proof fn lemma_index_of_coords(size: int, coords: Coords)
    requires
        0 < size <= CoordValue::MAX,
        coords.on_board(size),
    ensures
        0 <= index_of_coords(size, coords) < cell_count(size),
        index_of_coords(size, coords) / size == coords.row,
        index_of_coords(size, coords) % size == coords.column,
        node_at(size, index_of_coords(size, coords)) == CoordsOrEdge::Coords(coords),
{
    let row = coords.row as int;
    let column = coords.column as int;
    assert(0 <= row * size + column < size * size) by (nonlinear_arith)
        requires
            0 <= row < size,
            0 <= column < size,
    ;
    lemma_fundamental_div_mod_converse(row * size + column, size, row, column);
}

/// Every slot stands for a cell or an edge of the board, whose slot it is.
pub proof fn lemma_node_at(size: int, index: int)
    requires
        0 < size <= CoordValue::MAX,
        0 <= index < slot_count(size),
    ensures
        node_at(size, index).on_board(size),
        index_of(size, node_at(size, index)) == index,
        index < cell_count(size) <==> node_at(size, index) is Coords,
{
    if index < size * size {
        assert(0 <= index / size < size && 0 <= index % size < size && index == (index / size)
            * size + index % size) by (nonlinear_arith)
            requires
                0 <= index < size * size,
                0 < size,
        ;
    }
}

/// The slot of a cell or an edge of the board is a slot of the grid, from
/// which the cell or edge is found again.
pub proof fn lemma_index_of(size: int, target: CoordsOrEdge)
    requires
        0 < size <= CoordValue::MAX,
        target.on_board(size),
    ensures
        0 <= index_of(size, target) < slot_count(size),
        node_at(size, index_of(size, target)) == target,
        target is Coords <==> index_of(size, target) < cell_count(size),
{
    match target {
        CoordsOrEdge::Coords(coords) => {
            lemma_index_of_coords(size, coords);
        },
        CoordsOrEdge::Edge(_) => {
            assert(size * size >= 0) by (nonlinear_arith);
        },
    }
}

/// What the grid holds for one slot.
#[derive(Clone, Copy, Debug, PartialEq, Eq)]
pub struct HexCell {
    /// The color of the stone or of the edge; `None` for an empty cell.
    pub color: Option<Color>,
    /// The parent link in the disjoint-set forest; `None` for a root.
    pub parent: Option<Index>,
}

/// The grid of a board: for every cell and every edge its color, if any, and
/// its parent link in the disjoint-set forest of connected stones.
///
/// The layout is `[cells by index = row * size + column; left, top, right, bottom]`.
#[derive(Clone)]
pub struct HexCells {
    pub size: CoordValue,
    pub vector: Vec<HexCell>,
}

impl HexCells {
    /// The color of every slot; `None` marks an empty one.
    pub open spec fn colors(&self) -> Seq<Option<Color>> {
        Seq::new(self.vector@.len(), |i: int| self.vector@[i].color)
    }

    /// The parent link of every slot; `None` marks a root.
    pub open spec fn links(&self) -> Seq<Option<Index>> {
        Seq::new(self.vector@.len(), |i: int| self.vector@[i].parent)
    }

    /// The grid has one slot for each cell and each edge of its board.
    pub open spec fn wf(&self) -> bool {
        &&& self.colors().len() == slot_count(self.size as int)
        &&& self.links().len() == slot_count(self.size as int)
    }

    /// The color of a cell or an edge.
    pub open spec fn color_of(&self, target: CoordsOrEdge) -> Option<Color> {
        self.colors()[index_of(self.size as int, target)]
    }

    /// Create the grid of an empty board: no slot has a color or a parent.
    pub fn new(size: CoordValue) -> (cells: Self)
        ensures
            cells.size == size,
            cells.wf(),
            cells.colors() == Seq::new(slot_count(size as int) as nat, |i: int| None::<Color>),
            cells.links() == Seq::new(slot_count(size as int) as nat, |i: int| None::<Index>),
    {
        assert(size * size + 4 <= Index::MAX) by (nonlinear_arith)
            requires
                0 <= size <= CoordValue::MAX,
        ;
        let item_count: Index = (size as Index) * (size as Index) + 4;
        let mut vector: Vec<HexCell> = Vec::new();
        let mut count: Index = 0;
        while count < item_count
            invariant
                count <= item_count,
                vector@.len() == count,
                forall|i: int|
                    0 <= i < count ==> #[trigger] vector@[i] == (HexCell {
                        color: None,
                        parent: None,
                    }),
            decreases item_count - count,
        {
            vector.push(HexCell { color: None, parent: None });
            count += 1;
        }
        let cells = Self { size, vector };
        cells
    }

    /// Return the slot of a cell of the board.
    pub fn index_from_coords(&self, coords: Coords) -> (index: Index)
        requires
            coords.on_board(self.size as int),
        ensures
            index == index_of_coords(self.size as int, coords),
            index < cell_count(self.size as int),
    {
        proof {
            lemma_index_of_coords(self.size as int, coords);
        }
        assert(coords.row * self.size <= Index::MAX - CoordValue::MAX) by (nonlinear_arith)
            requires
                0 <= coords.row < self.size <= CoordValue::MAX,
        ;
        (coords.row as Index) * (self.size as Index) + (coords.column as Index)
    }

    /// Return the cell or edge that a slot stands for.
    pub fn decode_index(&self, index: Index) -> (target: CoordsOrEdge)
        requires
            index < slot_count(self.size as int),
        ensures
            target == node_at(self.size as int, index as int),
            target.on_board(self.size as int),
            index_of(self.size as int, target) == index,
    {
        let size = self.size as Index;
        let first_edge_index = self.index_from_edge(Edge::Left);
        proof {
            if self.size > 0 {
                lemma_node_at(self.size as int, index as int);
            }
        }
        if index < first_edge_index {
            assert(size > 0) by (nonlinear_arith)
                requires
                    index < size * size,
            ;
            CoordsOrEdge::Coords(
                Coords { row: (index / size) as CoordValue, column: (index % size) as CoordValue },
            )
        } else {
            let offset = index - first_edge_index;
            if offset == 0 {
                CoordsOrEdge::Edge(Edge::Left)
            } else if offset == 1 {
                CoordsOrEdge::Edge(Edge::Top)
            } else if offset == 2 {
                CoordsOrEdge::Edge(Edge::Right)
            } else {
                CoordsOrEdge::Edge(Edge::Bottom)
            }
        }
    }

    /// Return the cell that a slot below the slots of the edges stands for.
    pub fn coords_from_index(&self, index: Index) -> (coords: Coords)
        requires
            index < cell_count(self.size as int),
        ensures
            CoordsOrEdge::Coords(coords) == node_at(self.size as int, index as int),
            coords.on_board(self.size as int),
            index_of_coords(self.size as int, coords) == index,
    {
        match self.decode_index(index) {
            CoordsOrEdge::Coords(coords) => coords,
            CoordsOrEdge::Edge(_) => Coords { row: 0, column: 0 },
        }
    }

    /// Return the slot of an edge.
    pub fn index_from_edge(&self, edge: Edge) -> (index: Index)
        ensures
            index == index_of_edge(self.size as int, edge),
            cell_count(self.size as int) <= index < slot_count(self.size as int),
    {
        assert(self.size * self.size + 4 <= Index::MAX) by (nonlinear_arith)
            requires
                0 <= self.size <= CoordValue::MAX,
        ;
        let start = (self.size as Index) * (self.size as Index);
        match edge {
            Edge::Left => start,
            Edge::Top => start + 1,
            Edge::Right => start + 2,
            Edge::Bottom => start + 3,
        }
    }

    /// Return the slot of the left edge.
    pub fn left(&self) -> (index: Index)
        ensures
            index == index_of_edge(self.size as int, Edge::Left),
    {
        self.index_from_edge(Edge::Left)
    }

    /// Return the slot of the top edge.
    pub fn top(&self) -> (index: Index)
        ensures
            index == index_of_edge(self.size as int, Edge::Top),
    {
        self.index_from_edge(Edge::Top)
    }

    /// Return the slot of the right edge.
    pub fn right(&self) -> (index: Index)
        ensures
            index == index_of_edge(self.size as int, Edge::Right),
    {
        self.index_from_edge(Edge::Right)
    }

    /// Return the slot of the bottom edge.
    pub fn bottom(&self) -> (index: Index)
        ensures
            index == index_of_edge(self.size as int, Edge::Bottom),
    {
        self.index_from_edge(Edge::Bottom)
    }

    /// Return the slot of a cell of the board or of an edge.
    pub fn index_from_coords_or_edge(&self, coords_or_edge: CoordsOrEdge) -> (index: Index)
        requires
            coords_or_edge.on_board(self.size as int),
        ensures
            index == index_of(self.size as int, coords_or_edge),
            index < slot_count(self.size as int),
    {
        match coords_or_edge {
            CoordsOrEdge::Coords(coords) => self.index_from_coords(coords),
            CoordsOrEdge::Edge(edge) => self.index_from_edge(edge),
        }
    }

    /// Return the color of a cell of the board.
    pub fn get_color_at_coords(&self, coords: Coords) -> (color: Option<Color>)
        requires
            self.wf(),
            coords.on_board(self.size as int),
        ensures
            color == self.color_of(CoordsOrEdge::Coords(coords)),
    {
        self.get_color_at_index(self.index_from_coords(coords))
    }

    /// Return the color of a slot.
    pub fn get_color_at_index(&self, index: Index) -> (color: Option<Color>)
        requires
            (index as int) < self.colors().len(),
        ensures
            color == self.colors()[index as int],
    {
        self.vector[index as usize].color
    }

    /// Give a cell of the board a color.
    pub fn set_color_at_coords(&mut self, coords: Coords, color: Color)
        requires
            old(self).wf(),
            coords.on_board(old(self).size as int),
        ensures
            final(self).size == old(self).size,
            final(self).colors() == old(self).colors().update(
                index_of_coords(old(self).size as int, coords),
                Some(color),
            ),
            final(self).links() == old(self).links(),
            final(self).wf(),
    {
        let index = self.index_from_coords(coords);
        self.set_color_at_index(index, color)
    }

    /// Give a slot a color.
    pub fn set_color_at_index(&mut self, index: Index, color: Color)
        requires
            (index as int) < old(self).colors().len(),
        ensures
            final(self).size == old(self).size,
            final(self).colors() == old(self).colors().update(index as int, Some(color)),
            final(self).links() == old(self).links(),
    {
        let cell = self.vector[index as usize];
        self.vector.set(index as usize, HexCell { color: Some(color), parent: cell.parent });
    }

    /// Return the parent link of a slot.
    pub fn get_parent_at_index(&self, index: Index) -> (parent: Option<Index>)
        requires
            (index as int) < self.links().len(),
        ensures
            parent == self.links()[index as int],
    {
        self.vector[index as usize].parent
    }

    /// Link a slot below another one.
    pub fn set_parent_at_index(&mut self, index: Index, parent: Index)
        requires
            (index as int) < old(self).links().len(),
        ensures
            final(self).size == old(self).size,
            final(self).links() == old(self).links().update(index as int, Some(parent)),
            final(self).colors() == old(self).colors(),
    {
        let cell = self.vector[index as usize];
        self.vector.set(index as usize, HexCell { color: cell.color, parent: Some(parent) });
    }
}

impl UnionFind for HexCells {
    type Payload = (CoordValue, Seq<Option<Color>>);

    open spec fn parents(&self) -> Seq<Option<Index>> {
        self.links()
    }

    open spec fn payload(&self) -> (CoordValue, Seq<Option<Color>>) {
        (self.size, self.colors())
    }

    fn get_parent(&self, item: Index) -> (parent: Option<Index>) {
        self.get_parent_at_index(item)
    }

    fn set_parent(&mut self, index: Index, parent: Index) {
        self.set_parent_at_index(index, parent);
    }
}

} // verus!
