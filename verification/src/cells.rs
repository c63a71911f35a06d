use vstd::prelude::*;
use crate::color::Color;
use crate::coords::{CoordValue, Coords};
use crate::edges::Edge;
use crate::hex_cells::{
    index_of_coords, index_of_edge, lemma_index_of_coords, slot_count, Index,
};

verus! {

/// One slot of a grid: the color of its stone, if any, and its parent link.
#[derive(Copy, Clone, Debug, PartialEq, Eq)]
pub struct Cell {
    pub color: Option<Color>,
    pub parent: Option<Index>,
}

impl Default for Cell {
    /// An empty cell without a parent.
    fn default() -> (cell: Self)
        ensures
            cell == (Cell { color: None, parent: None }),
    {
        Cell { color: None, parent: None }
    }
}

impl Cell {
    /// A cell with a stone of the given color and no parent.
    pub fn with_color(color: Color) -> (cell: Self)
        ensures
            cell == (Cell { color: Some(color), parent: None }),
    {
        Self { color: Some(color), parent: None }
    }
}

/// A grid of cells, stored row by row and followed by one slot for each of
/// the four edges: left, top, right, bottom.
#[derive(Clone)]
pub struct Cells {
    pub size: CoordValue,
    pub vector: Vec<Cell>,
}

impl View for Cells {
    type V = Seq<Cell>;

    open spec fn view(&self) -> Seq<Cell> {
        self.vector@
    }
}

impl Cells {
    /// The grid has one slot for each cell and each edge.
    pub open spec fn wf(&self) -> bool {
        self@.len() == slot_count(self.size as int)
    }

    /// Create a grid in which every slot holds the default cell.
    pub fn new(size: CoordValue) -> (cells: Self)
        ensures
            cells.size == size,
            cells.wf(),
            cells@ == Seq::new(
                slot_count(size as int) as nat,
                |i: int| Cell { color: None, parent: None },
            ),
    {
        assert(size * size + 4 <= Index::MAX) by (nonlinear_arith)
            requires
                0 <= size <= CoordValue::MAX,
        ;
        let item_count: Index = (size as Index) * (size as Index) + 4;
        let mut vector: Vec<Cell> = Vec::new();
        let mut count: Index = 0;
        while count < item_count
            invariant
                count <= item_count,
                vector@.len() == count,
                forall|i: int|
                    0 <= i < count ==> #[trigger] vector@[i] == (Cell { color: None, parent: None }),
            decreases item_count - count,
        {
            vector.push(Cell::default());
            count += 1;
        }
        assert(vector@ =~= Seq::new(
            slot_count(size as int) as nat,
            |i: int| Cell { color: None, parent: None },
        ));
        Self { size, vector }
    }

    /// Return the slot of a cell of the grid.
    pub fn index_from_coords(&self, coords: Coords) -> (index: Index)
        requires
            coords.on_board(self.size as int),
        ensures
            index == index_of_coords(self.size as int, coords),
            index < self.size * self.size,
    {
        proof {
            lemma_index_of_coords(self.size as int, coords);
        }
        assert(coords.row * self.size <= Index::MAX - CoordValue::MAX) by (nonlinear_arith)
            requires
                0 <= coords.row < self.size <= CoordValue::MAX,
        ;
        (coords.row as Index) * (self.size as Index) + (coords.column as Index)
    }

    /// Return the slot of the left edge, the first slot after the cells.
    pub fn left(&self) -> (index: Index)
        ensures
            index == index_of_edge(self.size as int, Edge::Left),
    {
        assert(self.size * self.size + 4 <= Index::MAX) by (nonlinear_arith)
            requires
                0 <= self.size <= CoordValue::MAX,
        ;
        let size = self.size as Index;
        size * size
    }

    /// Return the slot of the top edge.
    pub fn top(&self) -> (index: Index)
        ensures
            index == index_of_edge(self.size as int, Edge::Top),
    {
        assert(self.size * self.size + 4 <= Index::MAX) by (nonlinear_arith)
            requires
                0 <= self.size <= CoordValue::MAX,
        ;
        self.left() + 1
    }

    /// Return the slot of the right edge.
    pub fn right(&self) -> (index: Index)
        ensures
            index == index_of_edge(self.size as int, Edge::Right),
    {
        assert(self.size * self.size + 4 <= Index::MAX) by (nonlinear_arith)
            requires
                0 <= self.size <= CoordValue::MAX,
        ;
        self.left() + 2
    }

    /// Return the slot of the bottom edge.
    pub fn bottom(&self) -> (index: Index)
        ensures
            index == index_of_edge(self.size as int, Edge::Bottom),
    {
        assert(self.size * self.size + 4 <= Index::MAX) by (nonlinear_arith)
            requires
                0 <= self.size <= CoordValue::MAX,
        ;
        self.left() + 3
    }

    /// Return what a slot holds.
    pub fn at_index(&self, index: Index) -> (cell: Cell)
        requires
            (index as int) < self@.len(),
        ensures
            cell == self@[index as int],
    {
        self.vector[index as usize]
    }

    /// Return what the slot of a cell of the grid holds.
    pub fn at_coord(&self, coords: Coords) -> (cell: Cell)
        requires
            self.wf(),
            coords.on_board(self.size as int),
        ensures
            cell == self@[index_of_coords(self.size as int, coords)],
    {
        self.at_index(self.index_from_coords(coords))
    }

    /// Replace what a slot holds.
    pub fn set_index(&mut self, index: Index, cell: Cell)
        requires
            (index as int) < old(self)@.len(),
        ensures
            final(self).size == old(self).size,
            final(self)@ == old(self)@.update(index as int, cell),
    {
        self.vector.set(index as usize, cell);
    }
}

} // verus!
