use vstd::prelude::*;
use crate::coords::{CoordValue, Coords};
use crate::hex_cells::{cell_count, index_of_coords, lemma_index_of_coords, Index};

verus! {

/// A square grid of items of any type, stored row by row.
#[derive(Clone)]
pub struct SquareArray<T: Copy + Default> {
    pub size: CoordValue,
    pub items: Vec<T>,
}

impl<T: Copy + Default> View for SquareArray<T> {
    type V = Seq<T>;

    open spec fn view(&self) -> Seq<T> {
        self.items@
    }
}

impl<T: Copy + Default> SquareArray<T> {
    /// The grid has one item for each of its cells.
    pub open spec fn wf(&self) -> bool {
        self@.len() == cell_count(self.size as int)
    }

    /// Create a grid in which every cell holds the default value of the item type.
    pub fn new(size: CoordValue) -> (array: SquareArray<T>)
        ensures
            array.size == size,
            array.wf(),
            forall|i: int|
                0 <= i < array@.len() ==> call_ensures(T::default, (), #[trigger] array@[i]),
            forall|i: int, j: int|
                0 <= i < array@.len() && 0 <= j < array@.len() ==> array@[i] == array@[j],
    {
        assert(size * size <= Index::MAX) by (nonlinear_arith)
            requires
                0 <= size <= CoordValue::MAX,
        ;
        let item_count: Index = (size as Index) * (size as Index);
        let item = T::default();
        let mut items: Vec<T> = Vec::new();
        let mut count: Index = 0;
        while count < item_count
            invariant
                count <= item_count,
                items@.len() == count,
                forall|i: int| 0 <= i < count ==> #[trigger] items@[i] == item,
            decreases item_count - count,
        {
            items.push(item);
            count += 1;
        }
        SquareArray { size, items }
    }

    /// Return the index of the item of a cell of the grid.
    pub fn index_from_coords(&self, coords: Coords) -> (index: Index)
        requires
            coords.on_board(self.size as int),
        ensures
            index == index_of_coords(self.size as int, coords),
            index < cell_count(self.size as int),
    {
        proof {
            lemma_index_of_coords(self.size as int, coords);
        }
        assert(coords.row * self.size <= Index::MAX - CoordValue::MAX) by (nonlinear_arith)
            requires
                0 <= coords.row < self.size <= CoordValue::MAX,
        ;
        (coords.row as Index) * (self.size as Index) + (coords.column as Index)
    }

    /// Return the item at an index.
    pub fn at_index(&self, index: Index) -> (item: T)
        requires
            (index as int) < self@.len(),
        ensures
            item == self@[index as int],
    {
        self.items[index as usize]
    }

    /// Return the item of a cell of the grid.
    pub fn at_coord(&self, coords: Coords) -> (item: T)
        requires
            self.wf(),
            coords.on_board(self.size as int),
        ensures
            item == self@[index_of_coords(self.size as int, coords)],
    {
        self.at_index(self.index_from_coords(coords))
    }

    /// Replace the item at an index.
    pub fn set_index(&mut self, index: Index, value: T)
        requires
            (index as int) < old(self)@.len(),
        ensures
            final(self).size == old(self).size,
            final(self)@ == old(self)@.update(index as int, value),
    {
        self.items.set(index as usize, value);
    }
}

} // verus!
