use vstd::prelude::*;
use crate::color::Color;
use crate::connectivity::color_at;
use crate::coords::Coords;
use crate::edges::{edges_colored, CoordsOrEdge};
use crate::hex_cells::{
    index_of, index_of_edge, lemma_index_of, lemma_index_of_coords, HexCells,
};
use crate::neighbors::{
    coords_at, get_neighbors, lemma_neighbor_indices, lemma_neighbors_of, neighbors_of,
};

verus! {

/// The neighbors of a cell in clockwise order, followed once more by the
/// first two of them: every run of three neighbors around the cell shows up
/// as three entries in a row.
pub open spec fn ring_of(size: int, coords: Coords) -> Seq<CoordsOrEdge> {
    neighbors_of(size, coords) + neighbors_of(size, coords).subrange(0, 2)
}

/// Whether the three entries of the ring that end at `position` form a bridge
/// of the defender: a stone or edge of the defender, an empty cell, and
/// another stone or edge of the defender.
pub open spec fn bridge_ends_at(
    size: int,
    colors: Seq<Option<Color>>,
    ring: Seq<CoordsOrEdge>,
    defender: Color,
    position: int,
) -> bool {
    &&& 2 <= position < ring.len()
    &&& color_at(size, colors, ring[position - 2]) == Some(defender)
    &&& color_at(size, colors, ring[position - 1]).is_none()
    &&& color_at(size, colors, ring[position]) == Some(defender)
}

/// The empty cells in the middle of the bridges that end before `upto`, in
/// the order of the ring.
pub open spec fn midpoints(
    size: int,
    colors: Seq<Option<Color>>,
    ring: Seq<CoordsOrEdge>,
    defender: Color,
    upto: int,
) -> Seq<Coords>
    decreases upto,
{
    if upto <= 2 {
        Seq::empty()
    } else {
        let before = midpoints(size, colors, ring, defender, upto - 1);
        if bridge_ends_at(size, colors, ring, defender, upto - 1) {
            before.push(ring[upto - 2]->Coords_0)
        } else {
            before
        }
    }
}

/// The bridges that the stone on `coords` attacks: for every two neighbors of
/// the stone that belong to the other player and have exactly one neighbor of
/// the stone between them, which is empty, that empty cell. They come in
/// clockwise order, starting with the top left neighbor and ending with the
/// left one. Without a stone on `coords` nothing is attacked.
pub open spec fn attacked_bridges(size: int, colors: Seq<Option<Color>>, coords: Coords) -> Seq<
    Coords,
> {
    match color_at(size, colors, CoordsOrEdge::Coords(coords)) {
        None => Seq::empty(),
        Some(attacker) => midpoints(
            size,
            colors,
            ring_of(size, coords),
            attacker.opponent(),
            ring_of(size, coords).len() as int,
        ),
    }
}

/// How much of the pattern (defender, empty, defender) the last entries of
/// the ring make up.
enum FindAttackedBridgesState {
    Found0,
    Found1,
    Found2,
}

/// What the search has found after the first `position` entries of the ring.
spec fn state_at(
    size: int,
    colors: Seq<Option<Color>>,
    ring: Seq<CoordsOrEdge>,
    defender: Color,
    position: int,
) -> FindAttackedBridgesState {
    if position >= 1 && color_at(size, colors, ring[position - 1]) == Some(defender) {
        FindAttackedBridgesState::Found1
    } else if position >= 2 && color_at(size, colors, ring[position - 1]).is_none() && color_at(
        size,
        colors,
        ring[position - 2],
    ) == Some(defender) {
        FindAttackedBridgesState::Found2
    } else {
        FindAttackedBridgesState::Found0
    }
}

/// Return all bridges that are attacked by the stone on `coords`: for each of
/// them the empty cell in its middle, on which the attacked player can keep
/// the bridge connected. A bridge may lead to an edge of the attacked player,
/// and one stone may belong to two bridges.
pub fn find_attacked_bridges(cells: &HexCells, coords: Coords) -> (bridges: Vec<Coords>)
    requires
        cells.wf(),
        coords.on_board(cells.size as int),
        edges_colored(cells.size as int, cells.colors()),
    ensures
        bridges@ == attacked_bridges(cells.size as int, cells.colors(), coords),
{
    let ghost size = cells.size as int;
    let ghost colors = cells.colors();
    let center_index = cells.index_from_coords(coords);
    let search_color = match cells.get_color_at_index(center_index) {
        None => {
            return Vec::new();
        },
        Some(color) => color.opponent_color(),
    };
    let ghost ring = ring_of(size, coords);
    let mut neighbors = get_neighbors(cells, center_index);
    proof {
        lemma_index_of_coords(size, coords);
        lemma_neighbor_indices(size, center_index as int);
        lemma_neighbors_of(size, coords);
        assert(coords_at(size, center_index as int) == coords);
    }
    let first = neighbors[0];
    let second = neighbors[1];
    neighbors.push(first);
    neighbors.push(second);
    proof {
        assert forall|j: int| 0 <= j < ring.len() implies {
            &&& #[trigger] neighbors@[j] as int == index_of(size, ring[j])
            &&& ring[j].on_board(size)
        } by {
            let count = neighbors_of(size, coords).len();
            if j >= count {
                assert(ring[j] == neighbors_of(size, coords)[j - count]);
            } else {
                assert(ring[j] == neighbors_of(size, coords)[j]);
            }
        }
    }
    let mut result: Vec<Coords> = Vec::new();
    let mut state = FindAttackedBridgesState::Found0;
    let mut i: usize = 0;
    while i < neighbors.len()
        invariant
            cells.wf(),
            size == cells.size as int,
            colors == cells.colors(),
            0 < size,
            edges_colored(size, colors),
            neighbors@.len() == ring.len(),
            i <= neighbors@.len(),
            forall|j: int|
                0 <= j < ring.len() ==> {
                    &&& #[trigger] neighbors@[j] as int == index_of(size, ring[j])
                    &&& ring[j].on_board(size)
                },
            state == state_at(size, colors, ring, search_color, i as int),
            result@ == midpoints(size, colors, ring, search_color, i as int),
        decreases neighbors.len() - i,
    {
        let neighbor = neighbors[i];
        proof {
            lemma_index_of(size, ring[i as int]);
        }
        let color = cells.get_color_at_index(neighbor);
        let matches_search = match color {
            Some(found) => found == search_color,
            None => false,
        };
        match state {
            FindAttackedBridgesState::Found0 => {
                if matches_search {
                    state = FindAttackedBridgesState::Found1;
                }
            },
            FindAttackedBridgesState::Found1 => {
                if color.is_none() {
                    state = FindAttackedBridgesState::Found2;
                } else if !matches_search {
                    state = FindAttackedBridgesState::Found0;
                }
            },
            FindAttackedBridgesState::Found2 => {
                if matches_search {
                    proof {
                        let middle = ring[i - 1];
                        assert(neighbors@[i - 1] as int == index_of(size, middle));
                        lemma_index_of(size, middle);
                        if let CoordsOrEdge::Edge(edge) = middle {
                            assert(colors[index_of_edge(size, edge)] == Some(edge.owner()));
                        }
                    }
                    result.push(cells.coords_from_index(neighbors[i - 1]));
                    state = FindAttackedBridgesState::Found1;
                } else {
                    state = FindAttackedBridgesState::Found0;
                }
            },
        }
        i = i + 1;
    }
    result
}

} // verus!
