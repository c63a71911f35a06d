use vstd::prelude::*;
use vstd::std_specs::convert::FromSpecImpl;
use crate::color::Color;
use crate::coords::Coords;
use crate::hex_cells::{index_of_edge, HexCells};

verus! {

/// Represents the four edges of the board.
///
/// The top and bottom edge belong to player `Black`, the other two edges
/// belong to player `White`.
#[derive(Clone, Copy, Debug, PartialEq, Eq, Structural)]
pub enum Edge {
    Left,
    Top,
    Right,
    Bottom,
}

impl Edge {
    /// The player who owns this edge.
    pub open spec fn owner(self) -> Color {
        match self {
            Edge::Top | Edge::Bottom => Color::Black,
            Edge::Left | Edge::Right => Color::White,
        }
    }
}

/// The two edges that `color` has to connect.
pub open spec fn edges_of(color: Color) -> (Edge, Edge) {
    match color {
        Color::Black => (Edge::Top, Edge::Bottom),
        Color::White => (Edge::Left, Edge::Right),
    }
}

/// Return the two edges that the given player has to connect.
pub fn get_edges_of_color(color: Color) -> (edges: [Edge; 2])
    ensures
        edges[0] == edges_of(color).0,
        edges[1] == edges_of(color).1,
        edges[0].owner() == color,
        edges[1].owner() == color,
{
    match color {
        Color::Black => [Edge::Top, Edge::Bottom],
        Color::White => [Edge::Left, Edge::Right],
    }
}

/// Represents either a cell of the board or an edge.
/// This type is used in a few places that may take or return both coords and edges.
#[derive(Clone, Copy, Debug, PartialEq, Eq, Structural)]
pub enum CoordsOrEdge {
    Coords(Coords),
    Edge(Edge),
}

impl CoordsOrEdge {
    /// Whether this names a cell or an edge of a board with `size` rows and columns.
    pub open spec fn on_board(self, size: int) -> bool {
        match self {
            CoordsOrEdge::Coords(coords) => coords.on_board(size),
            CoordsOrEdge::Edge(_) => true,
        }
    }
}

impl From<Edge> for CoordsOrEdge {
    fn from(edge: Edge) -> (target: CoordsOrEdge) {
        CoordsOrEdge::Edge(edge)
    }
}

impl FromSpecImpl<Edge> for CoordsOrEdge {
    open spec fn obeys_from_spec() -> bool {
        true
    }

    open spec fn from_spec(edge: Edge) -> CoordsOrEdge {
        CoordsOrEdge::Edge(edge)
    }
}

impl From<Coords> for CoordsOrEdge {
    fn from(coords: Coords) -> (target: CoordsOrEdge) {
        CoordsOrEdge::Coords(coords)
    }
}

impl FromSpecImpl<Coords> for CoordsOrEdge {
    open spec fn obeys_from_spec() -> bool {
        true
    }

    open spec fn from_spec(coords: Coords) -> CoordsOrEdge {
        CoordsOrEdge::Coords(coords)
    }
}

/// The colors of the slots once the four edges have the colors of their owners.
pub open spec fn with_edge_colors(size: int, colors: Seq<Option<Color>>) -> Seq<Option<Color>> {
    colors.update(index_of_edge(size, Edge::Top), Some(Color::Black)).update(
        index_of_edge(size, Edge::Bottom),
        Some(Color::Black),
    ).update(index_of_edge(size, Edge::Left), Some(Color::White)).update(
        index_of_edge(size, Edge::Right),
        Some(Color::White),
    )
}

/// Whether every edge has the color of its owner.
pub open spec fn edges_colored(size: int, colors: Seq<Option<Color>>) -> bool {
    forall|edge: Edge| #[trigger] colors[index_of_edge(size, edge)] == Some(edge.owner())
}

/// Give each of the four edges the color of its owner.
pub fn set_edge_colors(cells: &mut HexCells)
    requires
        old(cells).wf(),
    ensures
        final(cells).wf(),
        final(cells).size == old(cells).size,
        final(cells).links() == old(cells).links(),
        final(cells).colors() == with_edge_colors(old(cells).size as int, old(cells).colors()),
        edges_colored(final(cells).size as int, final(cells).colors()),
{
    let top = cells.index_from_edge(Edge::Top);
    cells.set_color_at_index(top, Color::Black);
    let bottom = cells.index_from_edge(Edge::Bottom);
    cells.set_color_at_index(bottom, Color::Black);
    let left = cells.index_from_edge(Edge::Left);
    cells.set_color_at_index(left, Color::White);
    let right = cells.index_from_edge(Edge::Right);
    cells.set_color_at_index(right, Color::White);
}

} // verus!
