use vstd::prelude::*;
use crate::color::Color;
use crate::coords::CoordValue;
use crate::edges::CoordsOrEdge;
use crate::hex_cells::{index_of, lemma_index_of, node_at, slot_count, Index};
use crate::neighbors::adjacent;
use crate::union_find::same_set;

verus! {

/// The color of a cell or an edge, where `colors` holds the color of every slot.
pub open spec fn color_at(size: int, colors: Seq<Option<Color>>, target: CoordsOrEdge) -> Option<
    Color,
> {
    colors[index_of(size, target)]
}

/// A path of like-colored stones: cells and edges of the board that all have
/// the same color, each adjacent to the next one.
pub open spec fn is_like_path(
    size: int,
    colors: Seq<Option<Color>>,
    path: Seq<CoordsOrEdge>,
) -> bool {
    &&& path.len() > 0
    &&& forall|i: int|
        0 <= i < path.len() ==> {
            &&& (#[trigger] path[i]).on_board(size)
            &&& color_at(size, colors, path[i]).is_some()
            &&& color_at(size, colors, path[i]) == color_at(size, colors, path[0])
        }
    &&& forall|i: int| 0 <= i < path.len() - 1 ==> adjacent(size, #[trigger] path[i], path[i + 1])
}

/// Whether `path` is a path of like-colored stones that leads from `a` to `b`.
pub open spec fn connects(
    size: int,
    colors: Seq<Option<Color>>,
    path: Seq<CoordsOrEdge>,
    a: CoordsOrEdge,
    b: CoordsOrEdge,
) -> bool {
    is_like_path(size, colors, path) && path.first() == a && path.last() == b
}

/// Whether a path of like-colored stones leads from `a` to `b`. Everything is
/// connected to itself.
pub open spec fn connected(
    size: int,
    colors: Seq<Option<Color>>,
    a: CoordsOrEdge,
    b: CoordsOrEdge,
) -> bool {
    a == b || exists|path: Seq<CoordsOrEdge>| connects(size, colors, path, a, b)
}

/// Two different cells or edges that are connected lie on the board and have
/// the same color.
pub proof fn lemma_connected_colors(
    size: int,
    colors: Seq<Option<Color>>,
    a: CoordsOrEdge,
    b: CoordsOrEdge,
)
    requires
        connected(size, colors, a, b),
        a != b,
    ensures
        a.on_board(size),
        b.on_board(size),
        color_at(size, colors, a).is_some(),
        color_at(size, colors, a) == color_at(size, colors, b),
{
    let path = choose|path: Seq<CoordsOrEdge>| connects(size, colors, path, a, b);
    assert(path[0] == a);
    assert(path[path.len() - 1] == b);
}

/// Being connected does not depend on the order of the two.
pub proof fn lemma_connected_symmetric(
    size: int,
    colors: Seq<Option<Color>>,
    a: CoordsOrEdge,
    b: CoordsOrEdge,
)
    requires
        connected(size, colors, a, b),
    ensures
        connected(size, colors, b, a),
{
    if a != b {
        let path = choose|path: Seq<CoordsOrEdge>| connects(size, colors, path, a, b);
        let back = Seq::new(path.len(), |i: int| path[path.len() - 1 - i]);
        assert(path[path.len() - 1] == b);
        assert forall|i: int| 0 <= i < back.len() - 1 implies adjacent(
            size,
            #[trigger] back[i],
            back[i + 1],
        ) by {
            let j = path.len() - 2 - i;
            assert(adjacent(size, path[j], path[j + 1]));
        }
        assert forall|i: int| 0 <= i < back.len() implies {
            &&& (#[trigger] back[i]).on_board(size)
            &&& color_at(size, colors, back[i]).is_some()
            &&& color_at(size, colors, back[i]) == color_at(size, colors, back[0])
        } by {
            assert(back[i] == path[path.len() - 1 - i]);
        }
        assert(connects(size, colors, back, b, a));
    }
}

/// What is connected to the same third is connected.
pub proof fn lemma_connected_transitive(
    size: int,
    colors: Seq<Option<Color>>,
    a: CoordsOrEdge,
    b: CoordsOrEdge,
    c: CoordsOrEdge,
)
    requires
        connected(size, colors, a, b),
        connected(size, colors, b, c),
    ensures
        connected(size, colors, a, c),
{
    if a != b && b != c {
        let first = choose|path: Seq<CoordsOrEdge>| connects(size, colors, path, a, b);
        let second = choose|path: Seq<CoordsOrEdge>| connects(size, colors, path, b, c);
        let whole = first + second.subrange(1, second.len() as int);
        assert(first[first.len() - 1] == b);
        assert(second[0] == b);
        assert(first[0] == a);
        assert forall|i: int| 0 <= i < whole.len() implies {
            &&& (#[trigger] whole[i]).on_board(size)
            &&& color_at(size, colors, whole[i]).is_some()
            &&& color_at(size, colors, whole[i]) == color_at(size, colors, whole[0])
        } by {
            if i < first.len() {
                assert(whole[i] == first[i]);
            } else {
                assert(whole[i] == second[i - first.len() + 1]);
            }
        }
        assert forall|i: int| 0 <= i < whole.len() - 1 implies adjacent(
            size,
            #[trigger] whole[i],
            whole[i + 1],
        ) by {
            if i < first.len() - 1 {
                assert(adjacent(size, first[i], first[i + 1]));
            } else {
                let j = i - first.len() + 1;
                assert(adjacent(size, second[j], second[j + 1]));
            }
        }
        assert(whole[whole.len() - 1] == second[second.len() - 1]);
        assert(connects(size, colors, whole, a, c));
    }
}

/// Two adjacent cells or edges of the board that have the same color are connected.
pub proof fn lemma_adjacent_connected(
    size: int,
    colors: Seq<Option<Color>>,
    a: CoordsOrEdge,
    b: CoordsOrEdge,
)
    requires
        a.on_board(size),
        b.on_board(size),
        adjacent(size, a, b),
        color_at(size, colors, a).is_some(),
        color_at(size, colors, a) == color_at(size, colors, b),
    ensures
        connected(size, colors, a, b),
{
    let path = seq![a, b];
    assert(path[0] == a && path[1] == b);
    assert(connects(size, colors, path, a, b));
}

/// A stone on an empty cell breaks no connection.
pub proof fn lemma_stone_keeps_connections(
    size: int,
    colors: Seq<Option<Color>>,
    slot: int,
    color: Color,
    a: CoordsOrEdge,
    b: CoordsOrEdge,
)
    requires
        0 < size <= CoordValue::MAX,
        colors.len() == slot_count(size),
        0 <= slot < colors.len(),
        colors[slot].is_none(),
        connected(size, colors, a, b),
    ensures
        connected(size, colors.update(slot, Some(color)), a, b),
{
    if a != b {
        let after = colors.update(slot, Some(color));
        let path = choose|path: Seq<CoordsOrEdge>| connects(size, colors, path, a, b);
        assert forall|i: int| 0 <= i < path.len() implies color_at(size, after, #[trigger] path[i])
            == color_at(size, colors, path[i]) by {
            lemma_index_of(size, path[i]);
        }
        assert(connects(size, after, path, a, b));
    }
}

/// A stone connects nothing to a cell or edge of another color that was not
/// connected to it before.
pub proof fn lemma_stone_of_other_color(
    size: int,
    colors: Seq<Option<Color>>,
    slot: int,
    color: Color,
    a: CoordsOrEdge,
    b: CoordsOrEdge,
)
    requires
        0 < size <= CoordValue::MAX,
        colors.len() == slot_count(size),
        0 <= slot < colors.len(),
        connected(size, colors.update(slot, Some(color)), a, b),
        a.on_board(size),
        color_at(size, colors.update(slot, Some(color)), a) != Some(color),
    ensures
        connected(size, colors, a, b),
{
    if a != b {
        let after = colors.update(slot, Some(color));
        let path = choose|path: Seq<CoordsOrEdge>| connects(size, after, path, a, b);
        assert(path[0] == a);
        assert forall|i: int| 0 <= i < path.len() implies color_at(size, after, #[trigger] path[i])
            == color_at(size, colors, path[i]) by {
            lemma_index_of(size, path[i]);
        }
        assert(connects(size, colors, path, a, b));
    }
}

/// Whether the cells or edges in the slots `a` and `b` are adjacent and have
/// the same color.
pub open spec fn linked(size: int, colors: Seq<Option<Color>>, a: int, b: int) -> bool {
    &&& adjacent(size, node_at(size, a), node_at(size, b))
    &&& colors[a].is_some()
    &&& colors[a] == colors[b]
}

/// The forest joins only what is connected: two slots of the same set stand
/// for cells or edges that a path of like-colored stones connects.
pub open spec fn sound(size: int, colors: Seq<Option<Color>>, links: Seq<Option<Index>>) -> bool {
    forall|a: int, b: int|
        #![trigger same_set(links, a, b)]
        0 <= a < links.len() && 0 <= b < links.len() && same_set(links, a, b) ==> connected(
            size,
            colors,
            node_at(size, a),
            node_at(size, b),
        )
}

/// The forest joins all that is adjacent and has the same color, but for the
/// pairs with the slot `except`.
pub open spec fn complete_except(
    size: int,
    colors: Seq<Option<Color>>,
    links: Seq<Option<Index>>,
    except: int,
) -> bool {
    forall|a: int, b: int|
        #![trigger same_set(links, a, b)]
        0 <= a < links.len() && 0 <= b < links.len() && a != except && b != except && linked(
            size,
            colors,
            a,
            b,
        ) ==> same_set(links, a, b)
}

/// The forest joins all that is adjacent and has the same color.
pub open spec fn complete(size: int, colors: Seq<Option<Color>>, links: Seq<Option<Index>>) -> bool {
    complete_except(size, colors, links, -1)
}

/// The sets of the forest are the groups of connected stones: two slots
/// belong to the same set if and only if a path of like-colored stones leads
/// from the one to the other.
pub open spec fn partition_is_connectivity(
    size: int,
    colors: Seq<Option<Color>>,
    links: Seq<Option<Index>>,
) -> bool {
    forall|a: CoordsOrEdge, b: CoordsOrEdge|
        #![trigger connected(size, colors, a, b)]
        a.on_board(size) && b.on_board(size) ==> (same_set(
            links,
            index_of(size, a),
            index_of(size, b),
        ) <==> connected(size, colors, a, b))
}

/// In a forest that joins all that is adjacent and has the same color, the
/// two ends of a path of like-colored stones belong to the same set.
pub proof fn lemma_path_in_one_set(
    size: int,
    colors: Seq<Option<Color>>,
    links: Seq<Option<Index>>,
    path: Seq<CoordsOrEdge>,
)
    requires
        0 < size <= CoordValue::MAX,
        colors.len() == slot_count(size),
        links.len() == slot_count(size),
        complete(size, colors, links),
        is_like_path(size, colors, path),
    ensures
        same_set(links, index_of(size, path.first()), index_of(size, path.last())),
    decreases path.len(),
{
    if path.len() > 1 {
        let shorter = path.drop_last();
        assert forall|i: int| 0 <= i < shorter.len() implies {
            &&& (#[trigger] shorter[i]).on_board(size)
            &&& color_at(size, colors, shorter[i]).is_some()
            &&& color_at(size, colors, shorter[i]) == color_at(size, colors, shorter[0])
        } by {
            assert(shorter[i] == path[i]);
            assert(shorter[0] == path[0]);
        }
        assert forall|i: int| 0 <= i < shorter.len() - 1 implies adjacent(
            size,
            #[trigger] shorter[i],
            shorter[i + 1],
        ) by {
            assert(adjacent(size, path[i], path[i + 1]));
        }
        lemma_path_in_one_set(size, colors, links, shorter);
        let last = path.len() - 1;
        let a = index_of(size, path[last - 1]);
        let b = index_of(size, path[last]);
        assert(adjacent(size, path[last - 1], path[last - 1 + 1]));
        lemma_index_of(size, path[last - 1]);
        lemma_index_of(size, path[last]);
        assert(path[last].on_board(size));
        assert(color_at(size, colors, path[last]) == color_at(size, colors, path[0]));
        assert(color_at(size, colors, path[last - 1]) == color_at(size, colors, path[0]));
        assert(linked(size, colors, a, b));
        assert(same_set(links, a, b));
        assert(shorter.last() == path[last - 1]);
        assert(shorter.first() == path.first());
    }
}

/// A forest that is sound and complete has the groups of connected stones as
/// its sets.
pub proof fn lemma_partition_is_connectivity(
    size: int,
    colors: Seq<Option<Color>>,
    links: Seq<Option<Index>>,
)
    requires
        0 < size <= CoordValue::MAX,
        colors.len() == slot_count(size),
        links.len() == slot_count(size),
        sound(size, colors, links),
        complete(size, colors, links),
    ensures
        partition_is_connectivity(size, colors, links),
{
    assert forall|a: CoordsOrEdge, b: CoordsOrEdge|
        #![trigger connected(size, colors, a, b)]
        a.on_board(size) && b.on_board(size) implies (same_set(
        links,
        index_of(size, a),
        index_of(size, b),
    ) <==> connected(size, colors, a, b)) by {
        lemma_index_of(size, a);
        lemma_index_of(size, b);
        if connected(size, colors, a, b) && a != b {
            let path = choose|path: Seq<CoordsOrEdge>| connects(size, colors, path, a, b);
            lemma_path_in_one_set(size, colors, links, path);
        }
    }
}

/// Sets with the same roots are the same sets, so they share being sound and
/// being complete.
pub proof fn lemma_same_roots(
    size: int,
    colors: Seq<Option<Color>>,
    links: Seq<Option<Index>>,
    other: Seq<Option<Index>>,
    except: int,
)
    requires
        links.len() == other.len(),
        forall|a: int, b: int|
            #![trigger same_set(other, a, b)]
            0 <= a < links.len() && 0 <= b < links.len() ==> (same_set(links, a, b) <==> same_set(
                other,
                a,
                b,
            )),
    ensures
        sound(size, colors, links) ==> sound(size, colors, other),
        complete_except(size, colors, links, except) ==> complete_except(
            size,
            colors,
            other,
            except,
        ),
{
    if sound(size, colors, links) {
        assert forall|a: int, b: int|
            #![trigger same_set(other, a, b)]
            0 <= a < other.len() && 0 <= b < other.len() && same_set(
                other,
                a,
                b,
            ) implies connected(size, colors, node_at(size, a), node_at(size, b)) by {
            assert(same_set(links, a, b));
        }
    }
    if complete_except(size, colors, links, except) {
        assert forall|a: int, b: int|
            #![trigger same_set(other, a, b)]
            0 <= a < other.len() && 0 <= b < other.len() && a != except && b != except && linked(
                size,
                colors,
                a,
                b,
            ) implies same_set(other, a, b) by {
            assert(same_set(links, a, b));
        }
    }
}

} // verus!
