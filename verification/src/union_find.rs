use vstd::prelude::*;

verus! {

/// The items of a disjoint-set forest: dense, non-negative numbers.
pub type Index = u16;

/// A forest of parent links is well formed when every item can be named by an
/// `Index` and every link leads to a larger item of the collection. Following
/// the links therefore always ends, at an item without a parent: the root of
/// its set.
pub open spec fn is_forest(parents: Seq<Option<Index>>) -> bool {
    &&& parents.len() <= Index::MAX + 1
    &&& forall|i: int|
        0 <= i < parents.len() ==> (#[trigger] parents[i] matches Some(p) ==> i < p < parents.len())
}

/// The root that is reached from `item` by following the parent links.
pub open spec fn root_of(parents: Seq<Option<Index>>, item: int) -> int
    decreases parents.len() - item,
{
    if 0 <= item < parents.len() {
        match parents[item] {
            Some(p) => if item < p < parents.len() {
                root_of(parents, p as int)
            } else {
                item
            },
            None => item,
        }
    } else {
        item
    }
}

/// Whether `target` is visited when the parent links are followed from `from`
/// up to the root (both ends included).
pub open spec fn on_path(parents: Seq<Option<Index>>, from: int, target: int) -> bool
    decreases parents.len() - from,
{
    from == target || (0 <= from < parents.len() && match parents[from] {
        Some(p) => from < p < parents.len() && on_path(parents, p as int, target),
        None => false,
    })
}

/// Whether two items belong to the same set.
pub open spec fn same_set(parents: Seq<Option<Index>>, a: int, b: int) -> bool {
    root_of(parents, a) == root_of(parents, b)
}

/// The parent links after a search for the root of `item`: every item that the
/// search visits and that has a parent is linked directly to the root, all
/// other links stay as they are.
pub open spec fn compressed(parents: Seq<Option<Index>>, item: int) -> Seq<Option<Index>> {
    Seq::new(
        parents.len(),
        |j: int|
            if on_path(parents, item, j) && parents[j].is_some() {
                Some(root_of(parents, item) as Index)
            } else {
                parents[j]
            },
    )
}

/// The parent links after the sets of `a` and `b` are merged: both searches
/// compress their paths, then the smaller of the two roots, if they differ, is
/// linked below the larger one.
pub open spec fn merged(parents: Seq<Option<Index>>, a: int, b: int) -> Seq<Option<Index>> {
    let searched = compressed(compressed(parents, a), b);
    let root_a = root_of(parents, a);
    let root_b = root_of(parents, b);
    if root_a == root_b {
        searched
    } else if root_a > root_b {
        searched.update(root_b, Some(root_a as Index))
    } else {
        searched.update(root_a, Some(root_b as Index))
    }
}

/// The root of the set of `item` after the sets of `a` and `b` were merged.
pub open spec fn root_after_merge(parents: Seq<Option<Index>>, a: int, b: int, item: int) -> int {
    let root_a = root_of(parents, a);
    let root_b = root_of(parents, b);
    let root = root_of(parents, item);
    if root == root_a || root == root_b {
        if root_a > root_b {
            root_a
        } else {
            root_b
        }
    } else {
        root
    }
}

/// The root of an item is an item of the collection that is not smaller and
/// has no parent.
pub proof fn lemma_root_of(parents: Seq<Option<Index>>, item: int)
    requires
        is_forest(parents),
        0 <= item < parents.len(),
    ensures
        item <= root_of(parents, item) < parents.len(),
        parents[root_of(parents, item)].is_none(),
        root_of(parents, root_of(parents, item)) == root_of(parents, item),
        on_path(parents, item, root_of(parents, item)),
        parents[item].is_none() <==> root_of(parents, item) == item,
    decreases parents.len() - item,
{
    match parents[item] {
        Some(p) => {
            lemma_root_of(parents, p as int);
        },
        None => {},
    }
}

/// Every item on the path from `from` to its root lies between the two, has
/// the same root, and the rest of the path starts from it.
pub proof fn lemma_on_path(parents: Seq<Option<Index>>, from: int, target: int)
    requires
        is_forest(parents),
        0 <= from < parents.len(),
        on_path(parents, from, target),
    ensures
        from <= target <= root_of(parents, from),
        root_of(parents, target) == root_of(parents, from),
        on_path(parents, target, root_of(parents, from)),
        parents[target].is_none() <==> target == root_of(parents, from),
    decreases parents.len() - from,
{
    lemma_root_of(parents, from);
    if from != target {
        lemma_on_path(parents, parents[from].unwrap() as int, target);
    }
}

/// A path can be continued by one parent link.
pub proof fn lemma_on_path_step(parents: Seq<Option<Index>>, from: int, target: int)
    requires
        is_forest(parents),
        0 <= from < parents.len(),
        0 <= target < parents.len(),
        on_path(parents, from, target),
        parents[target].is_some(),
    ensures
        on_path(parents, from, parents[target].unwrap() as int),
    decreases parents.len() - from,
{
    let above = parents[target].unwrap() as int;
    if from != target {
        lemma_on_path_step(parents, parents[from].unwrap() as int, target);
    } else {
        assert(on_path(parents, above, above));
    }
}

/// Path compression keeps the forest well formed and changes no root.
pub proof fn lemma_compressed_roots(parents: Seq<Option<Index>>, item: int, other: int)
    requires
        is_forest(parents),
        0 <= item < parents.len(),
        0 <= other < parents.len(),
    ensures
        is_forest(compressed(parents, item)),
        root_of(compressed(parents, item), other) == root_of(parents, other),
    decreases parents.len() - other,
{
    let after = compressed(parents, item);
    let root = root_of(parents, item);
    lemma_root_of(parents, item);
    assert forall|j: int| 0 <= j < after.len() implies (#[trigger] after[j] matches Some(p) ==> j
        < p < after.len()) by {
        if on_path(parents, item, j) && parents[j].is_some() {
            lemma_on_path(parents, item, j);
        }
    }
    if on_path(parents, item, other) {
        lemma_on_path(parents, item, other);
        if parents[other].is_some() {
            assert(after[root].is_none());
            assert(root_of(after, root) == root);
        }
    } else {
        match parents[other] {
            Some(p) => {
                lemma_compressed_roots(parents, item, p as int);
            },
            None => {},
        }
    }
}

/// Linking a root below a larger root moves the whole set of the smaller root
/// to the larger one and leaves all other sets alone.
pub proof fn lemma_linked_roots(parents: Seq<Option<Index>>, below: int, above: int, other: int)
    requires
        is_forest(parents),
        0 <= below < above < parents.len(),
        parents[below].is_none(),
        parents[above].is_none(),
        0 <= other < parents.len(),
    ensures
        is_forest(parents.update(below, Some(above as Index))),
        root_of(parents.update(below, Some(above as Index)), other) == if root_of(parents, other)
            == below {
            above
        } else {
            root_of(parents, other)
        },
    decreases parents.len() - other,
{
    let after = parents.update(below, Some(above as Index));
    assert(root_of(after, above) == above);
    if other != below {
        match parents[other] {
            Some(p) => {
                lemma_linked_roots(parents, below, above, p as int);
            },
            None => {},
        }
    }
}

/// Merging the sets of `a` and `b` keeps the forest well formed, gives both
/// sets the larger of their two roots and leaves all other sets alone.
pub proof fn lemma_merged_roots(parents: Seq<Option<Index>>, a: int, b: int, other: int)
    requires
        is_forest(parents),
        0 <= a < parents.len(),
        0 <= b < parents.len(),
        0 <= other < parents.len(),
    ensures
        merged(parents, a, b).len() == parents.len(),
        is_forest(merged(parents, a, b)),
        root_of(merged(parents, a, b), other) == root_after_merge(parents, a, b, other),
{
    let first = compressed(parents, a);
    let second = compressed(first, b);
    let root_a = root_of(parents, a);
    let root_b = root_of(parents, b);
    lemma_compressed_roots(parents, a, other);
    lemma_compressed_roots(parents, a, b);
    lemma_compressed_roots(parents, a, a);
    lemma_compressed_roots(first, b, other);
    lemma_compressed_roots(first, b, a);
    lemma_compressed_roots(first, b, b);
    lemma_root_of(second, a);
    lemma_root_of(second, b);
    if root_a > root_b {
        lemma_linked_roots(second, root_b, root_a, other);
    } else if root_a < root_b {
        lemma_linked_roots(second, root_a, root_b, other);
    }
}

/// A disjoint-set forest with path compression. Instead of merging by size or
/// by rank, the larger of two roots becomes the root of the merged set.
///
/// The trait makes no assumption on how the parent links are stored:
/// implementors provide `parents`, `payload`, `get_parent` and `set_parent`.
pub trait UnionFind {
    /// What the collection holds besides the parent links.
    type Payload;

    /// The parent link of every item; `None` marks a root. An implementor
    /// that is verified says here how it stores the links.
    open spec fn parents(&self) -> Seq<Option<Index>> {
        Seq::empty()
    }

    /// Everything that the collection holds besides the parent links. No
    /// operation of this trait changes it. An implementor that is verified
    /// says here what that is.
    open spec fn payload(&self) -> Self::Payload {
        arbitrary()
    }

    /// Return the parent of `item`, or `None` if it is a root.
    fn get_parent(&self, item: Index) -> (parent: Option<Index>)
        requires
            (item as int) < self.parents().len(),
        ensures
            parent == self.parents()[item as int],
    ;

    /// Link `item` below `parent`.
    fn set_parent(&mut self, item: Index, parent: Index)
        requires
            (item as int) < old(self).parents().len(),
        ensures
            final(self).parents() == old(self).parents().update(item as int, Some(parent)),
            final(self).payload() == old(self).payload(),
    ;

    /// Return whether both items belong to the same set. The search
    /// compresses the paths of both items and changes no set.
    fn is_in_same_set(&mut self, item1: Index, item2: Index) -> (same: bool)
        requires
            is_forest(old(self).parents()),
            (item1 as int) < old(self).parents().len(),
            (item2 as int) < old(self).parents().len(),
        ensures
            same == same_set(old(self).parents(), item1 as int, item2 as int),
            final(self).parents() == compressed(
                compressed(old(self).parents(), item1 as int),
                item2 as int,
            ),
            final(self).payload() == old(self).payload(),
    {
        let root1 = self.find_root(item1);
        proof {
            lemma_compressed_roots(old(self).parents(), item1 as int, item2 as int);
        }
        let root2 = self.find_root(item2);
        root1 == root2
    }

    /// Return the root of the set of `item`, and link every item that was
    /// visited on the way directly to that root.
    fn find_root(&mut self, item: Index) -> (root: Index)
        requires
            is_forest(old(self).parents()),
            (item as int) < old(self).parents().len(),
        ensures
            root as int == root_of(old(self).parents(), item as int),
            final(self).parents() == compressed(old(self).parents(), item as int),
            final(self).payload() == old(self).payload(),
    {
        let ghost before = self.parents();
        proof {
            lemma_root_of(before, item as int);
        }
        let mut root = item;
        let mut next = self.get_parent(root);
        while next.is_some()
            invariant
                self.parents() == before,
                self.payload() == old(self).payload(),
                is_forest(before),
                (root as int) < before.len(),
                on_path(before, item as int, root as int),
                next == before[root as int],
            decreases before.len() - root,
        {
            proof {
                lemma_on_path_step(before, item as int, root as int);
            }
            root = next.unwrap();
            next = self.get_parent(root);
        }
        proof {
            lemma_on_path(before, item as int, root as int);
            assert forall|j: int| 0 <= j < before.len() implies !(on_path(before, item as int, j)
                && j < item) by {
                if on_path(before, item as int, j) {
                    lemma_on_path(before, item as int, j);
                }
            }
        }
        let mut current = item;
        while current != root
            invariant
                self.payload() == old(self).payload(),
                is_forest(before),
                (item as int) < before.len(),
                root as int == root_of(before, item as int),
                on_path(before, item as int, current as int),
                self.parents() =~= Seq::new(
                    before.len(),
                    |j: int|
                        if on_path(before, item as int, j) && j < current {
                            Some(root)
                        } else {
                            before[j]
                        },
                ),
            decreases root - current,
        {
            proof {
                lemma_on_path(before, item as int, current as int);
                lemma_on_path_step(before, item as int, current as int);
                lemma_on_path(before, item as int, before[current as int].unwrap() as int);
            }
            let above = self.get_parent(current);
            self.set_parent(current, root);
            proof {
                let step = above.unwrap();
                assert forall|j: int| 0 <= j < before.len() implies #[trigger] self.parents()[j]
                    == (if on_path(before, item as int, j) && j < step {
                    Some(root)
                } else {
                    before[j]
                }) by {
                    if on_path(before, item as int, j) && current < j < step {
                        lemma_path_is_a_chain(before, item as int, current as int, j);
                    }
                }
                assert(self.parents() =~= Seq::new(
                    before.len(),
                    |j: int|
                        if on_path(before, item as int, j) && j < step {
                            Some(root)
                        } else {
                            before[j]
                        },
                ));
            }
            current = above.unwrap();
        }
        proof {
            assert forall|j: int| 0 <= j < before.len() implies #[trigger] self.parents()[j]
                == compressed(before, item as int)[j] by {
                if on_path(before, item as int, j) {
                    lemma_on_path(before, item as int, j);
                }
            }
            assert(self.parents() =~= compressed(before, item as int));
        }
        root
    }

    /// Merge the sets of the two items. Of the two roots, the larger one
    /// becomes the root of the merged set.
    fn merge(&mut self, item1: Index, item2: Index)
        requires
            is_forest(old(self).parents()),
            (item1 as int) < old(self).parents().len(),
            (item2 as int) < old(self).parents().len(),
        ensures
            final(self).parents() == merged(old(self).parents(), item1 as int, item2 as int),
            final(self).payload() == old(self).payload(),
    {
        let root1 = self.find_root(item1);
        proof {
            lemma_compressed_roots(old(self).parents(), item1 as int, item2 as int);
            lemma_root_of(old(self).parents(), item1 as int);
            lemma_root_of(old(self).parents(), item2 as int);
        }
        let root2 = self.find_root(item2);
        if root1 > root2 {
            self.set_parent(root2, root1);
        } else if root1 < root2 {
            self.set_parent(root1, root2);
        }
    }
}

/// Between an item of a path and its parent, the path visits nothing.
pub proof fn lemma_path_is_a_chain(parents: Seq<Option<Index>>, from: int, item: int, other: int)
    requires
        is_forest(parents),
        0 <= from < parents.len(),
        on_path(parents, from, item),
        on_path(parents, from, other),
        0 <= item < other,
        item < parents.len(),
        parents[item].is_some(),
    ensures
        parents[item].unwrap() <= other,
    decreases parents.len() - from,
{
    lemma_on_path(parents, from, item);
    let above = parents[from].unwrap() as int;
    if from != item {
        lemma_path_is_a_chain(parents, above, item, other);
    } else {
        lemma_on_path(parents, above, other);
    }
}

} // verus!
