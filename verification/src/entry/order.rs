//! The order in which the trees of benchmark entries are shown.

use vstd::prelude::*;

use super::generic::const_name_order;
use super::meta::{
    compare_known_locations, compare_usize, int_order, known_location_order,
    lemma_location_order_reversed, location_order, EntryLocation,
};
use super::tree::{forest_view, lemma_forest_view, EntryTree, TreeView};
use super::AnyBenchEntry;
use crate::config::SortingAttr;
use crate::text::{compare_text, lemma_bytes_order_reversed, text_order, Order};

verus! {

/// The earlier of the locations `a` and `b`, of which either may be unknown.
/// It is `a` if neither is earlier.
pub open spec fn earlier_location<'a>(
    a: Option<EntryLocation<'a>>,
    b: Option<EntryLocation<'a>>,
) -> Option<EntryLocation<'a>> {
    match (a, b) {
        (None, _) => b,
        (_, None) => a,
        (Some(first), Some(second)) => if location_order(second, first) is Less {
            b
        } else {
            a
        },
    }
}

/// The location of `tree`: that of its entry, or else the earliest location
/// of the trees below it.
pub open spec fn location<'a>(tree: TreeView<'a>) -> Option<EntryLocation<'a>>
    decreases tree,
{
    match tree.meta() {
        Some(meta) => Some(meta.location),
        None => match tree {
            TreeView::Parent { children, .. } => earliest_location(children),
            TreeView::Leaf(_) => None,
        },
    }
}

/// The earliest location of the trees of `forest`; the first such if there
/// are several.
pub open spec fn earliest_location<'a>(forest: Seq<TreeView<'a>>) -> Option<EntryLocation<'a>>
    decreases forest,
{
    if forest.len() == 0 {
        None
    } else {
        earlier_location(earliest_location(forest.drop_last()), location(forest.last()))
    }
}

/// How the entries of `a` and `b` compare by what tells them from all
/// others, if both trees have an entry.
pub open spec fn addr_order(a: TreeView, b: TreeView) -> Option<Order> {
    match (a.entry_addr(), b.entry_addr()) {
        (Some(a), Some(b)) => Some(int_order(a as int, b as int)),
        _ => None,
    }
}

/// How `a` and `b` compare by the names they are shown with. The names of
/// two generic benchmarks that are made for constants compare as those
/// constants do, so that numbers are ordered by value.
pub open spec fn display_name_order(a: TreeView, b: TreeView) -> Order {
    match (a, b) {
        (
            TreeView::Leaf(AnyBenchEntry::GenericBench(this)),
            TreeView::Leaf(AnyBenchEntry::GenericBench(other)),
        ) => match (this.const_value, other.const_value) {
            (Some(this), Some(other)) => const_name_order(this, other),
            _ => text_order(a.display_name(), b.display_name()),
        },
        _ => text_order(a.display_name(), b.display_name()),
    }
}

/// How `a` and `b` compare by `attr` alone. Trees at one location are in
/// the order of `by_addr`, if that is known.
pub open spec fn order_by_one(
    a: TreeView,
    b: TreeView,
    attr: SortingAttr,
    by_addr: Option<Order>,
) -> Order {
    match attr {
        SortingAttr::Kind => int_order(a.kind() as int, b.kind() as int),
        SortingAttr::Name => display_name_order(a, b),
        SortingAttr::Location => {
            let by_location = known_location_order(location(a), location(b));
            if by_location is Equal {
                match by_addr {
                    Some(order) => order,
                    None => Order::Equal,
                }
            } else {
                by_location
            }
        },
    }
}

/// How `a` and `b` compare by `attr`, and by the other attributes where
/// `attr` does not tell them apart. Trees with one and the same entry are
/// equal.
pub open spec fn order_by_attr(a: TreeView, b: TreeView, attr: SortingAttr) -> Order {
    let by_addr = addr_order(a, b);
    let attrs = attr.spec_with_tie_breakers();
    let first = order_by_one(a, b, attrs[0], by_addr);
    let second = order_by_one(a, b, attrs[1], by_addr);
    if by_addr == Some(Order::Equal) {
        Order::Equal
    } else if !(first is Equal) {
        first
    } else if !(second is Equal) {
        second
    } else {
        order_by_one(a, b, attrs[2], by_addr)
    }
}

/// How `a` and `b` compare in a tree that is sorted by `attr`, or sorted the
/// other way round if `reverse` is set.
pub open spec fn sort_order(a: TreeView, b: TreeView, attr: SortingAttr, reverse: bool) -> Order {
    if reverse {
        order_by_attr(a, b, attr).reverse()
    } else {
        order_by_attr(a, b, attr)
    }
}

/// Whether the tree at place `i + 1` of `forest` does not come before the
/// tree at place `i`.
pub open spec fn in_order(forest: Seq<TreeView>, i: int, attr: SortingAttr, reverse: bool) -> bool {
    !(sort_order(forest[i + 1], forest[i], attr, reverse) is Less)
}

/// Whether the trees below `tree` are sorted, at every level.
pub open spec fn tree_sorted(tree: TreeView, attr: SortingAttr, reverse: bool) -> bool
    decreases tree,
{
    match tree {
        TreeView::Leaf(_) => true,
        TreeView::Parent { children, .. } => forest_sorted(children, attr, reverse),
    }
}

/// Whether `forest` is sorted by `attr`, or the other way round if `reverse`
/// is set, at every level: no tree comes before the one in front of it.
pub open spec fn forest_sorted(forest: Seq<TreeView>, attr: SortingAttr, reverse: bool) -> bool
    decreases forest,
{
    &&& forall|i: int|
        0 <= i < forest.len() ==> tree_sorted(#[trigger] forest[i], attr, reverse)
    &&& forall|i: int| 0 <= i < forest.len() - 1 ==> #[trigger] in_order(forest, i, attr, reverse)
}

/// Whether `new` is `old` but for the order of the trees below it, at any
/// level.
pub open spec fn rearranged_tree(new: TreeView, old: TreeView) -> bool
    decreases old, 0nat,
{
    match old {
        TreeView::Leaf(_) => new == old,
        TreeView::Parent { raw_name, group, children } => {
            &&& new matches TreeView::Parent {
                raw_name: new_name,
                group: new_group,
                children: new_children,
            }
            &&& new_name == raw_name
            &&& new_group == group
            &&& rearranged(new_children, children)
        },
    }
}

/// Whether `new` and `other` hold the same trees, each as often as the
/// other does.
pub open spec fn same_trees(new: Seq<TreeView>, other: Seq<TreeView>) -> bool {
    new.to_multiset() == other.to_multiset()
}

/// Whether `new` holds the trees of `old` in some order, each of them with
/// the trees below it rearranged.
pub open spec fn rearranged(new: Seq<TreeView>, old: Seq<TreeView>) -> bool
    decreases old, 1nat,
{
    exists|through: Seq<TreeView>|
        {
            &&& #[trigger] same_trees(new, through)
            &&& through.len() == old.len()
            &&& forall|i: int|
                0 <= i < old.len() ==> rearranged_tree(through[i], #[trigger] old[i])
        }
}

/// The views of some trees without one of them are the views of all of them
/// without that of the one.
pub proof fn lemma_forest_view_remove<'a>(trees: Seq<EntryTree<'a>>, i: int)
    requires
        0 <= i < trees.len(),
    ensures
        forest_view(trees.remove(i)) == forest_view(trees).remove(i),
{
    lemma_forest_view(trees);
    lemma_forest_view(trees.remove(i));
    assert forall|k: int| 0 <= k < trees.len() - 1 implies forest_view(trees.remove(i))[k]
        == forest_view(trees).remove(i)[k] by {
        if k < i {
            assert(trees.remove(i)[k] == trees[k]);
        } else {
            assert(trees.remove(i)[k] == trees[k + 1]);
        }
    }
    assert(forest_view(trees.remove(i)) =~= forest_view(trees).remove(i));
}

/// The views of some trees with one more among them are the views of the
/// trees with that of the one more among them.
pub proof fn lemma_forest_view_insert<'a>(trees: Seq<EntryTree<'a>>, at: int, tree: EntryTree<'a>)
    requires
        0 <= at <= trees.len(),
    ensures
        forest_view(trees.insert(at, tree)) == forest_view(trees).insert(at, tree@),
{
    lemma_forest_view(trees);
    lemma_forest_view(trees.insert(at, tree));
    assert forall|k: int| 0 <= k < trees.len() + 1 implies forest_view(trees.insert(at, tree))[k]
        == forest_view(trees).insert(at, tree@)[k] by {
        if k < at {
            assert(trees.insert(at, tree)[k] == trees[k]);
        } else if k == at {
            assert(trees.insert(at, tree)[k] == tree);
        } else {
            assert(trees.insert(at, tree)[k] == trees[k - 1]);
        }
    }
    assert(forest_view(trees.insert(at, tree)) =~= forest_view(trees).insert(at, tree@));
}

/// A forest in which a tree was moved to another place holds the trees it
/// held, and each of them is as it was.
pub proof fn lemma_move_keeps_trees(forest: Seq<TreeView>, from: int, to: int)
    requires
        0 <= from < forest.len(),
        0 <= to < forest.len(),
    ensures
        forest.remove(from).insert(to, forest[from]).to_multiset() == forest.to_multiset(),
        forest.remove(from).insert(to, forest[from]).len() == forest.len(),
        forall|k: int|
            0 <= k < forest.len() ==> forest.contains(
                #[trigger] forest.remove(from).insert(to, forest[from])[k],
            ),
{
    let moved = forest[from];
    let after = forest.remove(from).insert(to, moved);
    assert(after.remove(to) =~= forest.remove(from));
    vstd::seq_lib::to_multiset_remove(after, to);
    vstd::seq_lib::to_multiset_remove(forest, from);
    assert(after[to] == moved);
    after.to_multiset_ensures();
    forest.to_multiset_ensures();
    assert(after.contains(moved));
    assert(forest.contains(moved));
    assert forall|tree: TreeView|
        after.to_multiset().count(tree) == forest.to_multiset().count(tree) by {
        assert(after.to_multiset().remove(moved).count(tree) == forest.to_multiset().remove(
            moved,
        ).count(tree));
    }
    assert(after.to_multiset() =~= forest.to_multiset());
    assert forall|k: int| 0 <= k < forest.len() implies forest.contains(#[trigger] after[k]) by {
        if k < to {
            assert(after[k] == forest.remove(from)[k]);
        } else if k > to {
            assert(after[k] == forest.remove(from)[k - 1]);
        }
        if k != to {
            let j = if k < to {
                k
            } else {
                k - 1
            };
            let at = if j < from {
                j
            } else {
                j + 1
            };
            assert(after[k] == forest[at]);
        }
    }
}

/// A forest whose first `from` trees are in order has its first `from + 1`
/// trees in order once the tree at `from` is moved in front of the first of
/// them that it comes before.
pub proof fn lemma_move_keeps_order(
    forest: Seq<TreeView>,
    from: int,
    to: int,
    attr: SortingAttr,
    reverse: bool,
)
    requires
        0 <= to <= from < forest.len(),
        forall|k: int| 0 <= k < from - 1 ==> #[trigger] in_order(forest, k, attr, reverse),
        to > 0 ==> !(sort_order(forest[from], forest[to - 1], attr, reverse) is Less),
        to < from ==> sort_order(forest[from], forest[to], attr, reverse) is Less,
    ensures
        forall|k: int|
            0 <= k < from && k < forest.len() - 1 ==> #[trigger] in_order(
                forest.remove(from).insert(to, forest[from]),
                k,
                attr,
                reverse,
            ),
{
    let moved = forest[from];
    let after = forest.remove(from).insert(to, moved);
    assert forall|k: int| 0 <= k < from && k < forest.len() - 1 implies #[trigger] in_order(
        after,
        k,
        attr,
        reverse,
    ) by {
        if k + 1 < to {
            assert(after[k] == forest[k] && after[k + 1] == forest[k + 1]);
            assert(in_order(forest, k, attr, reverse));
        } else if k + 1 == to {
            assert(after[k] == forest[to - 1] && after[k + 1] == moved);
        } else if k == to {
            assert(after[k] == moved && after[k + 1] == forest[to]);
            lemma_sort_order_reversed(moved, forest[to], attr, reverse);
        } else {
            assert(after[k] == forest[k - 1] && after[k + 1] == forest[k]);
            assert(in_order(forest, k - 1, attr, reverse));
        }
    }
}

/// Comparing two trees the other way round gives the opposite.
pub proof fn lemma_sort_order_reversed(a: TreeView, b: TreeView, attr: SortingAttr, reverse: bool)
    ensures
        sort_order(b, a, attr, reverse) == sort_order(a, b, attr, reverse).reverse(),
{
    lemma_location_order_reversed(location(a), location(b));
    lemma_bytes_order_reversed(
        vstd::utf8::encode_utf8(a.display_name()),
        vstd::utf8::encode_utf8(b.display_name()),
    );
    if let (
        TreeView::Leaf(AnyBenchEntry::GenericBench(this)),
        TreeView::Leaf(AnyBenchEntry::GenericBench(other)),
    ) = (a, b) {
        if let (Some(this), Some(other)) = (this.const_value, other.const_value) {
            lemma_bytes_order_reversed(
                vstd::utf8::encode_utf8(this.name@),
                vstd::utf8::encode_utf8(other.name@),
            );
        }
    }
}

impl<'a> EntryTree<'a> {
    /// Returns the location of this entry, group, or the children's earliest
    /// location.
    pub fn location(&self) -> (found: Option<&'a EntryLocation<'a>>)
        ensures
            match found {
                Some(found) => location(self@) == Some(*found),
                None => location(self@) is None,
            },
        decreases self,
    {
        if let Some(common) = self.meta() {
            Some(&common.location)
        } else {
            match self {
                EntryTree::Leaf(_) => None,
                EntryTree::Parent { children, .. } => Self::earliest_location(children.as_slice()),
            }
        }
    }

    /// Returns the earliest location of the trees of `tree`.
    pub fn earliest_location(tree: &[Self]) -> (found: Option<&'a EntryLocation<'a>>)
        ensures
            match found {
                Some(found) => earliest_location(forest_view(tree@)) == Some(*found),
                None => earliest_location(forest_view(tree@)) is None,
            },
        decreases tree@,
    {
        proof {
            lemma_forest_view(tree@);
        }
        let ghost forest = forest_view(tree@);
        let mut earliest: Option<&'a EntryLocation<'a>> = None;
        let mut i: usize = 0;
        while i < tree.len()
            invariant
                i <= tree@.len(),
                forest == forest_view(tree@),
                forest.len() == tree@.len(),
                forall|k: int| 0 <= k < tree@.len() ==> forest[k] == (#[trigger] tree@[k])@,
                match earliest {
                    Some(found) => earliest_location(forest.take(i as int)) == Some(*found),
                    None => earliest_location(forest.take(i as int)) is None,
                },
            decreases tree@.len() - i,
        {
            proof {
                assert(forest.take(i + 1).drop_last() == forest.take(i as int));
                assert(forest.take(i + 1).last() == tree@[i as int]@);
            }
            let next = tree[i].location();
            earliest = match (earliest, next) {
                (None, _) => next,
                (_, None) => earliest,
                (Some(first), Some(second)) => if matches!(second.compare(first), Order::Less) {
                    next
                } else {
                    earliest
                },
            };
            i = i + 1;
        }
        assert(forest.take(i as int) == forest);
        earliest
    }

    /// Sorts the tree by the given ordering, at every level.
    pub fn sort_by_attr(tree: &mut Vec<Self>, attr: SortingAttr, reverse: bool)
        ensures
            forest_sorted(forest_view(final(tree)@), attr, reverse),
            rearranged(forest_view(final(tree)@), forest_view(old(tree)@)),
        decreases old(tree)@,
    {
        let ghost before = forest_view(tree@);
        let len = tree.len();
        proof {
            lemma_forest_view(tree@);
        }

        // What is below the trees comes first: from then on the trees
        // themselves are only moved.
        let mut i: usize = 0;
        while i < len
            invariant
                i <= len,
                len == tree@.len(),
                len == old(tree)@.len(),
                before == forest_view(old(tree)@),
                forall|k: int| i <= k < len ==> tree@[k] == old(tree)@[k],
                forall|k: int|
                    0 <= k < i ==> tree_sorted((#[trigger] tree@[k])@, attr, reverse)
                        && rearranged_tree(tree@[k]@, before[k]),
            decreases len - i,
        {
            let ghost so_far = tree@;
            proof {
                lemma_forest_view(old(tree)@);
                assert(before[i as int] == tree@[i as int]@);
            }
            match &mut tree[i] {
                EntryTree::Parent { children, .. } => {
                    Self::sort_by_attr(children, attr, reverse);
                },
                EntryTree::Leaf(_) => {},
            }
            proof {
                assert(forall|k: int| 0 <= k < len && k != i ==> tree@[k] == so_far[k]);
                assert(tree_sorted(tree@[i as int]@, attr, reverse));
                assert(rearranged_tree(tree@[i as int]@, before[i as int]));
            }
            i = i + 1;
        }
        let ghost through = forest_view(tree@);
        proof {
            lemma_forest_view(tree@);
            assert forall|k: int| 0 <= k < before.len() implies rearranged_tree(
                through[k],
                #[trigger] before[k],
            ) by {
                assert(rearranged_tree(tree@[k]@, before[k]));
            }
            assert forall|k: int| 0 <= k < len implies tree_sorted(
                #[trigger] through[k],
                attr,
                reverse,
            ) by {
                assert(tree_sorted(tree@[k]@, attr, reverse));
            }
        }

        i = 1;
        while i < len
            invariant
                1 <= i,
                len == tree@.len(),
                forest_view(tree@).to_multiset() == through.to_multiset(),
                forall|k: int|
                    0 <= k < len ==> tree_sorted(
                        #[trigger] forest_view(tree@)[k],
                        attr,
                        reverse,
                    ),
                forall|k: int|
                    0 <= k < i - 1 && k < len - 1 ==> #[trigger] in_order(
                        forest_view(tree@),
                        k,
                        attr,
                        reverse,
                    ),
            decreases len - i,
        {
            let ghost views = forest_view(tree@);
            proof {
                lemma_forest_view(tree@);
                lemma_forest_view_remove(tree@, i as int);
            }
            let moved = tree.remove(i);
            let ghost rest = tree@;
            proof {
                lemma_forest_view(rest);
            }

            // Find the place of the tree among those in front of it.
            let mut at: usize = i;
            while at > 0 && Self::comes_before(&moved, &tree[at - 1], attr, reverse)
                invariant
                    at <= i,
                    i < len,
                    tree@ == rest,
                    rest.len() == len - 1,
                    at < i ==> sort_order(moved@, rest[at as int]@, attr, reverse) is Less,
                decreases at,
            {
                at = at - 1;
            }
            proof {
                lemma_forest_view_insert(tree@, at as int, moved);
                if at > 0 {
                    assert(views.remove(i as int)[at - 1] == rest[at - 1]@);
                }
                if at < i {
                    assert(views.remove(i as int)[at as int] == rest[at as int]@);
                }
                lemma_move_keeps_trees(views, i as int, at as int);
                lemma_move_keeps_order(views, i as int, at as int, attr, reverse);
            }
            tree.insert(at, moved);
            i = i + 1;
        }
        proof {
            lemma_forest_view(tree@);
            assert(same_trees(forest_view(tree@), through));
            assert(rearranged(forest_view(tree@), before));
        }
    }

    /// Whether this tree comes before `other` in a tree that is sorted by
    /// `attr`, or sorted the other way round if `reverse` is set.
    fn comes_before(&self, other: &Self, attr: SortingAttr, reverse: bool) -> (before: bool)
        ensures
            before == (sort_order(self@, other@, attr, reverse) is Less),
    {
        let ordering = self.cmp_by_attr(other, attr);
        let ordering = if reverse {
            ordering.reverse()
        } else {
            ordering
        };
        matches!(ordering, Order::Less)
    }

    /// Compares display name with special consideration for constants:
    /// integers are sorted by value instead of lexicographically.
    pub fn cmp_display_name(&self, other: &Self) -> (order: Order)
        ensures
            order == display_name_order(self@, other@),
    {
        if let (
            EntryTree::Leaf(AnyBenchEntry::GenericBench(this)),
            EntryTree::Leaf(AnyBenchEntry::GenericBench(that)),
        ) = (self, other) {
            if let (Some(this), Some(that)) = (&this.const_value, &that.const_value) {
                return this.compare_name(that);
            }
        }
        compare_text(self.display_name(), other.display_name())
    }

    /// Compares this tree to `other` by `attr` alone.
    fn compare_by_one(&self, other: &Self, attr: SortingAttr, by_addr: Option<Order>) -> (order:
        Order)
        ensures
            order == order_by_one(self@, other@, attr, by_addr),
    {
        match attr {
            SortingAttr::Kind => {
                let this = self.kind();
                let that = other.kind();
                if this < that {
                    Order::Less
                } else if this > that {
                    Order::Greater
                } else {
                    Order::Equal
                }
            },
            SortingAttr::Name => self.cmp_display_name(other),
            SortingAttr::Location => {
                let by_location = compare_known_locations(self.location(), other.location());

                // Use the entry's address to break location ties.
                //
                // This makes generic benchmarks use the same order as their
                // types and constants.
                if matches!(by_location, Order::Equal) {
                    match by_addr {
                        Some(order) => order,
                        None => Order::Equal,
                    }
                } else {
                    by_location
                }
            },
        }
    }

    /// Compares this tree to `other` by `attr`, and by the other attributes
    /// where `attr` does not tell them apart.
    pub fn cmp_by_attr(&self, other: &Self, attr: SortingAttr) -> (order: Order)
        ensures
            order == order_by_attr(self@, other@, attr),
    {
        // We take advantage of the fact that entries have stable addresses,
        // unlike `EntryTree`.
        let by_addr = match (self.entry_addr(), other.entry_addr()) {
            (Some(a), Some(b)) => Some(compare_usize(a, b)),
            _ => None,
        };

        // If entries have the same address, then all attributes will be
        // equal.
        if matches!(by_addr, Some(Order::Equal)) {
            return Order::Equal;
        }
        let attrs = attr.with_tie_breakers();
        let first = self.compare_by_one(other, attrs[0], by_addr);
        if !matches!(first, Order::Equal) {
            return first;
        }
        let second = self.compare_by_one(other, attrs[1], by_addr);
        if !matches!(second, Order::Equal) {
            return second;
        }
        self.compare_by_one(other, attrs[2], by_addr)
    }
}

} // verus!
