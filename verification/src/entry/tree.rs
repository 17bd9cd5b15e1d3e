//! The tree of benchmark entries, organized by the modules they are in.

use vstd::prelude::*;

use super::meta::EntryMeta;
use super::{AnyBenchEntry, GroupEntry};
use crate::bench::BenchOptions;
use crate::config::TreeColumn;
use crate::counter::KnownCounterKind;
use crate::text::{same_text, strip_raw_prefix, without_raw_prefix};
use crate::time::{decimal_text, decimal_width};
use vstd::string::{StrSliceExecFns, StringExecFns};

verus! {

/// `BenchEntry` tree organized by path components.
pub enum EntryTree<'a> {
    /// Benchmark group; parent to leaves and other parents.
    Parent { raw_name: &'a str, group: Option<&'a GroupEntry<'a>>, children: Vec<EntryTree<'a>> },
    /// Benchmark entry leaf.
    Leaf(AnyBenchEntry<'a>),
}

/// What an [`EntryTree`] holds.
pub enum TreeView<'a> {
    /// Benchmark group; parent to leaves and other parents.
    Parent { raw_name: Seq<char>, group: Option<GroupEntry<'a>>, children: Seq<TreeView<'a>> },
    /// Benchmark entry leaf.
    Leaf(AnyBenchEntry<'a>),
}

/// What each of `trees` holds.
pub open spec fn forest_view<'a>(trees: Seq<EntryTree<'a>>) -> Seq<TreeView<'a>>
    decreases trees,
{
    if trees.len() == 0 {
        Seq::empty()
    } else {
        forest_view(trees.drop_last()).push(trees.last()@)
    }
}

impl<'a> View for EntryTree<'a> {
    type V = TreeView<'a>;

    open spec fn view(&self) -> TreeView<'a>
        decreases self,
    {
        match self {
            EntryTree::Leaf(entry) => TreeView::Leaf(*entry),
            EntryTree::Parent { raw_name, group, children } => TreeView::Parent {
                raw_name: raw_name@,
                group: match group {
                    Some(group) => Some(**group),
                    None => None,
                },
                children: forest_view(children@),
            },
        }
    }
}

/// The view of a forest is made of the views of its trees.
pub proof fn lemma_forest_view<'a>(trees: Seq<EntryTree<'a>>)
    ensures
        forest_view(trees).len() == trees.len(),
        forall|i: int| 0 <= i < trees.len() ==> forest_view(trees)[i] == (#[trigger] trees[i])@,
    decreases trees.len(),
{
    if trees.len() > 0 {
        lemma_forest_view(trees.drop_last());
        assert(forest_view(trees) == forest_view(trees.drop_last()).push(trees.last()@));
        assert forall|i: int| 0 <= i < trees.len() implies forest_view(trees)[i] == (
        #[trigger] trees[i])@ by {
            if i < trees.len() - 1 {
                assert(trees.drop_last()[i] == trees[i]);
            }
        }
    }
}

impl<'a> TreeView<'a> {
    /// The trees below this one; none below a leaf.
    pub open spec fn children(self) -> Seq<TreeView<'a>> {
        match self {
            TreeView::Leaf(_) => Seq::empty(),
            TreeView::Parent { children, .. } => children,
        }
    }

    /// A number for whether this is a leaf or a parent. Leaves come first.
    pub open spec fn kind(self) -> i32 {
        match self {
            TreeView::Leaf(_) => 0,
            TreeView::Parent { .. } => 1,
        }
    }

    /// What tells the entry of this tree from all others: its benchmark, or
    /// its group if it has one.
    pub open spec fn entry_addr(self) -> Option<usize> {
        match self {
            TreeView::Leaf(entry) => Some(entry.spec_entry_addr()),
            TreeView::Parent { group: Some(group), .. } => Some(group.addr),
            TreeView::Parent { group: None, .. } => None,
        }
    }

    /// The metadata of the entry of this tree, if it has an entry.
    pub open spec fn meta(self) -> Option<EntryMeta<'a>> {
        match self {
            TreeView::Leaf(entry) => Some(entry.spec_meta()),
            TreeView::Parent { group: Some(group), .. } => Some(group.meta),
            TreeView::Parent { group: None, .. } => None,
        }
    }

    /// The name of this tree, as it is written in the source code.
    pub open spec fn raw_name(self) -> Seq<char> {
        match self {
            TreeView::Leaf(entry) => entry.spec_raw_name(),
            TreeView::Parent { group: Some(group), .. } => group.meta.raw_name@,
            TreeView::Parent { group: None, raw_name, .. } => raw_name,
        }
    }

    /// The name of this tree, as it is shown: that of its entry, or else the
    /// name of the module without the mark of a raw identifier.
    pub open spec fn display_name(self) -> Seq<char> {
        match self {
            TreeView::Leaf(entry) => entry.spec_display_name(),
            TreeView::Parent { group: Some(group), .. } => group.meta.display_name@,
            TreeView::Parent { group: None, raw_name, .. } => without_raw_prefix(raw_name),
        }
    }

    /// Whether this is a parent that stands for the module `module`.
    pub open spec fn is_module(self, module: Seq<char>) -> bool {
        self matches TreeView::Parent { raw_name, .. } && raw_name == module
    }

    /// This tree with `children` below it, if it is a parent.
    pub open spec fn with_children(self, children: Seq<TreeView<'a>>) -> TreeView<'a> {
        match self {
            TreeView::Leaf(_) => self,
            TreeView::Parent { raw_name, group, .. } => TreeView::Parent {
                raw_name,
                group,
                children,
            },
        }
    }

    /// This tree with `group` as its entry, if it is a parent.
    pub open spec fn with_group(self, group: GroupEntry<'a>) -> TreeView<'a> {
        match self {
            TreeView::Leaf(_) => self,
            TreeView::Parent { raw_name, children, .. } => TreeView::Parent {
                raw_name,
                group: Some(group),
                children,
            },
        }
    }
}

/// The place in `forest` of the first parent that stands for `module`, or
/// the length of `forest` if there is none.
pub open spec fn module_position(forest: Seq<TreeView>, module: Seq<char>) -> int
    decreases forest.len(),
{
    if forest.len() == 0 {
        0
    } else if forest[0].is_module(module) {
        0
    } else {
        1 + module_position(forest.drop_first(), module)
    }
}

/// [`module_position`] is the first place of a parent for `module`.
pub proof fn lemma_module_position(forest: Seq<TreeView>, module: Seq<char>)
    ensures
        0 <= module_position(forest, module) <= forest.len(),
        module_position(forest, module) < forest.len() ==> forest[module_position(
            forest,
            module,
        )].is_module(module),
        forall|i: int|
            0 <= i < module_position(forest, module) ==> !(#[trigger] forest[i]).is_module(module),
    decreases forest.len(),
{
    if forest.len() > 0 && !forest[0].is_module(module) {
        lemma_module_position(forest.drop_first(), module);
        assert forall|i: int| 0 <= i < module_position(forest, module) implies !(
        #[trigger] forest[i]).is_module(module) by {
            if i > 0 {
                assert(forest[i] == forest.drop_first()[i - 1]);
            }
        }
    }
}

/// The one place before which no tree of `forest` is a parent for `module`,
/// and which is the end of `forest` or the place of such a parent, is
/// [`module_position`].
pub proof fn lemma_module_position_is(forest: Seq<TreeView>, module: Seq<char>, at: int)
    requires
        0 <= at <= forest.len(),
        at < forest.len() ==> forest[at].is_module(module),
        forall|i: int| 0 <= i < at ==> !(#[trigger] forest[i]).is_module(module),
    ensures
        module_position(forest, module) == at,
{
    lemma_module_position(forest, module);
    let found = module_position(forest, module);
    if found < at {
        assert(!forest[found].is_module(module));
    }
}

/// The tree that holds `entry` alone, below a parent for each module of
/// `path`.
pub open spec fn path_tree<'a>(entry: AnyBenchEntry<'a>, path: Seq<Seq<char>>) -> TreeView<'a>
    decreases path.len(),
{
    if path.len() == 0 {
        TreeView::Leaf(entry)
    } else {
        TreeView::Parent {
            raw_name: path[0],
            group: None,
            children: seq![path_tree(entry, path.drop_first())],
        }
    }
}

/// `forest` with `entry` put in at `path`: below the first parent for the
/// first module of `path`, and there below the first parent for the second
/// one, and so on. Where there is no parent for a module, one is added at
/// the end, and the entry itself is added at the end of where it goes.
pub open spec fn with_entry<'a>(
    forest: Seq<TreeView<'a>>,
    entry: AnyBenchEntry<'a>,
    path: Seq<Seq<char>>,
) -> Seq<TreeView<'a>>
    decreases path.len(),
{
    if path.len() == 0 {
        forest.push(TreeView::Leaf(entry))
    } else {
        let at = module_position(forest, path[0]);
        if at < forest.len() {
            forest.update(
                at,
                forest[at].with_children(
                    with_entry(forest[at].children(), entry, path.drop_first()),
                ),
            )
        } else {
            forest.push(path_tree(entry, path))
        }
    }
}

/// The forest of `entries`: each is put into the forest of those before it.
pub open spec fn forest_of<'a>(entries: Seq<AnyBenchEntry<'a>>) -> Seq<TreeView<'a>>
    decreases entries.len(),
{
    if entries.len() == 0 {
        Seq::empty()
    } else {
        with_entry(forest_of(entries.drop_last()), entries.last(), entries.last().spec_path())
    }
}

/// The larger of `a` and `b`.
pub open spec fn larger(a: nat, b: nat) -> nat {
    if a >= b {
        a
    } else {
        b
    }
}

/// The width of the widest name in `forest`, whose trees are `depth` levels
/// deep in the tree that is shown: a name takes three columns for each level
/// above it, and one for each of its characters.
pub open spec fn name_span(forest: Seq<TreeView>, depth: nat) -> nat
    decreases forest,
{
    if forest.len() == 0 {
        0
    } else {
        let last = forest.last();
        let below = match last {
            TreeView::Parent { children, .. } => name_span(children, depth + 1),
            TreeView::Leaf(_) => 0,
        };
        larger(
            name_span(forest.drop_last(), depth),
            larger(depth * 3 + last.display_name().len(), below),
        )
    }
}

/// The width that the column `column` needs for the options of one entry.
pub open spec fn options_width(options: BenchOptions, column: TreeColumn) -> nat {
    if column is Samples {
        decimal_text(options.spec_target_sample_count() as nat).len()
    } else {
        0
    }
}

/// The width that the column `column` needs for `tree` and what is below
/// it. A tree without options needs none, whatever is below it.
pub open spec fn tree_column_width(tree: TreeView, column: TreeColumn) -> nat
    decreases tree,
{
    let below = match tree {
        TreeView::Parent { children, .. } => forest_column_width(children, column),
        TreeView::Leaf(_) => 0,
    };
    match tree.meta() {
        Some(meta) => match meta.bench_options {
            Some(options) => larger(options_width(options, column), below),
            None => 0,
        },
        None => 0,
    }
}

/// The width that the column `column` needs for all of `forest`, where it
/// does not show a time statistic.
pub open spec fn forest_column_width(forest: Seq<TreeView>, column: TreeColumn) -> nat
    decreases forest,
{
    if forest.len() == 0 {
        0
    } else {
        larger(
            forest_column_width(forest.drop_last(), column),
            tree_column_width(forest.last(), column),
        )
    }
}

/// `forest` with `group` as the entry of the parent that stands for it: the
/// first parent for the name of the group, below the first parents for the
/// modules of `path`. Nothing changes if one of these parents is missing.
pub open spec fn with_group_entry<'a>(
    forest: Seq<TreeView<'a>>,
    group: GroupEntry<'a>,
    path: Seq<Seq<char>>,
) -> Seq<TreeView<'a>>
    decreases path.len(),
{
    if path.len() == 0 {
        let at = module_position(forest, group.meta.raw_name@);
        if at < forest.len() {
            forest.update(at, forest[at].with_group(group))
        } else {
            forest
        }
    } else {
        let at = module_position(forest, path[0]);
        if at < forest.len() {
            forest.update(
                at,
                forest[at].with_children(
                    with_group_entry(forest[at].children(), group, path.drop_first()),
                ),
            )
        } else {
            forest
        }
    }
}

/// The widest name among the first trees of a forest is no wider than the
/// widest of all.
pub proof fn lemma_name_span_prefix(forest: Seq<TreeView>, depth: nat, k: int)
    requires
        0 <= k <= forest.len(),
    ensures
        name_span(forest.take(k), depth) <= name_span(forest, depth),
    decreases forest.len(),
{
    if k < forest.len() {
        lemma_name_span_prefix(forest.drop_last(), depth, k);
        assert(forest.drop_last().take(k) == forest.take(k));
    } else {
        assert(forest.take(k) == forest);
    }
}

/// The number of leaves of `tree`.
pub open spec fn leaf_count(tree: TreeView) -> nat
    decreases tree,
{
    match tree {
        TreeView::Leaf(_) => 1,
        TreeView::Parent { children, .. } => forest_leaf_count(children),
    }
}

/// The number of leaves of all of `forest`.
pub open spec fn forest_leaf_count(forest: Seq<TreeView>) -> nat
    decreases forest,
{
    if forest.len() == 0 {
        0
    } else {
        forest_leaf_count(forest.drop_last()) + leaf_count(forest.last())
    }
}

/// The path of what is called `name` and is in what has the path `parent`.
pub open spec fn full_path(parent: Seq<char>, name: Seq<char>) -> Seq<char> {
    if parent.len() == 0 {
        name
    } else {
        parent + seq![':', ':'] + name
    }
}

/// The paths of the leaves of `tree`, which is in what has the path
/// `parent`, from the first leaf to the last.
pub open spec fn leaf_paths(tree: TreeView, parent: Seq<char>) -> Seq<Seq<char>>
    decreases tree,
{
    let path = full_path(parent, tree.display_name());
    match tree {
        TreeView::Leaf(_) => seq![path],
        TreeView::Parent { children, .. } => forest_leaf_paths(children, path),
    }
}

/// The paths of the leaves of all of `forest`, which is in what has the path
/// `parent`, from the first leaf to the last.
pub open spec fn forest_leaf_paths(forest: Seq<TreeView>, parent: Seq<char>) -> Seq<Seq<char>>
    decreases forest,
{
    if forest.len() == 0 {
        Seq::empty()
    } else {
        forest_leaf_paths(forest.drop_last(), parent) + leaf_paths(forest.last(), parent)
    }
}

/// What is left of `tree` if of its leaves, from the first to the last, only
/// those are kept whose mark in `marks` is set, and of its parents only
/// those that still have a tree below them.
pub open spec fn retained<'a>(tree: TreeView<'a>, marks: Seq<bool>) -> Option<TreeView<'a>>
    decreases tree,
{
    match tree {
        TreeView::Leaf(_) => if marks[0] {
            Some(tree)
        } else {
            None
        },
        TreeView::Parent { raw_name, group, children } => {
            let left = forest_retained(children, marks);
            if left.len() > 0 {
                Some(TreeView::Parent { raw_name, group, children: left })
            } else {
                None
            }
        },
    }
}

/// What is left of `forest` if of its leaves, from the first to the last,
/// only those are kept whose mark in `marks` is set, and of its parents only
/// those that still have a tree below them.
pub open spec fn forest_retained<'a>(forest: Seq<TreeView<'a>>, marks: Seq<bool>) -> Seq<
    TreeView<'a>,
>
    decreases forest,
{
    if forest.len() == 0 {
        Seq::empty()
    } else {
        let split = marks.len() - leaf_count(forest.last());
        let before = forest_retained(forest.drop_last(), marks.take(split));
        match retained(forest.last(), marks.skip(split)) {
            Some(tree) => before.push(tree),
            None => before,
        }
    }
}

/// There are as many paths of leaves as there are leaves.
pub proof fn lemma_leaf_paths_len(tree: TreeView, parent: Seq<char>)
    ensures
        leaf_paths(tree, parent).len() == leaf_count(tree),
    decreases tree, 0nat,
{
    if let TreeView::Parent { children, .. } = tree {
        lemma_forest_leaf_paths_len(children, full_path(parent, tree.display_name()));
    }
}

/// There are as many paths of leaves as there are leaves.
pub proof fn lemma_forest_leaf_paths_len(forest: Seq<TreeView>, parent: Seq<char>)
    ensures
        forest_leaf_paths(forest, parent).len() == forest_leaf_count(forest),
    decreases forest, 1nat,
{
    if forest.len() > 0 {
        lemma_forest_leaf_paths_len(forest.drop_last(), parent);
        lemma_leaf_paths_len(forest.last(), parent);
    }
}

/// The first trees of a forest have no more leaves than all of them.
pub proof fn lemma_leaf_count_prefix(forest: Seq<TreeView>, k: int)
    requires
        0 <= k <= forest.len(),
    ensures
        forest_leaf_count(forest.take(k)) <= forest_leaf_count(forest),
    decreases forest.len(),
{
    if k < forest.len() {
        lemma_leaf_count_prefix(forest.drop_last(), k);
        assert(forest.drop_last().take(k) == forest.take(k));
    } else {
        assert(forest.take(k) == forest);
    }
}

/// Whether `answer` is what `filter` said of `path` when it was asked.
pub open spec fn answer_of<F: FnMut(&str) -> bool>(
    filter: F,
    path: Seq<char>,
    answer: bool,
) -> bool {
    exists|asked: &str| asked@ == path && #[trigger] call_ensures(filter, (asked,), answer)
}

/// Whether `answers` holds, for each of `paths`, what `filter` said of it
/// when it was asked.
pub open spec fn answers_of<F: FnMut(&str) -> bool>(
    filter: F,
    paths: Seq<Seq<char>>,
    answers: Seq<bool>,
) -> bool {
    &&& answers.len() == paths.len()
    &&& forall|i: int|
        0 <= i < paths.len() ==> answer_of(filter, paths[i], #[trigger] answers[i])
}

/// The texts of `paths`.
pub open spec fn strings(paths: Seq<String>) -> Seq<Seq<char>> {
    paths.map_values(|path: String| path@)
}

/// The texts of `names`.
pub open spec fn texts(names: Seq<&str>) -> Seq<Seq<char>> {
    names.map_values(|name: &str| name@)
}

impl<'a> EntryTree<'a> {
    /// Constructs a tree from benchmark entries in the order they're
    /// produced.
    pub fn from_benches(benches: &Vec<AnyBenchEntry<'a>>) -> (tree: Vec<Self>)
        ensures
            forest_view(tree@) == forest_of(benches@),
    {
        let mut result = Vec::<Self>::new();
        let mut i: usize = 0;
        while i < benches.len()
            invariant
                i <= benches@.len(),
                forest_view(result@) == forest_of(benches@.take(i as int)),
            decreases benches@.len() - i,
        {
            let bench = benches[i];
            let path = bench.path_components();
            assert(benches@.take(i + 1).drop_last() == benches@.take(i as int));
            assert(texts(path@).skip(0) == texts(path@));
            Self::insert_entry(&mut result, bench, &path, 0);
            i = i + 1;
        }
        assert(benches@.take(i as int) == benches@);
        result
    }

    /// Returns the maximum span for a name in `tree`.
    pub fn max_name_span(tree: &[Self], depth: usize) -> (span: usize)
        requires
            name_span(forest_view(tree@), depth as nat) <= usize::MAX,
        ensures
            span == name_span(forest_view(tree@), depth as nat),
        decreases tree@,
    {
        let ghost forest = forest_view(tree@);
        proof {
            lemma_forest_view(tree@);
        }
        let mut span: usize = 0;
        let mut i: usize = 0;
        while i < tree.len()
            invariant
                i <= tree@.len(),
                forest == forest_view(tree@),
                forest.len() == tree@.len(),
                forall|k: int| 0 <= k < tree@.len() ==> forest[k] == (#[trigger] tree@[k])@,
                name_span(forest, depth as nat) <= usize::MAX,
                span == name_span(forest.take(i as int), depth as nat),
            decreases tree@.len() - i,
        {
            let node = &tree[i];
            proof {
                lemma_name_span_prefix(forest, depth as nat, i + 1);
                assert(forest.take(i + 1).drop_last() == forest.take(i as int));
                assert(forest.take(i + 1).last() == node@);
            }
            let node_prefix_len = depth * 3;
            let node_name_len = node.display_name().unicode_len();
            let node_name_span = node_prefix_len + node_name_len;

            let children_max = match node {
                EntryTree::Parent { children, .. } => Self::max_name_span(
                    children.as_slice(),
                    depth + 1,
                ),
                EntryTree::Leaf(_) => 0,
            };

            let node_max = if node_name_span >= children_max {
                node_name_span
            } else {
                children_max
            };
            if node_max > span {
                span = node_max;
            }
            i = i + 1;
        }
        assert(forest.take(i as int) == forest);
        span
    }

    /// Returns the likely span for a given column.
    pub fn common_column_width(tree: &[Self], column: TreeColumn) -> (width: usize)
        ensures
            width == if column.is_time_stat() {
                KnownCounterKind::MAX_COMMON_COLUMN_WIDTH as nat
            } else {
                forest_column_width(forest_view(tree@), column)
            },
        decreases tree@,
    {
        // Time and throughput info.
        if column.is_time_stat() {
            return KnownCounterKind::MAX_COMMON_COLUMN_WIDTH;
        }
        let ghost forest = forest_view(tree@);
        proof {
            lemma_forest_view(tree@);
        }
        let mut width: usize = 0;
        let mut i: usize = 0;
        while i < tree.len()
            invariant
                i <= tree@.len(),
                !column.is_time_stat(),
                forest == forest_view(tree@),
                forest.len() == tree@.len(),
                forall|k: int| 0 <= k < tree@.len() ==> forest[k] == (#[trigger] tree@[k])@,
                width == forest_column_width(forest.take(i as int), column),
            decreases tree@.len() - i,
        {
            let node = &tree[i];
            proof {
                assert(forest.take(i + 1).drop_last() == forest.take(i as int));
                assert(forest.take(i + 1).last() == node@);
            }
            let node_width = match node.bench_options() {
                None => 0,
                Some(options) => {
                    let own = match column {
                        TreeColumn::Samples => decimal_width(options.target_sample_count()),
                        // Iters is the last column, so it does not need pad
                        // width. All other columns are time stats handled
                        // previously.
                        _ => 0,
                    };
                    let below = match node {
                        EntryTree::Parent { children, .. } => Self::common_column_width(
                            children.as_slice(),
                            column,
                        ),
                        EntryTree::Leaf(_) => 0,
                    };
                    if own >= below {
                        own
                    } else {
                        below
                    }
                },
            };
            assert(node_width == tree_column_width(node@, column));
            if node_width > width {
                width = node_width;
            }
            i = i + 1;
        }
        assert(forest.take(i as int) == forest);
        width
    }

    /// Inserts the benchmark group into a tree.
    ///
    /// Groups are inserted after tree construction because it prevents having
    /// parents without terminating leaves. Groups that do not match an
    /// existing parent are not inserted.
    pub fn insert_group(tree: &mut Vec<Self>, group: &'a GroupEntry<'a>)
        ensures
            forest_view(final(tree)@) == with_group_entry(
                forest_view(old(tree)@),
                *group,
                texts(group.meta.modules@),
            ),
    {
        assert(texts(group.meta.modules@).skip(0) == texts(group.meta.modules@));
        Self::insert_group_from(tree, group, 0);
    }

    /// Inserts the benchmark group into a tree whose trees are `from` levels
    /// deep in the whole tree.
    fn insert_group_from(tree: &mut Vec<Self>, group: &'a GroupEntry<'a>, from: usize)
        requires
            from <= group.meta.modules@.len(),
        ensures
            forest_view(final(tree)@) == with_group_entry(
                forest_view(old(tree)@),
                *group,
                texts(group.meta.modules@).skip(from as int),
            ),
        decreases group.meta.modules@.len() - from,
    {
        let ghost rest = texts(group.meta.modules@).skip(from as int);
        let ghost before = forest_view(tree@);
        let ghost old_tree = tree@;
        proof {
            lemma_forest_view(tree@);
        }
        if from < group.meta.modules.len() {
            // Go on in the innermost set of subtrees whose parents match
            // the modules of the group.
            let component = group.meta.modules[from];
            assert(rest[0] == component@);
            assert(rest.drop_first() == texts(group.meta.modules@).skip(from + 1));
            proof {
                lemma_module_position(before, rest[0]);
            }
            if let Some(at) = Self::get_children(tree, component) {
                match &mut tree[at] {
                    EntryTree::Parent { children, .. } => {
                        Self::insert_group_from(children, group, from + 1);
                    },
                    EntryTree::Leaf(_) => {},
                }
                proof {
                    lemma_forest_view(tree@);
                    let expected = with_group_entry(before, *group, rest);
                    assert(old_tree[at as int] is Parent);
                    assert forall|k: int| 0 <= k < tree@.len() implies forest_view(tree@)[k]
                        == expected[k] by {
                        if k != at {
                            assert(tree@[k] == old_tree[k]);
                            assert(forest_view(old_tree)[k] == old_tree[k]@);
                        }
                    }
                    assert(forest_view(tree@) =~= expected);
                }
            }
            // Else there are no matches for this component in any subtrees.

        } else {
            // Find the matching tree to insert the group into.
            proof {
                lemma_module_position(before, group.meta.raw_name@);
            }
            if let Some(at) = Self::get_children(tree, group.meta.raw_name) {
                match &mut tree[at] {
                    EntryTree::Parent { group: slot, .. } => {
                        *slot = Some(group);
                    },
                    EntryTree::Leaf(_) => {},
                }
                proof {
                    lemma_forest_view(tree@);
                    let expected = with_group_entry(before, *group, rest);
                    assert(old_tree[at as int] is Parent);
                    assert forall|k: int| 0 <= k < tree@.len() implies forest_view(tree@)[k]
                        == expected[k] by {
                        if k != at {
                            assert(tree@[k] == old_tree[k]);
                            assert(forest_view(old_tree)[k] == old_tree[k]@);
                        }
                    }
                    assert(forest_view(tree@) =~= expected);
                }
            }
        }
    }

    /// Appends the paths of the leaves of `tree`, which is in what has the
    /// path `parent_path`, to `paths`.
    pub fn leaf_paths(tree: &[Self], parent_path: &str, paths: &mut Vec<String>)
        ensures
            strings(final(paths)@) == strings(old(paths)@) + forest_leaf_paths(
                forest_view(tree@),
                parent_path@,
            ),
        decreases tree@,
    {
        let ghost forest = forest_view(tree@);
        proof {
            lemma_forest_view(tree@);
        }
        let mut i: usize = 0;
        while i < tree.len()
            invariant
                i <= tree@.len(),
                forest == forest_view(tree@),
                forest.len() == tree@.len(),
                forall|k: int| 0 <= k < tree@.len() ==> forest[k] == (#[trigger] tree@[k])@,
                strings(paths@) == strings(old(paths)@) + forest_leaf_paths(
                    forest.take(i as int),
                    parent_path@,
                ),
            decreases tree@.len() - i,
        {
            let subtree = &tree[i];
            proof {
                assert(forest.take(i + 1).drop_last() == forest.take(i as int));
                assert(forest.take(i + 1).last() == subtree@);
            }
            let name = subtree.display_name();
            let path_of_subtree = if parent_path.is_empty() {
                String::from_str(name)
            } else {
                proof {
                    reveal_strlit("::");
                }
                let mut path = String::from_str(parent_path);
                path.append("::");
                path.append(name);
                path
            };
            assert(path_of_subtree@ =~= full_path(parent_path@, subtree@.display_name()));
            let ghost so_far = paths@;
            match subtree {
                EntryTree::Parent { children, .. } => {
                    Self::leaf_paths(children.as_slice(), path_of_subtree.as_str(), paths);
                },
                EntryTree::Leaf(_) => {
                    paths.push(path_of_subtree);
                    assert(strings(paths@) =~= strings(so_far) + seq![path_of_subtree@]);
                },
            }
            assert(strings(paths@) == strings(so_far) + leaf_paths(subtree@, parent_path@));
            assert(strings(paths@) =~= strings(old(paths)@) + forest_leaf_paths(
                forest.take(i + 1),
                parent_path@,
            ));
            i = i + 1;
        }
        assert(forest.take(i as int) == forest);
    }

    /// Removes entries from the tree whose paths do not match the filter.
    ///
    /// The filter is asked once for each leaf, from the first to the last. A
    /// parent stays if a tree below it does.
    pub fn retain<F>(tree: &mut Vec<Self>, filter: F) where F: FnMut(&str) -> bool
        requires
            forall|path: &str| call_requires(filter, (path,)),
        ensures
            exists|marks: Seq<bool>|
                {
                    &&& #[trigger] answers_of(
                        filter,
                        forest_leaf_paths(forest_view(old(tree)@), Seq::empty()),
                        marks,
                    )
                    &&& forest_view(final(tree)@) == forest_retained(
                        forest_view(old(tree)@),
                        marks,
                    )
                },
    {
        let mut ask = filter;
        let ghost forest = forest_view(tree@);
        let ghost leaves = forest_leaf_paths(forest, Seq::empty());
        let mut paths: Vec<String> = Vec::new();
        Self::leaf_paths(tree.as_slice(), "", &mut paths);
        proof {
            reveal_strlit("");
            assert(""@ =~= Seq::<char>::empty());
            assert(strings(Seq::<String>::empty()) =~= Seq::<Seq<char>>::empty());
            assert(strings(paths@) =~= leaves);
            lemma_forest_leaf_paths_len(forest, Seq::empty());
        }
        let mut marks: Vec<bool> = Vec::new();
        let mut i: usize = 0;
        while i < paths.len()
            invariant
                i <= paths@.len(),
                marks@.len() == i,
                strings(paths@) == leaves,
                ask == filter,
                forall|path: &str| call_requires(filter, (path,)),
                answers_of(filter, leaves.take(i as int), marks@),
            decreases paths@.len() - i,
        {
            let path = paths[i].as_str();
            let keep = ask(path);
            let ghost before = marks@;
            marks.push(keep);
            proof {
                assert(path@ == leaves[i as int]);
                assert forall|k: int| 0 <= k < i + 1 implies answer_of(
                    filter,
                    leaves.take(i + 1)[k],
                    #[trigger] marks@[k],
                ) by {
                    if k < i {
                        assert(marks@[k] == before[k]);
                        assert(answer_of(filter, leaves.take(i as int)[k], before[k]));
                    } else {
                        assert(path@ == leaves[k] && call_ensures(filter, (path,), marks@[k]));
                    }
                }
            }
            i = i + 1;
        }
        assert(leaves.take(i as int) == leaves);
        Self::retain_marked(tree, &marks);
    }

    /// Removes the leaves from the tree whose mark in `marks` is not set,
    /// and the parents that are left without a tree below them. The marks
    /// are those of the leaves, from the first leaf to the last.
    pub fn retain_marked(tree: &mut Vec<Self>, marks: &Vec<bool>)
        requires
            marks@.len() == forest_leaf_count(forest_view(old(tree)@)),
        ensures
            forest_view(final(tree)@) == forest_retained(forest_view(old(tree)@), marks@),
    {
        let next = Self::retain_from(tree, marks, 0);
        assert(marks@.subrange(0, next as int) == marks@);
    }

    /// Does what [`retain_marked`](Self::retain_marked) does, with the marks
    /// that start at `from`, and returns where the marks of what follows
    /// the tree start.
    fn retain_from(tree: &mut Vec<Self>, marks: &Vec<bool>, from: usize) -> (next: usize)
        requires
            from + forest_leaf_count(forest_view(old(tree)@)) <= marks@.len(),
        ensures
            next == from + forest_leaf_count(forest_view(old(tree)@)),
            forest_view(final(tree)@) == forest_retained(
                forest_view(old(tree)@),
                marks@.subrange(from as int, next as int),
            ),
        decreases old(tree)@,
    {
        let ghost forest = forest_view(tree@);
        let ghost total = forest_leaf_count(forest);
        proof {
            lemma_forest_view(tree@);
        }
        // The place of the next tree to look at, and that of its marks.
        let mut i: usize = 0;
        let mut next: usize = from;
        // How many trees were looked at.
        let ghost mut seen: int = 0;
        while i < tree.len()
            invariant
                forest == forest_view(old(tree)@),
                forest.len() == old(tree)@.len(),
                total == forest_leaf_count(forest),
                from + total <= marks@.len(),
                marks@.len() == marks.len(),
                0 <= seen <= forest.len(),
                i <= seen,
                tree@.len() - i == forest.len() - seen,
                next == from + forest_leaf_count(forest.take(seen)),
                forall|k: int| i <= k < tree@.len() ==> tree@[k] == old(tree)@[k - i + seen],
                forest_view(tree@.take(i as int)) == forest_retained(
                    forest.take(seen),
                    marks@.subrange(from as int, next as int),
                ),
            decreases forest.len() - seen,
        {
            let ghost done = forest_view(tree@.take(i as int));
            let ghost this = forest[seen];
            let ghost begin = next;
            let ghost old_tree = tree@;
            proof {
                lemma_forest_view(old(tree)@);
                lemma_leaf_count_prefix(forest, seen + 1);
                assert(forest.take(seen + 1).drop_last() == forest.take(seen));
                assert(forest.take(seen + 1).last() == this);
                assert(tree@[i as int] == old(tree)@[seen]);
                assert(this == tree@[i as int]@);
                assert(forest_leaf_count(forest.take(seen + 1)) == forest_leaf_count(
                    forest.take(seen),
                ) + leaf_count(this));
            }
            let keep = match &mut tree[i] {
                EntryTree::Parent { children, .. } => {
                    assert(leaf_count(this) == forest_leaf_count(forest_view(children@)));
                    let ghost below = forest_view(children@);
                    next = Self::retain_from(children, marks, next);
                    proof {
                        lemma_forest_view(children@);
                        assert(forest_view(children@) == forest_retained(
                            below,
                            marks@.subrange(begin as int, next as int),
                        ));
                        assert(this.children() == below);
                    }
                    children.len() > 0
                },
                EntryTree::Leaf(_) => {
                    assert(leaf_count(this) == 1);
                    next = next + 1;
                    assert(marks@.subrange(begin as int, next as int)[0] == marks@[next - 1]);
                    marks[next - 1]
                },
            };
            proof {
                let these = marks@.subrange(begin as int, next as int);
                let all = marks@.subrange(from as int, next as int);
                assert(all.len() - leaf_count(this) == begin - from);
                assert(all.take(begin - from) == marks@.subrange(from as int, begin as int));
                assert(all.skip(begin - from) == these);
                assert(keep == (retained(this, these) is Some));
                assert(keep ==> tree@[i as int]@ == retained(this, these)->0) by {
                    lemma_forest_view(tree@);
                }
                assert(tree@.len() == old_tree.len());
                assert(forall|k: int|
                    0 <= k < tree@.len() && k != i ==> tree@[k] == old_tree[k]);
                assert(tree@.take(i as int) == old_tree.take(i as int));
            }
            if keep {
                proof {
                    assert(tree@.take(i + 1).drop_last() == tree@.take(i as int));
                    assert(forest_view(tree@.take(i + 1)) == done.push(tree@[i as int]@));
                }
                i = i + 1;
            } else {
                tree.remove(i);
                proof {
                    assert(tree@.take(i as int) == old_tree.take(i as int));
                }
            }
            proof {
                seen = seen + 1;
            }
        }
        proof {
            assert(forest.take(seen) == forest);
            assert(tree@.take(i as int) == tree@);
        }
        next
    }

    /// Helper for constructing a tree: puts `entry` into `tree` at the
    /// modules that `path` names from `from` on.
    pub fn insert_entry(
        tree: &mut Vec<Self>,
        entry: AnyBenchEntry<'a>,
        path: &Vec<&'a str>,
        from: usize,
    )
        requires
            from <= path@.len(),
        ensures
            forest_view(final(tree)@) == with_entry(
                forest_view(old(tree)@),
                entry,
                texts(path@).skip(from as int),
            ),
        decreases path@.len() - from,
    {
        let ghost rest = texts(path@).skip(from as int);
        let ghost before = forest_view(tree@);
        proof {
            lemma_forest_view(tree@);
        }
        if from < path.len() {
            let current_module = path[from];
            assert(rest[0] == current_module@);
            assert(rest.drop_first() == texts(path@).skip(from + 1));
            proof {
                lemma_module_position(before, rest[0]);
            }
            match Self::get_children(tree, current_module) {
                Some(at) => {
                    let ghost old_tree = tree@;
                    match &mut tree[at] {
                        EntryTree::Parent { children, .. } => {
                            Self::insert_entry(children, entry, path, from + 1);
                        },
                        EntryTree::Leaf(_) => {},
                    }
                    proof {
                        lemma_forest_view(tree@);
                        assert(tree@.len() == old_tree.len());
                        assert(forall|k: int|
                            0 <= k < tree@.len() && k != at ==> tree@[k] == old_tree[k]);
                        assert(before[at as int].is_module(rest[0]));
                        assert(old_tree[at as int] is Parent);
                        assert(tree@[at as int]@ == before[at as int].with_children(
                            with_entry(before[at as int].children(), entry, rest.drop_first()),
                        ));
                        let expected = with_entry(before, entry, rest);
                        assert(expected == before.update(
                            at as int,
                            before[at as int].with_children(
                                with_entry(before[at as int].children(), entry, rest.drop_first()),
                            ),
                        ));
                        assert forall|k: int| 0 <= k < tree@.len() implies forest_view(tree@)[k]
                            == expected[k] by {
                            if k != at {
                                assert(tree@[k] == old_tree[k]);
                                assert(forest_view(old_tree)[k] == old_tree[k]@);
                            }
                        }
                        assert(forest_view(tree@) =~= expected);
                    }
                },
                None => {
                    let branch = Self::from_path(entry, path, from);
                    tree.push(branch);
                    proof {
                        assert(tree@.drop_last() == old(tree)@);
                        assert(before.len() == old(tree)@.len());
                        assert(forest_view(tree@) == before.push(path_tree(entry, rest)));
                        assert(with_entry(before, entry, rest) == before.push(
                            path_tree(entry, rest),
                        ));
                    }
                },
            }
        } else {
            tree.push(EntryTree::Leaf(entry));
            proof {
                assert(tree@.drop_last() == old(tree)@);
                assert(rest.len() == 0);
                assert(tree@.last() == EntryTree::Leaf(entry));
                assert(tree@.last()@ == TreeView::Leaf(entry));
                assert(forest_view(tree@) == forest_view(tree@.drop_last()).push(tree@.last()@));
                assert(forest_view(tree@) == before.push(TreeView::Leaf(entry)));
            }
        }
    }

    /// Constructs a sequence of branches from the modules that `path` names
    /// from `from` on, with `entry` as the leaf.
    pub fn from_path(entry: AnyBenchEntry<'a>, path: &Vec<&'a str>, from: usize) -> (tree: Self)
        requires
            from <= path@.len(),
        ensures
            tree@ == path_tree(entry, texts(path@).skip(from as int)),
        decreases path@.len() - from,
    {
        if from < path.len() {
            let ghost rest = texts(path@).skip(from as int);
            assert(rest[0] == path@[from as int]@);
            assert(rest.drop_first() == texts(path@).skip(from + 1));
            let child = Self::from_path(entry, path, from + 1);
            let mut children = Vec::new();
            children.push(child);
            proof {
                lemma_forest_view(children@);
                assert(forest_view(children@) =~= seq![child@]);
            }
            EntryTree::Parent { raw_name: path[from], group: None, children }
        } else {
            EntryTree::Leaf(entry)
        }
    }

    /// Finds the place in `tree` of the first parent for `module`.
    pub fn get_children(tree: &Vec<Self>, module: &str) -> (found: Option<usize>)
        ensures
            match found {
                Some(at) => at < tree@.len() && at == module_position(
                    forest_view(tree@),
                    module@,
                ),
                None => module_position(forest_view(tree@), module@) == tree@.len(),
            },
    {
        proof {
            lemma_forest_view(tree@);
        }
        let mut i: usize = 0;
        while i < tree.len()
            invariant
                i <= tree@.len(),
                forall|k: int|
                    0 <= k < i ==> !(#[trigger] forest_view(tree@)[k]).is_module(module@),
                forall|k: int|
                    0 <= k < tree@.len() ==> forest_view(tree@)[k] == (#[trigger] tree@[k])@,
                forest_view(tree@).len() == tree@.len(),
            decreases tree@.len() - i,
        {
            if let EntryTree::Parent { raw_name, .. } = &tree[i] {
                if same_text(raw_name, module) {
                    proof {
                        lemma_module_position_is(forest_view(tree@), module@, i as int);
                    }
                    return Some(i);
                }
            }
            i = i + 1;
        }
        proof {
            lemma_module_position_is(forest_view(tree@), module@, i as int);
        }
        None
    }

    /// Returns an integer denoting the enum variant.
    pub fn kind(&self) -> (kind: i32)
        ensures
            kind == self@.kind(),
    {
        // Leaves should appear before parents.
        match self {
            EntryTree::Leaf(_) => 0,
            EntryTree::Parent { .. } => 1,
        }
    }

    /// Returns what tells the entry of this tree from all others.
    pub fn entry_addr(&self) -> (addr: Option<usize>)
        ensures
            addr == self@.entry_addr(),
    {
        match self {
            EntryTree::Leaf(bench) => Some(bench.entry_addr()),
            EntryTree::Parent { group, .. } => match group {
                Some(group) => Some(group.addr),
                None => None,
            },
        }
    }

    /// The metadata of the entry of this tree, if it has an entry.
    pub fn meta(&self) -> (meta: Option<&'a EntryMeta<'a>>)
        ensures
            match meta {
                Some(meta) => self@.meta() == Some(*meta),
                None => self@.meta() is None,
            },
    {
        match self {
            EntryTree::Parent { group, .. } => match group {
                Some(group) => Some(&group.meta),
                None => None,
            },
            EntryTree::Leaf(bench) => Some(bench.meta()),
        }
    }

    /// The options that were set for the entry of this tree, if any were.
    pub fn bench_options(&self) -> (options: Option<&'a BenchOptions>)
        ensures
            match options {
                Some(options) => self@.meta() matches Some(meta) && meta.bench_options == Some(
                    *options,
                ),
                None => self@.meta() matches Some(meta) ==> meta.bench_options is None,
            },
    {
        match self.meta() {
            Some(meta) => meta.bench_options(),
            None => None,
        }
    }

    /// The name of this tree, as it is written in the source code.
    pub fn raw_name(&self) -> (name: &'a str)
        ensures
            name@ == self@.raw_name(),
    {
        match self {
            EntryTree::Parent { group: Some(group), .. } => group.meta.raw_name,
            EntryTree::Parent { raw_name, .. } => raw_name,
            EntryTree::Leaf(bench) => bench.raw_name(),
        }
    }

    /// The name of this tree, as it is shown.
    pub fn display_name(&self) -> (name: &'a str)
        ensures
            name@ == self@.display_name(),
    {
        if let EntryTree::Leaf(bench) = self {
            bench.display_name()
        } else if let Some(common) = self.meta() {
            common.display_name
        } else {
            let raw_name = self.raw_name();
            strip_raw_prefix(raw_name)
        }
    }

    /// The trees below this one; none below a leaf.
    pub fn children(&self) -> (children: &[Self])
        ensures
            forest_view(children@) == self@.children(),
    {
        match self {
            EntryTree::Leaf(_) => &[],
            EntryTree::Parent { children, .. } => children.as_slice(),
        }
    }
}

} // verus!
