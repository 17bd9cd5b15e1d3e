use divan::bench::BenchOptions;
use divan::config::{SortingAttr, TreeColumn};
use divan::counter::KnownCounterKind;
use divan::entry::tree::EntryTree;
use divan::entry::{
    AnyBenchEntry, BenchEntry, EntryConst, EntryLocation, EntryMeta, GenericBenchEntry, GroupEntry,
};
use divan::text::Order;

fn meta<'a>(name: &'a str, modules: &[&'a str], line: u32) -> EntryMeta<'a> {
    EntryMeta {
        raw_name: name,
        display_name: name,
        modules: modules.to_vec(),
        location: EntryLocation { file: "benches/all.rs", line, col: 1 },
        bench_options: None,
    }
}

fn bench<'a>(name: &'a str, modules: &[&'a str], line: u32, addr: usize) -> BenchEntry<'a> {
    BenchEntry { meta: meta(name, modules, line), addr }
}

/// The names of the trees, with those of the trees below them in brackets.
fn shape(tree: &[EntryTree]) -> String {
    let mut text = String::new();
    for (i, node) in tree.iter().enumerate() {
        if i > 0 {
            text.push(' ');
        }
        text.push_str(node.display_name());
        if node.kind() == 1 {
            text.push('[');
            text.push_str(&shape(node.children()));
            text.push(']');
        }
    }
    text
}

#[test]
fn from_benches_groups_entries_by_module() {
    let a = bench("a", &["lib", "x"], 1, 10);
    let b = bench("b", &["lib", "y"], 2, 20);
    let c = bench("c", &["lib", "x"], 3, 30);
    let d = bench("d", &["lib"], 4, 40);
    let e = bench("e", &[], 5, 50);
    let benches: Vec<AnyBenchEntry> =
        [&a, &b, &c, &d, &e].into_iter().map(AnyBenchEntry::Bench).collect();

    let tree = EntryTree::from_benches(&benches);

    assert_eq!(shape(&tree), "lib[x[a c] y[b] d] e");
    assert_eq!(shape(&EntryTree::from_benches(&Vec::new())), "");
}

#[test]
fn generic_benches_go_below_their_group() {
    let group = GroupEntry { meta: meta("sort", &["lib"], 7), addr: 100 };
    let small = GenericBenchEntry {
        group: &group,
        addr: 101,
        raw_name: "8",
        display_name: "8",
        const_value: Some(EntryConst { name: "8", value: Some(8) }),
    };
    let large = GenericBenchEntry {
        group: &group,
        addr: 102,
        raw_name: "16",
        display_name: "16",
        const_value: Some(EntryConst { name: "16", value: Some(16) }),
    };
    let benches =
        vec![AnyBenchEntry::GenericBench(&large), AnyBenchEntry::GenericBench(&small)];

    let mut tree = EntryTree::from_benches(&benches);
    assert_eq!(shape(&tree), "lib[sort[16 8]]");
    assert_eq!(benches[0].entry_addr(), 102);
    assert_eq!(benches[0].raw_name(), "16");
    assert_eq!(benches[0].meta().raw_name, "sort");
    assert_eq!(benches[0].path_components(), vec!["lib", "sort"]);

    // By name, numbers are in the order of their values.
    EntryTree::sort_by_attr(&mut tree, SortingAttr::Name, false);
    assert_eq!(shape(&tree), "lib[sort[8 16]]");
    EntryTree::sort_by_attr(&mut tree, SortingAttr::Name, true);
    assert_eq!(shape(&tree), "lib[sort[16 8]]");

    // At one location, entries are in the order of their addresses.
    EntryTree::sort_by_attr(&mut tree, SortingAttr::Location, false);
    assert_eq!(shape(&tree), "lib[sort[8 16]]");
}

#[test]
fn names_compare_as_texts_unless_both_are_numbers() {
    let number = EntryConst { name: "9", value: Some(9) };
    let larger = EntryConst { name: "10", value: Some(10) };
    let word = EntryConst { name: "10", value: None };
    assert_eq!(number.compare_name(&larger), Order::Less);
    assert_eq!(larger.compare_name(&number), Order::Greater);
    assert_eq!(number.compare_name(&number), Order::Equal);
    assert_eq!(number.compare_name(&word), Order::Greater);
    assert_eq!(word.compare_name(&number), Order::Less);
}

#[test]
fn insert_group_sets_the_entry_of_the_matching_parent() {
    let a = bench("a", &["lib", "x"], 1, 10);
    let b = bench("b", &["lib", "r#mod"], 2, 20);
    let benches = vec![AnyBenchEntry::Bench(&a), AnyBenchEntry::Bench(&b)];
    let mut tree = EntryTree::from_benches(&benches);
    assert_eq!(shape(&tree), "lib[x[a] mod[b]]");

    let mut group_meta = meta("x", &["lib"], 9);
    group_meta.display_name = "The X";
    group_meta.bench_options = Some(BenchOptions::new());
    let group = GroupEntry { meta: group_meta, addr: 5 };
    let unmatched = GroupEntry { meta: meta("x", &["other"], 9), addr: 6 };
    let missing = GroupEntry { meta: meta("z", &["lib"], 9), addr: 7 };

    EntryTree::insert_group(&mut tree, &unmatched);
    EntryTree::insert_group(&mut tree, &missing);
    assert_eq!(shape(&tree), "lib[x[a] mod[b]]");
    assert!(tree[0].children()[0].meta().is_none());
    assert!(tree[0].children()[0].entry_addr().is_none());

    EntryTree::insert_group(&mut tree, &group);
    assert_eq!(shape(&tree), "lib[The X[a] mod[b]]");
    let parent = &tree[0].children()[0];
    assert_eq!(parent.entry_addr(), Some(5));
    assert_eq!(parent.raw_name(), "x");
    assert_eq!(parent.meta().unwrap().location.line, 9);
    assert!(parent.bench_options().is_some());
    assert!(tree[0].bench_options().is_none());
    assert_eq!(tree[0].children()[1].raw_name(), "r#mod");
    assert_eq!(parent.children()[0].kind(), 0);
    assert_eq!(parent.children()[0].entry_addr(), Some(10));
}

#[test]
fn retain_keeps_matching_leaves_and_their_parents() {
    let a = bench("a", &["lib", "x"], 1, 10);
    let b = bench("b", &["lib", "y"], 2, 20);
    let c = bench("c", &["lib", "x"], 3, 30);
    let d = bench("d", &[], 4, 40);
    let benches: Vec<AnyBenchEntry> =
        [&a, &b, &c, &d].into_iter().map(AnyBenchEntry::Bench).collect();

    let mut asked = Vec::new();
    let mut tree = EntryTree::from_benches(&benches);
    EntryTree::retain(&mut tree, |path| {
        asked.push(path.to_string());
        path.ends_with("c") || path == "d"
    });
    assert_eq!(shape(&tree), "lib[x[c]] d");
    assert_eq!(asked, vec!["lib::x::a", "lib::x::c", "lib::y::b", "d"]);

    let mut paths = Vec::new();
    EntryTree::leaf_paths(&tree, "", &mut paths);
    assert_eq!(paths, vec!["lib::x::c", "d"]);

    EntryTree::retain(&mut tree, |_| false);
    assert_eq!(shape(&tree), "");
}

#[test]
fn retain_marked_goes_by_the_marks_of_the_leaves() {
    let a = bench("a", &["m"], 1, 10);
    let b = bench("b", &["m"], 2, 20);
    let c = bench("c", &["n"], 3, 30);
    let benches: Vec<AnyBenchEntry> = [&a, &b, &c].into_iter().map(AnyBenchEntry::Bench).collect();

    let mut tree = EntryTree::from_benches(&benches);
    EntryTree::retain_marked(&mut tree, &vec![false, true, false]);
    assert_eq!(shape(&tree), "m[b]");

    let mut tree = EntryTree::from_benches(&benches);
    EntryTree::retain_marked(&mut tree, &vec![true, true, true]);
    assert_eq!(shape(&tree), "m[a b] n[c]");
}

#[test]
fn sort_by_attr_orders_every_level() {
    let c = bench("c", &["lib", "x"], 3, 10);
    let a = bench("a", &["lib", "x"], 9, 20);
    let b = bench("b", &["lib"], 5, 30);
    let z = bench("z", &[], 1, 40);
    let benches: Vec<AnyBenchEntry> =
        [&c, &a, &b, &z].into_iter().map(AnyBenchEntry::Bench).collect();
    let mut tree = EntryTree::from_benches(&benches);
    assert_eq!(shape(&tree), "lib[x[c a] b] z");

    EntryTree::sort_by_attr(&mut tree, SortingAttr::Name, false);
    assert_eq!(shape(&tree), "lib[b x[a c]] z");

    EntryTree::sort_by_attr(&mut tree, SortingAttr::Name, true);
    assert_eq!(shape(&tree), "z lib[x[c a] b]");

    // Leaves come before parents.
    EntryTree::sort_by_attr(&mut tree, SortingAttr::Kind, false);
    assert_eq!(shape(&tree), "z lib[b x[a c]]");

    // A parent is where the earliest entry below it is.
    EntryTree::sort_by_attr(&mut tree, SortingAttr::Location, false);
    assert_eq!(shape(&tree), "z lib[x[c a] b]");
    assert_eq!(tree[1].location().unwrap().line, 3);
    assert_eq!(tree[0].location().unwrap().line, 1);

    EntryTree::sort_by_attr(&mut tree, SortingAttr::Location, true);
    assert_eq!(shape(&tree), "lib[b x[a c]] z");
}

#[test]
fn trees_with_the_same_entry_compare_equal() {
    let a = bench("a", &[], 1, 10);
    let other = bench("b", &[], 2, 10);
    let benches = vec![AnyBenchEntry::Bench(&a), AnyBenchEntry::Bench(&other)];
    let tree = EntryTree::from_benches(&benches);
    for attr in [SortingAttr::Kind, SortingAttr::Name, SortingAttr::Location] {
        assert_eq!(tree[0].cmp_by_attr(&tree[1], attr), Order::Equal);
    }
    assert_eq!(tree[0].cmp_display_name(&tree[1]), Order::Less);
    assert_eq!(
        SortingAttr::Location.with_tie_breakers(),
        [SortingAttr::Location, SortingAttr::Kind, SortingAttr::Name]
    );
}

#[test]
fn max_name_span_counts_indent_and_characters() {
    let a = bench("abc", &["lib", "x"], 1, 10);
    let b = bench("\u{e9}t\u{e9}", &[], 2, 20);
    let benches = vec![AnyBenchEntry::Bench(&a), AnyBenchEntry::Bench(&b)];
    let tree = EntryTree::from_benches(&benches);

    // `abc` is two levels down: 2 * 3 + 3.
    assert_eq!(EntryTree::max_name_span(&tree, 0), 9);
    assert_eq!(EntryTree::max_name_span(&tree, 1), 12);
    assert_eq!(EntryTree::max_name_span(&tree[1..], 0), 3);
    assert_eq!(EntryTree::max_name_span(&[], 5), 0);
}

#[test]
fn common_column_width_fits_the_sample_counts() {
    let mut many = bench("many", &[], 1, 10);
    let mut options = BenchOptions::new();
    options.sample_count = Some(12_345);
    many.meta.bench_options = Some(options);
    let mut usual = bench("usual", &[], 2, 20);
    usual.meta.bench_options = Some(BenchOptions::new());
    let plain = bench("plain", &[], 3, 30);

    let tree = EntryTree::from_benches(&vec![AnyBenchEntry::Bench(&usual)]);
    assert_eq!(EntryTree::common_column_width(&tree, TreeColumn::Samples), 3);
    assert_eq!(EntryTree::common_column_width(&tree, TreeColumn::Iters), 0);

    let tree = EntryTree::from_benches(&vec![
        AnyBenchEntry::Bench(&usual),
        AnyBenchEntry::Bench(&many),
        AnyBenchEntry::Bench(&plain),
    ]);
    assert_eq!(EntryTree::common_column_width(&tree, TreeColumn::Samples), 5);
    for column in
        [TreeColumn::Fastest, TreeColumn::Slowest, TreeColumn::Median, TreeColumn::Mean]
    {
        assert!(column.is_time_stat());
        assert_eq!(
            EntryTree::common_column_width(&tree, column),
            KnownCounterKind::MAX_COMMON_COLUMN_WIDTH
        );
    }
    assert_eq!(KnownCounterKind::MAX_COMMON_COLUMN_WIDTH, "1.111 Kitem/s".len());

    let tree = EntryTree::from_benches(&vec![AnyBenchEntry::Bench(&plain)]);
    assert_eq!(EntryTree::common_column_width(&tree, TreeColumn::Samples), 0);
}

#[test]
fn locations_compare_by_file_then_line_then_column() {
    let base = EntryLocation { file: "a.rs", line: 5, col: 5 };
    assert_eq!(base.compare(&EntryLocation { file: "b.rs", line: 1, col: 1 }), Order::Less);
    assert_eq!(base.compare(&EntryLocation { file: "a.rs", line: 4, col: 9 }), Order::Greater);
    assert_eq!(base.compare(&EntryLocation { file: "a.rs", line: 5, col: 6 }), Order::Less);
    assert_eq!(base.compare(&base), Order::Equal);
    assert_eq!(base.compare(&EntryLocation { file: "a", line: 9, col: 9 }), Order::Greater);
}
