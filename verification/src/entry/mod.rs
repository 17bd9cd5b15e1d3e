//! The benchmarks that a program registers, and the groups they are in.

use vstd::prelude::*;

pub mod generic;
pub mod meta;
pub mod order;
pub mod tree;

pub use self::generic::{EntryConst, GenericBenchEntry};
pub use self::meta::{EntryLocation, EntryMeta};
pub use self::tree::{EntryTree, TreeView};

verus! {

/// Entry of a benchmark.
pub struct BenchEntry<'a> {
    /// Entry metadata.
    pub meta: EntryMeta<'a>,
    /// What tells the entry from all others; it orders entries as they are
    /// laid out by the compiler.
    pub addr: usize,
}

/// Entry of a benchmark group: a module of benchmarks, or everything that a
/// generic benchmark function makes.
pub struct GroupEntry<'a> {
    /// Entry metadata.
    pub meta: EntryMeta<'a>,
    /// What tells the entry from all others; it orders entries as they are
    /// laid out by the compiler.
    pub addr: usize,
}

/// `BenchEntry` or `GenericBenchEntry`.
#[derive(Clone, Copy)]
pub enum AnyBenchEntry<'a> {
    Bench(&'a BenchEntry<'a>),
    GenericBench(&'a GenericBenchEntry<'a>),
}

impl<'a> AnyBenchEntry<'a> {
    /// What tells the entry from all others.
    pub open spec fn spec_entry_addr(self) -> usize {
        match self {
            AnyBenchEntry::Bench(entry) => entry.addr,
            AnyBenchEntry::GenericBench(entry) => entry.addr,
        }
    }

    /// The metadata of the entry, which for a generic benchmark is that of
    /// its group.
    pub open spec fn spec_meta(self) -> EntryMeta<'a> {
        match self {
            AnyBenchEntry::Bench(entry) => entry.meta,
            AnyBenchEntry::GenericBench(entry) => entry.group.meta,
        }
    }

    /// The entry's name, as it is written in the source code.
    pub open spec fn spec_raw_name(self) -> Seq<char> {
        match self {
            AnyBenchEntry::Bench(entry) => entry.meta.raw_name@,
            AnyBenchEntry::GenericBench(entry) => entry.raw_name@,
        }
    }

    /// The entry's name, as it is shown.
    pub open spec fn spec_display_name(self) -> Seq<char> {
        match self {
            AnyBenchEntry::Bench(entry) => entry.meta.display_name@,
            AnyBenchEntry::GenericBench(entry) => entry.display_name@,
        }
    }

    /// The names of what the entry is in, outermost first: its modules, and
    /// for a generic benchmark its group as well.
    pub open spec fn spec_path(self) -> Seq<Seq<char>> {
        match self {
            AnyBenchEntry::Bench(entry) => entry.meta.modules@.map_values(|name: &str| name@),
            AnyBenchEntry::GenericBench(entry) => entry.group.meta.modules@.map_values(
                |name: &str| name@,
            ).push(entry.group.meta.raw_name@),
        }
    }

    /// Returns what tells the entry from all others.
    pub fn entry_addr(self) -> (addr: usize)
        ensures
            addr == self.spec_entry_addr(),
    {
        match self {
            AnyBenchEntry::Bench(entry) => entry.addr,
            AnyBenchEntry::GenericBench(entry) => entry.addr,
        }
    }

    /// The metadata of the entry, which for a generic benchmark is that of
    /// its group.
    pub fn meta(self) -> (meta: &'a EntryMeta<'a>)
        ensures
            *meta == self.spec_meta(),
    {
        match self {
            AnyBenchEntry::Bench(entry) => &entry.meta,
            AnyBenchEntry::GenericBench(entry) => &entry.group.meta,
        }
    }

    /// The entry's name, as it is written in the source code.
    pub fn raw_name(self) -> (name: &'a str)
        ensures
            name@ == self.spec_raw_name(),
    {
        match self {
            AnyBenchEntry::Bench(entry) => entry.meta.raw_name,
            AnyBenchEntry::GenericBench(entry) => entry.raw_name,
        }
    }

    /// The entry's name, as it is shown.
    pub fn display_name(self) -> (name: &'a str)
        ensures
            name@ == self.spec_display_name(),
    {
        match self {
            AnyBenchEntry::Bench(entry) => entry.meta.display_name,
            AnyBenchEntry::GenericBench(entry) => entry.display_name,
        }
    }

    /// The names of what the entry is in, outermost first: its modules, and
    /// for a generic benchmark its group as well.
    pub fn path_components(self) -> (path: Vec<&'a str>)
        ensures
            path@.map_values(|name: &str| name@) == self.spec_path(),
    {
        let modules = match self {
            AnyBenchEntry::Bench(entry) => &entry.meta.modules,
            AnyBenchEntry::GenericBench(entry) => &entry.group.meta.modules,
        };
        let mut path: Vec<&'a str> = Vec::new();
        let mut i: usize = 0;
        while i < modules.len()
            invariant
                i <= modules@.len(),
                path@ == modules@.take(i as int),
            decreases modules@.len() - i,
        {
            path.push(modules[i]);
            i = i + 1;
        }
        assert(path@ == modules@);
        if let AnyBenchEntry::GenericBench(entry) = self {
            // Generic benchmarks consider their group's raw name to be the
            // path component after the module path.
            path.push(entry.group.meta.raw_name);
        }
        assert(path@.map_values(|name: &str| name@) =~= self.spec_path());
        path
    }
}

} // verus!
