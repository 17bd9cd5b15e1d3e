//! Choices that the harness makes for a whole run.

use vstd::prelude::*;

verus! {

/// What the harness does with the benchmarks.
#[derive(Clone, Copy, Debug, PartialEq, Eq, Structural, Hash)]
pub enum Action {
    /// Run benchmark loops and measure them.
    Bench,
    /// Run each benchmarked function once, to see that it works.
    Test,
}

/// An attribute that benchmark entries are sorted by.
#[derive(Clone, Copy, Debug, PartialEq, Eq, Structural, Hash)]
pub enum SortingAttr {
    /// Leaves before parents.
    Kind,
    /// By the name that is shown.
    Name,
    /// By the place in the source code.
    Location,
}

/// A column of the table that results are shown in.
#[derive(Clone, Copy, Debug, PartialEq, Eq, Structural, Hash)]
pub enum TreeColumn {
    Fastest,
    Slowest,
    Median,
    Mean,
    Samples,
    Iters,
}

impl TreeColumn {
    /// Whether the column shows a statistic of the time of an iteration.
    pub open spec fn spec_is_time_stat(self) -> bool {
        self is Fastest || self is Slowest || self is Median || self is Mean
    }

    /// Whether the column shows a statistic of the time of an iteration.
    #[verifier::when_used_as_spec(spec_is_time_stat)]
    pub fn is_time_stat(self) -> (b: bool)
        ensures
            b == self.spec_is_time_stat(),
    {
        matches!(
            self,
            TreeColumn::Fastest | TreeColumn::Slowest | TreeColumn::Median | TreeColumn::Mean
        )
    }
}

impl Action {
    /// Whether this is [`Action::Bench`].
    pub fn is_bench(self) -> (b: bool)
        ensures
            b == (self is Bench),
    {
        matches!(self, Action::Bench)
    }

    /// Whether this is [`Action::Test`].
    pub fn is_test(self) -> (b: bool)
        ensures
            b == (self is Test),
    {
        matches!(self, Action::Test)
    }
}

impl SortingAttr {
    /// This attribute followed by the other two, which break its ties, in
    /// their usual order: kind, name, location.
    pub open spec fn spec_with_tie_breakers(self) -> Seq<SortingAttr> {
        match self {
            SortingAttr::Kind => seq![SortingAttr::Kind, SortingAttr::Name, SortingAttr::Location],
            SortingAttr::Name => seq![SortingAttr::Name, SortingAttr::Kind, SortingAttr::Location],
            SortingAttr::Location => seq![
                SortingAttr::Location,
                SortingAttr::Kind,
                SortingAttr::Name,
            ],
        }
    }

    /// This attribute followed by the other two, which break its ties.
    pub fn with_tie_breakers(self) -> (attrs: [SortingAttr; 3])
        ensures
            attrs@ == self.spec_with_tie_breakers(),
    {
        let attrs = match self {
            SortingAttr::Kind => [SortingAttr::Kind, SortingAttr::Name, SortingAttr::Location],
            SortingAttr::Name => [SortingAttr::Name, SortingAttr::Kind, SortingAttr::Location],
            SortingAttr::Location => [SortingAttr::Location, SortingAttr::Kind, SortingAttr::Name],
        };
        assert(attrs@ =~= self.spec_with_tie_breakers());
        attrs
    }
}

} // verus!
