//! Which test cases of a run, and which tests of a test case, are selected.

use vstd::hash_map::StringHashMap;
use vstd::hash_set::StringHashSet;
use vstd::prelude::*;

verus! {

/// Whether a filter that holds `names` lets `name` through. An empty filter lets everything
/// through.
pub open spec fn selects(names: Set<Seq<char>>, name: Seq<char>) -> bool {
    names.is_empty() || names.contains(name)
}

/// The names of the tests to run in one test case. Its view is the set of those names.
pub struct TestFilter {
    names: StringHashSet,
}

impl View for TestFilter {
    type V = Set<Seq<char>>;

    closed spec fn view(&self) -> Set<Seq<char>> {
        self.names@
    }
}

impl TestFilter {
    /// A filter that names no test, and so selects every test.
    pub fn new() -> (filter: Self)
        ensures
            filter@ == Set::<Seq<char>>::empty(),
    {
        TestFilter { names: StringHashSet::new() }
    }

    /// Adds `name` to the filter and says whether it is new there.
    pub fn insert(&mut self, name: String) -> (added: bool)
        ensures
            final(self)@ == old(self)@.insert(name@),
            added == !old(self)@.contains(name@),
    {
        self.names.insert(name)
    }

    /// The number of names in the filter.
    pub fn len(&self) -> (n: usize)
        ensures
            n == self@.len(),
    {
        self.names.len()
    }

    /// Whether the filter names no test.
    pub fn is_empty(&self) -> (empty: bool)
        ensures
            empty == self@.is_empty(),
    {
        self.names.is_empty()
    }

    /// Whether the filter lets the test called `name` run.
    pub fn selects(&self, name: &str) -> (selected: bool)
        ensures
            selected == selects(self@, name@),
            selected <==> self@ == Set::<Seq<char>>::empty() || self@.contains(name@),
    {
        self.names.is_empty() || self.names.contains(name)
    }
}

/// The test cases to run, each with the filter of its tests. Its view maps the name of a test
/// case to the names of its selected tests.
pub struct FilterMap {
    cases: StringHashMap<TestFilter>,
}

impl View for FilterMap {
    type V = Map<Seq<char>, Set<Seq<char>>>;

    closed spec fn view(&self) -> Map<Seq<char>, Set<Seq<char>>> {
        self.cases@.map_values(|f: TestFilter| f@)
    }
}

/// Whether a run filtered by `filters` runs the test case called `name`. With no entry at all,
/// every test case runs.
pub open spec fn runs_case(filters: Map<Seq<char>, Set<Seq<char>>>, name: Seq<char>) -> bool {
    filters.is_empty() || filters.contains_key(name)
}

/// The names that filter the tests of the test case called `name`: none where `filters` has no
/// entry for it.
pub open spec fn filter_of(
    filters: Map<Seq<char>, Set<Seq<char>>>,
    name: Seq<char>,
) -> Set<Seq<char>> {
    if filters.contains_key(name) {
        filters[name]
    } else {
        Set::empty()
    }
}

impl FilterMap {
    /// A map without entries, which selects every test case.
    pub fn new() -> (filters: Self)
        ensures
            filters@ == Map::<Seq<char>, Set<Seq<char>>>::empty(),
    {
        let filters = FilterMap { cases: StringHashMap::new() };
        assert(filters@ =~= Map::<Seq<char>, Set<Seq<char>>>::empty());
        filters
    }

    /// Sets the filter of the test case called `name`, in place of an earlier one.
    pub fn insert(&mut self, name: String, filter: TestFilter)
        ensures
            final(self)@ == old(self)@.insert(name@, filter@),
    {
        self.cases.insert(name, filter);
        assert(self@ =~= old(self)@.insert(name@, filter@));
    }

    /// Whether the map has no entry.
    pub fn is_empty(&self) -> (empty: bool)
        ensures
            empty == self@.is_empty(),
    {
        proof {
            assert(self@.dom() =~= self.cases@.dom());
            if self@.is_empty() {
                assert(self.cases@ =~= Map::<Seq<char>, TestFilter>::empty());
            }
            if self.cases@.is_empty() {
                assert(self@ =~= Map::<Seq<char>, Set<Seq<char>>>::empty());
            }
        }
        self.cases.is_empty()
    }

    /// Whether the test case called `name` runs.
    pub fn runs_case(&self, name: &str) -> (runs: bool)
        ensures
            runs == runs_case(self@, name@),
            runs <==> self@.dom() == Set::<Seq<char>>::empty() || self@.contains_key(name@),
    {
        self.is_empty() || self.cases.contains_key(name)
    }

    /// The filter of the test case called `name`, where there is an entry for it.
    pub fn get(&self, name: &str) -> (filter: Option<&TestFilter>)
        ensures
            filter is Some <==> self@.contains_key(name@),
            filter matches Some(f) ==> f@ == self@[name@],
    {
        self.cases.get(name)
    }
}

} // verus!
