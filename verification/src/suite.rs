//! A run of many test cases: which of them run, and what they come to together.

use crate::case::{CaseView, TestCase};
use crate::case_run::{CaseModel, CaseRun};
use crate::filter::{filter_of, runs_case, FilterMap, TestFilter};
use crate::outcome::TestOutcome;
use crate::report::{ReportView, RunReport};
use crate::stats::{texts, Statistics, StatsView};
use vstd::prelude::*;

verus! {

/// Test cases with their names, in mathematical terms.
pub open spec fn case_views<B>(cases: Seq<(String, TestCase<B>)>) -> Seq<
    (Seq<char>, CaseView<B>),
> {
    cases.map_values(|c: (String, TestCase<B>)| (c.0@, c.1@))
}

/// The indices of the test cases that `filters` lets run, in the order of the test cases.
pub open spec fn selected_cases<B>(
    cases: Seq<(Seq<char>, CaseView<B>)>,
    filters: Map<Seq<char>, Set<Seq<char>>>,
) -> Seq<usize>
    decreases cases.len(),
{
    if cases.len() == 0 {
        Seq::empty()
    } else {
        let before = selected_cases(cases.drop_last(), filters);
        if runs_case(filters, cases.last().0) {
            before.push((cases.len() - 1) as usize)
        } else {
            before
        }
    }
}

/// A run of test cases and the outcomes that each finished test case has seen.
pub struct SuiteModel<B> {
    pub cases: Seq<(Seq<char>, CaseView<B>)>,
    pub filters: Map<Seq<char>, Set<Seq<char>>>,
    pub outcomes: Seq<Seq<TestOutcome>>,
}

impl<B> SuiteModel<B> {
    /// The test cases to run.
    pub open spec fn selected(self) -> Seq<usize> {
        selected_cases(self.cases, self.filters)
    }

    /// The test case to run next, if any.
    pub open spec fn next(self) -> Option<usize> {
        if self.outcomes.len() < self.selected().len() {
            Some(self.selected()[self.outcomes.len() as int])
        } else {
            None
        }
    }

    /// The run of the test case at index `i` that has seen `outcomes`.
    pub open spec fn case_run(self, i: usize, outcomes: Seq<TestOutcome>) -> CaseModel<B> {
        let (name, case) = self.cases[i as int];
        CaseModel { case, name, selected: filter_of(self.filters, name), outcomes }
    }

    /// The run of the next test case before anything of it is launched.
    pub open spec fn starting(self) -> CaseModel<B> {
        self.case_run(self.next()->0, Seq::empty())
    }

    /// The `k`th test case run, which is finished.
    pub open spec fn finished(self, k: int) -> CaseModel<B> {
        self.case_run(self.selected()[k], self.outcomes[k])
    }

    /// Whether every test case that counts as finished is, and is one that was to be run.
    pub open spec fn valid(self) -> bool {
        &&& self.cases.len() <= usize::MAX
        &&& self.outcomes.len() <= self.selected().len()
        &&& forall|k: int|
            0 <= k < self.outcomes.len() ==> (#[trigger] self.finished(k)).valid()
                && self.finished(k).next() is None
    }

    /// The run after the next test case finished with `outcomes`.
    pub open spec fn push(self, outcomes: Seq<TestOutcome>) -> SuiteModel<B> {
        SuiteModel { outcomes: self.outcomes.push(outcomes), ..self }
    }

    /// The statistics of the first `n` finished test cases together.
    pub open spec fn stats_of(self, n: nat) -> StatsView
        decreases n,
    {
        if n == 0 {
            StatsView::new(0)
        } else {
            self.stats_of((n - 1) as nat).append(self.finished(n - 1).stats())
        }
    }

    /// The statistics of all finished test cases together.
    pub open spec fn stats(self) -> StatsView {
        self.stats_of(self.outcomes.len())
    }
}

/// A run of test cases in progress. It says which test case to run next and takes that run once
/// it is over. Its view is the run so far.
pub struct SuiteRun<'a, B> {
    test_cases: &'a Vec<(String, TestCase<B>)>,
    filter_map: &'a FilterMap,
    all_tests: TestFilter,
    plan: Vec<usize>,
    done: usize,
    stats: Statistics,
    model: Ghost<SuiteModel<B>>,
}

impl<'a, B> View for SuiteRun<'a, B> {
    type V = SuiteModel<B>;

    closed spec fn view(&self) -> SuiteModel<B> {
        self.model@
    }
}

/// What one more finished test case adds to the statistics of a run.
pub proof fn law_one_more_case<B>(model: SuiteModel<B>, outcomes: Seq<TestOutcome>)
    requires
        model.next() is Some,
    ensures
        model.push(outcomes).stats() == model.stats().append(
            model.case_run(model.next()->0, outcomes).stats(),
        ),
{
    lemma_stats_of_push(model, outcomes, model.outcomes.len());
}

/// A run that has a test case left comes closer to its end when that test case is over.
pub proof fn law_suite_progresses<B>(model: SuiteModel<B>, outcomes: Seq<TestOutcome>)
    requires
        model.valid(),
        model.next() is Some,
        model.case_run(model.next()->0, outcomes).valid(),
        model.case_run(model.next()->0, outcomes).next() is None,
    ensures
        model.push(outcomes).valid(),
        model.push(outcomes).selected() == model.selected(),
        model.outcomes.len() < model.push(outcomes).outcomes.len() <= model.selected().len(),
{
    let after = model.push(outcomes);
    assert forall|k: int| 0 <= k < after.outcomes.len() implies (#[trigger] after.finished(
        k,
    )).valid() && after.finished(k).next() is None by {
        if k < model.outcomes.len() {
            assert(after.finished(k) == model.finished(k));
        }
    }
}

proof fn lemma_stats_of_push<B>(model: SuiteModel<B>, outcomes: Seq<TestOutcome>, n: nat)
    requires
        n <= model.outcomes.len(),
    ensures
        model.push(outcomes).stats_of(n) == model.stats_of(n),
    decreases n,
{
    if n > 0 {
        lemma_stats_of_push(model, outcomes, (n - 1) as nat);
    }
}

/// The test cases that run are those that the filter lets run, each once, in their order.
pub proof fn law_selected_cases<B>(
    cases: Seq<(Seq<char>, CaseView<B>)>,
    filters: Map<Seq<char>, Set<Seq<char>>>,
)
    requires
        cases.len() <= usize::MAX,
    ensures
        forall|k: int|
            #![trigger selected_cases(cases, filters)[k]]
            0 <= k < selected_cases(cases, filters).len() ==> selected_cases(cases, filters)[k]
                < cases.len() && runs_case(
                filters,
                cases[selected_cases(cases, filters)[k] as int].0,
            ),
        forall|j: int, k: int|
            #![trigger selected_cases(cases, filters)[j], selected_cases(cases, filters)[k]]
            0 <= j < k < selected_cases(cases, filters).len() ==> selected_cases(cases, filters)[j]
                < selected_cases(cases, filters)[k],
        forall|i: usize|
            #![trigger selected_cases(cases, filters).contains(i)]
            i < cases.len() && runs_case(filters, cases[i as int].0) ==> selected_cases(
                cases,
                filters,
            ).contains(i),
    decreases cases.len(),
{
    if cases.len() > 0 {
        let shorter = cases.drop_last();
        law_selected_cases(shorter, filters);
        let before = selected_cases(shorter, filters);
        let all = selected_cases(cases, filters);
        assert forall|k: int| #![trigger all[k]] 0 <= k < all.len() implies all[k] < cases.len()
            && runs_case(filters, cases[all[k] as int].0) by {
            if k < before.len() {
                assert(all[k] == before[k]);
            }
        }
        assert forall|j: int, k: int| #![trigger all[j], all[k]] 0 <= j < k < all.len() implies all[j]
            < all[k] by {
            assert(all[j] == before[j]);
            if k < before.len() {
                assert(all[k] == before[k]);
            }
        }
        assert forall|i: usize|
            #![trigger all.contains(i)]
            i < cases.len() && runs_case(filters, cases[i as int].0) implies all.contains(i) by {
            if i < shorter.len() {
                assert(before.contains(i));
                let k = choose|k: int| 0 <= k < before.len() && before[k] == i;
                assert(all[k] == i);
            } else {
                assert(all[all.len() - 1] == i);
            }
        }
    }
}

/// Starts a run of all test cases, filtering them based on the provided filter map.
pub fn run<'a, B>(
    test_cases: &'a Vec<(String, TestCase<B>)>,
    filter_map: &'a FilterMap,
) -> (suite: SuiteRun<'a, B>)
    ensures
        suite.wf(),
        suite@.valid(),
        suite@ == (SuiteModel {
            cases: case_views(test_cases@),
            filters: filter_map@,
            outcomes: Seq::empty(),
        }),
        suite@.cases.len() == test_cases@.len(),
        forall|i: int|
            #![trigger suite@.cases[i]]
            0 <= i < test_cases@.len() ==> suite@.cases[i] == (
                test_cases@[i].0@,
                test_cases@[i].1@,
            ),
{
    let ghost cases = case_views(test_cases@);
    let mut plan: Vec<usize> = vec![];
    let mut i: usize = 0;
    while i < test_cases.len()
        invariant
            i <= test_cases@.len(),
            cases == case_views(test_cases@),
            plan@ == selected_cases(cases.take(i as int), filter_map@),
        decreases test_cases@.len() - i,
    {
        assert(cases.take(i + 1).drop_last() =~= cases.take(i as int));
        if filter_map.runs_case(test_cases[i].0.as_str()) {
            plan.push(i);
        }
        i += 1;
    }
    assert(cases.take(i as int) =~= cases);
    SuiteRun {
        test_cases,
        filter_map,
        all_tests: TestFilter::new(),
        plan,
        done: 0,
        stats: Statistics::new(0),
        model: Ghost(SuiteModel { cases, filters: filter_map@, outcomes: Seq::empty() }),
    }
}

impl<'a, B> SuiteRun<'a, B> {
    /// The invariant of a run.
    pub closed spec fn wf(self) -> bool {
        &&& self@.valid()
        &&& self@.cases == case_views(self.test_cases@)
        &&& self@.filters == self.filter_map@
        &&& self.all_tests@ == Set::<Seq<char>>::empty()
        &&& self.plan@ == self@.selected()
        &&& self.done == self@.outcomes.len()
        &&& self.stats@ == self@.stats()
    }

    /// The index of the test case to run next. There is none once all selected test cases ran.
    pub fn next(&self) -> (case: Option<usize>)
        requires
            self.wf(),
        ensures
            case == self@.next(),
            case is Some <==> self@.outcomes.len() < self@.selected().len(),
            case matches Some(i) ==> i == self@.selected()[self@.outcomes.len() as int],
            case matches Some(i) ==> i < self@.cases.len(),
    {
        proof {
            law_selected_cases(self@.cases, self@.filters);
        }
        if self.done < self.plan.len() {
            Some(self.plan[self.done])
        } else {
            None
        }
    }

    /// The filter of the tests of the test case called `name`. Without an entry in the filter map
    /// a test case runs all its tests.
    fn filter(&self, name: &str) -> (filter: &TestFilter)
        requires
            self.wf(),
        ensures
            filter@ == filter_of(self@.filters, name@),
    {
        match self.filter_map.get(name) {
            Some(filter) => filter,
            None => &self.all_tests,
        }
    }

    /// Whether the number of tests of the test case that is next can be counted without overflow.
    pub fn can_start(&self) -> (can: bool)
        requires
            self.wf(),
            self@.next() is Some,
        ensures
            can == self@.starting().stats().fits(),
    {
        proof {
            law_selected_cases(self@.cases, self@.filters);
        }
        let entry = &self.test_cases[self.plan[self.done]];
        entry.1.total(self.filter(entry.0.as_str())).is_some()
    }

    /// Starts the run of the test case that is next, under the filter of its tests.
    pub fn start(&self) -> (run: CaseRun<'a, B>)
        requires
            self.wf(),
            self@.next() is Some,
            self@.starting().stats().fits(),
        ensures
            run.wf(),
            run@.valid(),
            run@ == self@.starting(),
            self@.next()->0 < self@.cases.len(),
            ({
                let (name, case) = self@.cases[self@.next()->0 as int];
                &&& run@.name == name
                &&& run@.case == case
                &&& run@.outcomes == Seq::<TestOutcome>::empty()
                &&& self@.filters.contains_key(name) ==> run@.selected == self@.filters[name]
                &&& !self@.filters.contains_key(name) ==> run@.selected == Set::<Seq<char>>::empty()
            }),
    {
        proof {
            law_selected_cases(self@.cases, self@.filters);
        }
        let entry = &self.test_cases[self.plan[self.done]];
        let name = entry.0.as_str();
        entry.1.run(name, self.filter(name))
    }

    /// Whether the statistics of a test case can be added without overflow.
    pub fn can_record(&self, run: &CaseRun<'a, B>) -> (can: bool)
        requires
            self.wf(),
            run.wf(),
        ensures
            can == self@.stats().append(run@.stats()).fits(),
    {
        self.stats.can_append(run.stats())
    }

    /// Takes the run of the test case that was next, once it is over, and hands out its
    /// statistics.
    pub fn record(&mut self, run: CaseRun<'a, B>) -> (stats: Statistics)
        requires
            old(self).wf(),
            old(self)@.next() is Some,
            run.wf(),
            run@.next() is None,
            run@ == old(self)@.case_run(old(self)@.next()->0, run@.outcomes),
            old(self)@.stats().append(run@.stats()).fits(),
        ensures
            final(self).wf(),
            final(self)@.valid(),
            final(self)@ == old(self)@.push(run@.outcomes),
            final(self)@.cases == old(self)@.cases,
            final(self)@.filters == old(self)@.filters,
            final(self)@.outcomes == old(self)@.outcomes.push(run@.outcomes),
            stats@ == run@.stats(),
    {
        let ghost before = self@;
        proof {
            run.lemma_wf_is_valid();
            law_one_more_case(before, run@.outcomes);
            law_suite_progresses(before, run@.outcomes);
        }
        let ghost outcomes = run@.outcomes;
        let stats = run.finish();
        self.stats.append(&stats);
        assert(self.done < self.plan.len());
        self.done += 1;
        self.model = Ghost(before.push(outcomes));
        stats
    }

    /// The statistics of the test cases that are over.
    pub fn stats(&self) -> (stats: &Statistics)
        requires
            self.wf(),
        ensures
            stats@ == self@.stats(),
    {
        &self.stats
    }

    /// Ends the run and reports it.
    pub fn finish(self) -> (report: RunReport)
        requires
            self.wf(),
            self@.next() is None,
        ensures
            report@ == (ReportView {
                failed_tests: self@.stats().failed_tests,
                xpassed_tests: self@.stats().xpassed_tests,
            }),
            texts(report.failed_tests@) == self@.stats().failed_tests,
            texts(report.xpassed_tests@) == self@.stats().xpassed_tests,
    {
        RunReport::from(self.stats)
    }
}

} // verus!
