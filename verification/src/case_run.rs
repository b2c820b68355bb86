//! One run of a test case: what to launch next, and what the outcomes add up to.

use crate::case::{CaseView, TestCase};
use crate::filter::{selects, TestFilter};
use crate::outcome::TestOutcome;
use crate::stats::{Statistics, StatsView};
use std::time::Duration;
use vstd::prelude::*;

verus! {

/// One thing that a run of a test case launches.
#[derive(Debug, Clone, Copy, PartialEq, Eq, Structural)]
pub enum Step {
    /// The initialization.
    Init,
    /// The test at this index of the test case.
    Test(usize),
    /// The cleanup.
    Cleanup,
}

/// The steps for the tests that `selected` lets through, in the order of the tests.
pub open spec fn test_steps<B>(
    tests: Seq<(Seq<char>, Duration, B)>,
    selected: Set<Seq<char>>,
) -> Seq<Step>
    decreases tests.len(),
{
    if tests.len() == 0 {
        Seq::empty()
    } else {
        let before = test_steps(tests.drop_last(), selected);
        if selects(selected, tests.last().0) {
            before.push(Step::Test((tests.len() - 1) as usize))
        } else {
            before
        }
    }
}

/// How many of `outcomes` are `kind`.
pub open spec fn count(outcomes: Seq<TestOutcome>, kind: TestOutcome) -> nat
    decreases outcomes.len(),
{
    if outcomes.len() == 0 {
        0
    } else {
        count(outcomes.drop_last(), kind) + if outcomes.last() == kind {
            1nat
        } else {
            0nat
        }
    }
}

impl<B> CaseView<B> {
    /// All that a run of the test case may launch, in order: the initialization, the selected
    /// tests, the cleanup.
    pub open spec fn steps(self, selected: Set<Seq<char>>) -> Seq<Step> {
        let init = if self.init is Some {
            seq![Step::Init]
        } else {
            Seq::empty()
        };
        let cleanup = if self.cleanup is Some {
            seq![Step::Cleanup]
        } else {
            Seq::empty()
        };
        init + test_steps(self.tests, selected) + cleanup
    }

    /// The number of tests that a run is expected to have: the names in the filter, or all tests
    /// where it is empty, and initialization and cleanup besides.
    pub open spec fn total(self, selected: Set<Seq<char>>) -> nat {
        let tests = if selected.is_empty() {
            self.tests.len()
        } else {
            selected.len()
        };
        let init = if self.init is Some {
            1nat
        } else {
            0nat
        };
        let cleanup = if self.cleanup is Some {
            1nat
        } else {
            0nat
        };
        tests + init + cleanup
    }

    /// What a step is called within the test case.
    pub open spec fn step_name(self, step: Step) -> Seq<char> {
        match step {
            Step::Init => "init"@,
            Step::Test(i) => self.tests[i as int].0,
            Step::Cleanup => "cleanup"@,
        }
    }

    /// The timeout and the body of a step.
    pub open spec fn body(self, step: Step) -> (Duration, B) {
        match step {
            Step::Init => self.init->0,
            Step::Test(i) => (self.tests[i as int].1, self.tests[i as int].2),
            Step::Cleanup => self.cleanup->0,
        }
    }
}

/// A run of a test case and the outcomes it has seen, the first step's outcome first.
pub struct CaseModel<B> {
    pub case: CaseView<B>,
    pub name: Seq<char>,
    pub selected: Set<Seq<char>>,
    pub outcomes: Seq<TestOutcome>,
}

impl<B> CaseModel<B> {
    /// All that the run launches, unless its initialization stops it.
    pub open spec fn steps(self) -> Seq<Step> {
        self.case.steps(self.selected)
    }

    /// Whether the initialization failed, expectedly or not.
    pub open spec fn aborted(self) -> bool {
        &&& self.case.init is Some
        &&& self.outcomes.len() > 0
        &&& (self.outcomes[0] is Failed || self.outcomes[0] is Xfailed)
    }

    /// What to launch next, if anything.
    pub open spec fn next(self) -> Option<Step> {
        if self.aborted() || self.outcomes.len() >= self.steps().len() {
            None
        } else {
            Some(self.steps()[self.outcomes.len() as int])
        }
    }

    /// Whether the outcomes can come from a run: each is that of a step that was launched.
    pub open spec fn valid(self) -> bool {
        &&& self.case.tests.len() <= usize::MAX
        &&& self.outcomes.len() <= self.steps().len()
        &&& self.aborted() ==> self.outcomes.len() == 1
    }

    /// The run after one more outcome.
    pub open spec fn push(self, outcome: TestOutcome) -> CaseModel<B> {
        CaseModel { outcomes: self.outcomes.push(outcome), ..self }
    }

    /// The name under which a step is reported.
    pub open spec fn label(self, step: Step) -> Seq<char> {
        self.name + "::"@ + self.case.step_name(step)
    }

    /// The names of the first `n` launched steps whose outcome is `kind`, in launch order.
    pub open spec fn labels(self, kind: TestOutcome, n: nat) -> Seq<Seq<char>>
        decreases n,
    {
        if n == 0 {
            Seq::empty()
        } else {
            let before = self.labels(kind, (n - 1) as nat);
            if self.outcomes[n - 1] == kind {
                before.push(self.label(self.steps()[n - 1]))
            } else {
                before
            }
        }
    }

    /// The statistics of the run so far.
    pub open spec fn stats(self) -> StatsView {
        StatsView {
            total: self.case.total(self.selected),
            launched: self.outcomes.len(),
            ok: count(self.outcomes, TestOutcome::Passed),
            failed: count(self.outcomes, TestOutcome::Failed),
            failed_tests: self.labels(TestOutcome::Failed, self.outcomes.len()),
            xfailed: count(self.outcomes, TestOutcome::Xfailed),
            xpassed: count(self.outcomes, TestOutcome::Xpassed),
            xpassed_tests: self.labels(TestOutcome::Xpassed, self.outcomes.len()),
        }
    }
}

/// A step to launch, with its name, timeout and body.
pub struct Launch<'a, B> {
    pub step: Step,
    pub name: &'a str,
    pub timeout: Duration,
    pub body: &'a B,
}

/// A run of a test case in progress. It says what to launch next and takes the outcome of what
/// was launched. Its view is the run so far.
pub struct CaseRun<'a, B> {
    test_case: &'a TestCase<B>,
    name: &'a str,
    plan: Vec<Step>,
    aborted: bool,
    stats: Statistics,
    model: Ghost<CaseModel<B>>,
}

impl<'a, B> View for CaseRun<'a, B> {
    type V = CaseModel<B>;

    closed spec fn view(&self) -> CaseModel<B> {
        self.model@
    }
}

/// Every outcome is of one kind.
pub(crate) proof fn lemma_counts_add_up(outcomes: Seq<TestOutcome>)
    ensures
        outcomes.len() == count(outcomes, TestOutcome::Passed) + count(
            outcomes,
            TestOutcome::Failed,
        ) + count(outcomes, TestOutcome::Xfailed) + count(outcomes, TestOutcome::Xpassed),
    decreases outcomes.len(),
{
    if outcomes.len() > 0 {
        lemma_counts_add_up(outcomes.drop_last());
    }
}

/// The names of the steps launched so far do not depend on outcomes to come.
proof fn lemma_labels_push<B>(
    model: CaseModel<B>,
    outcome: TestOutcome,
    kind: TestOutcome,
    n: nat,
)
    requires
        n <= model.outcomes.len(),
    ensures
        model.push(outcome).labels(kind, n) == model.labels(kind, n),
    decreases n,
{
    if n > 0 {
        lemma_labels_push(model, outcome, kind, (n - 1) as nat);
    }
}

/// What one more outcome adds to the statistics of a run.
pub proof fn law_one_more_outcome<B>(model: CaseModel<B>, outcome: TestOutcome)
    ensures
        ({
            let n = model.outcomes.len();
            let label = model.label(model.steps()[n as int]);
            let before = model.stats();
            let launched = StatsView { launched: n + 1, ..before };
            model.push(outcome).stats() == match outcome {
                TestOutcome::Passed => StatsView { ok: before.ok + 1, ..launched },
                TestOutcome::Failed => StatsView {
                    failed: before.failed + 1,
                    failed_tests: before.failed_tests.push(label),
                    ..launched
                },
                TestOutcome::Xfailed => StatsView { xfailed: before.xfailed + 1, ..launched },
                TestOutcome::Xpassed => StatsView {
                    xpassed: before.xpassed + 1,
                    xpassed_tests: before.xpassed_tests.push(label),
                    ..launched
                },
            }
        }),
{
    assert(model.outcomes.push(outcome).drop_last() =~= model.outcomes);
    lemma_labels_push(model, outcome, TestOutcome::Failed, model.outcomes.len());
    lemma_labels_push(model, outcome, TestOutcome::Xpassed, model.outcomes.len());
}

/// Each step for a test is that of a selected test, and they are in strictly ascending order.
pub(crate) proof fn lemma_test_steps<B>(tests: Seq<(Seq<char>, Duration, B)>, selected: Set<Seq<char>>)
    requires
        tests.len() <= usize::MAX,
    ensures
        test_steps(tests, selected).len() <= tests.len(),
        selected.is_empty() ==> test_steps(tests, selected).len() == tests.len(),
        forall|k: int|
            #![trigger test_steps(tests, selected)[k]]
            0 <= k < test_steps(tests, selected).len() ==> {
                let step = test_steps(tests, selected)[k];
                &&& step is Test
                &&& step->0 < tests.len()
                &&& selects(selected, tests[step->0 as int].0)
            },
        forall|j: int, k: int|
            #![trigger test_steps(tests, selected)[j], test_steps(tests, selected)[k]]
            0 <= j < k < test_steps(tests, selected).len() ==> test_steps(tests, selected)[j]->0
                < test_steps(tests, selected)[k]->0,
        forall|i: usize|
            #![trigger test_steps(tests, selected).contains(Step::Test(i))]
            i < tests.len() && selects(selected, tests[i as int].0) ==> test_steps(
                tests,
                selected,
            ).contains(Step::Test(i)),
    decreases tests.len(),
{
    if tests.len() > 0 {
        let shorter = tests.drop_last();
        lemma_test_steps(shorter, selected);
        let before = test_steps(shorter, selected);
        let all = test_steps(tests, selected);
        assert forall|k: int| #![trigger all[k]] 0 <= k < all.len() implies {
            let step = all[k];
            &&& step is Test
            &&& step->0 < tests.len()
            &&& selects(selected, tests[step->0 as int].0)
        } by {
            if k < before.len() {
                assert(all[k] == before[k]);
            }
        }
        assert forall|j: int, k: int| #![trigger all[j], all[k]] 0 <= j < k < all.len() implies all[j]->0
            < all[k]->0 by {
            assert(all[j] == before[j]);
            if k < before.len() {
                assert(all[k] == before[k]);
            }
        }
        assert forall|i: usize|
            #![trigger all.contains(Step::Test(i))]
            i < tests.len() && selects(selected, tests[i as int].0) implies all.contains(
            Step::Test(i),
        ) by {
            if i < shorter.len() {
                assert(before.contains(Step::Test(i)));
                let k = choose|k: int| 0 <= k < before.len() && before[k] == Step::Test(i);
                assert(all[k] == Step::Test(i));
            } else {
                assert(all[all.len() - 1] == Step::Test(i));
            }
        }
    }
}

/// Every step of a test case is one that it has.
pub(crate) proof fn lemma_steps_exist<B>(case: CaseView<B>, selected: Set<Seq<char>>)
    requires
        case.tests.len() <= usize::MAX,
    ensures
        forall|k: int|
            #![trigger case.steps(selected)[k]]
            0 <= k < case.steps(selected).len() ==> match case.steps(selected)[k] {
                Step::Init => k == 0 && case.init is Some,
                Step::Test(i) => i < case.tests.len(),
                Step::Cleanup => case.cleanup is Some,
            },
        case.init is Some ==> case.steps(selected).len() > 0 && case.steps(selected)[0]
            == Step::Init,
{
    lemma_test_steps(case.tests, selected);
}

impl<B> TestCase<B> {
    /// The number of tests that a run is expected to have, unless that overflows.
    pub fn total(&self, test_cases: &TestFilter) -> (total: Option<usize>)
        ensures
            match total {
                Some(n) => n == self@.total(test_cases@),
                None => self@.total(test_cases@) > usize::MAX,
            },
            ({
                let tests = if test_cases@ == Set::<Seq<char>>::empty() {
                    self@.tests.len()
                } else {
                    test_cases@.len()
                };
                let others = match (self@.init, self@.cleanup) {
                    (None, None) => 0nat,
                    (Some(_), Some(_)) => 2nat,
                    _ => 1nat,
                };
                match total {
                    Some(n) => n == tests + others,
                    None => tests + others > usize::MAX,
                }
            }),
    {
        let tests: usize = if test_cases.is_empty() {
            self.tests().len()
        } else {
            test_cases.len()
        };
        let mut others: usize = 0;
        if self.init().is_some() {
            others += 1;
        }
        if self.cleanup().is_some() {
            others += 1;
        }
        tests.checked_add(others)
    }

    /// Starts a run of the initialization, all tests that `test_cases` selects, and the cleanup
    /// of the test case.
    pub fn run<'a>(&'a self, test_case_name: &'a str, test_cases: &TestFilter) -> (run: CaseRun<
        'a,
        B,
    >)
        requires
            self@.total(test_cases@) <= usize::MAX,
        ensures
            run.wf(),
            run@.valid(),
            run@ == (CaseModel {
                case: self@,
                name: test_case_name@,
                selected: test_cases@,
                outcomes: Seq::empty(),
            }),
    {
        let tests = self.tests();
        let total: usize = self.total(test_cases).unwrap();
        let mut plan: Vec<Step> = vec![];
        if self.init().is_some() {
            plan.push(Step::Init);
        }
        let ghost first = plan@;
        let mut i: usize = 0;
        while i < tests.len()
            invariant
                i <= tests@.len(),
                crate::case::named(tests@) == self@.tests,
                plan@ == first + test_steps(self@.tests.take(i as int), test_cases@),
            decreases tests@.len() - i,
        {
            assert(self@.tests.take(i + 1).drop_last() =~= self@.tests.take(i as int));
            assert(self@.tests.take(i + 1).last() == self@.tests[i as int]);
            if test_cases.selects(tests[i].0.as_str()) {
                plan.push(Step::Test(i));
            }
            assert(plan@ =~= first + test_steps(self@.tests.take(i + 1), test_cases@));
            i += 1;
        }
        assert(self@.tests.take(i as int) =~= self@.tests);
        if self.cleanup().is_some() {
            plan.push(Step::Cleanup);
        }
        assert(plan@ =~= self@.steps(test_cases@));
        CaseRun {
            test_case: self,
            name: test_case_name,
            plan,
            aborted: false,
            stats: Statistics::new(total),
            model: Ghost(
                CaseModel {
                    case: self@,
                    name: test_case_name@,
                    selected: test_cases@,
                    outcomes: Seq::empty(),
                },
            ),
        }
    }
}

impl<'a, B> CaseRun<'a, B> {
    /// The invariant of a run.
    pub closed spec fn wf(self) -> bool {
        &&& self@.valid()
        &&& self@.case == self.test_case@
        &&& self@.name == self.name@
        &&& self.plan@ == self@.steps()
        &&& self.aborted == self@.aborted()
        &&& self.stats@ == self@.stats()
    }

    /// What to launch next. Nothing is left once every step was launched, or once the
    /// initialization did not pass.
    pub fn next(&self) -> (launch: Option<Launch<'a, B>>)
        requires
            self.wf(),
        ensures
            launch is Some <==> self@.next() is Some,
            launch matches Some(l) ==> {
                &&& l.step == self@.next()->0
                &&& l.name@ == self@.case.step_name(l.step)
                &&& (l.timeout, *l.body) == self@.case.body(l.step)
                &&& match l.step {
                    Step::Init => {
                        &&& l.name@ == "init"@
                        &&& self@.case.init == Some((l.timeout, *l.body))
                    },
                    Step::Test(i) => {
                        &&& i < self@.case.tests.len()
                        &&& self@.case.tests[i as int] == (l.name@, l.timeout, *l.body)
                    },
                    Step::Cleanup => {
                        &&& l.name@ == "cleanup"@
                        &&& self@.case.cleanup == Some((l.timeout, *l.body))
                    },
                }
            },
    {
        if self.aborted || self.stats.launched >= self.plan.len() {
            return None;
        }
        proof {
            lemma_steps_exist(self@.case, self@.selected);
        }
        let step = self.plan[self.stats.launched];
        match step {
            Step::Init => match self.test_case.init() {
                Some((timeout, body)) => Some(
                    Launch { step, name: "init", timeout: *timeout, body },
                ),
                None => None,
            },
            Step::Test(i) => {
                let test = &self.test_case.tests()[i];
                Some(Launch { step, name: test.0.as_str(), timeout: test.1, body: &test.2 })
            },
            Step::Cleanup => match self.test_case.cleanup() {
                Some((timeout, body)) => Some(
                    Launch { step, name: "cleanup", timeout: *timeout, body },
                ),
                None => None,
            },
        }
    }

    /// The name under which a step of this run is reported.
    fn label(&self, step: Step) -> (label: String)
        requires
            step matches Step::Test(i) ==> i < self.test_case@.tests.len(),
        ensures
            label@ == self.name@ + "::"@ + self.test_case@.step_name(step),
    {
        let mut label = self.name.to_string();
        label.append("::");
        match step {
            Step::Init => label.append("init"),
            Step::Test(i) => label.append(self.test_case.tests()[i].0.as_str()),
            Step::Cleanup => label.append("cleanup"),
        }
        label
    }

    /// Takes the outcome of the step that was to be launched next. An initialization that failed,
    /// expectedly or not, ends the run.
    pub fn record(&mut self, outcome: TestOutcome)
        requires
            old(self).wf(),
            old(self)@.next() is Some,
        ensures
            final(self).wf(),
            final(self)@.valid(),
            final(self)@ == old(self)@.push(outcome),
            final(self)@.case == old(self)@.case,
            final(self)@.name == old(self)@.name,
            final(self)@.selected == old(self)@.selected,
            final(self)@.outcomes == old(self)@.outcomes.push(outcome),
    {
        proof {
            lemma_steps_exist(self@.case, self@.selected);
            lemma_counts_add_up(self@.outcomes);
            law_one_more_outcome(self@, outcome);
        }
        assert(self.stats.launched < self.plan.len());
        let step = self.plan[self.stats.launched];
        self.stats.launched += 1;
        match outcome {
            TestOutcome::Passed => {
                self.stats.ok += 1;
            },
            TestOutcome::Failed => {
                let label = self.label(step);
                self.stats.record_failure(label);
                self.aborted = step == Step::Init;
            },
            TestOutcome::Xfailed => {
                self.stats.record_xfailed();
                self.aborted = step == Step::Init;
            },
            TestOutcome::Xpassed => {
                let label = self.label(step);
                self.stats.record_xpassed(label);
            },
        }
        self.model = Ghost(self.model@.push(outcome));
    }

    /// The statistics of the run so far.
    pub fn stats(&self) -> (stats: &Statistics)
        requires
            self.wf(),
        ensures
            stats@ == self@.stats(),
    {
        &self.stats
    }

    /// A run in progress is one that can be.
    pub proof fn lemma_wf_is_valid(self)
        requires
            self.wf(),
        ensures
            self@.valid(),
    {
    }

    /// Ends the run and hands out its statistics.
    pub fn finish(self) -> (stats: Statistics)
        requires
            self.wf(),
            self@.next() is None,
        ensures
            stats@ == self@.stats(),
    {
        self.stats
    }
}

} // verus!
