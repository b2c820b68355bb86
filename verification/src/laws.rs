//! What holds of every run, whatever the outcomes.

use crate::case::{named, CaseView, TestCase};
use crate::case_run::{
    count, lemma_counts_add_up, lemma_steps_exist, lemma_test_steps, test_steps, CaseModel, Step,
};
use crate::filter::{filter_of, runs_case, selects};
use crate::outcome::TestOutcome;
use crate::report::{bulleted, test_list, text, RunReport};
use crate::stats::{texts, Statistics, StatsView};
use crate::suite::{case_views, law_selected_cases, selected_cases, SuiteModel};
use std::time::Duration;
use vstd::prelude::*;

verus! {

/// A run launches the initialization first, then the selected tests in the order in which they
/// were added, each once, and the cleanup last; nothing else is launched.
pub proof fn law_steps_are_in_order<B>(case: CaseView<B>, selected: Set<Seq<char>>)
    requires
        case.tests.len() <= usize::MAX,
    ensures
        case.steps(selected).contains(Step::Init) <==> case.init is Some,
        case.steps(selected).contains(Step::Cleanup) <==> case.cleanup is Some,
        forall|i: usize| #[trigger]
            case.steps(selected).contains(Step::Test(i)) <==> i < case.tests.len() && (selected
                == Set::<Seq<char>>::empty() || selected.contains(case.tests[i as int].0)),
        forall|j: int, k: int|
            #![trigger case.steps(selected)[j], case.steps(selected)[k]]
            0 <= j < k < case.steps(selected).len() ==> match (
                case.steps(selected)[j],
                case.steps(selected)[k],
            ) {
                (Step::Init, Step::Init) => false,
                (Step::Init, _) => true,
                (Step::Test(a), Step::Test(b)) => a < b,
                (Step::Test(_), Step::Cleanup) => true,
                _ => false,
            },
{
    let tests = test_steps(case.tests, selected);
    let steps = case.steps(selected);
    lemma_test_steps(case.tests, selected);
    lemma_steps_exist(case, selected);
    let first: int = if case.init is Some {
        1
    } else {
        0
    };
    assert forall|k: int| first <= k < first + tests.len() implies #[trigger] steps[k] == tests[k
        - first] by {}
    if case.cleanup is Some {
        assert(steps[steps.len() - 1] == Step::Cleanup);
    }
    assert forall|i: usize| #[trigger] steps.contains(Step::Test(i)) <==> i < case.tests.len()
        && selects(selected, case.tests[i as int].0) by {
        if i < case.tests.len() && selects(selected, case.tests[i as int].0) {
            assert(tests.contains(Step::Test(i)));
            let k = choose|k: int| 0 <= k < tests.len() && tests[k] == Step::Test(i);
            assert(steps[k + first] == Step::Test(i));
        }
        if steps.contains(Step::Test(i)) {
            let k = choose|k: int| 0 <= k < steps.len() && steps[k] == Step::Test(i);
            assert(tests[k - first] == Step::Test(i));
        }
    }
    assert forall|j: int, k: int| #![trigger steps[j], steps[k]] 0 <= j < k < steps.len() implies match (
        steps[j],
        steps[k],
    ) {
        (Step::Init, Step::Init) => false,
        (Step::Init, _) => true,
        (Step::Test(a), Step::Test(b)) => a < b,
        (Step::Test(_), Step::Cleanup) => true,
        _ => false,
    } by {
        if first <= j && k < first + tests.len() {
            assert(steps[j] == tests[j - first]);
            assert(steps[k] == tests[k - first]);
        } else if first <= j {
            assert(steps[j] == tests[j - first]);
        }
    }
}

/// A run that has something to launch comes closer to its end with each outcome.
pub proof fn law_run_progresses<B>(model: CaseModel<B>, outcome: TestOutcome)
    requires
        model.valid(),
        model.next() is Some,
    ensures
        model.push(outcome).valid(),
        model.push(outcome).steps() == model.steps(),
        model.outcomes.len() < model.push(outcome).outcomes.len() <= model.steps().len(),
{
    lemma_steps_exist(model.case, model.selected);
}

/// An initialization that fails, expectedly or not, ends the run: no test and no cleanup is
/// launched, and only a failure that was not expected is reported.
pub proof fn law_failed_init_aborts_the_case<B>(model: CaseModel<B>)
    requires
        model.valid(),
        model.case.init is Some,
        model.outcomes.len() > 0,
        model.outcomes[0] is Failed || model.outcomes[0] is Xfailed,
    ensures
        model.next() is None,
        model.stats() == (StatsView {
            launched: 1,
            failed: if model.outcomes[0] is Failed {
                1
            } else {
                0
            },
            failed_tests: if model.outcomes[0] is Failed {
                seq![model.name + "::"@ + "init"@]
            } else {
                Seq::empty()
            },
            xfailed: if model.outcomes[0] is Xfailed {
                1
            } else {
                0
            },
            ..StatsView::new(model.case.total(model.selected))
        }),
{
    lemma_steps_exist(model.case, model.selected);
    reveal_with_fuel(count, 2);
    reveal_with_fuel(CaseModel::labels, 2);
    assert(model.outcomes.drop_last() =~= Seq::empty());
    assert(model.stats() =~= StatsView {
        launched: 1,
        failed: if model.outcomes[0] is Failed {
            1
        } else {
            0
        },
        failed_tests: if model.outcomes[0] is Failed {
            seq![model.name + "::"@ + "init"@]
        } else {
            Seq::empty()
        },
        xfailed: if model.outcomes[0] is Xfailed {
            1
        } else {
            0
        },
        ..StatsView::new(model.case.total(model.selected))
    });
}

/// Nothing but a failed initialization keeps a run from launching all its steps: failing tests do
/// not, and the cleanup is launched after them; an initialization that passes, expectedly or not,
/// does not either.
pub proof fn law_other_runs_are_complete<B>(model: CaseModel<B>)
    requires
        model.outcomes.len() <= model.steps().len(),
        model.case.init is Some && model.outcomes.len() > 0 ==> model.outcomes[0] is Passed
            || model.outcomes[0] is Xpassed,
    ensures
        model.next() is Some <==> model.outcomes.len() < model.steps().len(),
        model.next() is Some ==> model.next() == Some(model.steps()[model.outcomes.len() as int]),
        model.next() is None ==> model.stats().launched == model.steps().len(),
{
}

/// Every step launched is counted under exactly one outcome, and the reported names are as many as
/// the tests that failed or passed unexpectedly.
pub proof fn law_case_statistics_are_consistent<B>(model: CaseModel<B>)
    ensures
        model.stats().balanced(),
        model.stats().names_match_counts(),
        model.stats().launched == model.stats().ok + model.stats().failed + model.stats().xfailed
            + model.stats().xpassed,
        model.stats().failed == model.stats().failed_tests.len(),
        model.stats().xpassed == model.stats().xpassed_tests.len(),
{
    lemma_counts_add_up(model.outcomes);
    lemma_labels_are_counted(model, TestOutcome::Failed, model.outcomes.len());
    lemma_labels_are_counted(model, TestOutcome::Xpassed, model.outcomes.len());
    assert(model.outcomes.take(model.outcomes.len() as int) =~= model.outcomes);
}

proof fn lemma_labels_are_counted<B>(model: CaseModel<B>, kind: TestOutcome, n: nat)
    requires
        n <= model.outcomes.len(),
    ensures
        model.labels(kind, n).len() == count(model.outcomes.take(n as int), kind),
    decreases n,
{
    if n > 0 {
        lemma_labels_are_counted(model, kind, (n - 1) as nat);
        assert(model.outcomes.take(n as int).drop_last() =~= model.outcomes.take(n - 1));
    }
}

/// Whether one of the first `n` launched steps has the outcome `kind` and is reported as `label`.
pub open spec fn ended_as<B>(
    model: CaseModel<B>,
    kind: TestOutcome,
    n: nat,
    label: Seq<char>,
) -> bool {
    exists|i: int|
        0 <= i < n && #[trigger] model.outcomes[i] == kind && label == model.label(
            model.steps()[i],
        )
}

/// The reported names are those of the steps with the reported outcome: each such step is named,
/// and nothing else is.
pub proof fn law_names_are_those_of_the_outcome<B>(model: CaseModel<B>)
    ensures
        forall|label: Seq<char>| #[trigger]
            model.stats().failed_tests.contains(label) <==> ended_as(
                model,
                TestOutcome::Failed,
                model.outcomes.len(),
                label,
            ),
        forall|label: Seq<char>| #[trigger]
            model.stats().xpassed_tests.contains(label) <==> ended_as(
                model,
                TestOutcome::Xpassed,
                model.outcomes.len(),
                label,
            ),
{
    assert forall|label: Seq<char>| #[trigger]
        model.stats().failed_tests.contains(label) <==> ended_as(
            model,
            TestOutcome::Failed,
            model.outcomes.len(),
            label,
        ) by {
        lemma_labels_up_to(model, TestOutcome::Failed, model.outcomes.len(), label);
    }
    assert forall|label: Seq<char>| #[trigger]
        model.stats().xpassed_tests.contains(label) <==> ended_as(
            model,
            TestOutcome::Xpassed,
            model.outcomes.len(),
            label,
        ) by {
        lemma_labels_up_to(model, TestOutcome::Xpassed, model.outcomes.len(), label);
    }
}

proof fn lemma_labels_up_to<B>(
    model: CaseModel<B>,
    kind: TestOutcome,
    n: nat,
    label: Seq<char>,
)
    ensures
        model.labels(kind, n).contains(label) <==> ended_as(model, kind, n, label),
    decreases n,
{
    if n > 0 {
        let m = (n - 1) as nat;
        let before = model.labels(kind, m);
        let labels = model.labels(kind, n);
        lemma_labels_up_to(model, kind, m, label);
        if labels.contains(label) {
            let k = choose|k: int| 0 <= k < labels.len() && labels[k] == label;
            if k < before.len() {
                assert(before[k] == label);
            } else {
                assert(model.outcomes[n - 1] == kind);
            }
        }
        if ended_as(model, kind, n, label) {
            if before.contains(label) {
                let k = choose|k: int| 0 <= k < before.len() && before[k] == label;
                assert(labels[k] == label);
            } else {
                assert(labels[labels.len() - 1] == label);
            }
        }
    }
}

/// A kind of outcome is counted zero times if and only if it never occurred.
proof fn lemma_count_zero(outcomes: Seq<TestOutcome>, kind: TestOutcome)
    ensures
        count(outcomes, kind) == 0 <==> !outcomes.contains(kind),
    decreases outcomes.len(),
{
    if outcomes.len() > 0 {
        let before = outcomes.drop_last();
        lemma_count_zero(before, kind);
        if outcomes.last() == kind {
            assert(outcomes[outcomes.len() - 1] == kind);
        } else if outcomes.contains(kind) {
            let i = choose|i: int| 0 <= i < outcomes.len() && outcomes[i] == kind;
            assert(before[i] == kind);
        }
        if before.contains(kind) {
            let i = choose|i: int| 0 <= i < before.len() && before[i] == kind;
            assert(outcomes[i] == kind);
        }
    }
}

/// Where the filter is empty, a run that is not cut short launches as many steps as it announced.
pub proof fn law_unfiltered_run_launches_the_total<B>(model: CaseModel<B>)
    requires
        model.valid(),
        model.selected.is_empty(),
        model.next() is None,
        !model.aborted(),
    ensures
        model.stats().launched == model.stats().total,
{
    lemma_test_steps(model.case.tests, model.selected);
}

/// The names of tests.
pub open spec fn names_of<B>(tests: Seq<(Seq<char>, Duration, B)>) -> Seq<Seq<char>> {
    tests.map_values(|t: (Seq<char>, Duration, B)| t.0)
}

/// With distinct names, as many tests are selected as there are names in the filter that belong
/// to a test.
proof fn lemma_selected_are_named<B>(
    tests: Seq<(Seq<char>, Duration, B)>,
    selected: Set<Seq<char>>,
)
    requires
        !selected.is_empty(),
        selected.finite(),
        names_of(tests).no_duplicates(),
    ensures
        test_steps(tests, selected).len() == selected.intersect(names_of(tests).to_set()).len(),
    decreases tests.len(),
{
    let names = names_of(tests).to_set();
    if tests.len() == 0 {
        assert(selected.intersect(names) =~= Set::empty());
    } else {
        let shorter = tests.drop_last();
        let last = tests.last().0;
        let before = names_of(shorter).to_set();
        assert(names_of(shorter) =~= names_of(tests).drop_last());
        assert(names_of(tests) =~= names_of(shorter).push(last));
        lemma_selected_are_named(shorter, selected);
        assert(!before.contains(last)) by {
            if before.contains(last) {
                let i = choose|i: int| 0 <= i < shorter.len() && names_of(shorter)[i] == last;
                assert(names_of(tests)[i] == names_of(tests)[tests.len() - 1]);
            }
        }
        assert(names =~= before.insert(last)) by {
            assert forall|x: Seq<char>| names.contains(x) <==> before.insert(last).contains(x) by {
                if names.contains(x) {
                    let i = choose|i: int| 0 <= i < tests.len() && names_of(tests)[i] == x;
                    if i < shorter.len() {
                        assert(names_of(shorter)[i] == x);
                    }
                }
                if before.contains(x) {
                    let i = choose|i: int| 0 <= i < shorter.len() && names_of(shorter)[i] == x;
                    assert(names_of(tests)[i] == x);
                }
                assert(names_of(tests)[tests.len() - 1] == last);
            }
        }
        if selected.contains(last) {
            assert(selected.intersect(names) =~= selected.intersect(before).insert(last));
        } else {
            assert(selected.intersect(names) =~= selected.intersect(before));
        }
    }
}

/// Where the filter names tests and no two tests share a name, a run launches no more than it
/// announced, and exactly that much if it is not cut short and every name in the filter is that
/// of a test.
pub proof fn law_filtered_run_stays_within_the_total<B>(model: CaseModel<B>)
    requires
        model.valid(),
        !model.selected.is_empty(),
        model.selected.finite(),
        names_of(model.case.tests).no_duplicates(),
    ensures
        model.stats().launched <= model.stats().total,
        model.next() is None && !model.aborted() && model.selected.subset_of(
            names_of(model.case.tests).to_set(),
        ) ==> model.stats().launched == model.stats().total,
{
    let names = names_of(model.case.tests).to_set();
    lemma_selected_are_named(model.case.tests, model.selected);
    vstd::set_lib::lemma_len_intersect(model.selected, names);
    if model.selected.subset_of(names) {
        assert(model.selected.intersect(names) =~= model.selected);
    }
}

/// A run without filters runs every test case with all its tests.
pub proof fn law_no_filter_runs_everything<B>(
    cases: Seq<(Seq<char>, CaseView<B>)>,
    filters: Map<Seq<char>, Set<Seq<char>>>,
)
    requires
        cases.len() <= usize::MAX,
        filters.is_empty(),
    ensures
        selected_cases(cases, filters) == Seq::new(cases.len(), |i: int| i as usize),
        forall|name: Seq<char>, test: Seq<char>| #[trigger]
            selects(filter_of(filters, name), test),
    decreases cases.len(),
{
    if cases.len() > 0 {
        law_no_filter_runs_everything(cases.drop_last(), filters);
    }
    assert(selected_cases(cases, filters) =~= Seq::new(cases.len(), |i: int| i as usize));
}

/// Where there are filters, the test cases that run are those with an entry. An entry without
/// names runs all tests of its test case; one with names runs those tests only.
pub proof fn law_filters_select(
    filters: Map<Seq<char>, Set<Seq<char>>>,
    name: Seq<char>,
    test: Seq<char>,
)
    requires
        !filters.is_empty(),
    ensures
        runs_case(filters, name) <==> filters.contains_key(name),
        filters.contains_key(name) ==> (selects(filter_of(filters, name), test)
            <==> filters[name].is_empty() || filters[name].contains(test)),
{
}

/// A filter without names lets every test through, any other exactly those that it names.
pub proof fn law_filter_goes_by_name(names: Set<Seq<char>>, name: Seq<char>)
    ensures
        selects(names, name) <==> names == Set::<Seq<char>>::empty() || names.contains(name),
{
}

/// A filter map without entries lets every test case run, any other exactly those that it has an
/// entry for; the names that filter a test case are those of its entry, and none without one.
pub proof fn law_filter_map_goes_by_name(
    filters: Map<Seq<char>, Set<Seq<char>>>,
    name: Seq<char>,
)
    ensures
        runs_case(filters, name) <==> filters.dom() == Set::<Seq<char>>::empty()
            || filters.contains_key(name),
        filters.contains_key(name) ==> filter_of(filters, name) == filters[name],
        !filters.contains_key(name) ==> filter_of(filters, name) == Set::<Seq<char>>::empty(),
{
}

/// The statistics of a run of test cases are as consistent as those of one test case.
pub proof fn law_suite_statistics_are_consistent<B>(model: SuiteModel<B>)
    ensures
        model.stats().balanced(),
        model.stats().names_match_counts(),
        model.stats().launched == model.stats().ok + model.stats().failed + model.stats().xfailed
            + model.stats().xpassed,
        model.stats().failed == model.stats().failed_tests.len(),
        model.stats().xpassed == model.stats().xpassed_tests.len(),
{
    lemma_suite_consistent_up_to(model, model.outcomes.len());
}

proof fn lemma_suite_consistent_up_to<B>(model: SuiteModel<B>, n: nat)
    ensures
        model.stats_of(n).balanced(),
        model.stats_of(n).names_match_counts(),
    decreases n,
{
    if n > 0 {
        lemma_suite_consistent_up_to(model, (n - 1) as nat);
        law_case_statistics_are_consistent(model.finished(n - 1));
    }
}

/// A run of test cases has no failed tests if and only if no step of any of its test cases failed.
/// Failures that were expected and unexpected passes do not count.
pub proof fn law_success_means_no_failure<B>(model: SuiteModel<B>)
    ensures
        model.stats().failed == 0 <==> model.stats().failed_tests.len() == 0,
        model.stats().failed_tests.len() == 0 <==> forall|k: int|
            0 <= k < model.outcomes.len() ==> !(#[trigger] model.outcomes[k]).contains(
                TestOutcome::Failed,
            ),
{
    law_suite_statistics_are_consistent(model);
    lemma_success_up_to(model, model.outcomes.len());
}

proof fn lemma_success_up_to<B>(model: SuiteModel<B>, n: nat)
    requires
        n <= model.outcomes.len(),
    ensures
        model.stats_of(n).failed_tests.len() == 0 <==> forall|k: int|
            0 <= k < n ==> !(#[trigger] model.outcomes[k]).contains(TestOutcome::Failed),
    decreases n,
{
    if n > 0 {
        lemma_success_up_to(model, (n - 1) as nat);
        law_case_statistics_are_consistent(model.finished(n - 1));
        lemma_count_zero(model.outcomes[n - 1], TestOutcome::Failed);
    }
}

/// A report has a list of failed tests if and only if the run was no success.
pub proof fn law_summary_exists_on_failure(report: RunReport)
    ensures
        test_list("Failed tests:"@, report@.failed_tests) is Some <==> report@.failed_tests.len()
            != 0,
{
}

/// The step for a test launches the body that was given with that test, under its timeout and its
/// name, and reports it by the name of the test case, two colons and that name.
pub proof fn law_test_step_is_that_test<B>(model: CaseModel<B>, i: usize)
    requires
        i < model.case.tests.len(),
    ensures
        model.case.body(Step::Test(i)).0 == model.case.tests[i as int].1,
        model.case.body(Step::Test(i)).1 == model.case.tests[i as int].2,
        model.case.step_name(Step::Test(i)) == model.case.tests[i as int].0,
        model.label(Step::Test(i)) == model.name + seq![':', ':'] + model.case.tests[i as int].0,
{
    reveal_strlit("::");
    assert("::"@ =~= seq![':', ':']);
}

/// The steps for initialization and cleanup launch what was given for them, and are reported as
/// `init` and `cleanup` of the test case.
pub proof fn law_init_and_cleanup_steps<B>(model: CaseModel<B>)
    ensures
        model.case.init matches Some(init) ==> model.case.body(Step::Init) == init,
        model.case.cleanup matches Some(cleanup) ==> model.case.body(Step::Cleanup) == cleanup,
        model.case.step_name(Step::Init) == seq!['i', 'n', 'i', 't'],
        model.case.step_name(Step::Cleanup) == seq!['c', 'l', 'e', 'a', 'n', 'u', 'p'],
        model.label(Step::Init) == model.name + seq![':', ':', 'i', 'n', 'i', 't'],
        model.label(Step::Cleanup) == model.name + seq![
            ':',
            ':',
            'c',
            'l',
            'e',
            'a',
            'n',
            'u',
            'p',
        ],
{
    reveal_strlit("::");
    reveal_strlit("init");
    reveal_strlit("cleanup");
    assert("init"@ =~= seq!['i', 'n', 'i', 't']);
    assert("cleanup"@ =~= seq!['c', 'l', 'e', 'a', 'n', 'u', 'p']);
    assert(model.label(Step::Init) =~= model.name + seq![':', ':', 'i', 'n', 'i', 't']);
    assert(model.label(Step::Cleanup) =~= model.name + seq![
        ':',
        ':',
        'c',
        'l',
        'e',
        'a',
        'n',
        'u',
        'p',
    ]);
}

/// A run of a test case goes on, with the step after those that have an outcome, as long as there
/// is one and its initialization did not fail; it goes on for no other reason.
pub proof fn law_next_step<B>(model: CaseModel<B>)
    ensures
        model.next() is Some <==> {
            &&& model.outcomes.len() < model.steps().len()
            &&& model.case.init is Some && model.outcomes.len() > 0 ==> model.outcomes[0] is Passed
                || model.outcomes[0] is Xpassed
        },
        model.next() matches Some(step) ==> step == model.steps()[model.outcomes.len() as int],
        model.steps() == model.case.steps(model.selected),
        model.aborted() <==> {
            &&& model.case.init is Some
            &&& model.outcomes.len() > 0
            &&& model.outcomes[0] is Failed || model.outcomes[0] is Xfailed
        },
{
}

/// Once nothing is left to launch and the initialization did not fail, every selected test has an
/// outcome: the one at the position that is returned.
pub proof fn law_finished_case_ran_every_selected_test<B>(model: CaseModel<B>, i: usize) -> (k: int)
    requires
        model.case.tests.len() <= usize::MAX,
        model.next() is None,
        model.case.init is Some ==> model.outcomes.len() > 0 && (model.outcomes[0] is Passed
            || model.outcomes[0] is Xpassed),
        i < model.case.tests.len(),
        model.selected == Set::<Seq<char>>::empty() || model.selected.contains(
            model.case.tests[i as int].0,
        ),
    ensures
        0 <= k < model.outcomes.len(),
        model.steps()[k] == Step::Test(i),
{
    law_steps_are_in_order(model.case, model.selected);
    assert(model.steps().contains(Step::Test(i)));
    choose|k: int| 0 <= k < model.steps().len() && model.steps()[k] == Step::Test(i)
}

/// Likewise the cleanup: it is the last step that has an outcome.
pub proof fn law_finished_case_ran_its_cleanup<B>(model: CaseModel<B>)
    requires
        model.case.tests.len() <= usize::MAX,
        model.outcomes.len() <= model.steps().len(),
        model.next() is None,
        model.case.init is Some ==> model.outcomes.len() > 0 && (model.outcomes[0] is Passed
            || model.outcomes[0] is Xpassed),
        model.case.cleanup is Some,
    ensures
        model.outcomes.len() > 0,
        model.steps()[model.outcomes.len() - 1] == Step::Cleanup,
{
    law_steps_are_in_order(model.case, model.selected);
    let steps = model.steps();
    let k = choose|k: int| 0 <= k < steps.len() && steps[k] == Step::Cleanup;
    if k < steps.len() - 1 {
        let last = steps[steps.len() - 1];
        assert(steps[k] == Step::Cleanup);
    }
}

/// The announced number of tests is that of the names in the filter, or of all tests where the
/// filter has none, with one more for an initialization and one more for a cleanup.
pub proof fn law_case_total<B>(case: CaseView<B>, selected: Set<Seq<char>>)
    ensures
        selected == Set::<Seq<char>>::empty() && case.init is None && case.cleanup is None
            ==> case.total(selected) == case.tests.len(),
        selected != Set::<Seq<char>>::empty() && case.init is None && case.cleanup is None
            ==> case.total(selected) == selected.len(),
        forall|init: (Duration, B)|
            case.init is None ==> #[trigger] (CaseView { init: Some(init), ..case }).total(selected)
                == case.total(selected) + 1,
        forall|cleanup: (Duration, B)|
            case.cleanup is None ==> #[trigger] (CaseView {
                cleanup: Some(cleanup),
                ..case
            }).total(selected) == case.total(selected) + 1,
{
}

/// A run keeps each outcome that it is given, after those it has, and nothing else about it
/// changes.
pub proof fn law_outcomes_are_kept<B>(model: CaseModel<B>, outcome: TestOutcome)
    ensures
        model.push(outcome).outcomes.len() == model.outcomes.len() + 1,
        model.push(outcome).outcomes.last() == outcome,
        model.push(outcome).outcomes.drop_last() == model.outcomes,
        model.push(outcome).case == model.case,
        model.push(outcome).name == model.name,
        model.push(outcome).selected == model.selected,
{
    assert(model.push(outcome).outcomes.drop_last() =~= model.outcomes);
}

/// A run is valid if and only if it has no more outcomes than it launched steps.
pub proof fn law_valid_runs<B>(model: CaseModel<B>)
    ensures
        model.valid() <==> {
            &&& model.case.tests.len() <= usize::MAX
            &&& model.outcomes.len() <= model.steps().len()
            &&& model.case.init is Some && model.outcomes.len() > 1 ==> model.outcomes[0] is Passed
                || model.outcomes[0] is Xpassed
        },
{
}

/// A kind of outcome is counted as often as it occurs.
proof fn lemma_count_is_occurrence(outcomes: Seq<TestOutcome>, kind: TestOutcome)
    ensures
        count(outcomes, kind) == outcomes.to_multiset().count(kind),
    decreases outcomes.len(),
{
    if outcomes.len() > 0 {
        lemma_count_is_occurrence(outcomes.drop_last(), kind);
        vstd::seq_lib::to_multiset_build(outcomes.drop_last(), outcomes.last());
        assert(outcomes =~= outcomes.drop_last().push(outcomes.last()));
    } else {
        outcomes.to_multiset_ensures();
        assert(!outcomes.contains(kind));
    }
}

/// The statistics of a run count every outcome that it has seen, each under its own kind.
pub proof fn law_case_statistics_count_the_outcomes<B>(model: CaseModel<B>)
    ensures
        model.stats().total == model.case.total(model.selected),
        model.stats().launched == model.outcomes.len(),
        model.stats().ok == model.outcomes.to_multiset().count(TestOutcome::Passed),
        model.stats().failed == model.outcomes.to_multiset().count(TestOutcome::Failed),
        model.stats().xfailed == model.outcomes.to_multiset().count(TestOutcome::Xfailed),
        model.stats().xpassed == model.outcomes.to_multiset().count(TestOutcome::Xpassed),
{
    lemma_count_is_occurrence(model.outcomes, TestOutcome::Passed);
    lemma_count_is_occurrence(model.outcomes, TestOutcome::Failed);
    lemma_count_is_occurrence(model.outcomes, TestOutcome::Xfailed);
    lemma_count_is_occurrence(model.outcomes, TestOutcome::Xpassed);
}

/// Where the names that `labels` gives come from.
proof fn lemma_positions_of_labels<B>(model: CaseModel<B>, kind: TestOutcome, n: nat) -> (at: Seq<
    int,
>)
    requires
        n <= model.outcomes.len(),
    ensures
        at.len() == model.labels(kind, n).len(),
        forall|k: int|
            0 <= k < at.len() ==> 0 <= #[trigger] at[k] < n && model.outcomes[at[k]] == kind
                && model.labels(kind, n)[k] == model.name + "::"@ + model.case.step_name(
                model.steps()[at[k]],
            ),
        forall|j: int, k: int| 0 <= j < k < at.len() ==> #[trigger] at[j] < #[trigger] at[k],
        forall|i: int| 0 <= i < n && #[trigger] model.outcomes[i] == kind ==> at.contains(i),
    decreases n,
{
    if n == 0 {
        Seq::empty()
    } else {
        let before = lemma_positions_of_labels(model, kind, (n - 1) as nat);
        if model.outcomes[n - 1] == kind {
            let at = before.push(n - 1);
            assert forall|i: int| 0 <= i < n && #[trigger] model.outcomes[i] == kind implies at.contains(
                i,
            ) by {
                if i < n - 1 {
                    assert(before.contains(i));
                    let k = choose|k: int| 0 <= k < before.len() && before[k] == i;
                    assert(at[k] == i);
                } else {
                    assert(at[at.len() - 1] == i);
                }
            }
            at
        } else {
            before
        }
    }
}

/// The failed tests are named in launch order, each step that failed once: the `k`th name is the
/// name of the test case, two colons, and the name of the step at the `k`th of the positions that
/// are returned, which are all those with a failure.
pub proof fn law_failed_tests_are_named_in_launch_order<B>(model: CaseModel<B>) -> (at: Seq<int>)
    ensures
        at.len() == model.stats().failed_tests.len(),
        forall|k: int|
            0 <= k < at.len() ==> 0 <= #[trigger] at[k] < model.outcomes.len()
                && model.outcomes[at[k]] == TestOutcome::Failed && model.stats().failed_tests[k]
                == model.name + seq![':', ':'] + match model.steps()[at[k]] {
                Step::Init => "init"@,
                Step::Test(i) => model.case.tests[i as int].0,
                Step::Cleanup => "cleanup"@,
            },
        forall|j: int, k: int| 0 <= j < k < at.len() ==> #[trigger] at[j] < #[trigger] at[k],
        forall|i: int|
            0 <= i < model.outcomes.len() && #[trigger] model.outcomes[i] == TestOutcome::Failed
                ==> at.contains(i),
{
    reveal_strlit("::");
    assert("::"@ =~= seq![':', ':']);
    lemma_positions_of_labels(model, TestOutcome::Failed, model.outcomes.len())
}

/// The tests that passed unexpectedly are named in launch order in the same way.
pub proof fn law_xpassed_tests_are_named_in_launch_order<B>(model: CaseModel<B>) -> (at: Seq<int>)
    ensures
        at.len() == model.stats().xpassed_tests.len(),
        forall|k: int|
            0 <= k < at.len() ==> 0 <= #[trigger] at[k] < model.outcomes.len()
                && model.outcomes[at[k]] == TestOutcome::Xpassed && model.stats().xpassed_tests[k]
                == model.name + seq![':', ':'] + match model.steps()[at[k]] {
                Step::Init => "init"@,
                Step::Test(i) => model.case.tests[i as int].0,
                Step::Cleanup => "cleanup"@,
            },
        forall|j: int, k: int| 0 <= j < k < at.len() ==> #[trigger] at[j] < #[trigger] at[k],
        forall|i: int|
            0 <= i < model.outcomes.len() && #[trigger] model.outcomes[i] == TestOutcome::Xpassed
                ==> at.contains(i),
{
    reveal_strlit("::");
    assert("::"@ =~= seq![':', ':']);
    lemma_positions_of_labels(model, TestOutcome::Xpassed, model.outcomes.len())
}

/// A run of test cases takes, in their order and each once, all test cases where the filter map
/// has no entry, and else those that it has an entry for.
pub proof fn law_suite_takes_the_selected_cases<B>(model: SuiteModel<B>)
    requires
        model.cases.len() <= usize::MAX,
    ensures
        forall|i: usize| #[trigger]
            model.selected().contains(i) <==> i < model.cases.len() && (model.filters.dom()
                == Set::<Seq<char>>::empty() || model.filters.contains_key(
                model.cases[i as int].0,
            )),
        forall|j: int, k: int|
            0 <= j < k < model.selected().len() ==> #[trigger] model.selected()[j]
                < #[trigger] model.selected()[k],
{
    law_selected_cases(model.cases, model.filters);
}

/// A run of test cases goes on as long as fewer test cases are over than are selected, and then
/// with the selected one at that position.
pub proof fn law_next_case<B>(model: SuiteModel<B>)
    ensures
        model.next() is Some <==> model.outcomes.len() < model.selected().len(),
        model.next() matches Some(i) ==> i == model.selected()[model.outcomes.len() as int],
{
}

/// Once no test case is left, every test case that the filter map lets run is over: it is the one
/// at the position that is returned.
pub proof fn law_finished_suite_ran_every_selected_case<B>(model: SuiteModel<B>, i: usize) -> (k:
    int)
    requires
        model.cases.len() <= usize::MAX,
        model.next() is None,
        i < model.cases.len(),
        model.filters.dom() == Set::<Seq<char>>::empty() || model.filters.contains_key(
            model.cases[i as int].0,
        ),
    ensures
        0 <= k < model.outcomes.len(),
        model.finished(k).name == model.cases[i as int].0,
        model.finished(k).case == model.cases[i as int].1,
        model.finished(k).outcomes == model.outcomes[k],
{
    law_suite_takes_the_selected_cases(model);
    assert(model.selected().contains(i));
    choose|k: int| 0 <= k < model.selected().len() && model.selected()[k] == i
}

/// The run of a test case within a run of test cases is that of the test case and its name, with
/// the names that the filter map holds for it.
pub proof fn law_case_is_run_as_given<B>(
    model: SuiteModel<B>,
    i: usize,
    outcomes: Seq<TestOutcome>,
)
    ensures
        model.case_run(i, outcomes).name == model.cases[i as int].0,
        model.case_run(i, outcomes).case == model.cases[i as int].1,
        model.case_run(i, outcomes).outcomes == outcomes,
        model.filters.contains_key(model.cases[i as int].0) ==> model.case_run(i, outcomes).selected
            == model.filters[model.cases[i as int].0],
        !model.filters.contains_key(model.cases[i as int].0) ==> model.case_run(
            i,
            outcomes,
        ).selected == Set::<Seq<char>>::empty(),
        model.next() == Some(i) ==> model.starting() == model.case_run(i, Seq::empty()),
        forall|k: int|
            model.selected()[k] == i && model.outcomes[k] == outcomes ==> #[trigger] model.finished(
                k,
            ) == model.case_run(i, outcomes),
{
}

/// Within a run of test cases a test is among the steps of its test case if and only if the filter
/// map has no names for the test case, or has the name of the test among them.
pub proof fn law_filter_map_decides_which_tests_run<B>(
    model: SuiteModel<B>,
    i: usize,
    outcomes: Seq<TestOutcome>,
    j: usize,
)
    requires
        i < model.cases.len(),
        model.cases[i as int].1.tests.len() <= usize::MAX,
        j < model.cases[i as int].1.tests.len(),
    ensures
        ({
            let (name, case) = model.cases[i as int];
            model.case_run(i, outcomes).steps().contains(Step::Test(j)) <==> {
                ||| !model.filters.contains_key(name)
                ||| model.filters[name] == Set::<Seq<char>>::empty()
                ||| model.filters[name].contains(case.tests[j as int].0)
            }
        }),
{
    let run = model.case_run(i, outcomes);
    law_steps_are_in_order(run.case, run.selected);
}

/// A run of test cases keeps the outcomes of each test case that is over, after those it has, and
/// nothing else about it changes.
pub proof fn law_finished_cases_are_kept<B>(model: SuiteModel<B>, outcomes: Seq<TestOutcome>)
    ensures
        model.push(outcomes).outcomes.len() == model.outcomes.len() + 1,
        model.push(outcomes).outcomes.last() == outcomes,
        model.push(outcomes).outcomes.drop_last() == model.outcomes,
        model.push(outcomes).cases == model.cases,
        model.push(outcomes).filters == model.filters,
{
    assert(model.push(outcomes).outcomes.drop_last() =~= model.outcomes);
}

/// A run of test cases is valid if and only if no more test cases are over than are selected, and
/// each of those had nothing left to launch.
pub proof fn law_valid_suites<B>(model: SuiteModel<B>)
    ensures
        model.valid() <==> {
            &&& model.cases.len() <= usize::MAX
            &&& model.outcomes.len() <= model.selected().len()
            &&& forall|k: int|
                0 <= k < model.outcomes.len() ==> (#[trigger] model.case_run(
                    model.selected()[k],
                    model.outcomes[k],
                )).valid() && model.case_run(model.selected()[k], model.outcomes[k]).next() is None
        },
{
    if model.valid() {
        assert forall|k: int| 0 <= k < model.outcomes.len() implies (#[trigger] model.case_run(
            model.selected()[k],
            model.outcomes[k],
        )).valid() && model.case_run(model.selected()[k], model.outcomes[k]).next() is None by {
            assert(model.finished(k).valid());
        }
    }
}

proof fn lemma_suite_statistics_up_to<B>(model: SuiteModel<B>, n: nat)
    requires
        n <= model.outcomes.len(),
    ensures
        ({
            let stats = model.stats_of(n);
            let all = model.outcomes.take(n as int).flatten();
            &&& stats.launched == all.len()
            &&& stats.ok == all.to_multiset().count(TestOutcome::Passed)
            &&& stats.failed == all.to_multiset().count(TestOutcome::Failed)
            &&& stats.xfailed == all.to_multiset().count(TestOutcome::Xfailed)
            &&& stats.xpassed == all.to_multiset().count(TestOutcome::Xpassed)
            &&& stats.failed_tests == Seq::new(
                n,
                |k: int| model.finished(k).stats().failed_tests,
            ).flatten()
            &&& stats.xpassed_tests == Seq::new(
                n,
                |k: int| model.finished(k).stats().xpassed_tests,
            ).flatten()
        }),
    decreases n,
{
    if n == 0 {
        let all = model.outcomes.take(0).flatten();
        all.to_multiset_ensures();
        assert(!all.contains(TestOutcome::Passed));
        assert(!all.contains(TestOutcome::Failed));
        assert(!all.contains(TestOutcome::Xfailed));
        assert(!all.contains(TestOutcome::Xpassed));
    } else {
        let m = (n - 1) as nat;
        let last = model.outcomes[n - 1];
        lemma_suite_statistics_up_to(model, m);
        law_case_statistics_count_the_outcomes(model.finished(n - 1));
        let before = model.outcomes.take(m as int);
        assert(model.outcomes.take(n as int) =~= before.push(last));
        before.lemma_flatten_push(last);
        vstd::seq_lib::lemma_multiset_commutative(before.flatten(), last);
        let failed = Seq::new(m, |k: int| model.finished(k).stats().failed_tests);
        assert(Seq::new(n, |k: int| model.finished(k).stats().failed_tests) =~= failed.push(
            model.finished(n - 1).stats().failed_tests,
        ));
        failed.lemma_flatten_push(model.finished(n - 1).stats().failed_tests);
        let xpassed = Seq::new(m, |k: int| model.finished(k).stats().xpassed_tests);
        assert(Seq::new(n, |k: int| model.finished(k).stats().xpassed_tests) =~= xpassed.push(
            model.finished(n - 1).stats().xpassed_tests,
        ));
        xpassed.lemma_flatten_push(model.finished(n - 1).stats().xpassed_tests);
    }
}

/// The statistics of a run of test cases count the outcomes of all of them, and name what each of
/// them names, the first test case's names first.
pub proof fn law_suite_statistics_take_in_every_case<B>(model: SuiteModel<B>)
    ensures
        model.stats().launched == model.outcomes.flatten().len(),
        model.stats().ok == model.outcomes.flatten().to_multiset().count(TestOutcome::Passed),
        model.stats().failed == model.outcomes.flatten().to_multiset().count(TestOutcome::Failed),
        model.stats().xfailed == model.outcomes.flatten().to_multiset().count(TestOutcome::Xfailed),
        model.stats().xpassed == model.outcomes.flatten().to_multiset().count(TestOutcome::Xpassed),
        model.stats().failed_tests == Seq::new(
            model.outcomes.len(),
            |k: int| model.finished(k).stats().failed_tests,
        ).flatten(),
        model.stats().xpassed_tests == Seq::new(
            model.outcomes.len(),
            |k: int| model.finished(k).stats().xpassed_tests,
        ).flatten(),
{
    lemma_suite_statistics_up_to(model, model.outcomes.len());
    assert(model.outcomes.take(model.outcomes.len() as int) =~= model.outcomes);
    let n = model.outcomes.len();
    assert(Seq::new(n, |k: int| model.finished(k).stats().failed_tests) =~= Seq::new(
        model.outcomes.len(),
        |k: int| model.finished(k).stats().failed_tests,
    ));
}

/// The announced number of tests of a run of test cases is zero before any is over, and grows by
/// that of each test case as it ends.
pub proof fn law_suite_total_adds_up<B>(model: SuiteModel<B>, outcomes: Seq<TestOutcome>)
    ensures
        model.outcomes.len() == 0 ==> model.stats().total == 0,
        model.next() matches Some(i) ==> model.push(outcomes).stats().total == model.stats().total
            + model.case_run(i, outcomes).case.total(model.case_run(i, outcomes).selected),
{
    if model.next() is Some {
        crate::suite::law_one_more_case(model, outcomes);
    }
}

/// The texts of strings are theirs, one for each, in the same order.
pub proof fn law_texts_are_those_of_the_strings(strings: Seq<String>)
    ensures
        texts(strings).len() == strings.len(),
        forall|i: int| 0 <= i < strings.len() ==> #[trigger] texts(strings)[i] == strings[i]@,
{
}

/// Tests and test cases are seen as they were given, one for one, in the same order.
pub proof fn law_tests_and_cases_are_seen_as_given<B>(
    tests: Seq<(String, Duration, B)>,
    cases: Seq<(String, TestCase<B>)>,
)
    ensures
        named(tests).len() == tests.len(),
        forall|i: int|
            0 <= i < tests.len() ==> #[trigger] named(tests)[i] == (
                tests[i].0@,
                tests[i].1,
                tests[i].2,
            ),
        case_views(cases).len() == cases.len(),
        forall|i: int|
            0 <= i < cases.len() ==> #[trigger] case_views(cases)[i] == (
                cases[i].0@,
                cases[i].1@,
            ),
{
}

/// Statistics say what their fields hold.
pub proof fn law_statistics_say_what_they_hold(stats: Statistics)
    ensures
        stats@.total == stats.total,
        stats@.launched == stats.launched,
        stats@.ok == stats.ok,
        stats@.failed == stats.failed,
        stats@.xfailed == stats.xfailed,
        stats@.xpassed == stats.xpassed,
        stats@.failed_tests.len() == stats.failed_tests@.len(),
        forall|i: int|
            0 <= i < stats.failed_tests@.len() ==> #[trigger] stats@.failed_tests[i]
                == stats.failed_tests@[i]@,
        stats@.xpassed_tests.len() == stats.xpassed_tests@.len(),
        forall|i: int|
            0 <= i < stats.xpassed_tests@.len() ==> #[trigger] stats@.xpassed_tests[i]
                == stats.xpassed_tests@[i]@,
{
}

/// A report says what its fields hold, which are the names that the statistics held.
pub proof fn law_report_says_what_the_statistics_hold(stats: Statistics, report: RunReport)
    requires
        report == <RunReport as vstd::std_specs::convert::FromSpec<Statistics>>::from_spec(stats),
    ensures
        report.failed_tests == stats.failed_tests,
        report.xpassed_tests == stats.xpassed_tests,
        report@.failed_tests.len() == report.failed_tests@.len(),
        forall|i: int|
            0 <= i < report.failed_tests@.len() ==> #[trigger] report@.failed_tests[i]
                == report.failed_tests@[i]@,
        report@.xpassed_tests.len() == report.xpassed_tests@.len(),
        forall|i: int|
            0 <= i < report.xpassed_tests@.len() ==> #[trigger] report@.xpassed_tests[i]
                == report.xpassed_tests@[i]@,
{
}

/// Statistics of tests that were not launched count and name nothing; appending adds each count
/// and puts the names of the second after those of the first.
pub proof fn law_append_adds_everything(total: nat, a: StatsView, b: StatsView)
    ensures
        ({
            let new = StatsView::new(total);
            &&& new.total == total
            &&& new.launched == 0
            &&& new.ok == 0
            &&& new.failed == 0
            &&& new.xfailed == 0
            &&& new.xpassed == 0
            &&& new.failed_tests.len() == 0
            &&& new.xpassed_tests.len() == 0
        }),
        a.append(b).total == a.total + b.total,
        a.append(b).launched == a.launched + b.launched,
        a.append(b).ok == a.ok + b.ok,
        a.append(b).failed == a.failed + b.failed,
        a.append(b).xfailed == a.xfailed + b.xfailed,
        a.append(b).xpassed == a.xpassed + b.xpassed,
        a.append(b).failed_tests.len() == a.failed_tests.len() + b.failed_tests.len(),
        forall|i: int|
            0 <= i < a.failed_tests.len() ==> #[trigger] a.append(b).failed_tests[i]
                == a.failed_tests[i],
        forall|i: int|
            0 <= i < b.failed_tests.len() ==> a.append(b).failed_tests[a.failed_tests.len() + i]
                == #[trigger] b.failed_tests[i],
        a.append(b).xpassed_tests.len() == a.xpassed_tests.len() + b.xpassed_tests.len(),
        forall|i: int|
            0 <= i < a.xpassed_tests.len() ==> #[trigger] a.append(b).xpassed_tests[i]
                == a.xpassed_tests[i],
        forall|i: int|
            0 <= i < b.xpassed_tests.len() ==> a.append(b).xpassed_tests[a.xpassed_tests.len() + i]
                == #[trigger] b.xpassed_tests[i],
{
}

/// Counts fit if and only if a machine word holds each of them.
pub proof fn law_counts_that_fit(stats: StatsView)
    ensures
        stats.fits() <==> {
            &&& stats.total <= usize::MAX
            &&& stats.launched <= usize::MAX
            &&& stats.ok <= usize::MAX
            &&& stats.failed <= usize::MAX
            &&& stats.xfailed <= usize::MAX
            &&& stats.xpassed <= usize::MAX
        },
{
}

/// A list is its header and, for each test in order, a line break, a dash, a space and the name of
/// the test.
pub proof fn law_list_has_a_line_for_every_test(header: Seq<char>, tests: Seq<Seq<char>>)
    ensures
        bulleted(header, tests) == header + Seq::new(
            tests.len(),
            |k: int| seq!['\n', '-', ' '] + tests[k],
        ).flatten(),
    decreases tests.len(),
{
    let lines = Seq::new(tests.len(), |k: int| seq!['\n', '-', ' '] + tests[k]);
    if tests.len() == 0 {
        assert(lines.flatten() =~= Seq::empty());
        assert(bulleted(header, tests) =~= header + lines.flatten());
    } else {
        let before = tests.drop_last();
        let shorter = Seq::new(before.len(), |k: int| seq!['\n', '-', ' '] + before[k]);
        let line = seq!['\n', '-', ' '] + tests.last();
        law_list_has_a_line_for_every_test(header, before);
        assert(lines =~= shorter.push(line));
        shorter.lemma_flatten_push(line);
        reveal_strlit("\n");
        reveal_strlit("- ");
        assert("\n"@ + "- "@ =~= seq!['\n', '-', ' ']);
        assert(bulleted(header, tests) =~= header + (shorter.flatten() + line));
    }
}

/// One more test makes a list longer by exactly the line of that test.
pub proof fn law_one_more_test_is_one_more_line(
    header: Seq<char>,
    tests: Seq<Seq<char>>,
    test: Seq<char>,
)
    ensures
        bulleted(header, Seq::empty()) == header,
        bulleted(header, tests.push(test)) == bulleted(header, tests) + seq!['\n', '-', ' '] + test,
{
    assert(tests.push(test).drop_last() =~= tests);
    reveal_strlit("\n");
    reveal_strlit("- ");
    assert(bulleted(header, tests.push(test)) =~= bulleted(header, tests) + seq!['\n', '-', ' ']
        + test);
}

/// There is a list if and only if there are tests, and it is told as it is.
pub proof fn law_list_of_some_tests(header: Seq<char>, tests: Seq<Seq<char>>, string: String)
    ensures
        test_list(header, tests) is None <==> tests.len() == 0,
        test_list(header, tests) matches Some(list) ==> list == bulleted(header, tests),
        text(None) is None,
        text(Some(string)) == Some(string@),
{
}

} // verus!
