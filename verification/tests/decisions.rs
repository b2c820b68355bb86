//! The decisions of a run, with outcomes given in advance.

use e2etest::{
    format_test_list, run, xfail, Backtrace, FilterMap, RunReport, Statistics, Step, TestCase,
    TestFilter, TestOutcome, XfailMark,
};
use std::time::Duration;

const SECOND: Duration = Duration::from_secs(1);

fn strings(names: &[&str]) -> Vec<String> {
    names.iter().map(|n| n.to_string()).collect()
}

fn filter(names: &[&str]) -> TestFilter {
    let mut filter = TestFilter::new();
    for name in names {
        filter.insert(name.to_string());
    }
    filter
}

/// Runs `test_case` with the given outcomes and says what was launched.
fn drive(
    test_case: &TestCase<u32>,
    filter: &TestFilter,
    outcomes: &[TestOutcome],
) -> (Vec<(Step, u32)>, Statistics) {
    let mut launched = vec![];
    let mut run = test_case.run("case", filter);
    while let Some(launch) = run.next() {
        run.record(outcomes[launched.len()]);
        launched.push((launch.step, *launch.body));
    }
    assert_eq!(launched.len(), outcomes.len());
    (launched, run.finish())
}

fn full_case() -> TestCase<u32> {
    TestCase::empty()
        .with_init(SECOND, 10)
        .with_test("a", Duration::from_secs(2), 20)
        .with_test("b", Duration::from_secs(3), 21)
        .with_test("c", Duration::from_secs(4), 22)
        .with_cleanup(Duration::from_secs(5), 30)
}

#[test]
fn steps_run_in_order_and_carry_their_bodies() {
    let (launched, stats) = drive(&full_case(), &TestFilter::new(), &[TestOutcome::Passed; 5]);
    assert_eq!(
        launched,
        vec![
            (Step::Init, 10),
            (Step::Test(0), 20),
            (Step::Test(1), 21),
            (Step::Test(2), 22),
            (Step::Cleanup, 30),
        ]
    );
    assert_eq!((stats.total, stats.launched, stats.ok), (5, 5, 5));
    assert!(stats.failed_tests.is_empty());
}

#[test]
fn launches_have_name_and_timeout() {
    let test_case = full_case();
    let mut run = test_case.run("case", &filter(&["b"]));
    let mut seen = vec![];
    while let Some(launch) = run.next() {
        seen.push((launch.name.to_string(), launch.timeout));
        run.record(TestOutcome::Passed);
    }
    assert_eq!(
        seen,
        vec![
            ("init".to_string(), SECOND),
            ("b".to_string(), Duration::from_secs(3)),
            ("cleanup".to_string(), Duration::from_secs(5)),
        ]
    );
    assert_eq!(run.stats().launched, 3);
}

#[test]
fn failed_init_aborts_and_is_reported() {
    let (launched, stats) = drive(&full_case(), &TestFilter::new(), &[TestOutcome::Failed]);
    assert_eq!(launched, vec![(Step::Init, 10)]);
    assert_eq!((stats.total, stats.launched, stats.failed), (5, 1, 1));
    assert_eq!(stats.failed_tests, strings(&["case::init"]));
}

#[test]
fn xpassed_init_is_named_and_continues() {
    let (_, stats) = drive(
        &full_case(),
        &TestFilter::new(),
        &[
            TestOutcome::Xpassed,
            TestOutcome::Failed,
            TestOutcome::Xfailed,
            TestOutcome::Passed,
            TestOutcome::Xpassed,
        ],
    );
    assert_eq!(stats.launched, 5);
    assert_eq!(stats.ok, 1);
    assert_eq!(stats.xfailed, 1);
    assert_eq!(stats.failed_tests, strings(&["case::a"]));
    assert_eq!(stats.xpassed_tests, strings(&["case::init", "case::cleanup"]));
    assert_eq!(
        stats.launched,
        stats.ok + stats.failed + stats.xfailed + stats.xpassed
    );
}

#[test]
fn failing_tests_do_not_keep_cleanup_from_running() {
    let (launched, stats) = drive(
        &full_case(),
        &TestFilter::new(),
        &[
            TestOutcome::Passed,
            TestOutcome::Failed,
            TestOutcome::Failed,
            TestOutcome::Failed,
            TestOutcome::Failed,
        ],
    );
    assert_eq!(launched[4], (Step::Cleanup, 30));
    assert_eq!(
        stats.failed_tests,
        strings(&["case::a", "case::b", "case::c", "case::cleanup"])
    );
}

#[test]
fn first_test_may_fail_without_init() {
    let test_case = TestCase::empty()
        .with_test("a", SECOND, 1)
        .with_test("b", SECOND, 2);
    let (launched, stats) = drive(
        &test_case,
        &TestFilter::new(),
        &[TestOutcome::Failed, TestOutcome::Passed],
    );
    assert_eq!(launched, vec![(Step::Test(0), 1), (Step::Test(1), 2)]);
    assert_eq!((stats.total, stats.failed, stats.ok), (2, 1, 1));
}

#[test]
fn filter_selects_tests_and_sets_the_total() {
    let (launched, stats) = drive(&full_case(), &filter(&["c", "a"]), &[TestOutcome::Passed; 4]);
    assert_eq!(
        launched,
        vec![
            (Step::Init, 10),
            (Step::Test(0), 20),
            (Step::Test(2), 22),
            (Step::Cleanup, 30),
        ]
    );
    assert_eq!((stats.total, stats.launched), (4, 4));
}

#[test]
fn total_counts_unknown_names() {
    let (launched, stats) = drive(&full_case(), &filter(&["a", "zzz"]), &[TestOutcome::Passed; 3]);
    assert_eq!(launched.len(), 3);
    assert_eq!((stats.total, stats.launched), (4, 3));
}

#[test]
fn tests_that_share_a_name_all_run() {
    let test_case = TestCase::empty()
        .with_test("a", SECOND, 1)
        .with_test("a", SECOND, 2);
    let (_, stats) = drive(&test_case, &filter(&["a"]), &[TestOutcome::Passed; 2]);
    assert_eq!((stats.total, stats.launched), (1, 2));
}

#[test]
fn empty_case_launches_nothing() {
    let (launched, stats) = drive(&TestCase::empty(), &TestFilter::new(), &[]);
    assert!(launched.is_empty());
    assert_eq!((stats.total, stats.launched), (0, 0));
    assert_eq!(TestCase::<u32>::empty().total(&filter(&["x"])), Some(1));
}

#[test]
fn later_init_and_cleanup_replace_earlier_ones() {
    let test_case = full_case().with_init(SECOND, 11).with_cleanup(SECOND, 31);
    let (launched, _) = drive(&test_case, &filter(&["none"]), &[TestOutcome::Passed; 2]);
    assert_eq!(launched, vec![(Step::Init, 11), (Step::Cleanup, 31)]);
}

#[test]
fn tests_are_listed_in_order() {
    let test_case = full_case();
    let names: Vec<&str> = test_case.tests().iter().map(|t| t.0.as_str()).collect();
    assert_eq!(names, vec!["a", "b", "c"]);
    assert_eq!(test_case.tests()[1].1, Duration::from_secs(3));
    assert_eq!(test_case.tests()[1].2, 21);
}

#[test]
fn filters_know_their_names() {
    let mut names = TestFilter::new();
    assert!(names.is_empty());
    assert!(names.selects("anything"));
    assert!(names.insert("a".to_string()));
    assert!(!names.insert("a".to_string()));
    assert_eq!(names.len(), 1);
    assert!(!names.is_empty());
    assert!(names.selects("a"));
    assert!(!names.selects("b"));

    let mut filters = FilterMap::new();
    assert!(filters.is_empty());
    assert!(filters.runs_case("x"));
    filters.insert("y".to_string(), names);
    assert!(!filters.is_empty());
    assert!(!filters.runs_case("x"));
    assert!(filters.runs_case("y"));
    assert!(filters.get("x").is_none());
    assert_eq!(filters.get("y").unwrap().len(), 1);
}

fn suite_of(names: &[&str]) -> Vec<(String, TestCase<u32>)> {
    names
        .iter()
        .map(|n| {
            let test_case = TestCase::empty()
                .with_test("one", SECOND, 1)
                .with_test("two", SECOND, 2);
            (n.to_string(), test_case)
        })
        .collect()
}

/// Runs all of `cases`, each launch with the outcome of its body.
fn drive_suite(
    cases: &Vec<(String, TestCase<u32>)>,
    filters: &FilterMap,
    outcome: fn(usize, u32) -> TestOutcome,
) -> (Vec<(usize, u32)>, RunReport) {
    let mut launched = vec![];
    let mut suite = run(cases, filters);
    while let Some(case) = suite.next() {
        assert!(suite.can_start());
        let mut case_run = suite.start();
        while let Some(launch) = case_run.next() {
            launched.push((case, *launch.body));
            case_run.record(outcome(case, *launch.body));
        }
        assert!(suite.can_record(&case_run));
        let launched_by_case = case_run.stats().launched;
        let stats = suite.record(case_run);
        assert_eq!(stats.launched, launched_by_case);
    }
    assert_eq!(suite.stats().launched, launched.len());
    (launched, suite.finish())
}

#[test]
fn suite_without_filter_runs_everything() {
    let cases = suite_of(&["x", "y"]);
    let (launched, report) = drive_suite(&cases, &FilterMap::new(), |case, body| {
        if case == 1 && body == 2 {
            TestOutcome::Xpassed
        } else {
            TestOutcome::Passed
        }
    });
    assert_eq!(launched, vec![(0, 1), (0, 2), (1, 1), (1, 2)]);
    assert!(report.is_success());
    assert_eq!(report.failed_tests_summary(), None);
    assert_eq!(
        report.xpassed_tests_summary().as_deref(),
        Some("Xpassed tests:\n- y::two")
    );
}

#[test]
fn suite_filter_selects_cases_and_tests() {
    let cases = suite_of(&["x", "y", "z"]);
    let mut filters = FilterMap::new();
    filters.insert("z".to_string(), filter(&["two"]));
    filters.insert("x".to_string(), TestFilter::new());
    filters.insert("unknown".to_string(), TestFilter::new());
    let (launched, report) = drive_suite(&cases, &filters, |_, _| TestOutcome::Failed);
    assert_eq!(launched, vec![(0, 1), (0, 2), (2, 2)]);
    assert!(!report.is_success());
    assert_eq!(
        report.failed_tests_summary().as_deref(),
        Some("Failed tests:\n- x::one\n- x::two\n- z::two")
    );
    assert_eq!(report.xpassed_tests_summary(), None);
}

#[test]
fn expected_failures_do_not_fail_the_suite() {
    let cases = suite_of(&["x"]);
    let (_, report) = drive_suite(&cases, &FilterMap::new(), |_, _| TestOutcome::Xfailed);
    assert!(report.is_success());
    assert_eq!(report.failed_tests_summary(), None);
}

#[test]
fn suite_without_cases_is_a_success() {
    let (launched, report) =
        drive_suite(&vec![], &FilterMap::new(), |_, _| TestOutcome::Failed);
    assert!(launched.is_empty());
    assert!(report.is_success());
}

#[test]
fn statistics_add_up() {
    let mut a = Statistics::new(3);
    a.record_failure("p".to_string());
    a.record_xfailed();
    let mut b = Statistics::new(4);
    b.record_failure("q".to_string());
    b.record_xpassed("r".to_string());
    assert!(a.can_append(&b));
    a.append(&b);
    assert_eq!(a.total, 7);
    assert_eq!((a.failed, a.xfailed, a.xpassed), (2, 1, 1));
    assert_eq!(a.failed_tests, strings(&["p", "q"]));
    assert_eq!(a.xpassed_tests, strings(&["r"]));

    let report = RunReport::from(a);
    assert_eq!(report.failed_tests, strings(&["p", "q"]));
    assert_eq!(report.xpassed_tests, strings(&["r"]));
}

#[test]
fn statistics_of_nothing_change_nothing() {
    let mut a = Statistics::new(0);
    let mut b = Statistics::new(2);
    b.record_failure("q".to_string());
    a.append(&b);
    assert_eq!((a.total, a.failed), (2, 1));
    assert_eq!(a.failed_tests, strings(&["q"]));
}

#[test]
fn statistics_add_up_in_any_grouping() {
    let one = |name: &str| {
        let mut stats = Statistics::new(1);
        stats.record_failure(name.to_string());
        stats
    };
    let mut left = one("a");
    left.append(&one("b"));
    left.append(&one("c"));
    let mut rest = one("b");
    rest.append(&one("c"));
    let mut right = one("a");
    right.append(&rest);
    assert_eq!(left.failed_tests, strings(&["a", "b", "c"]));
    assert_eq!(left.failed_tests, right.failed_tests);
    assert_eq!((left.total, left.failed), (right.total, right.failed));
}

#[test]
fn statistics_that_overflow_cannot_be_appended() {
    assert!(!Statistics::new(usize::MAX).can_append(&Statistics::new(1)));
    assert!(Statistics::new(usize::MAX).can_append(&Statistics::new(0)));
}

#[test]
fn no_list_of_no_tests() {
    assert_eq!(format_test_list("Failed tests:", &[]), None);
    assert_eq!(
        format_test_list("", &strings(&["a"])).as_deref(),
        Some("\n- a")
    );
}

#[test]
fn default_report_is_a_success() {
    let report = RunReport::default();
    assert!(report.is_success());
    assert_eq!(report.xpassed_tests_summary(), None);
}

#[test]
fn xfail_marks_only_inside_a_test_run() {
    let mut scope = None;
    assert!(!xfail(&mut scope));
    assert!(scope.is_none());

    let mut scope = Some(XfailMark::new());
    assert!(!scope.unwrap().is_set());
    assert!(xfail(&mut scope));
    assert!(scope.unwrap().is_set());
    assert!(xfail(&mut scope));
    assert!(scope.unwrap().is_set());
}

#[test]
fn outcomes_follow_result_and_mark() {
    let clear = XfailMark::new();
    let mut scope = Some(XfailMark::new());
    xfail(&mut scope);
    let set = scope.unwrap();
    let ended: Result<(), String> = Ok(());
    let panicked: Result<(), String> = Err("boom".to_string());
    assert_eq!(TestOutcome::classify(&ended, &clear), TestOutcome::Passed);
    assert_eq!(TestOutcome::classify(&panicked, &clear), TestOutcome::Failed);
    assert_eq!(TestOutcome::classify(&panicked, &set), TestOutcome::Xfailed);
    assert_eq!(TestOutcome::classify(&ended, &set), TestOutcome::Xpassed);
}

#[test]
fn backtrace_keeps_the_latest_dump() {
    let mut backtrace = Backtrace::new();
    assert_eq!(backtrace.get(), "");
    backtrace.set("first".to_string());
    backtrace.set("second".to_string());
    assert_eq!(backtrace.get(), "second");
    assert_eq!(backtrace.get(), "second");
}
