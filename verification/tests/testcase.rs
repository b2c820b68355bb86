//! Test cases whose tests are futures, run on a real runtime.

use e2etest::{format_test_list, xfail, Statistics, TestCase, TestFilter, TestOutcome, XfailMark};
use std::future::Future;
use std::pin::Pin;
use std::sync::{Arc, Mutex};
use std::time::Duration;

type Scope = Arc<Mutex<Option<XfailMark>>>;
type Body = Box<dyn Fn(Scope) -> Pin<Box<dyn Future<Output = ()> + Send>>>;

fn body<TF, R>(test_fn: TF) -> Body
where
    TF: Fn(Scope) -> R + 'static,
    R: Future<Output = ()> + Send + 'static,
{
    Box::new(move |scope: Scope| {
        let future: Pin<Box<dyn Future<Output = ()> + Send>> = Box::pin(test_fn(scope));
        future
    })
}

fn mark(scope: &Scope) {
    assert!(xfail(&mut scope.lock().unwrap()));
}

async fn run_single(timeout: Duration, test: &Body) -> TestOutcome {
    let scope: Scope = Arc::new(Mutex::new(Some(XfailMark::new())));
    let future = test(scope.clone());
    let task = tokio::spawn(async move {
        tokio::time::timeout(timeout, future)
            .await
            .expect("test timed out");
    });
    let result = task.await;
    let mark = scope.lock().unwrap().unwrap();
    TestOutcome::classify(&result, &mark)
}

fn run(test_case: &TestCase<Body>, name: &str, filter: &TestFilter) -> Statistics {
    let runtime = tokio::runtime::Builder::new_current_thread()
        .enable_time()
        .build()
        .unwrap();
    runtime.block_on(async {
        let mut run = test_case.run(name, filter);
        while let Some(launch) = run.next() {
            let outcome = run_single(launch.timeout, launch.body).await;
            run.record(outcome);
        }
        run.finish()
    })
}

#[test]
fn formats_failed_tests_as_bulleted_list() {
    let failed_tests = vec!["crud::boom".to_string(), "crud::cleanup".to_string()];

    assert_eq!(
        format_test_list("Failed tests:", &failed_tests).as_deref(),
        Some("Failed tests:\n- crud::boom\n- crud::cleanup")
    );
}

#[test]
fn collects_failed_test_names() {
    let timeout = Duration::from_secs(1);
    let test_case = TestCase::empty()
        .with_test("ok", timeout, body(|_| async {}))
        .with_test("boom", timeout, body(|_| async {
            panic!("boom");
        }))
        .with_cleanup(timeout, body(|_| async {
            panic!("cleanup");
        }));

    let stats = run(&test_case, "crud", &TestFilter::new());

    assert_eq!(stats.failed, 2);
    assert_eq!(
        stats.failed_tests,
        &["crud::boom".to_string(), "crud::cleanup".to_string()]
    );
}

#[test]
fn xfail_only_applies_after_call() {
    let timeout = Duration::from_secs(1);
    let test_case = TestCase::empty()
        .with_test("panics_without_xfail", timeout, body(|scope| async move {
            panic!("real bug");
            #[allow(unreachable_code)]
            mark(&scope); // too late - never reached
        }))
        .with_test("panics_after_xfail", timeout, body(|scope| async move {
            mark(&scope);
            panic!("known bug");
        }));

    let stats = run(&test_case, "suite", &TestFilter::new());

    assert_eq!(stats.failed, 1);
    assert_eq!(stats.xfailed, 1);
    assert_eq!(stats.ok, 0);
    assert_eq!(stats.xpassed, 0);
}

#[test]
fn xfail_test_that_passes_is_xpassed() {
    let timeout = Duration::from_secs(1);
    let test_case = TestCase::empty().with_test("surprise", timeout, body(|scope| async move {
        mark(&scope);
        // does not panic - unexpected success
    }));

    let stats = run(&test_case, "suite", &TestFilter::new());

    assert_eq!(stats.ok, 0);
    assert_eq!(stats.failed, 0);
    assert_eq!(stats.xfailed, 0);
    assert_eq!(stats.xpassed, 1);
    assert_eq!(stats.xpassed_tests, &["suite::surprise".to_string()]);
}

#[test]
fn xfailed_init_aborts_test_case() {
    let timeout = Duration::from_secs(1);
    let test_case = TestCase::empty()
        .with_init(timeout, body(|scope| async move {
            mark(&scope);
            panic!("known init bug");
        }))
        .with_test("should_not_run", timeout, body(|_| async {
            panic!("tests must not run after xfailed init");
        }))
        .with_cleanup(timeout, body(|_| async {
            panic!("cleanup must not run after xfailed init");
        }));

    let stats = run(&test_case, "suite", &TestFilter::new());

    assert_eq!(stats.xfailed, 1);
    assert_eq!(stats.ok, 0);
    assert_eq!(stats.failed, 0);
    assert_eq!(stats.xpassed, 0);
}

#[test]
fn xpassed_init_continues_test_case() {
    let timeout = Duration::from_secs(1);
    let test_case = TestCase::empty()
        .with_init(timeout, body(|scope| async move {
            mark(&scope);
            // does not panic - unexpected success
        }))
        .with_test("should_run", timeout, body(|_| async {}));

    let stats = run(&test_case, "suite", &TestFilter::new());

    assert_eq!(stats.xpassed, 1);
    assert_eq!(stats.ok, 1);
    assert_eq!(stats.failed, 0);
    assert_eq!(stats.xfailed, 0);
}

#[test]
fn test_that_times_out_fails() {
    let test_case = TestCase::empty()
        .with_test("hangs", Duration::from_millis(10), body(|_| async {
            std::future::pending::<()>().await;
        }))
        .with_test("hangs_as_expected", Duration::from_millis(10), body(|scope| async move {
            mark(&scope);
            std::future::pending::<()>().await;
        }));

    let stats = run(&test_case, "suite", &TestFilter::new());

    assert_eq!(stats.launched, 2);
    assert_eq!(stats.failed_tests, &["suite::hangs".to_string()]);
    assert_eq!(stats.xfailed, 1);
}
