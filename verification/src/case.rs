//! A test case: what it is made of, and how it is put together.

use std::time::Duration;
use vstd::prelude::*;

verus! {

/// Represents a single test case, which can include initialization, multiple tests, and cleanup.
///
/// `B` is what is run for each of them; a test case only keeps it, with its timeout.
pub struct TestCase<B> {
    init: Option<(Duration, B)>,
    tests: Vec<(String, Duration, B)>,
    cleanup: Option<(Duration, B)>,
}

/// What a `TestCase` is made of, in mathematical terms.
#[verifier::ext_equal]
pub struct CaseView<B> {
    pub init: Option<(Duration, B)>,
    pub tests: Seq<(Seq<char>, Duration, B)>,
    pub cleanup: Option<(Duration, B)>,
}

/// Tests with their names as texts.
pub open spec fn named<B>(tests: Seq<(String, Duration, B)>) -> Seq<(Seq<char>, Duration, B)> {
    tests.map_values(|t: (String, Duration, B)| (t.0@, t.1, t.2))
}

impl<B> View for TestCase<B> {
    type V = CaseView<B>;

    closed spec fn view(&self) -> CaseView<B> {
        CaseView { init: self.init, tests: named(self.tests@), cleanup: self.cleanup }
    }
}

impl<B> TestCase<B> {
    /// Creates a new empty test case.
    pub fn empty() -> (test_case: Self)
        ensures
            test_case@ == (CaseView::<B> { init: None, tests: Seq::empty(), cleanup: None }),
    {
        let test_case = TestCase { init: None, tests: vec![], cleanup: None };
        assert(test_case@.tests =~= Seq::empty());
        test_case
    }

    /// Returns a reference to the tests in this test case.
    pub fn tests(&self) -> (tests: &Vec<(String, Duration, B)>)
        ensures
            named(tests@) == self@.tests,
            tests@.len() == self@.tests.len(),
            forall|i: int|
                #![trigger tests@[i]]
                #![trigger self@.tests[i]]
                0 <= i < tests@.len() ==> self@.tests[i] == (
                    tests@[i].0@,
                    tests@[i].1,
                    tests@[i].2,
                ),
    {
        &self.tests
    }

    /// Returns the initialization of this test case, if it has one.
    pub(crate) fn init(&self) -> (init: &Option<(Duration, B)>)
        ensures
            *init == self@.init,
    {
        &self.init
    }

    /// Returns the cleanup of this test case, if it has one.
    pub(crate) fn cleanup(&self) -> (cleanup: &Option<(Duration, B)>)
        ensures
            *cleanup == self@.cleanup,
    {
        &self.cleanup
    }

    /// Add an initialization function to the test case.
    pub fn with_init(self, timeout: Duration, test_fn: B) -> (test_case: Self)
        ensures
            test_case@ == (CaseView { init: Some((timeout, test_fn)), ..self@ }),
    {
        TestCase { init: Some((timeout, test_fn)), ..self }
    }

    /// Add a test to the test case.
    pub fn with_test(self, name: &str, timeout: Duration, test_fn: B) -> (test_case: Self)
        ensures
            test_case@ == (CaseView {
                tests: self@.tests.push((name@, timeout, test_fn)),
                ..self@
            }),
    {
        let mut tests = self.tests;
        tests.push((name.to_string(), timeout, test_fn));
        assert(named(tests@) =~= self@.tests.push((name@, timeout, test_fn)));
        TestCase { init: self.init, tests, cleanup: self.cleanup }
    }

    /// Add a cleanup function to the test case.
    pub fn with_cleanup(self, timeout: Duration, test_fn: B) -> (test_case: Self)
        ensures
            test_case@ == (CaseView { cleanup: Some((timeout, test_fn)), ..self@ }),
    {
        TestCase { cleanup: Some((timeout, test_fn)), ..self }
    }
}

} // verus!
