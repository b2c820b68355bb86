//! How a single test ends, and the mark by which a test says that it is expected to fail.

use vstd::prelude::*;

verus! {

/// Outcome of a single test execution.
#[derive(Debug, Clone, Copy, PartialEq, Eq, Structural)]
pub enum TestOutcome {
    /// The test completed.
    Passed,
    /// The test panicked or timed out.
    Failed,
    /// The test panicked or timed out after it was marked as expected to fail.
    Xfailed,
    /// The test completed although it was marked as expected to fail.
    Xpassed,
}

/// The outcome of a test, given whether it completed and whether it was marked as expected to
/// fail by the time it ended.
pub open spec fn outcome_of(completed: bool, xfail: bool) -> TestOutcome {
    if completed {
        if xfail {
            TestOutcome::Xpassed
        } else {
            TestOutcome::Passed
        }
    } else {
        if xfail {
            TestOutcome::Xfailed
        } else {
            TestOutcome::Failed
        }
    }
}

impl TestOutcome {
    /// Classifies a test by the result of its task and the mark that the task left behind.
    pub fn classify<E>(result: &Result<(), E>, mark: &XfailMark) -> (outcome: TestOutcome)
        ensures
            outcome == outcome_of(*result is Ok, mark@),
            outcome is Passed <==> *result is Ok && !mark@,
            outcome is Failed <==> *result is Err && !mark@,
            outcome is Xfailed <==> *result is Err && mark@,
            outcome is Xpassed <==> *result is Ok && mark@,
    {
        match result {
            Ok(_) => if mark.is_set() {
                TestOutcome::Xpassed
            } else {
                TestOutcome::Passed
            },
            Err(_) => if mark.is_set() {
                TestOutcome::Xfailed
            } else {
                TestOutcome::Failed
            },
        }
    }
}

/// Whether a running test is expected to fail. Its view is that answer.
#[derive(Debug, Clone, Copy)]
pub struct XfailMark {
    set: bool,
}

impl View for XfailMark {
    type V = bool;

    closed spec fn view(&self) -> bool {
        self.set
    }
}

impl XfailMark {
    /// The mark that every test starts with: not expected to fail.
    pub fn new() -> (mark: Self)
        ensures
            !mark@,
    {
        XfailMark { set: false }
    }

    /// Whether the test is expected to fail.
    pub fn is_set(&self) -> (set: bool)
        ensures
            set == self@,
    {
        self.set
    }
}

/// The mark in scope, if any, as a plain value.
pub open spec fn scope_view(scope: Option<XfailMark>) -> Option<bool> {
    match scope {
        Some(mark) => Some(mark@),
        None => None,
    }
}

/// What a call of `xfail` does to the mark in scope.
pub open spec fn marked(scope: Option<bool>) -> Option<bool> {
    match scope {
        Some(_) => Some(true),
        None => None,
    }
}

/// The mark in scope after `calls` calls of `xfail`.
pub open spec fn marked_by(scope: Option<bool>, calls: nat) -> Option<bool>
    decreases calls,
{
    if calls == 0 {
        scope
    } else {
        marked(marked_by(scope, (calls - 1) as nat))
    }
}

/// Mark the current test as expected to fail from this point on.
///
/// `scope` holds the mark of the current test, and nothing outside of a test run. There the call
/// is ignored, which the result says.
pub fn xfail(scope: &mut Option<XfailMark>) -> (in_test_run: bool)
    ensures
        in_test_run == (*old(scope) is Some),
        scope_view(*final(scope)) == marked(scope_view(*old(scope))),
        *final(scope) is Some <==> *old(scope) is Some,
        *final(scope) matches Some(mark) ==> mark@,
{
    if scope.is_some() {
        *scope = Some(XfailMark { set: true });
        true
    } else {
        false
    }
}

/// A test is marked once it has called `xfail`, however often, and not before; outside of a test
/// run there is nothing to mark.
pub proof fn law_xfail_holds_from_the_first_call(calls: nat)
    ensures
        marked_by(Some(false), calls) == Some(calls > 0),
        marked_by(None, calls) == None::<bool>,
    decreases calls,
{
    if calls > 0 {
        law_xfail_holds_from_the_first_call((calls - 1) as nat);
    }
}

/// What a test that called `xfail` `calls` times before it ended is worth: calling it turns a
/// failure into an expected one and a success into an unexpected one, and a test that ends before
/// it gets to the call is judged as if the call were not there.
pub proof fn law_xfail_decides_the_outcome(completed: bool, calls: nat)
    ensures
        ({
            let outcome = outcome_of(completed, marked_by(Some(false), calls) == Some(true));
            &&& outcome is Passed <==> completed && calls == 0
            &&& outcome is Failed <==> !completed && calls == 0
            &&& outcome is Xfailed <==> !completed && calls > 0
            &&& outcome is Xpassed <==> completed && calls > 0
        }),
{
    law_xfail_holds_from_the_first_call(calls);
}

} // verus!
