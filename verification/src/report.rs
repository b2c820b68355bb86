//! What a whole test run comes to, and how it is told.

use crate::stats::{texts, Statistics};
use vstd::prelude::*;

verus! {

/// The names that a test run reports.
#[derive(Debug)]
pub struct RunReport {
    pub failed_tests: Vec<String>,
    pub xpassed_tests: Vec<String>,
}

/// What a `RunReport` says, in mathematical terms.
#[verifier::ext_equal]
pub struct ReportView {
    pub failed_tests: Seq<Seq<char>>,
    pub xpassed_tests: Seq<Seq<char>>,
}

impl View for RunReport {
    type V = ReportView;

    open spec fn view(&self) -> ReportView {
        ReportView {
            failed_tests: texts(self.failed_tests@),
            xpassed_tests: texts(self.xpassed_tests@),
        }
    }
}

/// `header`, followed by a line with a bullet for each of `tests`.
pub open spec fn bulleted(header: Seq<char>, tests: Seq<Seq<char>>) -> Seq<char>
    decreases tests.len(),
{
    if tests.len() == 0 {
        header
    } else {
        bulleted(header, tests.drop_last()) + "\n"@ + "- "@ + tests.last()
    }
}

/// The text that tells of `tests`, if there are any.
pub open spec fn test_list(header: Seq<char>, tests: Seq<Seq<char>>) -> Option<Seq<char>> {
    if tests.len() == 0 {
        None
    } else {
        Some(bulleted(header, tests))
    }
}

/// The text of an optional string.
pub open spec fn text(string: Option<String>) -> Option<Seq<char>> {
    match string {
        Some(s) => Some(s@),
        None => None,
    }
}

/// Lists `tests` under `header`, a line with a bullet for each. There is no list of no tests.
pub fn format_test_list(header: &str, tests: &[String]) -> (list: Option<String>)
    ensures
        text(list) == test_list(header@, texts(tests@)),
        list is None <==> tests@.len() == 0,
        list matches Some(l) ==> l@ == bulleted(header@, texts(tests@)),
{
    if tests.len() == 0 {
        return None;
    }
    let ghost names = texts(tests@);
    let mut list = header.to_string();
    let mut i: usize = 0;
    while i < tests.len()
        invariant
            i <= tests@.len(),
            names == texts(tests@),
            list@ == bulleted(header@, names.take(i as int)),
        decreases tests@.len() - i,
    {
        list.append("\n");
        list.append("- ");
        list.append(tests[i].as_str());
        assert(names.take(i + 1).drop_last() =~= names.take(i as int));
        i += 1;
    }
    assert(names.take(i as int) =~= names);
    Some(list)
}

impl RunReport {
    /// The list of the failed tests, if there are any.
    pub fn failed_tests_summary(&self) -> (summary: Option<String>)
        ensures
            text(summary) == test_list("Failed tests:"@, self@.failed_tests),
            summary is None <==> self.failed_tests@.len() == 0,
            summary matches Some(s) ==> s@ == bulleted(
                "Failed tests:"@,
                texts(self.failed_tests@),
            ),
    {
        format_test_list("Failed tests:", self.failed_tests.as_slice())
    }

    /// The list of the tests that passed unexpectedly, if there are any.
    pub fn xpassed_tests_summary(&self) -> (summary: Option<String>)
        ensures
            text(summary) == test_list("Xpassed tests:"@, self@.xpassed_tests),
            summary is None <==> self.xpassed_tests@.len() == 0,
            summary matches Some(s) ==> s@ == bulleted(
                "Xpassed tests:"@,
                texts(self.xpassed_tests@),
            ),
    {
        format_test_list("Xpassed tests:", self.xpassed_tests.as_slice())
    }

    /// Whether no test failed. Tests that passed unexpectedly do not count against the run.
    pub fn is_success(&self) -> (success: bool)
        ensures
            success == (self@.failed_tests.len() == 0),
            success <==> self.failed_tests@.len() == 0,
    {
        self.failed_tests.len() == 0
    }
}

impl Default for RunReport {
    /// The report of a run without tests.
    fn default() -> (report: Self)
        ensures
            report@ == (ReportView { failed_tests: Seq::empty(), xpassed_tests: Seq::empty() }),
    {
        let report = RunReport { failed_tests: vec![], xpassed_tests: vec![] };
        assert(report@.failed_tests =~= Seq::empty());
        assert(report@.xpassed_tests =~= Seq::empty());
        report
    }
}

impl From<Statistics> for RunReport {
    /// The report keeps the names that the statistics hold.
    fn from(stats: Statistics) -> (report: Self)
        ensures
            report.failed_tests == stats.failed_tests,
            report.xpassed_tests == stats.xpassed_tests,
    {
        RunReport { failed_tests: stats.failed_tests, xpassed_tests: stats.xpassed_tests }
    }
}

impl vstd::std_specs::convert::FromSpecImpl<Statistics> for RunReport {
    open spec fn obeys_from_spec() -> bool {
        true
    }

    open spec fn from_spec(stats: Statistics) -> RunReport {
        RunReport { failed_tests: stats.failed_tests, xpassed_tests: stats.xpassed_tests }
    }
}

} // verus!
