//! The counts and names that a test run collects.

use vstd::prelude::*;

verus! {

/// The texts of a sequence of strings.
pub open spec fn texts(strings: Seq<String>) -> Seq<Seq<char>> {
    strings.map_values(|s: String| s@)
}

/// Statistics for a test run, including total tests, launched, successful, and failed.
#[derive(Debug)]
pub struct Statistics {
    pub total: usize,
    pub launched: usize,
    pub ok: usize,
    pub failed: usize,
    pub failed_tests: Vec<String>,
    pub xfailed: usize,
    pub xpassed: usize,
    pub xpassed_tests: Vec<String>,
}

/// What a `Statistics` says, in mathematical terms.
#[verifier::ext_equal]
pub struct StatsView {
    pub total: nat,
    pub launched: nat,
    pub ok: nat,
    pub failed: nat,
    pub failed_tests: Seq<Seq<char>>,
    pub xfailed: nat,
    pub xpassed: nat,
    pub xpassed_tests: Seq<Seq<char>>,
}

impl StatsView {
    /// Statistics of `total` tests of which none was launched.
    pub open spec fn new(total: nat) -> StatsView {
        StatsView {
            total,
            launched: 0,
            ok: 0,
            failed: 0,
            failed_tests: Seq::empty(),
            xfailed: 0,
            xpassed: 0,
            xpassed_tests: Seq::empty(),
        }
    }

    /// The statistics of two runs taken together, the names of the first run first.
    pub open spec fn append(self, other: StatsView) -> StatsView {
        StatsView {
            total: self.total + other.total,
            launched: self.launched + other.launched,
            ok: self.ok + other.ok,
            failed: self.failed + other.failed,
            failed_tests: self.failed_tests + other.failed_tests,
            xfailed: self.xfailed + other.xfailed,
            xpassed: self.xpassed + other.xpassed,
            xpassed_tests: self.xpassed_tests + other.xpassed_tests,
        }
    }

    /// Whether every count fits in a machine word.
    pub open spec fn fits(self) -> bool {
        &&& self.total <= usize::MAX
        &&& self.launched <= usize::MAX
        &&& self.ok <= usize::MAX
        &&& self.failed <= usize::MAX
        &&& self.xfailed <= usize::MAX
        &&& self.xpassed <= usize::MAX
    }

    /// Whether each failed and each unexpectedly passed test is named once for its count.
    pub open spec fn names_match_counts(self) -> bool {
        &&& self.failed == self.failed_tests.len()
        &&& self.xpassed == self.xpassed_tests.len()
    }

    /// Whether every launched test has exactly one outcome.
    pub open spec fn balanced(self) -> bool {
        self.launched == self.ok + self.failed + self.xfailed + self.xpassed
    }
}

impl View for Statistics {
    type V = StatsView;

    open spec fn view(&self) -> StatsView {
        StatsView {
            total: self.total as nat,
            launched: self.launched as nat,
            ok: self.ok as nat,
            failed: self.failed as nat,
            failed_tests: texts(self.failed_tests@),
            xfailed: self.xfailed as nat,
            xpassed: self.xpassed as nat,
            xpassed_tests: texts(self.xpassed_tests@),
        }
    }
}

/// Adds copies of the strings of `from` to the end of `to`.
fn extend_cloned(to: &mut Vec<String>, from: &Vec<String>)
    ensures
        final(to)@ == old(to)@ + from@,
{
    let mut i: usize = 0;
    while i < from.len()
        invariant
            i <= from@.len(),
            to@ == old(to)@ + from@.take(i as int),
        decreases from@.len() - i,
    {
        to.push(from[i].clone());
        assert(from@.take(i + 1) =~= from@.take(i as int).push(from@[i as int]));
        i += 1;
    }
    assert(from@.take(i as int) =~= from@);
}

impl Statistics {
    /// Statistics of `total` tests of which none was launched.
    pub fn new(total: usize) -> (stats: Self)
        ensures
            stats@ == StatsView::new(total as nat),
            stats@.names_match_counts(),
            stats.total == total,
            stats.launched == 0 && stats.ok == 0 && stats.xfailed == 0,
            stats.failed == 0 && stats.failed_tests@.len() == 0,
            stats.xpassed == 0 && stats.xpassed_tests@.len() == 0,
    {
        let stats = Statistics {
            total,
            launched: 0,
            ok: 0,
            failed: 0,
            failed_tests: vec![],
            xfailed: 0,
            xpassed: 0,
            xpassed_tests: vec![],
        };
        assert(stats@ =~= StatsView::new(total as nat));
        stats
    }

    /// Whether the counts of `other` can be added to these without overflow.
    pub fn can_append(&self, other: &Self) -> (can: bool)
        ensures
            can == self@.append(other@).fits(),
            can <==> {
                &&& self.total + other.total <= usize::MAX
                &&& self.launched + other.launched <= usize::MAX
                &&& self.ok + other.ok <= usize::MAX
                &&& self.failed + other.failed <= usize::MAX
                &&& self.xfailed + other.xfailed <= usize::MAX
                &&& self.xpassed + other.xpassed <= usize::MAX
            },
    {
        other.total <= usize::MAX - self.total
            && other.launched <= usize::MAX - self.launched
            && other.ok <= usize::MAX - self.ok
            && other.failed <= usize::MAX - self.failed
            && other.xfailed <= usize::MAX - self.xfailed
            && other.xpassed <= usize::MAX - self.xpassed
    }

    /// Adds the statistics of another run to these.
    pub fn append(&mut self, other: &Self)
        requires
            old(self)@.append(other@).fits(),
        ensures
            final(self)@ == old(self)@.append(other@),
            old(self)@.names_match_counts() && other@.names_match_counts()
                ==> final(self)@.names_match_counts(),
            final(self).total == old(self).total + other.total,
            final(self).launched == old(self).launched + other.launched,
            final(self).ok == old(self).ok + other.ok,
            final(self).failed == old(self).failed + other.failed,
            final(self).failed_tests@ == old(self).failed_tests@ + other.failed_tests@,
            final(self).xfailed == old(self).xfailed + other.xfailed,
            final(self).xpassed == old(self).xpassed + other.xpassed,
            final(self).xpassed_tests@ == old(self).xpassed_tests@ + other.xpassed_tests@,
    {
        self.total += other.total;
        self.launched += other.launched;
        self.ok += other.ok;
        self.failed += other.failed;
        extend_cloned(&mut self.failed_tests, &other.failed_tests);
        self.xfailed += other.xfailed;
        self.xpassed += other.xpassed;
        extend_cloned(&mut self.xpassed_tests, &other.xpassed_tests);
        assert(self@ =~= old(self)@.append(other@));
    }

    /// Counts a failed test and keeps its name.
    pub fn record_failure(&mut self, failed_test: String)
        requires
            old(self).failed < usize::MAX,
        ensures
            final(self)@ == (StatsView {
                failed: old(self)@.failed + 1,
                failed_tests: old(self)@.failed_tests.push(failed_test@),
                ..old(self)@
            }),
            *final(self) == (Statistics {
                failed: final(self).failed,
                failed_tests: final(self).failed_tests,
                ..*old(self)
            }),
            final(self).failed == old(self).failed + 1,
            final(self).failed_tests@ == old(self).failed_tests@.push(failed_test),
            old(self)@.names_match_counts() ==> final(self)@.names_match_counts(),
    {
        self.failed += 1;
        self.failed_tests.push(failed_test);
        assert(texts(self.failed_tests@) =~= old(self)@.failed_tests.push(failed_test@));
    }

    /// Counts a test that failed as expected.
    pub fn record_xfailed(&mut self)
        requires
            old(self).xfailed < usize::MAX,
        ensures
            final(self)@ == (StatsView { xfailed: old(self)@.xfailed + 1, ..old(self)@ }),
            *final(self) == (Statistics { xfailed: final(self).xfailed, ..*old(self) }),
            final(self).xfailed == old(self).xfailed + 1,
            old(self)@.names_match_counts() ==> final(self)@.names_match_counts(),
    {
        self.xfailed += 1;
    }

    /// Counts a test that passed unexpectedly and keeps its name.
    pub fn record_xpassed(&mut self, name: String)
        requires
            old(self).xpassed < usize::MAX,
        ensures
            final(self)@ == (StatsView {
                xpassed: old(self)@.xpassed + 1,
                xpassed_tests: old(self)@.xpassed_tests.push(name@),
                ..old(self)@
            }),
            *final(self) == (Statistics {
                xpassed: final(self).xpassed,
                xpassed_tests: final(self).xpassed_tests,
                ..*old(self)
            }),
            final(self).xpassed == old(self).xpassed + 1,
            final(self).xpassed_tests@ == old(self).xpassed_tests@.push(name),
            old(self)@.names_match_counts() ==> final(self)@.names_match_counts(),
    {
        self.xpassed += 1;
        self.xpassed_tests.push(name);
        assert(texts(self.xpassed_tests@) =~= old(self)@.xpassed_tests.push(name@));
    }
}

/// Statistics of no tests change nothing, whichever side they are appended on.
pub proof fn law_append_identity(stats: StatsView)
    ensures
        StatsView::new(0).append(stats) == stats,
        stats.append(StatsView::new(0)) == stats,
{
    assert(StatsView::new(0).append(stats) =~= stats);
    assert(stats.append(StatsView::new(0)) =~= stats);
}

/// It does not matter how runs are grouped when their statistics are added up.
pub proof fn law_append_associative(a: StatsView, b: StatsView, c: StatsView)
    ensures
        a.append(b).append(c) == a.append(b.append(c)),
{
    assert(a.append(b).append(c) =~= a.append(b.append(c)));
}

/// Adding up statistics keeps the names in step with the counts and the launched tests in step
/// with the outcomes.
pub proof fn law_append_keeps_consistency(a: StatsView, b: StatsView)
    ensures
        a.names_match_counts() && b.names_match_counts() ==> a.append(b).names_match_counts(),
        a.balanced() && b.balanced() ==> a.append(b).balanced(),
{
}

} // verus!
