# e2etest

A runner for end-to-end tests. Its decisions are verified with Verus: which test
cases and tests a filter selects, what is launched next, what a failed
initialization stops, what an expected failure is worth, and how the outcomes
add up to statistics and a report.

- `src/` is the verified library. It launches nothing: `SuiteRun` and `CaseRun`
  say what is next and take the outcome.
- `app/` drives it on a tokio runtime: it spawns the tests, enforces their
  timeouts, catches their panics and logs.
- `tests/` exercises the library, with real tasks and with outcomes given in
  advance.
