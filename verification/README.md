# Edge Conservation Guardian

Track serverless function resource usage. Enforce cold-start budgets. Find waste before your users
do. The library is written in Verus: its contracts are proved.

- `src/budget.rs`: budgets, presets, the builder and the budget checks.
- `src/profiler.rs`: the init phase, requests in flight and completed requests. Every recorder is a
  transition of the `ProfilerView` model. The methods that end in `_at` take the time as an argument;
  those without it read the clock in `src/clock.rs`.
- `src/detector.rs`: the heuristics, each with the wastes that it finds as a specification.
- `src/report.rs`: the lines of a report and the projected savings.
- `src/binary64.rs`: averages, percentages and thresholds as IEEE 754 binary64 numbers, computed on
  integers.
- `src/text.rs`: decimal numerals and joined lines.
- `src/laws.rs`: properties that span several functions.
- `app/`: floating-point facades and `Display`.
- `tests/`: the tests, among them comparisons of `binary64` with the hardware.

Counters that overflow are ruled out by `requires`. `Detector::try_detect` and `Report::try_generate`
test for it instead.
