//! What a report says.

use vstd::prelude::*;

use crate::binary64;
use crate::budget::EdgeBudget;
use crate::detector::{self, DetectorView, WasteKind, WasteView};
use crate::laws::{self, findings};
use crate::profiler::{self, InitPhase, ProfilerView, RequestView};
use crate::report;
use crate::text;

verus! {

/// Whether a text ends in another one.
pub open spec fn ends_in(s: Seq<char>, end: Seq<char>) -> bool {
    s.len() >= end.len() && s.skip(s.len() - end.len()) == end
}

/// The third line of a report tells the init time and the cold-start budget, and whether the one is
/// within the other. It says so exactly if the init time is at most the budget, whatever else the
/// init phase recorded.
pub proof fn law_cold_start_line(p: ProfilerView, limits: EdgeBudget, wastes: Seq<WasteView>)
    ensures
        ({
            let lines = report::report_lines(p, limits, wastes);
            let start = "Cold-start: "@ + text::decimal(p.init.wall_ms as nat) + "ms (budget: "@
                + text::decimal(limits.max_cold_start_ms as nat) + "ms) "@;
            &&& lines.len() > 2
            &&& lines[0] == "═══ Edge Conservation Report ═══"@
            &&& lines[1] == Seq::<char>::empty()
            &&& p.init.wall_ms <= limits.max_cold_start_ms ==> lines[2] == start
                + "✅ within budget"@
            &&& p.init.wall_ms > limits.max_cold_start_ms ==> lines[2] == start + "❌ over budget"@
            &&& ends_in(lines[2], "✅ within budget"@) <==> p.init.wall_ms
                <= limits.max_cold_start_ms
            &&& ends_in(lines[2], "❌ over budget"@) <==> p.init.wall_ms > limits.max_cold_start_ms
        }),
{
    let lines = report::report_lines(p, limits, wastes);
    let start = "Cold-start: "@ + text::decimal(p.init.wall_ms as nat) + "ms (budget: "@
        + text::decimal(limits.max_cold_start_ms as nat) + "ms) "@;
    let within = "✅ within budget"@;
    let over = "❌ over budget"@;
    reveal_strlit("✅ within budget");
    reveal_strlit("❌ over budget");
    assert(lines[2] == report::cold_start_lines(p.init, limits)[0]);
    assert((start + within).skip(start.len() as int) =~= within);
    assert((start + over).skip(start.len() as int) =~= over);
    let line = lines[2];
    if p.init.wall_ms <= limits.max_cold_start_ms {
        assert(line == start + within);
        if ends_in(line, over) {
            // The thirteenth character from the end is not that of the other verdict.
            assert(line.skip(line.len() - over.len())[0] == line[line.len() - 13]);
            assert(line[line.len() - 13] == within[2]);
            assert(false);
        }
    } else {
        assert(line == start + over);
        if ends_in(line, within) {
            assert(line.skip(line.len() - within.len())[2] == line[line.len() - 13]);
            assert(line[line.len() - 13] == over[0]);
            assert(false);
        }
    }
}

/// A report on a budget says that the cold start is over budget exactly if the detector flags it for
/// that budget.
pub proof fn law_report_agrees_with_detector(d: DetectorView, wastes: Seq<WasteView>)
    ensures
        ends_in(report::report_lines(d.profiler, d.budget, wastes)[2], "❌ over budget"@)
            <==> findings::of_kind(d.wastes(), WasteKind::ColdStartOverBudget).len() == 1,
        ends_in(report::report_lines(d.profiler, d.budget, wastes)[2], "✅ within budget"@)
            <==> findings::of_kind(d.wastes(), WasteKind::ColdStartOverBudget).len() == 0,
{
    law_cold_start_line(d.profiler, d.budget, wastes);
    findings::law_cold_start_waste(d);
}

/// Below the verdict a report tells how many megabytes init loaded, and with how many resources,
/// where it loaded anything.
pub proof fn law_init_lines(init: InitPhase, limits: EdgeBudget)
    ensures
        report::cold_start_lines(init, limits).len() == if init.bytes_loaded > 0 {
            2int
        } else {
            1int
        },
        init.bytes_loaded > 0 ==> report::cold_start_lines(init, limits)[1]
            == "  Global init loads "@ + binary64::tenths_text(
            binary64::quotient(init.bytes_loaded as nat, 1_048_576),
        ) + " MB across "@ + text::decimal(init.eager_loads as nat) + " resources."@,
{
}

/// Where there are requests, a report tells how many there are, their average wall time and number of
/// fetch calls, and how many reads and writes they made in all. Where there are none, it is silent.
pub proof fn law_request_lines(requests: Seq<RequestView>)
    ensures
        requests.len() == 0 ==> report::request_lines(requests).len() == 0,
        requests.len() > 0 ==> report::request_lines(requests) == seq![
            "Requests profiled: "@ + text::decimal(requests.len()),
            "  Avg wall time:   "@ + binary64::tenths_text(
                binary64::mean(profiler::wall_times(requests)),
            ) + "ms"@,
            "  Avg fetch calls: "@ + binary64::tenths_text(
                binary64::mean(profiler::fetch_counts(requests)),
            ),
            "  Total KV reads:  "@ + text::decimal(findings::sum(findings::reads(requests)))
                + " | writes: "@ + text::decimal(findings::sum(findings::writes(requests))),
        ] + report::key_usage_lines(requests),
{
    findings::law_totals_are_sums(requests);
}

/// A report tells how many of its keys the first request accessed that loaded keys and accessed some,
/// and of no other request.
pub proof fn law_key_usage_line(requests: Seq<RequestView>, i: int)
    ensures
        (forall|j: int|
            0 <= j < requests.len() ==> (#[trigger] requests[j]).kv_keys_total == 0
                || requests[j].kv_keys_accessed.len() == 0) ==> report::key_usage_lines(
            requests,
        ).len() == 0,
        ({
            &&& 0 <= i < requests.len()
            &&& requests[i].kv_keys_total > 0
            &&& requests[i].kv_keys_accessed.len() > 0
            &&& forall|j: int|
                0 <= j < i ==> (#[trigger] requests[j]).kv_keys_total == 0
                    || requests[j].kv_keys_accessed.len() == 0
        }) ==> report::key_usage_lines(requests) == seq![
            "  KV access: "@ + text::decimal(requests[i].kv_keys_accessed.len()) + "/"@
                + text::decimal(requests[i].kv_keys_total as nat) + " keys ("@
                + binary64::whole_text(
                binary64::percent(
                    requests[i].kv_keys_accessed.len(),
                    requests[i].kv_keys_total as nat,
                ),
            ) + "%)"@,
        ],
    decreases requests.len(),
{
    if requests.len() > 0 {
        let rest = requests.drop_first();
        assert(requests[0] == requests.first());
        assert forall|j: int| 0 <= j < rest.len() implies #[trigger] rest[j] == requests[j + 1] by {
        }
        law_key_usage_line(rest, i - 1);
        if 0 < i < requests.len() {
            assert(rest[i - 1] == requests[i]);
        }
    }
}

/// A report tells that there is no waste, or how many wastes there are. Each waste takes four lines:
/// its number, name and description; its suggestion; its impact; and an empty one.
pub proof fn law_waste_lines(wastes: Seq<WasteView>, i: int)
    ensures
        wastes.len() == 0 ==> report::waste_lines(wastes) == seq![
            "✅ No waste detected. Ship it."@,
        ],
        wastes.len() > 0 ==> {
            let lines = report::waste_lines(wastes);
            &&& lines.len() == 2 + 4 * wastes.len()
            &&& lines[0] == "⚠️  "@ + text::decimal(wastes.len()) + " waste(s) detected:"@
            &&& lines[1] == Seq::<char>::empty()
            &&& 0 <= i < wastes.len() ==> {
                &&& lines[2 + 4 * i] == text::decimal((i + 1) as nat) + ". ["@
                    + detector::kind_name(wastes[i].kind) + "] "@ + wastes[i].description
                &&& lines[3 + 4 * i] == "   → "@ + wastes[i].suggestion
                &&& lines[4 + 4 * i] == "   Impact: "@ + wastes[i].estimated_impact
                &&& lines[5 + 4 * i] == Seq::<char>::empty()
            }
        },
{
    if wastes.len() > 0 {
        laws::lemma_waste_list(wastes, 0, 0);
        if 0 <= i < wastes.len() {
            laws::lemma_waste_list(wastes, i, 0);
            laws::lemma_waste_list(wastes, i, 1);
            laws::lemma_waste_list(wastes, i, 2);
            laws::lemma_waste_list(wastes, i, 3);
        }
    } else {
        assert(report::waste_lines(wastes) =~= seq!["✅ No waste detected. Ship it."@]);
    }
}

/// Where there are wastes, a report ends with the projected savings: half of the init time for each
/// eager-init waste, a third for each oversized bundle and a quarter for each sparse access, but never
/// more than the init time. They are told where there are any.
pub proof fn law_savings_lines(wastes: Seq<WasteView>, wall_ms: u64)
    ensures
        ({
            let sum = laws::count_kind(wastes, WasteKind::EagerInit) * (wall_ms as nat / 2)
                + laws::count_kind(wastes, WasteKind::OversizedBundle) * (wall_ms as nat / 3)
                + laws::count_kind(wastes, WasteKind::SparseKvAccess) * (wall_ms as nat / 4);
            let savings = if sum <= wall_ms {
                sum
            } else {
                wall_ms as nat
            };
            report::savings_lines(wastes, wall_ms) == if wastes.len() == 0 {
                Seq::empty()
            } else if savings == 0 {
                seq!["── Projected Savings ──"@]
            } else {
                seq![
                    "── Projected Savings ──"@,
                    "Addressing the above could reduce cold-start by ~"@ + text::decimal(savings)
                        + "ms."@,
                ]
            }
        }),
{
    laws::law_savings_by_kind(wastes, wall_ms);
}

/// A report is its heading, what it tells of the init phase, of the requests and of the wastes, and
/// the savings, with an empty line below each of the first three.
pub proof fn law_report_layout(p: ProfilerView, limits: EdgeBudget, wastes: Seq<WasteView>)
    ensures
        report::report_lines(p, limits, wastes) == seq![
            "═══ Edge Conservation Report ═══"@,
            Seq::empty(),
        ] + report::cold_start_lines(p.init, limits) + seq![Seq::empty()] + report::request_lines(
            p.requests,
        ) + seq![Seq::empty()] + report::waste_lines(wastes) + report::savings_lines(
            wastes,
            p.init.wall_ms,
        ),
{
}

/// A report can be generated exactly if its sums fit: all reads and all writes in 32 bits, and the
/// savings, before they are capped, in 64 bits.
pub proof fn law_when_a_report_can_be_generated(p: ProfilerView, wastes: Seq<WasteView>)
    ensures
        report::reportable(p, wastes) <==> {
            let wall_ms = p.init.wall_ms;
            &&& findings::sum(findings::reads(p.requests)) <= 0xFFFF_FFFF
            &&& findings::sum(findings::writes(p.requests)) <= 0xFFFF_FFFF
            &&& laws::count_kind(wastes, WasteKind::EagerInit) * (wall_ms as nat / 2)
                + laws::count_kind(wastes, WasteKind::OversizedBundle) * (wall_ms as nat / 3)
                + laws::count_kind(wastes, WasteKind::SparseKvAccess) * (wall_ms as nat / 4)
                <= 0xFFFF_FFFF_FFFF_FFFF
        },
{
    findings::law_totals_are_sums(p.requests);
    laws::law_savings_by_kind(wastes, p.init.wall_ms);
}

/// The text of lines has nothing for no lines, the line itself for a single one, and otherwise the
/// text of all but the last, a line break and the last.
pub proof fn law_lines_are_joined(lines: Seq<Seq<char>>, line: Seq<char>)
    ensures
        text::lines_text(Seq::empty()) == Seq::<char>::empty(),
        text::lines_text(seq![line]) == line,
        lines.len() > 0 ==> text::lines_text(lines.push(line)) == text::lines_text(lines).push('\n')
            + line,
{
    reveal_strlit("\n");
    assert(lines.push(line).drop_last() =~= lines);
    if lines.len() > 0 {
        assert(text::lines_text(lines.push(line)) =~= text::lines_text(lines).push('\n') + line);
    }
}

/// The lines of a report are its strings, one by one.
pub proof fn law_contents_are_strings(strings: Seq<String>, i: int)
    ensures
        text::contents(strings).len() == strings.len(),
        0 <= i < strings.len() ==> text::contents(strings)[i] == strings[i]@,
{
}

} // verus!
