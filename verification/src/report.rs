//! Human-readable conservation reports.

use vstd::prelude::*;

use crate::binary64::{self, divide, divide_percent};
use crate::budget::EdgeBudget;
use crate::detector::{self, Waste, WasteKind, WasteView};
use crate::profiler::{self, Counter, InitPhase, Profiler, ProfilerView, RequestView};
use crate::text::{self, join_lines, push_decimal};

verus! {

/// The heading, with an empty line below it.
pub open spec fn heading_lines() -> Seq<Seq<char>> {
    seq!["═══ Edge Conservation Report ═══"@, Seq::empty()]
}

/// The cold-start summary.
pub open spec fn cold_start_lines(init: InitPhase, budget: EdgeBudget) -> Seq<Seq<char>> {
    let status = if init.wall_ms <= budget.max_cold_start_ms {
        "✅ within budget"@
    } else {
        "❌ over budget"@
    };
    let summary = "Cold-start: "@ + text::decimal(init.wall_ms as nat) + "ms (budget: "@
        + text::decimal(budget.max_cold_start_ms as nat) + "ms) "@ + status;
    if init.bytes_loaded > 0 {
        seq![
            summary,
            "  Global init loads "@ + binary64::tenths_text(
                binary64::quotient(init.bytes_loaded as nat, 1_048_576),
            ) + " MB across "@ + text::decimal(init.eager_loads as nat) + " resources."@,
        ]
    } else {
        seq![summary]
    }
}

/// Whether the key usage of a request can be told: it loaded keys and accessed some.
pub open spec fn shows_keys(req: RequestView) -> bool {
    req.kv_keys_total > 0 && req.kv_keys_accessed.len() > 0
}

/// The key usage of the first request that shows one.
pub open spec fn key_usage_lines(requests: Seq<RequestView>) -> Seq<Seq<char>>
    decreases requests.len(),
{
    if requests.len() == 0 {
        seq![]
    } else if shows_keys(requests.first()) {
        let accessed = requests.first().kv_keys_accessed.len();
        let keys = requests.first().kv_keys_total as nat;
        seq![
            "  KV access: "@ + text::decimal(accessed) + "/"@ + text::decimal(keys) + " keys ("@
                + binary64::whole_text(binary64::percent(accessed, keys)) + "%)"@,
        ]
    } else {
        key_usage_lines(requests.drop_first())
    }
}

/// The per-request summary, where there are requests.
pub open spec fn request_lines(requests: Seq<RequestView>) -> Seq<Seq<char>> {
    if requests.len() == 0 {
        seq![]
    } else {
        seq![
            "Requests profiled: "@ + text::decimal(requests.len()),
            "  Avg wall time:   "@ + binary64::tenths_text(
                binary64::mean(profiler::wall_times(requests)),
            ) + "ms"@,
            "  Avg fetch calls: "@ + binary64::tenths_text(
                binary64::mean(profiler::fetch_counts(requests)),
            ),
            "  Total KV reads:  "@ + text::decimal(profiler::total(requests, Counter::KvReads))
                + " | writes: "@ + text::decimal(profiler::total(requests, Counter::KvWrites)),
        ] + key_usage_lines(requests)
    }
}

/// The line that says that there is no waste.
pub open spec fn no_waste_line() -> Seq<char> {
    "✅ No waste detected. Ship it."@
}

/// The line that says how many wastes there are.
pub open spec fn waste_count_line(n: nat) -> Seq<char> {
    "⚠️  "@ + text::decimal(n) + " waste(s) detected:"@
}

/// The lines of the waste with the given number.
pub open spec fn waste_item_lines(number: nat, waste: WasteView) -> Seq<Seq<char>> {
    seq![
        text::decimal(number) + ". ["@ + detector::kind_name(waste.kind) + "] "@ + waste.description,
        "   → "@ + waste.suggestion,
        "   Impact: "@ + waste.estimated_impact,
        Seq::empty(),
    ]
}

/// The lines of all wastes, numbered from one.
pub open spec fn waste_list_lines(wastes: Seq<WasteView>) -> Seq<Seq<char>>
    decreases wastes.len(),
{
    if wastes.len() == 0 {
        seq![]
    } else {
        waste_list_lines(wastes.drop_last()) + waste_item_lines(wastes.len(), wastes.last())
    }
}

/// The wastes, or that there are none.
pub open spec fn waste_lines(wastes: Seq<WasteView>) -> Seq<Seq<char>> {
    if wastes.len() == 0 {
        seq![no_waste_line()]
    } else {
        seq![waste_count_line(wastes.len()), Seq::empty()] + waste_list_lines(wastes)
    }
}

/// The share of the init time that doing away with a waste could save.
pub open spec fn kind_savings(kind: WasteKind, wall_ms: u64) -> nat {
    match kind {
        WasteKind::EagerInit => wall_ms as nat / 2,
        WasteKind::OversizedBundle => wall_ms as nat / 3,
        WasteKind::SparseKvAccess => wall_ms as nat / 4,
        _ => 0,
    }
}

/// The sum of what the wastes could save.
pub open spec fn potential_savings(wastes: Seq<WasteView>, wall_ms: u64) -> nat
    decreases wastes.len(),
{
    if wastes.len() == 0 {
        0
    } else {
        potential_savings(wastes.drop_last(), wall_ms) + kind_savings(wastes.last().kind, wall_ms)
    }
}

/// The projected savings, which are at most the actual init time.
pub open spec fn projected_savings(wastes: Seq<WasteView>, wall_ms: u64) -> nat {
    if potential_savings(wastes, wall_ms) <= wall_ms {
        potential_savings(wastes, wall_ms)
    } else {
        wall_ms as nat
    }
}

/// The heading of the savings section.
pub open spec fn savings_heading() -> Seq<char> {
    "── Projected Savings ──"@
}

/// The savings section, where there are wastes.
pub open spec fn savings_lines(wastes: Seq<WasteView>, wall_ms: u64) -> Seq<Seq<char>> {
    if wastes.len() == 0 {
        seq![]
    } else if projected_savings(wastes, wall_ms) == 0 {
        seq![savings_heading()]
    } else {
        seq![
            savings_heading(),
            "Addressing the above could reduce cold-start by ~"@ + text::decimal(
                projected_savings(wastes, wall_ms),
            ) + "ms."@,
        ]
    }
}

/// All lines of a report.
pub open spec fn report_lines(
    profiler: ProfilerView,
    budget: EdgeBudget,
    wastes: Seq<WasteView>,
) -> Seq<Seq<char>> {
    heading_lines() + cold_start_lines(profiler.init, budget) + seq![Seq::empty()] + request_lines(
        profiler.requests,
    ) + seq![Seq::empty()] + waste_lines(wastes) + savings_lines(wastes, profiler.init.wall_ms)
}

/// Whether the sums in a report fit: the KV operations in 32 bits, and the savings, before they are
/// capped, in 64 bits.
pub open spec fn reportable(profiler: ProfilerView, wastes: Seq<WasteView>) -> bool {
    &&& profiler::total(profiler.requests, Counter::KvReads) <= u32::MAX
    &&& profiler::total(profiler.requests, Counter::KvWrites) <= u32::MAX
    &&& potential_savings(wastes, profiler.init.wall_ms) <= u64::MAX
}

/// A conservation report summarizing profiler data and detected waste. Its view is its lines.
#[derive(Debug)]
pub struct Report {
    /// Plain-text lines of the report body.
    lines: Vec<String>,
}

impl View for Report {
    type V = Seq<Seq<char>>;

    closed spec fn view(&self) -> Seq<Seq<char>> {
        text::contents(self.lines@)
    }
}

/// Appends a line.
fn push_line(lines: &mut Vec<String>, line: String)
    ensures
        text::contents(final(lines)@) == text::contents(old(lines)@).push(line@),
{
    lines.push(line);
    assert(text::contents(lines@) =~= text::contents(old(lines)@).push(line@));
}

impl Report {
    /// Generate a report from profiler data, budget, and detected wastes.
    pub fn generate(profiler: &Profiler, budget: &EdgeBudget, wastes: &[Waste]) -> (report: Self)
        requires
            profiler@.wf(),
            reportable(profiler@, detector::waste_views(wastes@)),
        ensures
            report@ == report_lines(profiler@, *budget, detector::waste_views(wastes@)),
    {
        let mut lines: Vec<String> = Vec::new();
        push_line(&mut lines, "═══ Edge Conservation Report ═══".to_owned());
        push_line(&mut lines, String::new());
        assert(text::contents(lines@) =~= heading_lines());
        Self::push_cold_start(&mut lines, profiler.init(), budget);
        push_line(&mut lines, String::new());
        Self::push_requests(&mut lines, profiler);
        push_line(&mut lines, String::new());
        Self::push_wastes(&mut lines, wastes);
        Self::push_savings(&mut lines, profiler, wastes);
        assert(text::contents(lines@) =~= report_lines(
            profiler@,
            *budget,
            detector::waste_views(wastes@),
        ));
        Self { lines }
    }

    /// Like [`Report::generate`], but returns `None` where a sum in the report does not fit.
    pub fn try_generate(
        profiler: &Profiler,
        budget: &EdgeBudget,
        wastes: &[Waste],
    ) -> (report: Option<Self>)
        requires
            profiler@.wf(),
        ensures
            report is Some <==> reportable(profiler@, detector::waste_views(wastes@)),
            report matches Some(found) ==> found@ == report_lines(
                profiler@,
                *budget,
                detector::waste_views(wastes@),
            ),
    {
        if profiler.total_of(Counter::KvReads) <= 0xFFFF_FFFF && profiler.total_of(
            Counter::KvWrites,
        ) <= 0xFFFF_FFFF && Self::sum_savings(profiler.init().wall_ms, wastes)
            <= 0xFFFF_FFFF_FFFF_FFFF {
            Some(Self::generate(profiler, budget, wastes))
        } else {
            None
        }
    }

    /// Render the report as a plain-text string.
    pub fn to_text(&self) -> (text: String)
        ensures
            text@ == text::lines_text(self@),
    {
        join_lines(&self.lines)
    }

    fn push_cold_start(lines: &mut Vec<String>, init: &InitPhase, budget: &EdgeBudget)
        ensures
            text::contents(final(lines)@) == text::contents(old(lines)@) + cold_start_lines(
                *init,
                *budget,
            ),
    {
        let mut line = "Cold-start: ".to_owned();
        push_decimal(&mut line, init.wall_ms as u128);
        line.append("ms (budget: ");
        push_decimal(&mut line, budget.max_cold_start_ms as u128);
        line.append("ms) ");
        if budget.check_cold_start(init.wall_ms) {
            line.append("✅ within budget");
        } else {
            line.append("❌ over budget");
        }
        push_line(lines, line);
        if init.bytes_loaded > 0 {
            let mut line = "  Global init loads ".to_owned();
            divide(init.bytes_loaded, 1_048_576).push_tenths(&mut line);
            line.append(" MB across ");
            push_decimal(&mut line, init.eager_loads as u128);
            line.append(" resources.");
            push_line(lines, line);
        }
        assert(text::contents(lines@) =~= text::contents(old(lines)@) + cold_start_lines(
            *init,
            *budget,
        ));
    }

    fn push_requests(lines: &mut Vec<String>, profiler: &Profiler)
        requires
            profiler@.wf(),
            profiler::total(profiler@.requests, Counter::KvReads) <= u32::MAX,
            profiler::total(profiler@.requests, Counter::KvWrites) <= u32::MAX,
        ensures
            text::contents(final(lines)@) == text::contents(old(lines)@) + request_lines(
                profiler@.requests,
            ),
    {
        let count: usize = profiler.requests().len();
        if count == 0 {
            assert(text::contents(lines@) =~= text::contents(lines@) + request_lines(
                profiler@.requests,
            ));
            return;
        }
        let mut line = "Requests profiled: ".to_owned();
        push_decimal(&mut line, count as u128);
        push_line(lines, line);

        let mut line = "  Avg wall time:   ".to_owned();
        profiler.mean_wall_ms().push_tenths(&mut line);
        line.append("ms");
        push_line(lines, line);

        let mut line = "  Avg fetch calls: ".to_owned();
        profiler.mean_fetch_calls().push_tenths(&mut line);
        push_line(lines, line);

        let total_kv_reads: u32 = profiler.total_of(Counter::KvReads) as u32;
        let total_kv_writes: u32 = profiler.total_of(Counter::KvWrites) as u32;
        let mut line = "  Total KV reads:  ".to_owned();
        push_decimal(&mut line, total_kv_reads as u128);
        line.append(" | writes: ");
        push_decimal(&mut line, total_kv_writes as u128);
        push_line(lines, line);

        Self::push_key_usage(lines, profiler);
        assert(text::contents(lines@) =~= text::contents(old(lines)@) + request_lines(
            profiler@.requests,
        ));
    }

    fn push_key_usage(lines: &mut Vec<String>, profiler: &Profiler)
        requires
            profiler@.wf(),
        ensures
            text::contents(final(lines)@) == text::contents(old(lines)@) + key_usage_lines(
                profiler@.requests,
            ),
    {
        let requests = profiler.requests();
        let ghost views = profiler@.requests;
        assert(views.skip(0) =~= views);
        let mut i: usize = 0;
        while i < requests.len()
            invariant
                i <= requests.len(),
                views == profiler::request_views(requests@),
                views == profiler@.requests,
                profiler@.wf(),
                lines@ == old(lines)@,
                key_usage_lines(views) == key_usage_lines(views.skip(i as int)),
            decreases requests.len() - i,
        {
            let req = &requests[i];
            proof {
                assert(views.skip(i as int).first() == req@);
                assert(views[i as int].wf());
            }
            if req.kv_keys_total > 0 && req.kv_keys_accessed.len() > 0 {
                let accessed: u32 = req.kv_keys_accessed.len() as u32;
                let mut line = "  KV access: ".to_owned();
                push_decimal(&mut line, accessed as u128);
                line.append("/");
                push_decimal(&mut line, req.kv_keys_total as u128);
                line.append(" keys (");
                divide_percent(accessed, req.kv_keys_total).push_whole(&mut line);
                line.append("%)");
                push_line(lines, line);
                assert(text::contents(lines@) =~= text::contents(old(lines)@) + key_usage_lines(views));
                return;
            }
            assert(views.skip(i as int).drop_first() =~= views.skip(i + 1));
            i += 1;
        }
        assert(text::contents(lines@) =~= text::contents(old(lines)@) + key_usage_lines(views));
    }

    fn push_wastes(lines: &mut Vec<String>, wastes: &[Waste])
        ensures
            text::contents(final(lines)@) == text::contents(old(lines)@) + waste_lines(
                detector::waste_views(wastes@),
            ),
    {
        let ghost views = detector::waste_views(wastes@);
        let ghost before = text::contents(lines@);
        if wastes.len() == 0 {
            push_line(lines, "✅ No waste detected. Ship it.".to_owned());
            assert(text::contents(lines@) =~= before + waste_lines(views));
            return;
        }
        let mut line = "⚠️  ".to_owned();
        push_decimal(&mut line, wastes.len() as u128);
        line.append(" waste(s) detected:");
        push_line(lines, line);
        push_line(lines, String::new());
        let ghost intro = text::contents(lines@);
        assert(intro =~= before + seq![waste_count_line(views.len()), Seq::empty()]);
        assert(intro =~= intro + waste_list_lines(views.take(0)));
        let mut i: usize = 0;
        while i < wastes.len()
            invariant
                i <= wastes.len(),
                views == detector::waste_views(wastes@),
                text::contents(lines@) == intro + waste_list_lines(views.take(i as int)),
            decreases wastes.len() - i,
        {
            let ghost so_far = text::contents(lines@);
            Self::push_waste_item(lines, i + 1, &wastes[i]);
            proof {
                let upto = views.take(i + 1);
                assert(upto.drop_last() =~= views.take(i as int));
                assert(upto.last() == wastes[i as int]@);
                assert(text::contents(lines@) =~= intro + waste_list_lines(upto));
            }
            i += 1;
        }
        assert(views.take(i as int) =~= views);
        assert(text::contents(lines@) =~= before + waste_lines(views));
    }

    fn push_waste_item(lines: &mut Vec<String>, number: usize, waste: &Waste)
        ensures
            text::contents(final(lines)@) == text::contents(old(lines)@) + waste_item_lines(
                number as nat,
                waste@,
            ),
    {
        let mut line = String::new();
        push_decimal(&mut line, number as u128);
        assert(line@ =~= text::decimal(number as nat));
        line.append(". [");
        line.append(waste.kind.as_str());
        line.append("] ");
        line.append(waste.description.as_str());
        push_line(lines, line);
        let mut line = "   → ".to_owned();
        line.append(waste.suggestion.as_str());
        push_line(lines, line);
        let mut line = "   Impact: ".to_owned();
        line.append(waste.estimated_impact.as_str());
        push_line(lines, line);
        push_line(lines, String::new());
        assert(text::contents(lines@) =~= text::contents(old(lines)@) + waste_item_lines(
            number as nat,
            waste@,
        ));
    }

    fn push_savings(lines: &mut Vec<String>, profiler: &Profiler, wastes: &[Waste])
        requires
            potential_savings(detector::waste_views(wastes@), profiler@.init.wall_ms) <= u64::MAX,
        ensures
            text::contents(final(lines)@) == text::contents(old(lines)@) + savings_lines(
                detector::waste_views(wastes@),
                profiler@.init.wall_ms,
            ),
    {
        if wastes.len() > 0 {
            push_line(lines, "── Projected Savings ──".to_owned());
            let projected_ms: u64 = Self::estimate_cold_start_savings(profiler, wastes);
            if projected_ms > 0 {
                let mut line = "Addressing the above could reduce cold-start by ~".to_owned();
                push_decimal(&mut line, projected_ms as u128);
                line.append("ms.");
                push_line(lines, line);
            }
        }
        assert(text::contents(lines@) =~= text::contents(old(lines)@) + savings_lines(
            detector::waste_views(wastes@),
            profiler@.init.wall_ms,
        ));
    }

    fn estimate_cold_start_savings(profiler: &Profiler, wastes: &[Waste]) -> (ms: u64)
        requires
            potential_savings(detector::waste_views(wastes@), profiler@.init.wall_ms) <= u64::MAX,
        ensures
            ms == projected_savings(detector::waste_views(wastes@), profiler@.init.wall_ms),
    {
        let wall_ms: u64 = profiler.init().wall_ms;
        let savings: u64 = Self::sum_savings(wall_ms, wastes) as u64;
        // Cap at the actual init time
        if savings <= wall_ms {
            savings
        } else {
            wall_ms
        }
    }

    fn sum_savings(wall_ms: u64, wastes: &[Waste]) -> (savings: u128)
        ensures
            savings == potential_savings(detector::waste_views(wastes@), wall_ms),
    {
        let ghost views = detector::waste_views(wastes@);
        let mut savings: u128 = 0;
        let mut i: usize = 0;
        while i < wastes.len()
            invariant
                i <= wastes.len(),
                views == detector::waste_views(wastes@),
                savings == potential_savings(views.take(i as int), wall_ms),
                savings <= i * 0x8000_0000_0000_0000,
            decreases wastes.len() - i,
        {
            proof {
                let upto = views.take(i + 1);
                assert(upto.drop_last() =~= views.take(i as int));
                assert(upto.last() == wastes[i as int]@);
            }
            let share: u64 = match wastes[i].kind {
                // Rough: defer half of init time
                WasteKind::EagerInit => wall_ms / 2,
                WasteKind::OversizedBundle => wall_ms / 3,
                // Lazy-loading unused keys saves proportional init time
                WasteKind::SparseKvAccess => wall_ms / 4,
                _ => 0,
            };
            savings += share as u128;
            i += 1;
        }
        assert(views.take(i as int) =~= views);
        savings
    }
}

} // verus!
