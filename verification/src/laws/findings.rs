//! Which wastes are found, and what they say.

use vstd::arithmetic::power2::*;
use vstd::prelude::*;

use crate::binary64::{self, Binary64};
use crate::detector::{
    self, DetectorView, Waste, WasteKind, WasteView, DEFAULT_BUNDLE_BYTES,
    DEFAULT_SPARSE_THRESHOLD_BITS,
};
use crate::laws::{self, numbers};
use crate::profiler::{self, Counter, RequestView};
use crate::text;

verus! {

// ---- wastes of one kind -------------------------------------------------

/// The wastes of one kind, in order.
pub open spec fn of_kind(wastes: Seq<WasteView>, kind: WasteKind) -> Seq<WasteView>
    decreases wastes.len(),
{
    if wastes.len() == 0 {
        Seq::empty()
    } else if wastes.last().kind == kind {
        of_kind(wastes.drop_last(), kind).push(wastes.last())
    } else {
        of_kind(wastes.drop_last(), kind)
    }
}

proof fn lemma_of_kind_joined(a: Seq<WasteView>, b: Seq<WasteView>, kind: WasteKind)
    ensures
        of_kind(a + b, kind) == of_kind(a, kind) + of_kind(b, kind),
    decreases b.len(),
{
    if b.len() == 0 {
        assert(a + b =~= a);
        assert(of_kind(a, kind) + of_kind(b, kind) =~= of_kind(a, kind));
    } else {
        assert((a + b).drop_last() =~= a + b.drop_last());
        lemma_of_kind_joined(a, b.drop_last(), kind);
        assert(of_kind(a + b, kind) =~= of_kind(a, kind) + of_kind(b, kind));
    }
}

proof fn lemma_of_kind_only(wastes: Seq<WasteView>, own: WasteKind, kind: WasteKind)
    requires
        laws::only(wastes, own),
    ensures
        kind == own ==> of_kind(wastes, kind) == wastes,
        kind != own ==> of_kind(wastes, kind) == Seq::<WasteView>::empty(),
    decreases wastes.len(),
{
    if wastes.len() > 0 {
        let fewer = wastes.drop_last();
        assert(wastes[wastes.len() - 1] == wastes.last());
        assert forall|i: int| 0 <= i < fewer.len() implies (#[trigger] fewer[i]).kind == own by {
            assert(wastes[i].kind == own);
        }
        lemma_of_kind_only(fewer, own, kind);
        assert(fewer.push(wastes.last()) =~= wastes);
    } else {
        assert(wastes =~= Seq::<WasteView>::empty());
    }
}

/// What the heuristics for one kind of waste find.
spec fn part(d: DetectorView, kind: WasteKind) -> Seq<WasteView> {
    let init = d.profiler.init;
    let requests = d.profiler.requests;
    match kind {
        WasteKind::ColdStartOverBudget => detector::cold_start_wastes(init, d.budget),
        WasteKind::EagerInit => detector::eager_init_wastes(init, requests, d.sparse_threshold),
        WasteKind::OversizedBundle => detector::bundle_wastes(init, d.oversized_bundle_bytes),
        WasteKind::SequentialFetches => detector::fetch_wastes(requests),
        WasteKind::UnchangedKvReads => detector::unchanged_wastes(requests),
        WasteKind::SparseKvAccess => detector::sparse_wastes(requests, d.sparse_threshold),
        WasteKind::CpuTimeOverBudget => detector::cpu_wastes(
            requests,
            d.budget.max_cpu_time_per_request_ms,
        ),
        WasteKind::MemoryOverBudget => detector::init_memory_wastes(init, d.budget.max_memory_mb)
            + detector::memory_wastes(requests, d.budget.max_memory_mb),
        WasteKind::SubrequestOverBudget => detector::subrequest_wastes(
            requests,
            d.budget.max_subrequests,
        ),
    }
}

proof fn lemma_part_only(d: DetectorView, kind: WasteKind)
    ensures
        laws::only(part(d, kind), kind),
{
    let init = d.profiler.init;
    let requests = d.profiler.requests;
    laws::lemma_request_wastes(requests, d.budget, d.sparse_threshold);
    if kind == WasteKind::MemoryOverBudget {
        let a = detector::init_memory_wastes(init, d.budget.max_memory_mb);
        let b = detector::memory_wastes(requests, d.budget.max_memory_mb);
        assert forall|i: int| 0 <= i < (a + b).len() implies (#[trigger] (a + b)[i]).kind == kind by {
            if i < a.len() {
                assert((a + b)[i] == a[i]);
            } else {
                assert((a + b)[i] == b[i - a.len()]);
            }
        }
    }
}

/// All parts, in the order of the heuristics.
spec fn parts(d: DetectorView) -> Seq<WasteView> {
    part(d, WasteKind::ColdStartOverBudget) + part(d, WasteKind::EagerInit) + part(
        d,
        WasteKind::OversizedBundle,
    ) + part(d, WasteKind::SequentialFetches) + part(d, WasteKind::UnchangedKvReads) + part(
        d,
        WasteKind::SparseKvAccess,
    ) + part(d, WasteKind::CpuTimeOverBudget) + part(d, WasteKind::MemoryOverBudget) + part(
        d,
        WasteKind::SubrequestOverBudget,
    )
}

proof fn lemma_of_kind_is_part(d: DetectorView, kind: WasteKind)
    ensures
        of_kind(d.wastes(), kind) == part(d, kind),
        d.wastes() == parts(d),
{
    let s0 = part(d, WasteKind::ColdStartOverBudget);
    let s1 = part(d, WasteKind::EagerInit);
    let s2 = part(d, WasteKind::OversizedBundle);
    let s3 = part(d, WasteKind::SequentialFetches);
    let s4 = part(d, WasteKind::UnchangedKvReads);
    let s5 = part(d, WasteKind::SparseKvAccess);
    let s6 = part(d, WasteKind::CpuTimeOverBudget);
    let s7 = part(d, WasteKind::MemoryOverBudget);
    let s8 = part(d, WasteKind::SubrequestOverBudget);
    assert(d.wastes() =~= s0 + s1 + s2 + s3 + s4 + s5 + s6 + s7 + s8);
    lemma_of_kind_part(d, WasteKind::ColdStartOverBudget, kind);
    lemma_of_kind_part(d, WasteKind::EagerInit, kind);
    lemma_of_kind_part(d, WasteKind::OversizedBundle, kind);
    lemma_of_kind_part(d, WasteKind::SequentialFetches, kind);
    lemma_of_kind_part(d, WasteKind::UnchangedKvReads, kind);
    lemma_of_kind_part(d, WasteKind::SparseKvAccess, kind);
    lemma_of_kind_part(d, WasteKind::CpuTimeOverBudget, kind);
    lemma_of_kind_part(d, WasteKind::MemoryOverBudget, kind);
    lemma_of_kind_part(d, WasteKind::SubrequestOverBudget, kind);
    lemma_of_kind_joined(s0, s1, kind);
    lemma_of_kind_joined(s0 + s1, s2, kind);
    lemma_of_kind_joined(s0 + s1 + s2, s3, kind);
    lemma_of_kind_joined(s0 + s1 + s2 + s3, s4, kind);
    lemma_of_kind_joined(s0 + s1 + s2 + s3 + s4, s5, kind);
    lemma_of_kind_joined(s0 + s1 + s2 + s3 + s4 + s5, s6, kind);
    lemma_of_kind_joined(s0 + s1 + s2 + s3 + s4 + s5 + s6, s7, kind);
    lemma_of_kind_joined(s0 + s1 + s2 + s3 + s4 + s5 + s6 + s7, s8, kind);
    assert(of_kind(d.wastes(), kind) =~= part(d, kind));
}

proof fn lemma_of_kind_part(d: DetectorView, own: WasteKind, kind: WasteKind)
    ensures
        kind == own ==> of_kind(part(d, own), kind) == part(d, own),
        kind != own ==> of_kind(part(d, own), kind) == Seq::<WasteView>::empty(),
{
    lemma_part_only(d, own);
    lemma_of_kind_only(part(d, own), own, kind);
}

/// Wastes come kind by kind: cold start, eager init, bundles, fetches, unchanged reads, sparse
/// access, CPU time, memory, subrequests.
pub proof fn law_wastes_come_kind_by_kind(d: DetectorView)
    ensures
        d.wastes() == of_kind(d.wastes(), WasteKind::ColdStartOverBudget) + of_kind(
            d.wastes(),
            WasteKind::EagerInit,
        ) + of_kind(d.wastes(), WasteKind::OversizedBundle) + of_kind(
            d.wastes(),
            WasteKind::SequentialFetches,
        ) + of_kind(d.wastes(), WasteKind::UnchangedKvReads) + of_kind(
            d.wastes(),
            WasteKind::SparseKvAccess,
        ) + of_kind(d.wastes(), WasteKind::CpuTimeOverBudget) + of_kind(
            d.wastes(),
            WasteKind::MemoryOverBudget,
        ) + of_kind(d.wastes(), WasteKind::SubrequestOverBudget),
{
    lemma_of_kind_is_part(d, WasteKind::ColdStartOverBudget);
    lemma_of_kind_is_part(d, WasteKind::EagerInit);
    lemma_of_kind_is_part(d, WasteKind::OversizedBundle);
    lemma_of_kind_is_part(d, WasteKind::SequentialFetches);
    lemma_of_kind_is_part(d, WasteKind::UnchangedKvReads);
    lemma_of_kind_is_part(d, WasteKind::SparseKvAccess);
    lemma_of_kind_is_part(d, WasteKind::CpuTimeOverBudget);
    lemma_of_kind_is_part(d, WasteKind::MemoryOverBudget);
    lemma_of_kind_is_part(d, WasteKind::SubrequestOverBudget);
}

// ---- requests one by one ------------------------------------------------

/// What a request is held against.
pub enum Limit {
    CpuTime(u64),
    Memory(u64),
    FetchCalls(u32),
    Share(Binary64),
}

/// Whether the share of a part in a whole is less than a threshold, both taken as binary64 numbers.
pub open spec fn is_share_less(part: nat, whole: nat, threshold: u64) -> bool {
    exists|share: u64|
        {
            &&& #[trigger] numbers::is_closest(share, numbers::in_units(part), whole)
            &&& !numbers::is_no_number(threshold)
            &&& numbers::units(share) < numbers::signed_units(threshold)
        }
}

/// Whether a request is beyond a limit: it takes more than the limit of time, memory or calls, or it
/// loaded more than 20 keys and accessed some of them, but less than the given share.
pub open spec fn is_beyond(req: RequestView, limit: Limit) -> bool {
    match limit {
        Limit::CpuTime(ms) => req.cpu_ms > ms,
        Limit::Memory(mb) => req.peak_memory_mb > mb,
        Limit::FetchCalls(calls) => req.fetch_calls > calls,
        Limit::Share(threshold) => {
            &&& req.kv_keys_total > 20
            &&& req.kv_keys_accessed.len() > 0
            &&& req.kv_keys_accessed.len() < req.kv_keys_total
            &&& is_share_less(
                req.kv_keys_accessed.len(),
                req.kv_keys_total as nat,
                threshold.bits,
            )
        },
    }
}

/// What is said of the request with the given number that is beyond a limit.
pub open spec fn told(number: nat, req: RequestView, limit: Limit) -> WasteView {
    match limit {
        Limit::CpuTime(ms) => WasteView {
            kind: WasteKind::CpuTimeOverBudget,
            description: "Request #"@ + text::decimal(number) + " used "@ + text::decimal(
                req.cpu_ms as nat,
            ) + "ms CPU time, budget is "@ + text::decimal(ms as nat) + "ms."@,
            suggestion: "Profile hot paths. Consider caching computation results, reducing JSON parsing, or offloading heavy work to Durable Objects."@,
            estimated_impact: "Cutting CPU time by "@ + text::decimal((req.cpu_ms - ms) as nat)
                + "ms meets the budget."@,
        },
        Limit::Memory(mb) => WasteView {
            kind: WasteKind::MemoryOverBudget,
            description: "Request #"@ + text::decimal(number) + " peak memory is "@ + text::decimal(
                req.peak_memory_mb as nat,
            ) + "MB, budget is "@ + text::decimal(mb as nat) + "MB."@,
            suggestion: "Avoid buffering entire response bodies. Stream processing or paginate large results."@,
            estimated_impact: "Reducing by "@ + text::decimal((req.peak_memory_mb - mb) as nat)
                + "MB avoids memory pressure."@,
        },
        Limit::FetchCalls(calls) => WasteView {
            kind: WasteKind::SubrequestOverBudget,
            description: "Request #"@ + text::decimal(number) + " made "@ + text::decimal(
                req.fetch_calls as nat,
            ) + " fetch calls, budget is "@ + text::decimal(calls as nat) + "."@,
            suggestion: "Batch API calls. Use GraphQL field selection. Cache responses. Merge sequential fetches into one."@,
            estimated_impact: "Reducing from "@ + text::decimal(req.fetch_calls as nat) + " to "@
                + text::decimal(calls as nat) + " fetches stays within limits."@,
        },
        Limit::Share(_) => WasteView {
            kind: WasteKind::SparseKvAccess,
            description: "Loaded "@ + text::decimal(req.kv_keys_total as nat)
                + " KV keys but only accessed "@ + text::decimal(req.kv_keys_accessed.len()) + " ("@
                + binary64::whole_text(
                binary64::percent(req.kv_keys_accessed.len(), req.kv_keys_total as nat),
            ) + "%) per request."@,
            suggestion: "Load only the keys you need. Use a manifest index and lazy-load the rest on demand."@,
            estimated_impact: "Loading "@ + text::decimal(req.kv_keys_accessed.len())
                + " instead of "@ + text::decimal(req.kv_keys_total as nat)
                + " keys could save ~"@ + text::decimal(
                (256 * (req.kv_keys_total - req.kv_keys_accessed.len())) as nat,
            ) + "KB per request."@,
        },
    }
}

/// How many requests are beyond a limit.
pub open spec fn how_many_beyond(requests: Seq<RequestView>, limit: Limit) -> nat
    decreases requests.len(),
{
    if requests.len() == 0 {
        0
    } else {
        how_many_beyond(requests.drop_last(), limit) + if is_beyond(requests.last(), limit) {
            1nat
        } else {
            0nat
        }
    }
}

/// Whether `at` are the positions of the requests that are beyond a limit: all of them, no others,
/// and in their order.
pub open spec fn are_beyond(at: Seq<int>, requests: Seq<RequestView>, limit: Limit) -> bool {
    &&& forall|j: int|
        0 <= j < at.len() ==> 0 <= #[trigger] at[j] < requests.len() && is_beyond(
            requests[at[j]],
            limit,
        )
    &&& forall|j: int, k: int| 0 <= j < k < at.len() ==> at[j] < at[k]
    &&& forall|i: int|
        0 <= i < requests.len() && is_beyond(#[trigger] requests[i], limit) ==> at.contains(i)
    &&& at.len() == how_many_beyond(requests, limit)
}

/// Whether the wastes tell of the requests at the given positions, one by one.
pub open spec fn tell_of(
    wastes: Seq<WasteView>,
    at: Seq<int>,
    requests: Seq<RequestView>,
    limit: Limit,
) -> bool {
    &&& wastes.len() == at.len()
    &&& forall|j: int|
        0 <= j < at.len() ==> #[trigger] wastes[j] == told(
            (at[j] + 1) as nat,
            requests[at[j]],
            limit,
        )
}

/// What the heuristic for a limit finds.
spec fn listed(requests: Seq<RequestView>, limit: Limit) -> Seq<WasteView> {
    match limit {
        Limit::CpuTime(ms) => detector::cpu_wastes(requests, ms),
        Limit::Memory(mb) => detector::memory_wastes(requests, mb),
        Limit::FetchCalls(calls) => detector::subrequest_wastes(requests, calls),
        Limit::Share(threshold) => detector::sparse_wastes(requests, threshold),
    }
}

/// A share is less than a threshold exactly if the heuristics say so.
proof fn lemma_share(part: nat, whole: nat, threshold: Binary64)
    requires
        part <= u32::MAX,
        0 < whole <= u32::MAX,
    ensures
        detector::share_below(part, whole, threshold) == is_share_less(part, whole, threshold.bits),
{
    let share = numbers::law_shares_are_compared_as_numbers(part, whole, threshold);
    if is_share_less(part, whole, threshold.bits) {
        let other = choose|other: u64|
            {
                &&& #[trigger] numbers::is_closest(other, numbers::in_units(part), whole)
                &&& !numbers::is_no_number(threshold.bits)
                &&& numbers::units(other) < numbers::signed_units(threshold.bits)
            };
        numbers::law_closest_is_unique(share, other, numbers::in_units(part), whole);
    }
}

/// One more request is listed exactly if it is beyond the limit.
proof fn lemma_listed_step(requests: Seq<RequestView>, limit: Limit)
    requires
        requests.len() > 0,
    ensures
        listed(requests, limit) == if is_beyond(requests.last(), limit) {
            listed(requests.drop_last(), limit).push(told(requests.len(), requests.last(), limit))
        } else {
            listed(requests.drop_last(), limit)
        },
{
    let req = requests.last();
    if let Limit::Share(threshold) = limit {
        if 0 < req.kv_keys_accessed.len() < req.kv_keys_total {
            lemma_share(req.kv_keys_accessed.len(), req.kv_keys_total as nat, threshold);
        }
    }
}

proof fn lemma_listed(requests: Seq<RequestView>, limit: Limit) -> (at: Seq<int>)
    ensures
        are_beyond(at, requests, limit),
        tell_of(listed(requests, limit), at, requests, limit),
    decreases requests.len(),
{
    if requests.len() == 0 {
        let at = Seq::<int>::empty();
        assert(listed(requests, limit).len() == 0);
        at
    } else {
        let fewer = requests.drop_last();
        let before = lemma_listed(fewer, limit);
        let last = requests.len() - 1;
        lemma_listed_step(requests, limit);
        assert forall|i: int| 0 <= i < last implies #[trigger] requests[i] == fewer[i] by {
        }
        let at = if is_beyond(requests.last(), limit) {
            before.push(last)
        } else {
            before
        };
        assert forall|j: int| 0 <= j < at.len() implies 0 <= #[trigger] at[j] < requests.len()
            && is_beyond(requests[at[j]], limit) by {
            if j < before.len() {
                assert(at[j] == before[j]);
                assert(requests[at[j]] == fewer[before[j]]);
            }
        }
        assert forall|j: int, k: int| 0 <= j < k < at.len() implies at[j] < at[k] by {
            assert(at[j] == before[j]);
            if k < before.len() {
                assert(at[k] == before[k]);
            }
        }
        assert forall|i: int|
            0 <= i < requests.len() && is_beyond(#[trigger] requests[i], limit) implies at.contains(
            i,
        ) by {
            if i < last {
                assert(is_beyond(fewer[i], limit));
                let j = choose|j: int| 0 <= j < before.len() && before[j] == i;
                assert(at[j] == i);
            } else {
                assert(at[at.len() - 1] == i);
            }
        }
        let found = listed(requests, limit);
        assert forall|j: int| 0 <= j < at.len() implies #[trigger] found[j] == told(
            (at[j] + 1) as nat,
            requests[at[j]],
            limit,
        ) by {
            if j < before.len() {
                assert(found[j] == listed(fewer, limit)[j]);
                assert(at[j] == before[j]);
                assert(requests[at[j]] == fewer[before[j]]);
            }
        }
        at
    }
}

/// There is one waste for each request that makes more fetch calls than its budget allows, and for no
/// other request, in the order of the requests.
pub proof fn law_subrequest_wastes(d: DetectorView) -> (at: Seq<int>)
    ensures
        are_beyond(at, d.profiler.requests, Limit::FetchCalls(d.budget.max_subrequests)),
        tell_of(
            of_kind(d.wastes(), WasteKind::SubrequestOverBudget),
            at,
            d.profiler.requests,
            Limit::FetchCalls(d.budget.max_subrequests),
        ),
{
    lemma_of_kind_is_part(d, WasteKind::SubrequestOverBudget);
    lemma_listed(d.profiler.requests, Limit::FetchCalls(d.budget.max_subrequests))
}

/// There is one waste for each request that takes more CPU time than its budget allows, and for no
/// other request, in the order of the requests.
pub proof fn law_cpu_wastes(d: DetectorView) -> (at: Seq<int>)
    ensures
        are_beyond(
            at,
            d.profiler.requests,
            Limit::CpuTime(d.budget.max_cpu_time_per_request_ms),
        ),
        tell_of(
            of_kind(d.wastes(), WasteKind::CpuTimeOverBudget),
            at,
            d.profiler.requests,
            Limit::CpuTime(d.budget.max_cpu_time_per_request_ms),
        ),
{
    lemma_of_kind_is_part(d, WasteKind::CpuTimeOverBudget);
    lemma_listed(d.profiler.requests, Limit::CpuTime(d.budget.max_cpu_time_per_request_ms))
}

/// There is one waste for each request that accesses less than the threshold share of the keys that
/// it loaded, and for no other request, in the order of the requests.
pub proof fn law_sparse_wastes(d: DetectorView) -> (at: Seq<int>)
    ensures
        are_beyond(at, d.profiler.requests, Limit::Share(d.sparse_threshold)),
        tell_of(
            of_kind(d.wastes(), WasteKind::SparseKvAccess),
            at,
            d.profiler.requests,
            Limit::Share(d.sparse_threshold),
        ),
{
    lemma_of_kind_is_part(d, WasteKind::SparseKvAccess);
    lemma_listed(d.profiler.requests, Limit::Share(d.sparse_threshold))
}

/// There is one waste for the init phase if its peak memory is more than the budget allows, followed
/// by one for each request of which that holds, and for no other request, in the order of the
/// requests.
pub proof fn law_memory_wastes(d: DetectorView) -> (at: Seq<int>)
    ensures
        are_beyond(at, d.profiler.requests, Limit::Memory(d.budget.max_memory_mb)),
        ({
            let found = of_kind(d.wastes(), WasteKind::MemoryOverBudget);
            let of_init = WasteView {
                kind: WasteKind::MemoryOverBudget,
                description: "Init peak memory is "@ + text::decimal(
                    d.profiler.init.peak_memory_mb as nat,
                ) + "MB, budget is "@ + text::decimal(d.budget.max_memory_mb as nat) + "MB."@,
                suggestion: "Reduce in-memory data structures. Stream large payloads instead of buffering. Use KV or R2 for large datasets."@,
                estimated_impact: "Reducing memory avoids OOM kills and improves cold-start performance."@,
            };
            if d.profiler.init.peak_memory_mb > d.budget.max_memory_mb {
                &&& found.len() > 0
                &&& found[0] == of_init
                &&& tell_of(
                    found.skip(1),
                    at,
                    d.profiler.requests,
                    Limit::Memory(d.budget.max_memory_mb),
                )
            } else {
                tell_of(
                    found,
                    at,
                    d.profiler.requests,
                    Limit::Memory(d.budget.max_memory_mb),
                )
            }
        }),
{
    lemma_of_kind_is_part(d, WasteKind::MemoryOverBudget);
    let own = detector::init_memory_wastes(d.profiler.init, d.budget.max_memory_mb);
    let rest = detector::memory_wastes(d.profiler.requests, d.budget.max_memory_mb);
    if d.profiler.init.peak_memory_mb > d.budget.max_memory_mb {
        assert((own + rest).skip(1) =~= rest);
    } else {
        assert(own + rest =~= rest);
    }
    lemma_listed(d.profiler.requests, Limit::Memory(d.budget.max_memory_mb))
}

// ---- the init phase -----------------------------------------------------

/// A cold start is flagged exactly if it takes longer than the budget allows.
pub proof fn law_cold_start_waste(d: DetectorView)
    ensures
        ({
            let took = d.profiler.init.wall_ms;
            let limit = d.budget.max_cold_start_ms;
            of_kind(d.wastes(), WasteKind::ColdStartOverBudget) == if took > limit {
                seq![
                    WasteView {
                        kind: WasteKind::ColdStartOverBudget,
                        description: "Cold-start wall time is "@ + text::decimal(took as nat)
                            + "ms, budget is "@ + text::decimal(limit as nat) + "ms."@,
                        suggestion: "Defer non-critical init to first-use. Lazy-load config, dictionaries, and large data structures."@,
                        estimated_impact: "Reducing init by "@ + text::decimal((took - limit) as nat)
                            + "ms would bring you within budget."@,
                    },
                ]
            } else {
                Seq::empty()
            }
        }),
{
    lemma_of_kind_is_part(d, WasteKind::ColdStartOverBudget);
    assert(part(d, WasteKind::ColdStartOverBudget) =~= of_kind(
        d.wastes(),
        WasteKind::ColdStartOverBudget,
    ));
}

/// Whether a set holds the keys that some request accessed, and no others.
pub open spec fn are_keys_accessed(keys: Set<Seq<char>>, requests: Seq<RequestView>) -> bool {
    forall|key: Seq<char>| #[trigger]
        keys.contains(key) <==> exists|i: int, j: int|
            0 <= i < requests.len() && 0 <= j < requests[i].kv_keys_accessed.len()
                && #[trigger] requests[i].kv_keys_accessed[j] == key
}

proof fn lemma_keys(keys: Set<Seq<char>>, requests: Seq<RequestView>)
    requires
        are_keys_accessed(keys, requests),
    ensures
        keys == detector::keys_used(requests),
{
    assert forall|key: Seq<char>| keys.contains(key) == detector::keys_used(requests).contains(
        key,
    ) by {
        if keys.contains(key) {
            let (i, j) = choose|i: int, j: int|
                0 <= i < requests.len() && 0 <= j < requests[i].kv_keys_accessed.len()
                    && #[trigger] requests[i].kv_keys_accessed[j] == key;
            assert(requests[i].kv_keys_accessed.contains(key));
        }
        if detector::keys_used(requests).contains(key) {
            let i = choose|i: int|
                0 <= i < requests.len() && (#[trigger] requests[i]).kv_keys_accessed.contains(key);
            let j = choose|j: int|
                0 <= j < requests[i].kv_keys_accessed.len() && requests[i].kv_keys_accessed[j]
                    == key;
            assert(requests[i].kv_keys_accessed[j] == key);
        }
    }
    assert(keys =~= detector::keys_used(requests));
}

/// Eager loads are flagged exactly if the requests accessed some keys, fewer of them than there were
/// loads, and their share in the loads is less than the threshold.
pub proof fn law_eager_init_waste(d: DetectorView, keys: Set<Seq<char>>)
    requires
        are_keys_accessed(keys, d.profiler.requests),
    ensures
        ({
            let used = keys.len();
            let loads = d.profiler.init.eager_loads;
            of_kind(d.wastes(), WasteKind::EagerInit) == if used > 0 && used < loads
                && is_share_less(used, loads as nat, d.sparse_threshold.bits) {
                seq![
                    WasteView {
                        kind: WasteKind::EagerInit,
                        description: "Init eagerly loads "@ + text::decimal(loads as nat)
                            + " resources, but only "@ + text::decimal(used) + " ("@
                            + binary64::whole_text(binary64::percent(used, loads as nat))
                            + "%) are used per request."@,
                        suggestion: "Switch to lazy loading. Wrap expensive init in `std::sync::OnceLock` or `lazy_static!` so it only runs when first needed."@,
                        estimated_impact: "Deferring "@ + text::decimal((loads - used) as nat)
                            + " unused loads could save ~"@ + text::decimal(
                            (d.profiler.init.wall_ms / 2) as nat,
                        ) + "ms per cold start."@,
                    },
                ]
            } else {
                Seq::empty()
            }
        }),
{
    lemma_of_kind_is_part(d, WasteKind::EagerInit);
    lemma_keys(keys, d.profiler.requests);
    let used = keys.len();
    let loads = d.profiler.init.eager_loads;
    if 0 < used < loads {
        lemma_share(used, loads as nat, d.sparse_threshold);
    }
    assert(part(d, WasteKind::EagerInit) =~= of_kind(d.wastes(), WasteKind::EagerInit));
}

/// A bundle is flagged exactly if init loads more bytes than the threshold.
pub proof fn law_bundle_waste(d: DetectorView)
    ensures
        ({
            let bytes = d.profiler.init.bytes_loaded;
            of_kind(d.wastes(), WasteKind::OversizedBundle) == if bytes > d.oversized_bundle_bytes {
                seq![
                    WasteView {
                        kind: WasteKind::OversizedBundle,
                        description: "Init loads "@ + binary64::tenths_text(
                            binary64::quotient(bytes as nat, 1_048_576),
                        )
                            + " MB of data. Large bundles increase cold-start time and memory pressure."@,
                        suggestion: "Split data into small hot paths and lazy-loaded cold paths. Consider compressing static data or moving it to KV/R2."@,
                        estimated_impact: "Shaving 50% could save ~"@ + text::decimal(
                            (d.profiler.init.wall_ms / 2) as nat,
                        ) + "ms cold-start time."@,
                    },
                ]
            } else {
                Seq::empty()
            }
        }),
{
    lemma_of_kind_is_part(d, WasteKind::OversizedBundle);
    assert(part(d, WasteKind::OversizedBundle) =~= of_kind(
        d.wastes(),
        WasteKind::OversizedBundle,
    ));
}

// ---- sums over requests -------------------------------------------------

/// The sum of numbers.
pub open spec fn sum(xs: Seq<nat>) -> nat
    decreases xs.len(),
{
    if xs.len() == 0 {
        0
    } else {
        sum(xs.drop_last()) + xs.last()
    }
}

/// How many fetch calls each request made.
pub open spec fn fetches(requests: Seq<RequestView>) -> Seq<nat> {
    Seq::new(requests.len(), |i: int| requests[i].fetch_calls as nat)
}

/// How many fetch chains each request had.
pub open spec fn chains(requests: Seq<RequestView>) -> Seq<nat> {
    Seq::new(requests.len(), |i: int| requests[i].sequential_fetch_chains as nat)
}

/// How many KV reads each request made.
pub open spec fn reads(requests: Seq<RequestView>) -> Seq<nat> {
    Seq::new(requests.len(), |i: int| requests[i].kv_reads as nat)
}

/// How many KV writes each request made.
pub open spec fn writes(requests: Seq<RequestView>) -> Seq<nat> {
    Seq::new(requests.len(), |i: int| requests[i].kv_writes as nat)
}

/// How many unchanged reads each request made.
pub open spec fn unchanged_reads(requests: Seq<RequestView>) -> Seq<nat> {
    Seq::new(requests.len(), |i: int| requests[i].kv_unchanged_reads as nat)
}

/// A total over requests is the sum of what each of them counted.
pub proof fn law_totals_are_sums(requests: Seq<RequestView>)
    ensures
        profiler::total(requests, Counter::FetchCalls) == sum(fetches(requests)),
        profiler::total(requests, Counter::SequentialChains) == sum(chains(requests)),
        profiler::total(requests, Counter::KvReads) == sum(reads(requests)),
        profiler::total(requests, Counter::KvWrites) == sum(writes(requests)),
        profiler::total(requests, Counter::UnchangedReads) == sum(unchanged_reads(requests)),
    decreases requests.len(),
{
    if requests.len() > 0 {
        let fewer = requests.drop_last();
        law_totals_are_sums(fewer);
        assert(fetches(requests).drop_last() =~= fetches(fewer));
        assert(chains(requests).drop_last() =~= chains(fewer));
        assert(reads(requests).drop_last() =~= reads(fewer));
        assert(writes(requests).drop_last() =~= writes(fewer));
        assert(unchanged_reads(requests).drop_last() =~= unchanged_reads(fewer));
    }
}

/// Sequential fetches are flagged exactly if the requests had some chain and made more than one fetch
/// call.
pub proof fn law_fetch_waste(d: DetectorView)
    ensures
        ({
            let requests = d.profiler.requests;
            let chained = sum(chains(requests));
            let calls = sum(fetches(requests));
            of_kind(d.wastes(), WasteKind::SequentialFetches) == if chained >= 1 && calls >= 2 {
                seq![
                    WasteView {
                        kind: WasteKind::SequentialFetches,
                        description: text::decimal(chained)
                            + " sequential fetch chains detected across "@ + text::decimal(
                            requests.len(),
                        ) + " requests (avg "@ + binary64::tenths_text(
                            binary64::quotient(chained, requests.len()),
                        ) + "/req). Total fetches: "@ + text::decimal(calls) + "."@,
                        suggestion: "Fire independent fetches concurrently using `Promise::all` or `futures::join!`. Only chain when request B depends on response A."@,
                        estimated_impact: "Parallelizing could cut fetch latency by ~50% for independent calls."@,
                    },
                ]
            } else {
                Seq::empty()
            }
        }),
{
    lemma_of_kind_is_part(d, WasteKind::SequentialFetches);
    law_totals_are_sums(d.profiler.requests);
    assert(part(d, WasteKind::SequentialFetches) =~= of_kind(
        d.wastes(),
        WasteKind::SequentialFetches,
    ));
}

/// Unchanged reads are flagged exactly if they are more than three tenths of all reads.
pub proof fn law_unchanged_waste(d: DetectorView)
    ensures
        ({
            let same = sum(unchanged_reads(d.profiler.requests));
            let all = sum(reads(d.profiler.requests));
            of_kind(d.wastes(), WasteKind::UnchangedKvReads) == if all > 0 && 10 * same > 3 * all {
                seq![
                    WasteView {
                        kind: WasteKind::UnchangedKvReads,
                        description: text::decimal(same) + "/"@ + text::decimal(all)
                            + " KV reads ("@ + binary64::whole_text(binary64::percent(same, all))
                            + "%) returned unchanged data."@,
                        suggestion: "Cache KV values in-memory with a TTL. Skip re-reading keys that haven't expired. Consider using KV `cacheTtl` option."@,
                        estimated_impact: "Eliminating "@ + text::decimal(same)
                            + " redundant reads would save ~"@ + text::decimal(same + same)
                            + "ms per request."@,
                    },
                ]
            } else {
                Seq::empty()
            }
        }),
{
    lemma_of_kind_is_part(d, WasteKind::UnchangedKvReads);
    law_totals_are_sums(d.profiler.requests);
    assert(part(d, WasteKind::UnchangedKvReads) =~= of_kind(
        d.wastes(),
        WasteKind::UnchangedKvReads,
    ));
}

/// Wastes can be detected exactly if the numbers that they tell fit in 32 bits: all fetch calls, all
/// reads, twice the unchanged reads where these are flagged, and 256 times the unused keys of each
/// request that is flagged.
pub proof fn law_when_wastes_can_be_detected(d: DetectorView)
    ensures
        d.countable() <==> {
            let requests = d.profiler.requests;
            let same = sum(unchanged_reads(requests));
            let all = sum(reads(requests));
            &&& sum(fetches(requests)) <= 0xFFFF_FFFF
            &&& all <= 0xFFFF_FFFF
            &&& all > 0 && 10 * same > 3 * all ==> same + same <= 0xFFFF_FFFF
            &&& forall|i: int|
                0 <= i < requests.len() && is_beyond(
                    #[trigger] requests[i],
                    Limit::Share(d.sparse_threshold),
                ) ==> 256 * (requests[i].kv_keys_total - requests[i].kv_keys_accessed.len())
                    <= 0xFFFF_FFFF
        },
{
    let requests = d.profiler.requests;
    law_totals_are_sums(requests);
    assert forall|i: int| 0 <= i < requests.len() implies detector::is_sparse(
        #[trigger] requests[i],
        d.sparse_threshold,
    ) == is_beyond(requests[i], Limit::Share(d.sparse_threshold)) by {
        let req = requests[i];
        if 0 < req.kv_keys_accessed.len() < req.kv_keys_total {
            lemma_share(req.kv_keys_accessed.len(), req.kv_keys_total as nat, d.sparse_threshold);
        }
    }
}

// ---- defaults, names, views ---------------------------------------------

/// By default the threshold for shares is the binary64 number closest to one tenth, and the one for
/// bundles is two megabytes.
pub proof fn law_default_thresholds()
    ensures
        numbers::is_closest(DEFAULT_SPARSE_THRESHOLD_BITS, numbers::in_units(1), 10),
        DEFAULT_BUNDLE_BYTES == 2 * 1024 * 1024,
{
    lemma2_to64_rest();
    binary64::lemma_round_scaled(1, 10, 0, 56);
    assert(binary64::nearest_even(0x100_0000_0000_0000, 10) == 0x19_9999_9999_999A);
    numbers::law_rounding_is_closest(1, 10, 0);
}

/// Each kind of waste has its own name.
pub proof fn law_kinds_have_names()
    ensures
        detector::kind_name(WasteKind::EagerInit) == "eager-init"@,
        detector::kind_name(WasteKind::OversizedBundle) == "oversized-bundle"@,
        detector::kind_name(WasteKind::SequentialFetches) == "sequential-fetches"@,
        detector::kind_name(WasteKind::UnchangedKvReads) == "unchanged-kv-reads"@,
        detector::kind_name(WasteKind::SparseKvAccess) == "sparse-kv-access"@,
        detector::kind_name(WasteKind::ColdStartOverBudget) == "cold-start-over-budget"@,
        detector::kind_name(WasteKind::CpuTimeOverBudget) == "cpu-time-over-budget"@,
        detector::kind_name(WasteKind::SubrequestOverBudget) == "subrequest-over-budget"@,
        detector::kind_name(WasteKind::MemoryOverBudget) == "memory-over-budget"@,
{
}

/// The view of a waste shows its kind and its texts.
pub proof fn law_wastes_show_their_fields(waste: Waste, wastes: Seq<Waste>, i: int)
    ensures
        waste@.kind == waste.kind,
        waste@.description == waste.description@,
        waste@.suggestion == waste.suggestion@,
        waste@.estimated_impact == waste.estimated_impact@,
        detector::waste_views(wastes).len() == wastes.len(),
        0 <= i < wastes.len() ==> detector::waste_views(wastes)[i] == wastes[i]@,
{
}

} // verus!
