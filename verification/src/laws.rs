//! Properties of the library as a whole.

use vstd::arithmetic::power2::*;
use vstd::prelude::*;

use crate::binary64::{self, Binary64};
use crate::budget::{self, CpuTimeResult, EdgeBudget, ResourceUsage};
use crate::detector::{self, DetectorView, WasteKind, WasteView, DEFAULT_SPARSE_THRESHOLD_BITS};
use crate::profiler::{self, Counter, InitPhase, ProfilerView, RequestView};
use crate::report;
use crate::text;

pub mod findings;
pub mod numbers;
pub mod recording;
pub mod wording;

verus! {

// ---- budgets ------------------------------------------------------------

/// Whether a usage passes every check of a budget.
pub open spec fn passes(budget: EdgeBudget, usage: ResourceUsage) -> bool {
    &&& usage.cold_start_ms <= budget.max_cold_start_ms
    &&& usage.memory_mb <= budget.max_memory_mb
    &&& !(budget::cpu_grade(usage.cpu_time_ms, budget.max_cpu_time_per_request_ms) is Exceeded)
    &&& usage.subrequests <= budget.max_subrequests
}

/// What passes the strict budget passes the default one, and what passes the default budget passes
/// the generous one.
pub proof fn law_presets_are_nested(usage: ResourceUsage)
    ensures
        passes(budget::strict_budget(), usage) ==> passes(budget::default_worker_budget(), usage),
        passes(budget::default_worker_budget(), usage) ==> passes(budget::generous_budget(), usage),
{
}

/// The limits of the presets.
pub proof fn law_preset_limits()
    ensures
        budget::default_worker_budget().max_cold_start_ms == 400,
        budget::default_worker_budget().max_memory_mb == 128,
        budget::default_worker_budget().max_cpu_time_per_request_ms == 50,
        budget::default_worker_budget().max_subrequests == 50,
        budget::strict_budget().max_cold_start_ms == 100,
        budget::strict_budget().max_memory_mb == 64,
        budget::strict_budget().max_cpu_time_per_request_ms == 10,
        budget::strict_budget().max_subrequests == 10,
        budget::generous_budget().max_cold_start_ms == 800,
        budget::generous_budget().max_memory_mb == 256,
        budget::generous_budget().max_cpu_time_per_request_ms == 150,
        budget::generous_budget().max_subrequests == 100,
{
}

/// A CPU time exceeds its limit exactly if it is greater. It approaches the limit exactly if it is
/// not, and at least four fifths of a limit above zero are consumed. The grade then tells both.
pub proof fn law_cpu_grades(used: u64, limit: u64)
    ensures
        used > limit <==> budget::cpu_grade(used, limit) is Exceeded,
        0 < limit && 4 * limit <= 5 * used && used <= limit <==> budget::cpu_grade(
            used,
            limit,
        ) is ApproachingLimit,
        budget::cpu_grade(used, limit) matches CpuTimeResult::Exceeded { used_ms, limit_ms }
            ==> used_ms == used && limit_ms == limit,
        budget::cpu_grade(used, limit) matches CpuTimeResult::ApproachingLimit { used_ms, limit_ms }
            ==> used_ms == used && limit_ms == limit,
{
}

/// How severe a grade is.
pub open spec fn severity(grade: CpuTimeResult) -> int {
    match grade {
        CpuTimeResult::WithinBudget => 0,
        CpuTimeResult::ApproachingLimit { .. } => 1,
        CpuTimeResult::Exceeded { .. } => 2,
    }
}

/// More CPU time is never graded more mildly, and a lower limit neither.
pub proof fn law_cpu_grades_are_monotone(used: u64, more: u64, limit: u64, lower: u64)
    requires
        used <= more,
        lower <= limit,
    ensures
        severity(budget::cpu_grade(used, limit)) <= severity(budget::cpu_grade(more, limit)),
        severity(budget::cpu_grade(used, limit)) <= severity(budget::cpu_grade(used, lower)),
{
}

/// CPU time that grows from nothing is warned about before it exceeds the limit: the last time
/// before the limit is exceeded is graded as approaching it.
pub proof fn law_cpu_time_is_warned_about(limit: u64)
    requires
        limit > 0,
    ensures
        budget::cpu_grade(0, limit) is WithinBudget,
        budget::cpu_grade(limit, limit) is ApproachingLimit,
        limit < u64::MAX ==> budget::cpu_grade((limit + 1) as u64, limit) is Exceeded,
{
}

/// Each limit is set on its own: the order in which a builder sets two limits does not matter, and
/// of two values for the same limit the last one counts.
pub proof fn law_limits_are_set_independently(
    b: EdgeBudget,
    ms: u64,
    mb: u64,
    cpu: u64,
    n: u32,
    other: EdgeBudget,
)
    ensures
        (EdgeBudget { max_cold_start_ms: ms, ..(EdgeBudget { max_memory_mb: mb, ..b }) }) == (
        EdgeBudget { max_memory_mb: mb, ..(EdgeBudget { max_cold_start_ms: ms, ..b }) }),
        (EdgeBudget { max_cold_start_ms: ms, ..(EdgeBudget { max_cpu_time_per_request_ms: cpu, ..b }) }) == (
        EdgeBudget { max_cpu_time_per_request_ms: cpu, ..(EdgeBudget { max_cold_start_ms: ms, ..b }) }),
        (EdgeBudget { max_cold_start_ms: ms, ..(EdgeBudget { max_subrequests: n, ..b }) }) == (
        EdgeBudget { max_subrequests: n, ..(EdgeBudget { max_cold_start_ms: ms, ..b }) }),
        (EdgeBudget { max_memory_mb: mb, ..(EdgeBudget { max_cpu_time_per_request_ms: cpu, ..b }) }) == (
        EdgeBudget { max_cpu_time_per_request_ms: cpu, ..(EdgeBudget { max_memory_mb: mb, ..b }) }),
        (EdgeBudget { max_memory_mb: mb, ..(EdgeBudget { max_subrequests: n, ..b }) }) == (
        EdgeBudget { max_subrequests: n, ..(EdgeBudget { max_memory_mb: mb, ..b }) }),
        (EdgeBudget { max_cpu_time_per_request_ms: cpu, ..(EdgeBudget { max_subrequests: n, ..b }) }) == (
        EdgeBudget { max_subrequests: n, ..(EdgeBudget { max_cpu_time_per_request_ms: cpu, ..b }) }),
        (EdgeBudget { max_cold_start_ms: ms, ..(EdgeBudget { max_cold_start_ms: other.max_cold_start_ms, ..b }) })
            == (EdgeBudget { max_cold_start_ms: ms, ..b }),
        (EdgeBudget { max_memory_mb: mb, ..(EdgeBudget { max_memory_mb: other.max_memory_mb, ..b }) })
            == (EdgeBudget { max_memory_mb: mb, ..b }),
        (EdgeBudget { max_cpu_time_per_request_ms: cpu, ..(EdgeBudget { max_cpu_time_per_request_ms: other.max_cpu_time_per_request_ms, ..b }) })
            == (EdgeBudget { max_cpu_time_per_request_ms: cpu, ..b }),
        (EdgeBudget { max_subrequests: n, ..(EdgeBudget { max_subrequests: other.max_subrequests, ..b }) })
            == (EdgeBudget { max_subrequests: n, ..b }),
{
}

// ---- recording ----------------------------------------------------------

/// A new profile holds nothing but zeros.
pub proof fn law_new_profiles_are_zero()
    ensures
        ({
            let init = profiler::empty_init();
            &&& init.wall_ms == 0 && init.peak_memory_mb == 0
            &&& init.eager_loads == 0 && init.bytes_loaded == 0
        }),
        ({
            let req = profiler::empty_request();
            &&& req.wall_ms == 0 && req.cpu_ms == 0
            &&& req.peak_memory_mb == 0 && req.alloc_bytes == 0
            &&& req.fetch_calls == 0 && req.sequential_fetch_chains == 0
            &&& req.kv_reads == 0 && req.kv_read_bytes == 0
            &&& req.kv_writes == 0 && req.kv_write_bytes == 0
            &&& req.kv_keys_accessed.len() == 0 && req.kv_keys_total == 0
            &&& req.kv_unchanged_reads == 0
        }),
{
}

/// Something that is recorded on a profiler.
pub enum Event {
    InitStart { now_ns: u128 },
    InitEnd { now_ns: u128 },
    EagerLoad { bytes: u64 },
    InitPeakMemory { mb: u64 },
    InitWall { ms: u64 },
    RequestStart { now_ns: u128 },
    RequestEnd { now_ns: u128 },
    FetchCall { now_ns: u128 },
    KvRead { bytes: u64 },
    KvReadKey { key: Seq<char>, bytes: u64 },
    KvReadChecked { key: Seq<char>, bytes: u64, hash: u64 },
    KvWrite { bytes: u64 },
    PeakMemory { mb: u64 },
    AllocBytes { bytes: u64 },
    CpuTime { ms: u64 },
    TotalKeys { keys: u32 },
}

/// Whether an event can be recorded: no counter overflows.
pub open spec fn recordable(p: ProfilerView, event: Event) -> bool {
    match event {
        Event::EagerLoad { bytes } => p.init.eager_loads < u32::MAX && p.init.bytes_loaded + bytes
            <= u64::MAX,
        Event::FetchCall { .. } => p.can_fetch(),
        Event::KvRead { bytes } => p.can_read(bytes),
        Event::KvReadKey { bytes, .. } => p.can_read(bytes),
        Event::KvReadChecked { bytes, .. } => p.can_read(bytes),
        Event::KvWrite { bytes } => p.can_write(bytes),
        _ => true,
    }
}

/// The state after an event was recorded.
pub open spec fn recorded(p: ProfilerView, event: Event) -> ProfilerView {
    match event {
        Event::InitStart { now_ns } => p.init_started(now_ns),
        Event::InitEnd { now_ns } => p.init_ended(now_ns),
        Event::EagerLoad { bytes } => p.eager_loaded(bytes),
        Event::InitPeakMemory { mb } => ProfilerView {
            init: InitPhase { peak_memory_mb: mb, ..p.init },
            ..p
        },
        Event::InitWall { ms } => ProfilerView { init: InitPhase { wall_ms: ms, ..p.init }, ..p },
        Event::RequestStart { now_ns } => p.request_started(now_ns),
        Event::RequestEnd { now_ns } => p.request_ended(now_ns),
        Event::FetchCall { now_ns } => p.fetched(now_ns),
        Event::KvRead { bytes } => p.kv_read(bytes),
        Event::KvReadKey { key, bytes } => p.kv_read_key(key, bytes),
        Event::KvReadChecked { key, bytes, hash } => p.kv_read_checked(key, bytes, hash),
        Event::KvWrite { bytes } => p.kv_written(bytes),
        Event::PeakMemory { mb } => p.with_peak_memory(mb),
        Event::AllocBytes { bytes } => p.with_alloc_bytes(bytes),
        Event::CpuTime { ms } => p.with_cpu(ms),
        Event::TotalKeys { keys } => p.with_total_keys(keys),
    }
}

/// The state after events were recorded one after the other.
pub open spec fn history(p: ProfilerView, events: Seq<Event>) -> ProfilerView
    decreases events.len(),
{
    if events.len() == 0 {
        p
    } else {
        recorded(history(p, events.drop_last()), events.last())
    }
}

/// Whether each of the events can be recorded after those before it.
pub open spec fn history_recordable(p: ProfilerView, events: Seq<Event>) -> bool
    decreases events.len(),
{
    events.len() == 0 || {
        &&& history_recordable(p, events.drop_last())
        &&& recordable(history(p, events.drop_last()), events.last())
    }
}

/// Recording keeps a profiler well formed.
pub proof fn law_recording_keeps_wf(p: ProfilerView, event: Event)
    requires
        p.wf(),
        recordable(p, event),
    ensures
        recorded(p, event).wf(),
{
    let after = recorded(p, event);
    match event {
        Event::RequestEnd { now_ns } => {
            assert forall|i: int| 0 <= i < after.requests.len() implies (
            #[trigger] after.requests[i]).wf() by {
                if i < p.requests.len() {
                    assert(p.requests[i].wf());
                }
            }
        },
        _ => {
            assert(after.requests == p.requests);
        },
    }
}

/// Whatever is recorded on a new profiler, its counters fit together: in every completed request
/// the first fetch call starts no chain, and accessed keys and unchanged reads are KV reads.
pub proof fn law_every_history_is_wf(limits: EdgeBudget, events: Seq<Event>)
    requires
        history_recordable(profiler::empty_profiler(limits), events),
    ensures
        history(profiler::empty_profiler(limits), events).wf(),
    decreases events.len(),
{
    if events.len() > 0 {
        law_every_history_is_wf(limits, events.drop_last());
        law_recording_keeps_wf(
            history(profiler::empty_profiler(limits), events.drop_last()),
            events.last(),
        );
    }
}

/// Completed requests stay as they are. One is added exactly where a request in flight ends.
pub proof fn law_completed_requests_stay(p: ProfilerView, event: Event)
    requires
        p.wf(),
    ensures
        p.requests.is_prefix_of(recorded(p, event).requests),
        recorded(p, event).requests.len() == p.requests.len() + if event is RequestEnd
            && p.current is Some {
            1int
        } else {
            0int
        },
        recorded(p, event).budget == p.budget,
{
}

/// While no request is in flight, nothing but a request start has an effect on any request.
pub proof fn law_idle_recording_leaves_no_trace(p: ProfilerView, event: Event)
    requires
        p.wf(),
        p.current is None,
        !(event is RequestStart),
    ensures
        recorded(p, event).requests == p.requests,
        recorded(p, event).current is None,
{
}

/// Only init events change the init phase.
pub proof fn law_requests_leave_init_alone(p: ProfilerView, event: Event)
    requires
        !(event is InitEnd || event is EagerLoad || event is InitPeakMemory || event is InitWall),
    ensures
        recorded(p, event).init == p.init,
{
}

/// A request ends once: ending it again has no effect, and neither has an end without a start.
pub proof fn law_request_ends_once(p: ProfilerView, now_ns: u128, later_ns: u128)
    requires
        p.wf(),
    ensures
        p.request_ended(now_ns).request_ended(later_ns) == p.request_ended(now_ns),
        p.current is None ==> p.request_ended(now_ns) == p,
{
}

/// A request that starts and ends is committed behind the others, with its wall time also as its
/// CPU time, whatever was in flight before it.
pub proof fn law_start_and_end_commit(p: ProfilerView, start_ns: u128, end_ns: u128)
    ensures
        p.request_started(start_ns).request_ended(end_ns).requests == p.requests.push(
            profiler::empty_request().ended(profiler::elapsed_ms(start_ns, end_ns), false),
        ),
        profiler::empty_request().ended(profiler::elapsed_ms(start_ns, end_ns), false).cpu_ms
            == profiler::elapsed_ms(start_ns, end_ns),
{
}

/// Whatever the clock shows, the end of a request takes it out of flight and commits it behind the
/// others, as it was recorded but for its times: its wall time is what has passed since its start,
/// and its CPU time is the one that was set, or else its wall time.
pub proof fn law_end_commits(p: ProfilerView, now_ns: u128)
    requires
        p.wf(),
        p.current is Some,
    ensures
        ({
            let after = p.request_ended(now_ns);
            let req = p.current->0;
            let wall_ms = profiler::elapsed_ms(p.request_start->0, now_ns);
            let cpu_ms = if p.cpu_set {
                req.cpu_ms
            } else {
                wall_ms
            };
            &&& after.current is None
            &&& after.request_start is None
            &&& after.requests == p.requests.push(RequestView { wall_ms, cpu_ms, ..req })
            &&& after.init == p.init
            &&& after.budget == p.budget
        }),
{
}

/// Whether no request starts or ends among the events.
pub open spec fn within_request(events: Seq<Event>) -> bool {
    forall|i: int|
        0 <= i < events.len() ==> !(#[trigger] events[i] is RequestStart || events[i] is RequestEnd)
}

/// Whether no CPU time is set among the events.
pub open spec fn sets_no_cpu_time(events: Seq<Event>) -> bool {
    forall|i: int| 0 <= i < events.len() ==> !(#[trigger] events[i] is CpuTime)
}

/// A request in flight stays in flight until it ends, and its CPU time stays until another one is
/// set.
proof fn lemma_stays_in_flight(p: ProfilerView, events: Seq<Event>)
    requires
        p.current is Some,
        within_request(events),
    ensures
        history(p, events).current is Some,
        history(p, events).request_start == p.request_start,
        history(p, events).requests == p.requests,
        sets_no_cpu_time(events) ==> {
            &&& history(p, events).cpu_set == p.cpu_set
            &&& history(p, events).current->0.cpu_ms == p.current->0.cpu_ms
        },
    decreases events.len(),
{
    if events.len() > 0 {
        let fewer = events.drop_last();
        assert forall|i: int| 0 <= i < fewer.len() implies #[trigger] fewer[i] == events[i] by {
        }
        lemma_stays_in_flight(p, fewer);
        assert(events[events.len() - 1] == events.last());
    }
}

/// The CPU time that was set last before a request ends is committed, whatever it is, whatever is
/// recorded before the end, and whatever the clock shows.
pub proof fn law_set_cpu_time_is_committed(
    p: ProfilerView,
    ms: u64,
    events: Seq<Event>,
    now_ns: u128,
)
    requires
        p.current is Some,
        p.request_start is Some,
        within_request(events),
        sets_no_cpu_time(events),
    ensures
        p.with_cpu(ms).request_ended(now_ns).requests.last().cpu_ms == ms,
        history(p.with_cpu(ms), events).request_ended(now_ns).requests.last().cpu_ms == ms,
{
    lemma_stays_in_flight(p.with_cpu(ms), events);
}

/// A request for which no CPU time was set is committed with its wall time as its CPU time.
pub proof fn law_cpu_time_defaults_to_wall_time(
    p: ProfilerView,
    start_ns: u128,
    events: Seq<Event>,
    now_ns: u128,
)
    requires
        within_request(events),
        sets_no_cpu_time(events),
    ensures
        ({
            let req = history(p.request_started(start_ns), events).request_ended(
                now_ns,
            ).requests.last();
            &&& req.wall_ms == profiler::elapsed_ms(start_ns, now_ns)
            &&& req.cpu_ms == req.wall_ms
        }),
{
    lemma_stays_in_flight(p.request_started(start_ns), events);
}

/// Something of which events have an amount.
pub enum Amount {
    Fetches,
    Reads,
    Writes,
    BytesRead,
    BytesWritten,
}

/// How much an event adds.
pub open spec fn amount(event: Event, of: Amount) -> nat {
    match (event, of) {
        (Event::FetchCall { .. }, Amount::Fetches) => 1,
        (Event::KvRead { .. }, Amount::Reads) => 1,
        (Event::KvReadKey { .. }, Amount::Reads) => 1,
        (Event::KvReadChecked { .. }, Amount::Reads) => 1,
        (Event::KvWrite { .. }, Amount::Writes) => 1,
        (Event::KvRead { bytes }, Amount::BytesRead) => bytes as nat,
        (Event::KvReadKey { bytes, .. }, Amount::BytesRead) => bytes as nat,
        (Event::KvReadChecked { bytes, .. }, Amount::BytesRead) => bytes as nat,
        (Event::KvWrite { bytes }, Amount::BytesWritten) => bytes as nat,
        _ => 0,
    }
}

/// How much the events add up to.
pub open spec fn amounts(events: Seq<Event>, of: Amount) -> nat
    decreases events.len(),
{
    if events.len() == 0 {
        0
    } else {
        amounts(events.drop_last(), of) + amount(events.last(), of)
    }
}

/// The keys that are read among the events, in order.
pub open spec fn keys_read(events: Seq<Event>) -> Seq<Seq<char>>
    decreases events.len(),
{
    if events.len() == 0 {
        Seq::empty()
    } else {
        match events.last() {
            Event::KvReadKey { key, .. } => keys_read(events.drop_last()).push(key),
            Event::KvReadChecked { key, .. } => keys_read(events.drop_last()).push(key),
            _ => keys_read(events.drop_last()),
        }
    }
}

/// The times of the fetch calls among the events, in order.
pub open spec fn times_fetched(events: Seq<Event>) -> Seq<u128>
    decreases events.len(),
{
    if events.len() == 0 {
        Seq::empty()
    } else {
        match events.last() {
            Event::FetchCall { now_ns } => times_fetched(events.drop_last()).push(now_ns),
            _ => times_fetched(events.drop_last()),
        }
    }
}

/// How many of the times come more than 5 ms after the one before them.
pub open spec fn gaps(times: Seq<u128>) -> nat
    decreases times.len(),
{
    if times.len() <= 1 {
        0
    } else {
        gaps(times.drop_last()) + if times.last() - times[times.len() - 2] > 5_000_000 {
            1nat
        } else {
            0nat
        }
    }
}

/// What a request in flight has counted since its start.
proof fn lemma_counted_in_flight(p: ProfilerView, start_ns: u128, events: Seq<Event>)
    requires
        p.wf(),
        within_request(events),
        history_recordable(p.request_started(start_ns), events),
    ensures
        ({
            let now = history(p.request_started(start_ns), events);
            let req = now.current->0;
            &&& now.wf()
            &&& now.current is Some
            &&& now.fetch_times == times_fetched(events)
            &&& req.fetch_calls == amounts(events, Amount::Fetches)
            &&& req.sequential_fetch_chains == gaps(times_fetched(events))
            &&& req.kv_reads == amounts(events, Amount::Reads)
            &&& req.kv_read_bytes == amounts(events, Amount::BytesRead)
            &&& req.kv_writes == amounts(events, Amount::Writes)
            &&& req.kv_write_bytes == amounts(events, Amount::BytesWritten)
            &&& req.kv_keys_accessed == keys_read(events)
        }),
    decreases events.len(),
{
    if events.len() > 0 {
        let fewer = events.drop_last();
        assert forall|i: int| 0 <= i < fewer.len() implies #[trigger] fewer[i] == events[i] by {
        }
        lemma_counted_in_flight(p, start_ns, fewer);
        assert(events[events.len() - 1] == events.last());
        let before = history(p.request_started(start_ns), fewer);
        law_recording_keeps_wf(before, events.last());
        match events.last() {
            Event::FetchCall { now_ns } => {
                assert(before.fetch_times.push(now_ns).drop_last() =~= before.fetch_times);
            },
            _ => {},
        }
    }
}

/// A request that starts and ends is committed behind the others, whatever the clock shows and
/// whatever was in flight before it. It tells what was recorded in between: how many fetch calls,
/// reads and writes there were, how many bytes they moved, which keys were read, and how many fetch
/// calls came more than 5 ms after the one before them.
pub proof fn law_committed_request_tells_what_was_recorded(
    p: ProfilerView,
    start_ns: u128,
    events: Seq<Event>,
    end_ns: u128,
)
    requires
        p.wf(),
        within_request(events),
        history_recordable(p.request_started(start_ns), events),
    ensures
        ({
            let after = history(p.request_started(start_ns), events).request_ended(end_ns);
            let req = after.requests.last();
            &&& after.requests == p.requests.push(req)
            &&& after.current is None
            &&& req.fetch_calls == amounts(events, Amount::Fetches)
            &&& req.sequential_fetch_chains == gaps(times_fetched(events))
            &&& req.kv_reads == amounts(events, Amount::Reads)
            &&& req.kv_read_bytes == amounts(events, Amount::BytesRead)
            &&& req.kv_writes == amounts(events, Amount::Writes)
            &&& req.kv_write_bytes == amounts(events, Amount::BytesWritten)
            &&& req.kv_keys_accessed == keys_read(events)
            &&& req.wall_ms == profiler::elapsed_ms(start_ns, end_ns)
        }),
{
    lemma_stays_in_flight(p.request_started(start_ns), events);
    lemma_counted_in_flight(p, start_ns, events);
    let after = history(p.request_started(start_ns), events).request_ended(end_ns);
    assert(after.requests =~= p.requests.push(after.requests.last()));
}

/// The order in which resources are loaded eagerly does not matter.
pub proof fn law_eager_loads_commute(p: ProfilerView, a: u64, b: u64)
    requires
        p.init.eager_loads + 2 <= u32::MAX,
        p.init.bytes_loaded + a + b <= u64::MAX,
    ensures
        p.eager_loaded(a).eager_loaded(b) == p.eager_loaded(b).eager_loaded(a),
        p.eager_loaded(a).eager_loaded(b).init.bytes_loaded == p.init.bytes_loaded + a + b,
{
}

/// After a checked read, a read of the same key is unchanged exactly if it sees the same hash.
/// Other keys are not affected.
pub proof fn law_checked_read_is_remembered(
    p: ProfilerView,
    key: Seq<char>,
    bytes: u64,
    hash: u64,
    other: Seq<char>,
    next_hash: u64,
)
    ensures
        p.kv_read_checked(key, bytes, hash).is_unchanged(key, next_hash) == (next_hash == hash),
        other != key ==> p.kv_read_checked(key, bytes, hash).is_unchanged(other, next_hash)
            == p.is_unchanged(other, next_hash),
{
}

/// Only a checked read of a key changes what is remembered of it, so unchanged values are told
/// across requests.
pub proof fn law_memory_lasts(p: ProfilerView, event: Event, key: Seq<char>, hash: u64)
    requires
        !(event matches Event::KvReadChecked { key: read, .. } && read == key),
    ensures
        recorded(p, event).is_unchanged(key, hash) == p.is_unchanged(key, hash),
{
}

/// Whether an event is a checked read of a key.
pub open spec fn is_checked_read(event: Event, key: Seq<char>) -> bool {
    event matches Event::KvReadChecked { key: read, .. } && read == key
}

/// A checked read is unchanged exactly if the key was read checked before, and the latest of these
/// reads saw the same hash. Nothing else that is recorded makes a difference.
pub proof fn law_unchanged_means_same_as_latest(
    limits: EdgeBudget,
    events: Seq<Event>,
    key: Seq<char>,
    hash: u64,
)
    ensures
        history(profiler::empty_profiler(limits), events).is_unchanged(key, hash) <==> exists|i: int|
            {
                &&& 0 <= i < events.len()
                &&& #[trigger] is_checked_read(events[i], key)
                &&& events[i]->KvReadChecked_hash == hash
                &&& forall|j: int|
                    i < j < events.len() ==> !#[trigger] is_checked_read(events[j], key)
            },
    decreases events.len(),
{
    if events.len() > 0 {
        let fewer = events.drop_last();
        let last = events.len() - 1;
        law_unchanged_means_same_as_latest(limits, fewer, key, hash);
        assert forall|i: int| 0 <= i < last implies #[trigger] is_checked_read(events[i], key)
            == is_checked_read(fewer[i], key) by {
        }
        assert forall|i: int| 0 <= i < last implies is_checked_read(events[i], key)
            == #[trigger] is_checked_read(fewer[i], key) by {
        }
        let before = history(profiler::empty_profiler(limits), fewer);
        if is_checked_read(events[last], key) {
            law_checked_read_is_remembered(
                before,
                key,
                events[last]->KvReadChecked_bytes,
                events[last]->KvReadChecked_hash,
                key,
                hash,
            );
        } else {
            law_memory_lasts(before, events[last], key, hash);
        }
    }
}

/// The first fetch call of a request starts no chain, and a later one does exactly if it comes more
/// than 5 ms after the one before it.
pub proof fn law_chains_follow_gaps(p: ProfilerView, start_ns: u128, first_ns: u128, next_ns: u128)
    ensures
        p.request_started(start_ns).fetched(first_ns).current->0.sequential_fetch_chains == 0,
        p.request_started(start_ns).fetched(first_ns).fetched(
            next_ns,
        ).current->0.sequential_fetch_chains == if next_ns - first_ns > 5_000_000 {
            1int
        } else {
            0int
        },
{
    let p1 = p.request_started(start_ns).fetched(first_ns);
    assert(p1.fetch_times =~= seq![first_ns]);
}

// ---- sums and averages --------------------------------------------------

/// Committing one more request adds its counter to the sum.
pub proof fn law_totals_add_up(requests: Seq<RequestView>, req: RequestView, counter: Counter)
    ensures
        profiler::total(requests.push(req), counter) == profiler::total(requests, counter)
            + req.count(counter),
{
    assert(requests.push(req).drop_last() =~= requests);
}

/// A sum is at most the number of requests times the greatest count.
pub proof fn law_totals_are_bounded(requests: Seq<RequestView>, counter: Counter, most: nat)
    requires
        forall|i: int| 0 <= i < requests.len() ==> (#[trigger] requests[i]).count(counter) <= most,
    ensures
        profiler::total(requests, counter) <= requests.len() * most,
    decreases requests.len(),
{
    if requests.len() > 0 {
        let fewer = requests.drop_last();
        assert forall|i: int| 0 <= i < fewer.len() implies (#[trigger] fewer[i]).count(counter)
            <= most by {
            assert(requests[i].count(counter) <= most);
        }
        law_totals_are_bounded(fewer, counter, most);
        assert(requests[requests.len() - 1].count(counter) <= most);
        assert(requests.len() * most == fewer.len() * most + most) by (nonlinear_arith)
            requires
                requests.len() == fewer.len() + 1,
        ;
    }
}

/// The exact sum of counters.
pub open spec fn exact_sum(xs: Seq<u64>) -> nat
    decreases xs.len(),
{
    if xs.len() == 0 {
        0
    } else {
        exact_sum(xs.drop_last()) + xs.last() as nat
    }
}

/// Where counters add up to less than `2^53`, their average is rounded only once: it is the
/// binary64 number nearest to the exact average.
pub proof fn law_averages_are_nearest(xs: Seq<u64>)
    requires
        0 < xs.len() < 0x20_0000_0000_0000,
        exact_sum(xs) < 0x20_0000_0000_0000,
    ensures
        binary64::mean(xs) == binary64::round(exact_sum(xs), xs.len(), 0),
{
    lemma_exact_sum(xs);
    binary64::lemma_as_double_exact(xs.len());
}

proof fn lemma_exact_sum(xs: Seq<u64>)
    requires
        exact_sum(xs) < 0x20_0000_0000_0000,
    ensures
        binary64::double_sum(xs) == exact_sum(xs),
    decreases xs.len(),
{
    if xs.len() > 0 {
        lemma_exact_sum(xs.drop_last());
        binary64::lemma_as_double_exact(xs.last() as nat);
        binary64::lemma_as_double_exact(exact_sum(xs));
    }
}

// ---- detection ----------------------------------------------------------

/// Whether a waste of the given kind is among the wastes.
pub open spec fn flags(wastes: Seq<WasteView>, kind: WasteKind) -> bool {
    exists|i: int| 0 <= i < wastes.len() && (#[trigger] wastes[i]).kind == kind
}

/// Whether all wastes are of the given kind.
pub open spec fn only(wastes: Seq<WasteView>, kind: WasteKind) -> bool {
    forall|i: int| 0 <= i < wastes.len() ==> (#[trigger] wastes[i]).kind == kind
}

/// Joined wastes flag what either part flags.
proof fn lemma_flags_joined(a: Seq<WasteView>, b: Seq<WasteView>, kind: WasteKind)
    ensures
        flags(a + b, kind) == (flags(a, kind) || flags(b, kind)),
{
    if flags(a, kind) {
        let i = choose|i: int| 0 <= i < a.len() && (#[trigger] a[i]).kind == kind;
        assert((a + b)[i].kind == kind);
    }
    if flags(b, kind) {
        let i = choose|i: int| 0 <= i < b.len() && (#[trigger] b[i]).kind == kind;
        assert((a + b)[a.len() + i].kind == kind);
    }
    if flags(a + b, kind) {
        let i = choose|i: int| 0 <= i < (a + b).len() && (#[trigger] (a + b)[i]).kind == kind;
        if i < a.len() {
            assert(a[i].kind == kind);
        } else {
            assert(b[i - a.len()].kind == kind);
        }
    }
}

/// Wastes of one kind flag that kind where there are any, and no other.
proof fn lemma_flags_only(wastes: Seq<WasteView>, own: WasteKind, kind: WasteKind)
    requires
        only(wastes, own),
    ensures
        flags(wastes, kind) == (kind == own && wastes.len() > 0),
{
    if wastes.len() > 0 {
        assert(wastes[0].kind == own);
    }
}

/// The heuristics that go request by request flag their kind where some request is flagged.
proof fn lemma_request_wastes(
    requests: Seq<RequestView>,
    limits: EdgeBudget,
    threshold: Binary64,
)
    ensures
        only(detector::sparse_wastes(requests, threshold), WasteKind::SparseKvAccess),
        detector::sparse_wastes(requests, threshold).len() > 0 <==> exists|i: int|
            0 <= i < requests.len() && detector::is_sparse(#[trigger] requests[i], threshold),
        only(
            detector::cpu_wastes(requests, limits.max_cpu_time_per_request_ms),
            WasteKind::CpuTimeOverBudget,
        ),
        detector::cpu_wastes(requests, limits.max_cpu_time_per_request_ms).len() > 0
            <==> exists|i: int|
            0 <= i < requests.len() && (#[trigger] requests[i]).cpu_ms
                > limits.max_cpu_time_per_request_ms,
        only(detector::memory_wastes(requests, limits.max_memory_mb), WasteKind::MemoryOverBudget),
        detector::memory_wastes(requests, limits.max_memory_mb).len() > 0 <==> exists|i: int|
            0 <= i < requests.len() && (#[trigger] requests[i]).peak_memory_mb
                > limits.max_memory_mb,
        only(
            detector::subrequest_wastes(requests, limits.max_subrequests),
            WasteKind::SubrequestOverBudget,
        ),
        detector::subrequest_wastes(requests, limits.max_subrequests).len() > 0 <==> exists|i: int|
            0 <= i < requests.len() && (#[trigger] requests[i]).fetch_calls
                > limits.max_subrequests,
    decreases requests.len(),
{
    if requests.len() > 0 {
        let fewer = requests.drop_last();
        lemma_request_wastes(fewer, limits, threshold);
        assert(requests[requests.len() - 1] == requests.last());
        assert forall|i: int| 0 <= i < fewer.len() implies #[trigger] fewer[i] == requests[i] by {
        }
        assert forall|i: int| 0 <= i < requests.len() - 1 implies #[trigger] requests[i]
            == fewer[i] by {
        }
    }
}

/// How many wastes of the given kind its heuristics find.
spec fn found(d: DetectorView, kind: WasteKind) -> nat {
    let init = d.profiler.init;
    let requests = d.profiler.requests;
    match kind {
        WasteKind::ColdStartOverBudget => detector::cold_start_wastes(init, d.budget).len(),
        WasteKind::EagerInit => detector::eager_init_wastes(
            init,
            requests,
            d.sparse_threshold,
        ).len(),
        WasteKind::OversizedBundle => detector::bundle_wastes(init, d.oversized_bundle_bytes).len(),
        WasteKind::SequentialFetches => detector::fetch_wastes(requests).len(),
        WasteKind::UnchangedKvReads => detector::unchanged_wastes(requests).len(),
        WasteKind::SparseKvAccess => detector::sparse_wastes(requests, d.sparse_threshold).len(),
        WasteKind::CpuTimeOverBudget => detector::cpu_wastes(
            requests,
            d.budget.max_cpu_time_per_request_ms,
        ).len(),
        WasteKind::MemoryOverBudget => detector::init_memory_wastes(
            init,
            d.budget.max_memory_mb,
        ).len() + detector::memory_wastes(requests, d.budget.max_memory_mb).len(),
        WasteKind::SubrequestOverBudget => detector::subrequest_wastes(
            requests,
            d.budget.max_subrequests,
        ).len(),
    }
}

proof fn lemma_flagged_by_heuristic(d: DetectorView, kind: WasteKind)
    ensures
        flags(d.wastes(), kind) == (found(d, kind) > 0),
{
    let init = d.profiler.init;
    let requests = d.profiler.requests;
    let s0 = detector::cold_start_wastes(init, d.budget);
    let s1 = detector::eager_init_wastes(init, requests, d.sparse_threshold);
    let s2 = detector::bundle_wastes(init, d.oversized_bundle_bytes);
    let s3 = detector::fetch_wastes(requests);
    let s4 = detector::unchanged_wastes(requests);
    let s5 = detector::sparse_wastes(requests, d.sparse_threshold);
    let s6 = detector::cpu_wastes(requests, d.budget.max_cpu_time_per_request_ms);
    let s7 = detector::init_memory_wastes(init, d.budget.max_memory_mb);
    let s8 = detector::memory_wastes(requests, d.budget.max_memory_mb);
    let s9 = detector::subrequest_wastes(requests, d.budget.max_subrequests);
    lemma_request_wastes(requests, d.budget, d.sparse_threshold);
    lemma_flags_only(s0, WasteKind::ColdStartOverBudget, kind);
    lemma_flags_only(s1, WasteKind::EagerInit, kind);
    lemma_flags_only(s2, WasteKind::OversizedBundle, kind);
    lemma_flags_only(s3, WasteKind::SequentialFetches, kind);
    lemma_flags_only(s4, WasteKind::UnchangedKvReads, kind);
    lemma_flags_only(s5, WasteKind::SparseKvAccess, kind);
    lemma_flags_only(s6, WasteKind::CpuTimeOverBudget, kind);
    lemma_flags_only(s7, WasteKind::MemoryOverBudget, kind);
    lemma_flags_only(s8, WasteKind::MemoryOverBudget, kind);
    lemma_flags_only(s9, WasteKind::SubrequestOverBudget, kind);
    lemma_flags_joined(s0, s1, kind);
    lemma_flags_joined(s0 + s1, s2, kind);
    lemma_flags_joined(s0 + s1 + s2, s3, kind);
    lemma_flags_joined(s0 + s1 + s2 + s3, s4, kind);
    lemma_flags_joined(s0 + s1 + s2 + s3 + s4, s5, kind);
    lemma_flags_joined(s0 + s1 + s2 + s3 + s4 + s5, s6, kind);
    lemma_flags_joined(s0 + s1 + s2 + s3 + s4 + s5 + s6, s7, kind);
    lemma_flags_joined(s0 + s1 + s2 + s3 + s4 + s5 + s6 + s7, s8, kind);
    lemma_flags_joined(s0 + s1 + s2 + s3 + s4 + s5 + s6 + s7 + s8, s9, kind);
}

/// Each kind of waste is flagged exactly where its heuristic says so: what goes beyond a limit of
/// the budget, resources that are hardly used, bundles above the threshold, chained fetch calls,
/// and KV reads that are unchanged or sparse.
pub proof fn law_what_is_flagged(d: DetectorView)
    ensures
        flags(d.wastes(), WasteKind::ColdStartOverBudget) <==> d.profiler.init.wall_ms
            > d.budget.max_cold_start_ms,
        flags(d.wastes(), WasteKind::EagerInit) <==> detector::is_eager(
            detector::keys_used(d.profiler.requests).len(),
            d.profiler.init.eager_loads,
            d.sparse_threshold,
        ),
        flags(d.wastes(), WasteKind::OversizedBundle) <==> d.profiler.init.bytes_loaded
            > d.oversized_bundle_bytes,
        flags(d.wastes(), WasteKind::SequentialFetches) <==> profiler::total(
            d.profiler.requests,
            Counter::SequentialChains,
        ) > 0 && profiler::total(d.profiler.requests, Counter::FetchCalls) > 1,
        flags(d.wastes(), WasteKind::UnchangedKvReads) <==> detector::is_unchanged_heavy(
            profiler::total(d.profiler.requests, Counter::UnchangedReads),
            profiler::total(d.profiler.requests, Counter::KvReads),
        ),
        flags(d.wastes(), WasteKind::SparseKvAccess) <==> exists|i: int|
            0 <= i < d.profiler.requests.len() && detector::is_sparse(
                #[trigger] d.profiler.requests[i],
                d.sparse_threshold,
            ),
        flags(d.wastes(), WasteKind::CpuTimeOverBudget) <==> exists|i: int|
            0 <= i < d.profiler.requests.len() && (#[trigger] d.profiler.requests[i]).cpu_ms
                > d.budget.max_cpu_time_per_request_ms,
        flags(d.wastes(), WasteKind::MemoryOverBudget) <==> (d.profiler.init.peak_memory_mb
            > d.budget.max_memory_mb || exists|i: int|
            0 <= i < d.profiler.requests.len() && (#[trigger] d.profiler.requests[i]).peak_memory_mb
                > d.budget.max_memory_mb),
        flags(d.wastes(), WasteKind::SubrequestOverBudget) <==> exists|i: int|
            0 <= i < d.profiler.requests.len() && (#[trigger] d.profiler.requests[i]).fetch_calls
                > d.budget.max_subrequests,
{
    lemma_request_wastes(d.profiler.requests, d.budget, d.sparse_threshold);
    lemma_flagged_by_heuristic(d, WasteKind::ColdStartOverBudget);
    lemma_flagged_by_heuristic(d, WasteKind::EagerInit);
    lemma_flagged_by_heuristic(d, WasteKind::OversizedBundle);
    lemma_flagged_by_heuristic(d, WasteKind::SequentialFetches);
    lemma_flagged_by_heuristic(d, WasteKind::UnchangedKvReads);
    lemma_flagged_by_heuristic(d, WasteKind::SparseKvAccess);
    lemma_flagged_by_heuristic(d, WasteKind::CpuTimeOverBudget);
    lemma_flagged_by_heuristic(d, WasteKind::MemoryOverBudget);
    lemma_flagged_by_heuristic(d, WasteKind::SubrequestOverBudget);
}

/// The detector and the budget checks agree: a cold start is flagged exactly if it fails its check,
/// and CPU times are flagged exactly if one of them is graded as exceeded.
pub proof fn law_flags_agree_with_grades(d: DetectorView)
    ensures
        flags(d.wastes(), WasteKind::ColdStartOverBudget) <==> !(d.profiler.init.wall_ms
            <= d.budget.max_cold_start_ms),
        flags(d.wastes(), WasteKind::CpuTimeOverBudget) <==> exists|i: int|
            0 <= i < d.profiler.requests.len() && budget::cpu_grade(
                (#[trigger] d.profiler.requests[i]).cpu_ms,
                d.budget.max_cpu_time_per_request_ms,
            ) is Exceeded,
{
    law_what_is_flagged(d);
    let requests = d.profiler.requests;
    let limit = d.budget.max_cpu_time_per_request_ms;
    if exists|i: int| 0 <= i < requests.len() && (#[trigger] requests[i]).cpu_ms > limit {
        let i = choose|i: int| 0 <= i < requests.len() && (#[trigger] requests[i]).cpu_ms > limit;
        assert(budget::cpu_grade(requests[i].cpu_ms, limit) is Exceeded);
    }
}

/// Whether everything is within the limits of the budget and of the thresholds.
pub open spec fn is_clean(d: DetectorView) -> bool {
    let init = d.profiler.init;
    let requests = d.profiler.requests;
    &&& init.wall_ms <= d.budget.max_cold_start_ms
    &&& init.peak_memory_mb <= d.budget.max_memory_mb
    &&& init.bytes_loaded <= d.oversized_bundle_bytes
    &&& !detector::is_eager(
        detector::keys_used(requests).len(),
        init.eager_loads,
        d.sparse_threshold,
    )
    &&& profiler::total(requests, Counter::SequentialChains) == 0 || profiler::total(
        requests,
        Counter::FetchCalls,
    ) <= 1
    &&& !detector::is_unchanged_heavy(
        profiler::total(requests, Counter::UnchangedReads),
        profiler::total(requests, Counter::KvReads),
    )
    &&& forall|i: int|
        0 <= i < requests.len() ==> {
            &&& !detector::is_sparse(#[trigger] requests[i], d.sparse_threshold)
            &&& requests[i].cpu_ms <= d.budget.max_cpu_time_per_request_ms
            &&& requests[i].peak_memory_mb <= d.budget.max_memory_mb
            &&& requests[i].fetch_calls <= d.budget.max_subrequests
        }
}

/// There is no waste exactly where everything is within its limits.
pub proof fn law_clean_run(d: DetectorView)
    ensures
        d.wastes().len() == 0 <==> is_clean(d),
{
    law_what_is_flagged(d);
    if d.wastes().len() > 0 {
        let kind = d.wastes()[0].kind;
        assert(flags(d.wastes(), kind));
        assert(!is_clean(d));
    } else {
        assert forall|i: int| 0 <= i < d.profiler.requests.len() implies {
            &&& !detector::is_sparse(#[trigger] d.profiler.requests[i], d.sparse_threshold)
            &&& d.profiler.requests[i].cpu_ms <= d.budget.max_cpu_time_per_request_ms
            &&& d.profiler.requests[i].peak_memory_mb <= d.budget.max_memory_mb
            &&& d.profiler.requests[i].fetch_calls <= d.budget.max_subrequests
        } by {
            assert(!flags(d.wastes(), WasteKind::SparseKvAccess));
            assert(!flags(d.wastes(), WasteKind::CpuTimeOverBudget));
            assert(!flags(d.wastes(), WasteKind::MemoryOverBudget));
            assert(!flags(d.wastes(), WasteKind::SubrequestOverBudget));
        }
    }
}

/// A profiler on which nothing was recorded has no waste.
pub proof fn law_nothing_recorded_no_waste(limits: EdgeBudget, d: DetectorView)
    requires
        d.profiler == profiler::empty_profiler(limits),
    ensures
        d.wastes().len() == 0,
{
    let none = Set::<Seq<char>>::empty();
    assert(detector::keys_used(d.profiler.requests) =~= none);
}

/// On recorded requests, one chained fetch call is enough: it follows another fetch call.
pub proof fn law_a_chain_is_flagged(d: DetectorView)
    requires
        d.profiler.wf(),
    ensures
        flags(d.wastes(), WasteKind::SequentialFetches) <==> exists|i: int|
            0 <= i < d.profiler.requests.len()
                && (#[trigger] d.profiler.requests[i]).sequential_fetch_chains > 0,
{
    law_what_is_flagged(d);
    lemma_chains_and_fetches(d.profiler.requests);
}

proof fn lemma_chains_and_fetches(requests: Seq<RequestView>)
    requires
        forall|i: int| 0 <= i < requests.len() ==> (#[trigger] requests[i]).wf(),
    ensures
        profiler::total(requests, Counter::SequentialChains) > 0 <==> exists|i: int|
            0 <= i < requests.len() && (#[trigger] requests[i]).sequential_fetch_chains > 0,
        profiler::total(requests, Counter::SequentialChains) > 0 ==> profiler::total(
            requests,
            Counter::FetchCalls,
        ) > 1,
    decreases requests.len(),
{
    if requests.len() > 0 {
        let fewer = requests.drop_last();
        assert forall|i: int| 0 <= i < fewer.len() implies (#[trigger] fewer[i]).wf() by {
            assert(requests[i].wf());
        }
        lemma_chains_and_fetches(fewer);
        assert(requests[requests.len() - 1].wf());
        assert forall|i: int| 0 <= i < requests.len() - 1 implies #[trigger] requests[i]
            == fewer[i] by {
        }
        assert forall|i: int| 0 <= i < fewer.len() implies #[trigger] fewer[i] == requests[i] by {
        }
    }
}

/// Only the init phase and the completed requests count: a request in flight, the clock and the
/// budget of the profiler itself make no difference to wastes and reports.
pub proof fn law_only_completed_requests_count(
    d: DetectorView,
    other: ProfilerView,
    wastes: Seq<WasteView>,
)
    requires
        other.init == d.profiler.init,
        other.requests == d.profiler.requests,
    ensures
        (DetectorView { profiler: other, ..d }).wastes() == d.wastes(),
        report::report_lines(other, d.budget, wastes) == report::report_lines(
            d.profiler,
            d.budget,
            wastes,
        ),
{
}

/// Each request that is over a limit has a waste that names it by its number, and each request that
/// accesses its keys sparsely has a waste that tells its key counts.
pub proof fn law_every_offender_is_named(d: DetectorView, i: int)
    requires
        0 <= i < d.profiler.requests.len(),
    ensures
        ({
            let req = d.profiler.requests[i];
            let number = (i + 1) as nat;
            let limits = d.budget;
            &&& detector::is_sparse(req, d.sparse_threshold) ==> d.wastes().contains(
                detector::sparse_waste(req),
            )
            &&& req.cpu_ms > limits.max_cpu_time_per_request_ms ==> d.wastes().contains(
                detector::cpu_waste(number, req.cpu_ms, limits.max_cpu_time_per_request_ms),
            )
            &&& req.peak_memory_mb > limits.max_memory_mb ==> d.wastes().contains(
                detector::memory_waste(number, req.peak_memory_mb, limits.max_memory_mb),
            )
            &&& req.fetch_calls > limits.max_subrequests ==> d.wastes().contains(
                detector::subrequest_waste(number, req.fetch_calls, limits.max_subrequests),
            )
        }),
{
    let requests = d.profiler.requests;
    let req = requests[i];
    let number = (i + 1) as nat;
    let init = d.profiler.init;
    let before = detector::cold_start_wastes(init, d.budget) + detector::eager_init_wastes(
        init,
        requests,
        d.sparse_threshold,
    ) + detector::bundle_wastes(init, d.oversized_bundle_bytes) + detector::fetch_wastes(requests)
        + detector::unchanged_wastes(requests);
    let sparse = detector::sparse_wastes(requests, d.sparse_threshold);
    let cpu = detector::cpu_wastes(requests, d.budget.max_cpu_time_per_request_ms);
    let memory = detector::memory_wastes(requests, d.budget.max_memory_mb);
    let calls = detector::subrequest_wastes(requests, d.budget.max_subrequests);
    let own = detector::init_memory_wastes(init, d.budget.max_memory_mb);
    lemma_offender_listed(requests, d.budget, d.sparse_threshold, i);
    lemma_contains_joined(before, sparse, detector::sparse_waste(req));
    lemma_contains_joined(before + sparse, cpu, detector::sparse_waste(req));
    lemma_contains_joined(before + sparse + cpu, own, detector::sparse_waste(req));
    lemma_contains_joined(before + sparse + cpu + own, memory, detector::sparse_waste(req));
    lemma_contains_joined(before + sparse + cpu + own + memory, calls, detector::sparse_waste(req));
    let w = detector::cpu_waste(number, req.cpu_ms, d.budget.max_cpu_time_per_request_ms);
    lemma_contains_joined(before + sparse, cpu, w);
    lemma_contains_joined(before + sparse + cpu, own, w);
    lemma_contains_joined(before + sparse + cpu + own, memory, w);
    lemma_contains_joined(before + sparse + cpu + own + memory, calls, w);
    let w = detector::memory_waste(number, req.peak_memory_mb, d.budget.max_memory_mb);
    lemma_contains_joined(before + sparse + cpu + own, memory, w);
    lemma_contains_joined(before + sparse + cpu + own + memory, calls, w);
    let w = detector::subrequest_waste(number, req.fetch_calls, d.budget.max_subrequests);
    lemma_contains_joined(before + sparse + cpu + own + memory, calls, w);
}

proof fn lemma_contains_joined(a: Seq<WasteView>, b: Seq<WasteView>, w: WasteView)
    ensures
        a.contains(w) || b.contains(w) ==> (a + b).contains(w),
{
    if a.contains(w) {
        let i = choose|i: int| 0 <= i < a.len() && a[i] == w;
        assert((a + b)[i] == w);
    } else if b.contains(w) {
        let i = choose|i: int| 0 <= i < b.len() && b[i] == w;
        assert((a + b)[a.len() + i] == w);
    }
}

/// What `push` adds is there, and what was there stays.
proof fn lemma_contains_pushed(a: Seq<WasteView>, added: WasteView, w: WasteView)
    ensures
        a.contains(w) || w == added ==> a.push(added).contains(w),
{
    if w == added {
        assert(a.push(added)[a.len() as int] == w);
    } else if a.contains(w) {
        let i = choose|i: int| 0 <= i < a.len() && a[i] == w;
        assert(a.push(added)[i] == w);
    }
}

proof fn lemma_offender_listed(
    requests: Seq<RequestView>,
    limits: EdgeBudget,
    threshold: Binary64,
    i: int,
)
    requires
        0 <= i < requests.len(),
    ensures
        ({
            let req = requests[i];
            let number = (i + 1) as nat;
            let cpu = limits.max_cpu_time_per_request_ms;
            &&& detector::is_sparse(req, threshold) ==> detector::sparse_wastes(
                requests,
                threshold,
            ).contains(detector::sparse_waste(req))
            &&& req.cpu_ms > cpu ==> detector::cpu_wastes(requests, cpu).contains(
                detector::cpu_waste(number, req.cpu_ms, cpu),
            )
            &&& req.peak_memory_mb > limits.max_memory_mb ==> detector::memory_wastes(
                requests,
                limits.max_memory_mb,
            ).contains(
                detector::memory_waste(number, req.peak_memory_mb, limits.max_memory_mb),
            )
            &&& req.fetch_calls > limits.max_subrequests ==> detector::subrequest_wastes(
                requests,
                limits.max_subrequests,
            ).contains(
                detector::subrequest_waste(number, req.fetch_calls, limits.max_subrequests),
            )
        }),
    decreases requests.len(),
{
    let fewer = requests.drop_last();
    let req = requests[i];
    let last = requests.last();
    let number = (i + 1) as nat;
    if i < fewer.len() {
        lemma_offender_listed(fewer, limits, threshold, i);
        assert(fewer[i] == req);
    }
    lemma_contains_pushed(
        detector::sparse_wastes(fewer, threshold),
        detector::sparse_waste(last),
        detector::sparse_waste(req),
    );
    lemma_contains_pushed(
        detector::cpu_wastes(fewer, limits.max_cpu_time_per_request_ms),
        detector::cpu_waste(requests.len(), last.cpu_ms, limits.max_cpu_time_per_request_ms),
        detector::cpu_waste(number, req.cpu_ms, limits.max_cpu_time_per_request_ms),
    );
    lemma_contains_pushed(
        detector::memory_wastes(fewer, limits.max_memory_mb),
        detector::memory_waste(requests.len(), last.peak_memory_mb, limits.max_memory_mb),
        detector::memory_waste(number, req.peak_memory_mb, limits.max_memory_mb),
    );
    lemma_contains_pushed(
        detector::subrequest_wastes(fewer, limits.max_subrequests),
        detector::subrequest_waste(requests.len(), last.fetch_calls, limits.max_subrequests),
        detector::subrequest_waste(number, req.fetch_calls, limits.max_subrequests),
    );
}

/// A higher bundle threshold never flags a bundle that a lower one does not, and a higher sparse
/// threshold flags all eager loads and all sparse access that a lower one flags.
pub proof fn law_thresholds_are_monotone(
    d: DetectorView,
    bytes: u64,
    more_bytes: u64,
    low: Binary64,
    high: Binary64,
)
    requires
        bytes <= more_bytes,
        binary64::less(low.bits, high.bits),
    ensures
        flags(
            (DetectorView { oversized_bundle_bytes: more_bytes, ..d }).wastes(),
            WasteKind::OversizedBundle,
        ) ==> flags(
            (DetectorView { oversized_bundle_bytes: bytes, ..d }).wastes(),
            WasteKind::OversizedBundle,
        ),
        flags((DetectorView { sparse_threshold: low, ..d }).wastes(), WasteKind::EagerInit)
            ==> flags(
            (DetectorView { sparse_threshold: high, ..d }).wastes(),
            WasteKind::EagerInit,
        ),
        flags((DetectorView { sparse_threshold: low, ..d }).wastes(), WasteKind::SparseKvAccess)
            ==> flags(
            (DetectorView { sparse_threshold: high, ..d }).wastes(),
            WasteKind::SparseKvAccess,
        ),
{
    law_what_is_flagged(DetectorView { oversized_bundle_bytes: more_bytes, ..d });
    law_what_is_flagged(DetectorView { oversized_bundle_bytes: bytes, ..d });
    law_what_is_flagged(DetectorView { sparse_threshold: low, ..d });
    law_what_is_flagged(DetectorView { sparse_threshold: high, ..d });
    let requests = d.profiler.requests;
    if exists|i: int| 0 <= i < requests.len() && detector::is_sparse(#[trigger] requests[i], low) {
        let i = choose|i: int|
            0 <= i < requests.len() && detector::is_sparse(#[trigger] requests[i], low);
        assert(detector::is_sparse(requests[i], high));
    }
}

/// Whether a budget allows all that another one allows.
pub open spec fn allows_more(loose: EdgeBudget, tight: EdgeBudget) -> bool {
    &&& tight.max_cold_start_ms <= loose.max_cold_start_ms
    &&& tight.max_memory_mb <= loose.max_memory_mb
    &&& tight.max_cpu_time_per_request_ms <= loose.max_cpu_time_per_request_ms
    &&& tight.max_subrequests <= loose.max_subrequests
}

/// A budget that allows more flags no kind of waste that a tighter one does not.
pub proof fn law_looser_budgets_flag_no_more(
    d: DetectorView,
    loose: EdgeBudget,
    tight: EdgeBudget,
    kind: WasteKind,
)
    requires
        allows_more(loose, tight),
    ensures
        flags((DetectorView { budget: loose, ..d }).wastes(), kind) ==> flags(
            (DetectorView { budget: tight, ..d }).wastes(),
            kind,
        ),
{
    law_what_is_flagged(DetectorView { budget: loose, ..d });
    law_what_is_flagged(DetectorView { budget: tight, ..d });
    let requests = d.profiler.requests;
    if exists|i: int|
        0 <= i < requests.len() && (#[trigger] requests[i]).cpu_ms
            > loose.max_cpu_time_per_request_ms {
        let i = choose|i: int|
            0 <= i < requests.len() && (#[trigger] requests[i]).cpu_ms
                > loose.max_cpu_time_per_request_ms;
        assert(requests[i].cpu_ms > tight.max_cpu_time_per_request_ms);
    }
    if exists|i: int|
        0 <= i < requests.len() && (#[trigger] requests[i]).peak_memory_mb > loose.max_memory_mb {
        let i = choose|i: int|
            0 <= i < requests.len() && (#[trigger] requests[i]).peak_memory_mb
                > loose.max_memory_mb;
        assert(requests[i].peak_memory_mb > tight.max_memory_mb);
    }
    if exists|i: int|
        0 <= i < requests.len() && (#[trigger] requests[i]).fetch_calls > loose.max_subrequests {
        let i = choose|i: int|
            0 <= i < requests.len() && (#[trigger] requests[i]).fetch_calls
                > loose.max_subrequests;
        assert(requests[i].fetch_calls > tight.max_subrequests);
    }
}

/// The default threshold is one tenth: a share is below it exactly if the whole is more than ten
/// times the part.
proof fn lemma_below_one_tenth(part: nat, whole: nat)
    requires
        0 < part <= whole <= u32::MAX,
    ensures
        detector::share_below(part, whole, Binary64 { bits: DEFAULT_SPARSE_THRESHOLD_BITS })
            <==> 10 * part < whole,
{
    lemma2_to64_rest();
    binary64::lemma_round_scaled(1, 10, 0, 56);
    assert(binary64::nearest_even(0x100_0000_0000_0000, 10) == 0x19_9999_9999_999A);
    binary64::law_less_compares_fractions(part, whole, 1, 10);
}

/// The default sparse threshold is one tenth. Eager loads are flagged if keys were accessed, but
/// fewer than one for every ten loads. A request is flagged if it loaded more than 20 keys and
/// accessed some of them, but fewer than one in ten.
pub proof fn law_default_threshold_is_one_tenth(used: nat, eager_loads: u32, req: RequestView)
    ensures
        detector::is_eager(
            used,
            eager_loads,
            Binary64 { bits: DEFAULT_SPARSE_THRESHOLD_BITS },
        ) <==> 0 < used && 10 * used < eager_loads,
        detector::is_sparse(req, Binary64 { bits: DEFAULT_SPARSE_THRESHOLD_BITS }) <==> {
            &&& req.kv_keys_total > 20
            &&& req.kv_keys_accessed.len() > 0
            &&& 10 * req.kv_keys_accessed.len() < req.kv_keys_total
        },
{
    if 0 < used < eager_loads {
        lemma_below_one_tenth(used, eager_loads as nat);
    }
    if 0 < req.kv_keys_accessed.len() < req.kv_keys_total {
        lemma_below_one_tenth(req.kv_keys_accessed.len(), req.kv_keys_total as nat);
    }
}

/// A threshold that is a simple fraction up to one is met exactly: rounding a share of counters does
/// not move it across the threshold.
pub proof fn law_simple_thresholds_are_exact(part: nat, whole: nat, c: nat, d: nat)
    requires
        0 < part <= whole <= u32::MAX,
        0 < c <= d <= 1000,
    ensures
        detector::share_below(
            part,
            whole,
            Binary64 { bits: binary64::pattern(binary64::quotient(c, d)) as u64 },
        ) <==> part * d < c * whole,
{
    binary64::law_less_compares_fractions(part, whole, c, d);
    binary64::lemma_as_double_exact(c);
    binary64::lemma_as_double_exact(d);
}

/// Comparing the exact share of unchanged reads with 30% comes to the same as comparing the rounded
/// one with the binary64 number of this percentage.
pub proof fn law_unchanged_share_may_be_rounded(part: nat, whole: nat)
    requires
        0 < part <= whole <= u32::MAX,
    ensures
        100 * part > 30 * whole <==> binary64::less(
            0x3FD3_3333_3333_3333,
            binary64::pattern(binary64::quotient(part, whole)) as u64,
        ),
{
    lemma2_to64_rest();
    binary64::lemma_round_scaled(3, 10, 0, 54);
    assert(binary64::nearest_even(3 * 0x40_0000_0000_0000, 10) == 0x13_3333_3333_3333);
    binary64::law_less_compares_fractions(part, whole, 3, 10);
}

// ---- reports ------------------------------------------------------------

/// Whether no line starts with the given character.
spec fn none_starts(lines: Seq<Seq<char>>, c: char) -> bool {
    forall|i: int| 0 <= i < lines.len() ==> (#[trigger] lines[i]).len() == 0 || lines[i][0] != c
}

proof fn lemma_none_starts_joined(a: Seq<Seq<char>>, b: Seq<Seq<char>>, c: char)
    requires
        none_starts(a, c),
        none_starts(b, c),
    ensures
        none_starts(a + b, c),
{
    assert forall|i: int| 0 <= i < (a + b).len() implies (#[trigger] (a + b)[i]).len() == 0 || (a
        + b)[i][0] != c by {
        if i < a.len() {
            assert((a + b)[i] == a[i]);
        } else {
            assert((a + b)[i] == b[i - a.len()]);
        }
    }
}

/// A numeral starts with a digit.
proof fn lemma_decimal_starts(n: nat)
    ensures
        text::decimal(n).len() > 0,
        48 <= text::decimal(n)[0] as int <= 57,
    decreases n,
{
    if n >= 10 {
        lemma_decimal_starts(n / 10);
        assert(text::decimal(n)[0] == text::decimal(n / 10)[0]);
    }
}

/// No line above the wastes starts like a verdict or like the savings heading.
proof fn lemma_upper_lines(p: ProfilerView, limits: EdgeBudget, c: char)
    requires
        c == '✅' || c == '─',
    ensures
        none_starts(report::heading_lines(), c),
        none_starts(report::cold_start_lines(p.init, limits), c),
        none_starts(report::request_lines(p.requests), c),
{
    reveal_strlit("═══ Edge Conservation Report ═══");
    reveal_strlit("Cold-start: ");
    reveal_strlit("  Global init loads ");
    reveal_strlit("Requests profiled: ");
    reveal_strlit("  Avg wall time:   ");
    reveal_strlit("  Avg fetch calls: ");
    reveal_strlit("  Total KV reads:  ");
    lemma_key_lines(p.requests, c);
    if p.requests.len() > 0 {
        let head = report::request_lines(p.requests).take(4);
        assert(none_starts(head, c));
        lemma_none_starts_joined(head, report::key_usage_lines(p.requests), c);
        assert(report::request_lines(p.requests) =~= head + report::key_usage_lines(p.requests));
    }
}

proof fn lemma_key_lines(requests: Seq<RequestView>, c: char)
    requires
        c == '✅' || c == '─',
    ensures
        none_starts(report::key_usage_lines(requests), c),
    decreases requests.len(),
{
    reveal_strlit("  KV access: ");
    if requests.len() > 0 && !report::shows_keys(requests.first()) {
        lemma_key_lines(requests.drop_first(), c);
    }
}

proof fn lemma_waste_list_starts(wastes: Seq<WasteView>, c: char)
    requires
        c == '✅' || c == '─',
    ensures
        none_starts(report::waste_list_lines(wastes), c),
    decreases wastes.len(),
{
    if wastes.len() > 0 {
        lemma_waste_list_starts(wastes.drop_last(), c);
        reveal_strlit("   → ");
        reveal_strlit("   Impact: ");
        lemma_decimal_starts(wastes.len());
        assert(none_starts(report::waste_item_lines(wastes.len(), wastes.last()), c));
        lemma_none_starts_joined(
            report::waste_list_lines(wastes.drop_last()),
            report::waste_item_lines(wastes.len(), wastes.last()),
            c,
        );
    }
}

/// What a report says above its wastes.
spec fn upper_lines(p: ProfilerView, limits: EdgeBudget) -> Seq<Seq<char>> {
    report::heading_lines() + report::cold_start_lines(p.init, limits) + seq![Seq::empty()]
        + report::request_lines(p.requests) + seq![Seq::empty()]
}

proof fn lemma_upper_part(p: ProfilerView, limits: EdgeBudget, c: char)
    requires
        c == '✅' || c == '─',
    ensures
        none_starts(upper_lines(p, limits), c),
{
    let blank: Seq<Seq<char>> = seq![Seq::empty()];
    let a = report::heading_lines();
    let b = report::cold_start_lines(p.init, limits);
    let r = report::request_lines(p.requests);
    lemma_upper_lines(p, limits, c);
    assert(none_starts(blank, c));
    lemma_none_starts_joined(a, b, c);
    lemma_none_starts_joined(a + b, blank, c);
    lemma_none_starts_joined(a + b + blank, r, c);
    lemma_none_starts_joined(a + b + blank + r, blank, c);
}

/// A report says that there is no waste exactly if there is none, and otherwise how many wastes
/// there are, with a section on the projected savings.
pub proof fn law_report_tells_whether_there_is_waste(
    p: ProfilerView,
    limits: EdgeBudget,
    wastes: Seq<WasteView>,
)
    ensures
        report::report_lines(p, limits, wastes).contains(report::no_waste_line()) <==> wastes.len()
            == 0,
        report::report_lines(p, limits, wastes).contains(report::savings_heading())
            <==> wastes.len() > 0,
        wastes.len() > 0 ==> report::report_lines(p, limits, wastes).contains(
            report::waste_count_line(wastes.len()),
        ),
{
    let lines = report::report_lines(p, limits, wastes);
    let upper = upper_lines(p, limits);
    let middle = report::waste_lines(wastes);
    let lower = report::savings_lines(wastes, p.init.wall_ms);
    assert(lines =~= upper + middle + lower);
    reveal_strlit("✅ No waste detected. Ship it.");
    reveal_strlit("── Projected Savings ──");
    reveal_strlit("⚠️  ");
    reveal_strlit("Addressing the above could reduce cold-start by ~");
    lemma_upper_part(p, limits, '✅');
    lemma_upper_part(p, limits, '─');
    if wastes.len() == 0 {
        assert(lines[upper.len() as int] == report::no_waste_line());
        assert(none_starts(middle, '─'));
        assert(none_starts(lower, '─'));
        lemma_none_starts_joined(upper, middle, '─');
        lemma_none_starts_joined(upper + middle, lower, '─');
    } else {
        let intro = seq![report::waste_count_line(wastes.len()), Seq::empty()];
        let list = report::waste_list_lines(wastes);
        assert(lines[upper.len() as int] == report::waste_count_line(wastes.len()));
        assert(lines[(upper.len() + middle.len()) as int] == report::savings_heading());
        lemma_waste_list_starts(wastes, '✅');
        assert(none_starts(intro, '✅'));
        assert(none_starts(lower, '✅'));
        lemma_none_starts_joined(intro, list, '✅');
        lemma_none_starts_joined(upper, middle, '✅');
        lemma_none_starts_joined(upper + middle, lower, '✅');
    }
}

/// A report shows each waste with its number, name and description, its suggestion and its impact.
pub proof fn law_report_shows_every_waste(
    p: ProfilerView,
    limits: EdgeBudget,
    wastes: Seq<WasteView>,
    i: int,
    k: int,
)
    requires
        0 <= i < wastes.len(),
        0 <= k < report::waste_item_lines((i + 1) as nat, wastes[i]).len(),
    ensures
        report::report_lines(p, limits, wastes).contains(
            report::waste_item_lines((i + 1) as nat, wastes[i])[k],
        ),
{
    let lines = report::report_lines(p, limits, wastes);
    let upper = upper_lines(p, limits);
    let list = report::waste_list_lines(wastes);
    let lower = report::savings_lines(wastes, p.init.wall_ms);
    let intro = seq![report::waste_count_line(wastes.len()), Seq::empty()];
    assert(lines =~= upper + intro + list + lower);
    lemma_waste_list(wastes, i, k);
    assert(lines[upper.len() + 2 + 4 * i + k] == list[4 * i + k]);
}

proof fn lemma_waste_list(wastes: Seq<WasteView>, i: int, k: int)
    requires
        0 <= i < wastes.len(),
        0 <= k < 4,
    ensures
        report::waste_list_lines(wastes).len() == 4 * wastes.len(),
        report::waste_list_lines(wastes)[4 * i + k] == report::waste_item_lines(
            (i + 1) as nat,
            wastes[i],
        )[k],
    decreases wastes.len(),
{
    let fewer = wastes.drop_last();
    if fewer.len() > 0 {
        if i < fewer.len() {
            lemma_waste_list(fewer, i, k);
        } else {
            lemma_waste_list(fewer, 0, 0);
        }
    } else {
        assert(report::waste_list_lines(fewer).len() == 0);
    }
}

/// The text of a report shows each of its lines.
pub proof fn law_text_shows_every_line(lines: Seq<Seq<char>>, i: int) -> (start: int)
    requires
        0 <= i < lines.len(),
    ensures
        0 <= start <= start + lines[i].len() <= text::lines_text(lines).len(),
        text::lines_text(lines).subrange(start, start + lines[i].len()) == lines[i],
    decreases lines.len(),
{
    let whole = text::lines_text(lines);
    if lines.len() == 1 {
        assert(whole.subrange(0, lines[0].len() as int) =~= lines[0]);
        0
    } else if i == lines.len() - 1 {
        let start = whole.len() - lines[i].len();
        assert(whole.subrange(start, start + lines[i].len()) =~= lines[i]);
        start
    } else {
        let start = law_text_shows_every_line(lines.drop_last(), i);
        let part = text::lines_text(lines.drop_last());
        assert(whole.subrange(start, start + lines[i].len()) =~= part.subrange(
            start,
            start + lines[i].len(),
        ));
        start
    }
}

/// The projected savings never exceed the init time, never shrink when a waste is added, and are
/// nothing where no waste concerns the init phase.
pub proof fn law_projected_savings(wastes: Seq<WasteView>, added: WasteView, wall_ms: u64)
    ensures
        report::projected_savings(wastes, wall_ms) <= wall_ms,
        report::projected_savings(wastes, wall_ms) <= report::projected_savings(
            wastes.push(added),
            wall_ms,
        ),
        !(flags(wastes, WasteKind::EagerInit) || flags(wastes, WasteKind::OversizedBundle) || flags(
            wastes,
            WasteKind::SparseKvAccess,
        )) ==> report::projected_savings(wastes, wall_ms) == 0,
{
    assert(wastes.push(added).drop_last() =~= wastes);
    if !(flags(wastes, WasteKind::EagerInit) || flags(wastes, WasteKind::OversizedBundle) || flags(
        wastes,
        WasteKind::SparseKvAccess,
    )) {
        lemma_no_savings(wastes, wall_ms);
    }
}

proof fn lemma_no_savings(wastes: Seq<WasteView>, wall_ms: u64)
    requires
        !flags(wastes, WasteKind::EagerInit),
        !flags(wastes, WasteKind::OversizedBundle),
        !flags(wastes, WasteKind::SparseKvAccess),
    ensures
        report::potential_savings(wastes, wall_ms) == 0,
    decreases wastes.len(),
{
    if wastes.len() > 0 {
        let fewer = wastes.drop_last();
        assert(wastes =~= fewer + seq![wastes.last()]);
        lemma_flags_joined(fewer, seq![wastes.last()], WasteKind::EagerInit);
        lemma_flags_joined(fewer, seq![wastes.last()], WasteKind::OversizedBundle);
        lemma_flags_joined(fewer, seq![wastes.last()], WasteKind::SparseKvAccess);
        lemma_no_savings(fewer, wall_ms);
        assert(wastes[wastes.len() - 1].kind == wastes.last().kind);
    }
}

/// How many wastes are of the given kind.
pub open spec fn count_kind(wastes: Seq<WasteView>, kind: WasteKind) -> nat
    decreases wastes.len(),
{
    if wastes.len() == 0 {
        0
    } else {
        count_kind(wastes.drop_last(), kind) + if wastes.last().kind == kind {
            1nat
        } else {
            0nat
        }
    }
}

/// Each eager-init waste could save a half of the init time, each oversized bundle a third and each
/// sparse access a quarter, and all of them together at most the whole of it.
pub proof fn law_savings_by_kind(wastes: Seq<WasteView>, wall_ms: u64)
    ensures
        ({
            let sum = count_kind(wastes, WasteKind::EagerInit) * (wall_ms as nat / 2) + count_kind(
                wastes,
                WasteKind::OversizedBundle,
            ) * (wall_ms as nat / 3) + count_kind(wastes, WasteKind::SparseKvAccess) * (
            wall_ms as nat / 4);
            &&& report::potential_savings(wastes, wall_ms) == sum
            &&& report::projected_savings(wastes, wall_ms) == if sum <= wall_ms {
                sum
            } else {
                wall_ms as nat
            }
        }),
    decreases wastes.len(),
{
    if wastes.len() > 0 {
        let fewer = wastes.drop_last();
        law_savings_by_kind(fewer, wall_ms);
        lemma_one_more(count_kind(fewer, WasteKind::EagerInit), wall_ms as nat / 2);
        lemma_one_more(count_kind(fewer, WasteKind::OversizedBundle), wall_ms as nat / 3);
        lemma_one_more(count_kind(fewer, WasteKind::SparseKvAccess), wall_ms as nat / 4);
    } else {
        lemma_one_more(0, wall_ms as nat / 2);
        lemma_one_more(0, wall_ms as nat / 3);
        lemma_one_more(0, wall_ms as nat / 4);
    }
}

proof fn lemma_one_more(n: nat, share: nat)
    by (nonlinear_arith)
    ensures
        (n + 1) * share == n * share + share,
        0 * share == 0,
{
}

/// Only the numbers of eager-init wastes, oversized bundles and sparse accesses count for the
/// savings, and more of them never save less. Texts, other kinds and the order do not matter.
pub proof fn law_savings_depend_on_counts(a: Seq<WasteView>, b: Seq<WasteView>, wall_ms: u64)
    requires
        count_kind(a, WasteKind::EagerInit) <= count_kind(b, WasteKind::EagerInit),
        count_kind(a, WasteKind::OversizedBundle) <= count_kind(b, WasteKind::OversizedBundle),
        count_kind(a, WasteKind::SparseKvAccess) <= count_kind(b, WasteKind::SparseKvAccess),
    ensures
        report::projected_savings(a, wall_ms) <= report::projected_savings(b, wall_ms),
        ({
            &&& count_kind(a, WasteKind::EagerInit) == count_kind(b, WasteKind::EagerInit)
            &&& count_kind(a, WasteKind::OversizedBundle) == count_kind(b, WasteKind::OversizedBundle)
            &&& count_kind(a, WasteKind::SparseKvAccess) == count_kind(b, WasteKind::SparseKvAccess)
        }) ==> report::projected_savings(a, wall_ms) == report::projected_savings(b, wall_ms),
{
    law_savings_by_kind(a, wall_ms);
    law_savings_by_kind(b, wall_ms);
    vstd::arithmetic::mul::lemma_mul_inequality(
        count_kind(a, WasteKind::EagerInit) as int,
        count_kind(b, WasteKind::EagerInit) as int,
        wall_ms as int / 2,
    );
    vstd::arithmetic::mul::lemma_mul_inequality(
        count_kind(a, WasteKind::OversizedBundle) as int,
        count_kind(b, WasteKind::OversizedBundle) as int,
        wall_ms as int / 3,
    );
    vstd::arithmetic::mul::lemma_mul_inequality(
        count_kind(a, WasteKind::SparseKvAccess) as int,
        count_kind(b, WasteKind::SparseKvAccess) as int,
        wall_ms as int / 4,
    );
}

/// The number of wastes of a kind does not depend on their order.
proof fn lemma_count_without_order(wastes: Seq<WasteView>, kind: WasteKind)
    ensures
        count_kind(wastes, kind) == wastes.to_multiset().filter(
            |w: WasteView| w.kind == kind,
        ).len(),
    decreases wastes.len(),
{
    broadcast use vstd::multiset::group_multiset_axioms;
    broadcast use vstd::seq_lib::group_to_multiset_ensures;

    let of_kind = |w: WasteView| w.kind == kind;
    if wastes.len() > 0 {
        let fewer = wastes.drop_last();
        let last = wastes.last();
        lemma_count_without_order(fewer, kind);
        assert(fewer.push(last) =~= wastes);
        assert(wastes.to_multiset() =~= fewer.to_multiset().insert(last));
        if last.kind == kind {
            assert(wastes.to_multiset().filter(of_kind) =~= fewer.to_multiset().filter(
                of_kind,
            ).insert(last));
        } else {
            assert(wastes.to_multiset().filter(of_kind) =~= fewer.to_multiset().filter(of_kind));
        }
    } else {
        assert(wastes.to_multiset().filter(of_kind) =~= vstd::multiset::Multiset::empty());
    }
}

/// The order of the wastes does not matter for the savings.
pub proof fn law_savings_have_no_order(a: Seq<WasteView>, b: Seq<WasteView>, wall_ms: u64)
    requires
        a.to_multiset() == b.to_multiset(),
    ensures
        report::projected_savings(a, wall_ms) == report::projected_savings(b, wall_ms),
{
    lemma_count_without_order(a, WasteKind::EagerInit);
    lemma_count_without_order(b, WasteKind::EagerInit);
    lemma_count_without_order(a, WasteKind::OversizedBundle);
    lemma_count_without_order(b, WasteKind::OversizedBundle);
    lemma_count_without_order(a, WasteKind::SparseKvAccess);
    lemma_count_without_order(b, WasteKind::SparseKvAccess);
    law_savings_depend_on_counts(a, b, wall_ms);
}

/// Before they are capped, the savings are at most half of the init time for each waste.
pub proof fn law_savings_are_bounded(wastes: Seq<WasteView>, wall_ms: u64)
    ensures
        2 * report::potential_savings(wastes, wall_ms) <= wastes.len() * wall_ms,
    decreases wastes.len(),
{
    if wastes.len() > 0 {
        let fewer = wastes.drop_last();
        law_savings_are_bounded(fewer, wall_ms);
        assert(wastes.len() * wall_ms == fewer.len() * wall_ms + wall_ms) by (nonlinear_arith)
            requires
                wastes.len() == fewer.len() + 1,
        ;
    }
}

} // verus!
