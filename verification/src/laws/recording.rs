//! What a profiler tells of the events that were recorded on it.

use vstd::prelude::*;

use crate::budget::EdgeBudget;
use crate::laws::{self, Amount, Event};
use crate::profiler::{self, PerRequestProfile, ProfilerView};

verus! {

// ---- time ---------------------------------------------------------------

/// Whether `ms` is the number of whole milliseconds, in 64 bits, that passed from one time in
/// nanoseconds to another. Where the clock went back, none passed.
pub open spec fn is_whole_ms(ms: u64, start_ns: u128, now_ns: u128) -> bool {
    let passed = now_ns - start_ns;
    &&& passed < 0 ==> ms == 0
    &&& 0 <= passed < 0x1_0000_0000_0000_0000 * 1_000_000 ==> {
        &&& ms * 1_000_000 <= passed
        &&& passed < (ms + 1) * 1_000_000
    }
    &&& 0 <= passed ==> (passed / 1_000_000 - ms) % 0x1_0000_0000_0000_0000 == 0
}

proof fn lemma_low_bits(x: u128)
    by (bit_vector)
    ensures
        x as u64 == x % 0x1_0000_0000_0000_0000u128,
{
}

proof fn lemma_elapsed(start_ns: u128, now_ns: u128)
    ensures
        is_whole_ms(profiler::elapsed_ms(start_ns, now_ns), start_ns, now_ns),
{
    if start_ns <= now_ns {
        let whole = ((now_ns - start_ns) / 1_000_000) as u128;
        assert(whole as int == (now_ns - start_ns) / 1_000_000);
        lemma_low_bits(whole);
        let ms = profiler::elapsed_ms(start_ns, now_ns);
        assert(ms == whole as u64);
        assert((whole - ms) % 0x1_0000_0000_0000_0000 == 0);
    }
}

/// The end of the init phase measures the whole milliseconds since its start and changes nothing
/// else. Without a start it changes nothing at all.
pub proof fn law_init_time_is_measured(p: ProfilerView, now_ns: u128)
    ensures
        p.init_start matches Some(start_ns) ==> is_whole_ms(
            p.init_ended(now_ns).init.wall_ms,
            start_ns,
            now_ns,
        ),
        p.init_start is None ==> p.init_ended(now_ns).init.wall_ms == p.init.wall_ms,
        p.init_ended(now_ns).init.peak_memory_mb == p.init.peak_memory_mb,
        p.init_ended(now_ns).init.eager_loads == p.init.eager_loads,
        p.init_ended(now_ns).init.bytes_loaded == p.init.bytes_loaded,
        p.init_ended(now_ns).requests == p.requests,
        p.init_ended(now_ns).current == p.current,
{
    if let Some(start_ns) = p.init_start {
        lemma_elapsed(start_ns, now_ns);
    }
}

/// The end of a request in flight measures the whole milliseconds since its start.
pub proof fn law_request_time_is_measured(p: ProfilerView, now_ns: u128)
    requires
        p.current is Some,
        p.request_start is Some,
    ensures
        is_whole_ms(
            p.request_ended(now_ns).requests.last().wall_ms,
            p.request_start->0,
            now_ns,
        ),
{
    lemma_elapsed(p.request_start->0, now_ns);
}

/// A later end never measures less time, and an end that comes a second later measures a thousand
/// milliseconds more.
pub proof fn law_more_time_is_more(p: ProfilerView, now_ns: u128, later_ns: u128)
    requires
        p.init_start matches Some(start_ns) && start_ns <= now_ns <= later_ns && later_ns - start_ns
            < 0x1_0000_0000_0000_0000 * 1_000_000,
    ensures
        p.init_ended(now_ns).init.wall_ms <= p.init_ended(later_ns).init.wall_ms,
        later_ns == now_ns + 1_000_000_000 ==> p.init_ended(later_ns).init.wall_ms == p.init_ended(
            now_ns,
        ).init.wall_ms + 1_000,
{
    law_init_time_is_measured(p, now_ns);
    law_init_time_is_measured(p, later_ns);
}

// ---- histories ----------------------------------------------------------

/// On a new profiler nothing was recorded.
pub proof fn law_new_profiler_is_empty(limits: EdgeBudget)
    ensures
        ({
            let p = profiler::empty_profiler(limits);
            &&& p.budget == limits
            &&& p.requests.len() == 0
            &&& p.current is None
            &&& p.init_start is None
            &&& p.init.wall_ms == 0
            &&& p.init.peak_memory_mb == 0
            &&& p.init.eager_loads == 0
            &&& p.init.bytes_loaded == 0
            &&& forall|key: Seq<char>, hash: u64| !p.is_unchanged(key, hash)
        }),
{
}

/// Recording events and then more events is recording all of them.
proof fn lemma_history_joined(p: ProfilerView, a: Seq<Event>, b: Seq<Event>)
    ensures
        laws::history(p, a + b) == laws::history(laws::history(p, a), b),
        laws::history_recordable(p, a + b) == (laws::history_recordable(p, a)
            && laws::history_recordable(laws::history(p, a), b)),
    decreases b.len(),
{
    if b.len() == 0 {
        assert(a + b =~= a);
    } else {
        assert((a + b).drop_last() =~= a + b.drop_last());
        assert((a + b).last() == b.last());
        lemma_history_joined(p, a, b.drop_last());
    }
}

/// Something that is set for a request, and of which the last value counts.
pub enum Setting {
    PeakMemory,
    AllocBytes,
    CpuTime,
    TotalKeys,
}

/// The value that was set last among the events.
pub open spec fn set_last(events: Seq<Event>, of: Setting) -> Option<int>
    decreases events.len(),
{
    if events.len() == 0 {
        None
    } else {
        match (events.last(), of) {
            (Event::PeakMemory { mb }, Setting::PeakMemory) => Some(mb as int),
            (Event::AllocBytes { bytes }, Setting::AllocBytes) => Some(bytes as int),
            (Event::CpuTime { ms }, Setting::CpuTime) => Some(ms as int),
            (Event::TotalKeys { keys }, Setting::TotalKeys) => Some(keys as int),
            _ => set_last(events.drop_last(), of),
        }
    }
}

/// The value that was set last, or zero.
pub open spec fn set_last_or_zero(events: Seq<Event>, of: Setting) -> int {
    match set_last(events, of) {
        Some(value) => value,
        None => 0,
    }
}

/// Whether an event is a checked read whose key was read checked in the past, and the latest of
/// these reads saw the same hash.
pub open spec fn repeats_latest(past: Seq<Event>, event: Event) -> bool {
    event matches Event::KvReadChecked { key, hash, .. } && exists|i: int|
        {
            &&& 0 <= i < past.len()
            &&& #[trigger] laws::is_checked_read(past[i], key)
            &&& past[i]->KvReadChecked_hash == hash
            &&& forall|j: int|
                i < j < past.len() ==> !#[trigger] laws::is_checked_read(past[j], key)
        }
}

/// How many of the events are checked reads that see what the latest one of the same key saw, in the
/// past or among the events before them.
pub open spec fn repeated_reads(past: Seq<Event>, events: Seq<Event>) -> nat
    decreases events.len(),
{
    if events.len() == 0 {
        0
    } else {
        repeated_reads(past, events.drop_last()) + if repeats_latest(
            past + events.drop_last(),
            events.last(),
        ) {
            1nat
        } else {
            0nat
        }
    }
}

/// What was set for a request in flight, and how many unchanged reads it counted.
proof fn lemma_set_in_flight(limits: EdgeBudget, past: Seq<Event>, start_ns: u128, events: Seq<Event>)
    requires
        laws::within_request(events),
        laws::history_recordable(
            profiler::empty_profiler(limits),
            past.push(Event::RequestStart { now_ns: start_ns }) + events,
        ),
    ensures
        ({
            let before = past.push(Event::RequestStart { now_ns: start_ns });
            let now = laws::history(profiler::empty_profiler(limits), before + events);
            let req = now.current->0;
            &&& now.wf()
            &&& now.current is Some
            &&& req.peak_memory_mb == set_last_or_zero(events, Setting::PeakMemory)
            &&& req.alloc_bytes == set_last_or_zero(events, Setting::AllocBytes)
            &&& req.kv_keys_total == set_last_or_zero(events, Setting::TotalKeys)
            &&& now.cpu_set == (set_last(events, Setting::CpuTime) is Some)
            &&& req.cpu_ms == set_last_or_zero(events, Setting::CpuTime)
            &&& req.kv_unchanged_reads == repeated_reads(before, events)
        }),
    decreases events.len(),
{
    let empty = profiler::empty_profiler(limits);
    let before = past.push(Event::RequestStart { now_ns: start_ns });
    laws::law_every_history_is_wf(limits, before + events);
    if events.len() == 0 {
        assert(before + events =~= before);
        assert(before.drop_last() =~= past);
    } else {
        let fewer = events.drop_last();
        let last = events.last();
        assert((before + events).drop_last() =~= before + fewer);
        assert((before + events).last() == last);
        assert forall|i: int| 0 <= i < fewer.len() implies #[trigger] fewer[i] == events[i] by {
        }
        assert(events[events.len() - 1] == last);
        lemma_set_in_flight(limits, past, start_ns, fewer);
        if let Event::KvReadChecked { key, bytes, hash } = last {
            laws::law_unchanged_means_same_as_latest(limits, before + fewer, key, hash);
            let was = laws::history(empty, before + fewer);
            assert(was.current->0.wf());
            assert(was.current->0.kv_unchanged_reads < u32::MAX);
        }
    }
}

/// A request that starts and ends is committed behind the others with all that was recorded in
/// between: how many fetch calls, reads and writes there were, and how many bytes they moved; which
/// keys were read; how many fetch calls came more than 5 ms after the one before them; how many
/// checked reads saw what the latest checked read of their key had seen, before the request or in it;
/// the last value of each setting, or zero; the time since its start; and as its CPU time the last
/// one that was set, or else the time since its start.
pub proof fn law_committed_request_is_what_happened(
    limits: EdgeBudget,
    past: Seq<Event>,
    start_ns: u128,
    events: Seq<Event>,
    end_ns: u128,
)
    requires
        laws::within_request(events),
        laws::history_recordable(
            profiler::empty_profiler(limits),
            past.push(Event::RequestStart { now_ns: start_ns }) + events,
        ),
    ensures
        ({
            let before = past.push(Event::RequestStart { now_ns: start_ns });
            let empty = profiler::empty_profiler(limits);
            let after = laws::history(empty, before + events).request_ended(end_ns);
            let req = after.requests.last();
            &&& after.requests == laws::history(empty, past).requests.push(req)
            &&& req.fetch_calls == laws::amounts(events, Amount::Fetches)
            &&& req.kv_reads == laws::amounts(events, Amount::Reads)
            &&& req.kv_read_bytes == laws::amounts(events, Amount::BytesRead)
            &&& req.kv_writes == laws::amounts(events, Amount::Writes)
            &&& req.kv_write_bytes == laws::amounts(events, Amount::BytesWritten)
            &&& req.kv_keys_accessed == laws::keys_read(events)
            &&& req.sequential_fetch_chains == laws::gaps(laws::times_fetched(events))
            &&& req.kv_unchanged_reads == repeated_reads(before, events)
            &&& req.peak_memory_mb == set_last_or_zero(events, Setting::PeakMemory)
            &&& req.alloc_bytes == set_last_or_zero(events, Setting::AllocBytes)
            &&& req.kv_keys_total == set_last_or_zero(events, Setting::TotalKeys)
            &&& is_whole_ms(req.wall_ms, start_ns, end_ns)
            &&& req.cpu_ms == match set_last(events, Setting::CpuTime) {
                Some(ms) => ms,
                None => req.wall_ms as int,
            }
        }),
{
    let empty = profiler::empty_profiler(limits);
    let start = Event::RequestStart { now_ns: start_ns };
    let before = past.push(start);
    let p = laws::history(empty, past);
    lemma_history_joined(empty, before, events);
    assert(before.drop_last() =~= past);
    assert(laws::history(empty, before) == p.request_started(start_ns));
    laws::law_every_history_is_wf(limits, past);
    laws::law_committed_request_tells_what_was_recorded(p, start_ns, events, end_ns);
    lemma_set_in_flight(limits, past, start_ns, events);
    lemma_elapsed(start_ns, end_ns);
}

/// A checked read that is unchanged, and so returns `true`, adds one to the unchanged reads of the
/// request in flight. Nothing else that is recorded changes their number.
pub proof fn law_unchanged_reads_are_counted(p: ProfilerView, event: Event)
    requires
        p.wf(),
        laws::recordable(p, event),
        p.current is Some,
        !(event is RequestStart || event is RequestEnd),
    ensures
        ({
            let count = p.current->0.kv_unchanged_reads;
            let after = laws::recorded(p, event).current->0.kv_unchanged_reads;
            match event {
                Event::KvReadChecked { key, hash, .. } => after == count + if p.is_unchanged(
                    key,
                    hash,
                ) {
                    1int
                } else {
                    0int
                },
                _ => after == count,
            }
        }),
{
}

/// How many of the events load a resource eagerly.
pub open spec fn loads(events: Seq<Event>) -> nat
    decreases events.len(),
{
    if events.len() == 0 {
        0
    } else {
        loads(events.drop_last()) + if events.last() is EagerLoad {
            1nat
        } else {
            0nat
        }
    }
}

/// How many bytes are loaded eagerly among the events.
pub open spec fn bytes_loaded(events: Seq<Event>) -> nat
    decreases events.len(),
{
    if events.len() == 0 {
        0
    } else {
        bytes_loaded(events.drop_last()) + match events.last() {
            Event::EagerLoad { bytes } => bytes as nat,
            _ => 0,
        }
    }
}

/// The peak memory of the init phase that was set last, or zero.
pub open spec fn init_peak(events: Seq<Event>) -> u64
    decreases events.len(),
{
    if events.len() == 0 {
        0
    } else {
        match events.last() {
            Event::InitPeakMemory { mb } => mb,
            _ => init_peak(events.drop_last()),
        }
    }
}

/// When the init phase started last.
pub open spec fn init_started_at(events: Seq<Event>) -> Option<u128>
    decreases events.len(),
{
    if events.len() == 0 {
        None
    } else {
        match events.last() {
            Event::InitStart { now_ns } => Some(now_ns),
            _ => init_started_at(events.drop_last()),
        }
    }
}

/// Whether `ms` is the init time: the last one that was set or measured, or zero.
pub open spec fn is_init_time(ms: u64, events: Seq<Event>) -> bool
    decreases events.len(),
{
    if events.len() == 0 {
        ms == 0
    } else {
        let fewer = events.drop_last();
        match (events.last(), init_started_at(fewer)) {
            (Event::InitWall { ms: set }, _) => ms == set,
            (Event::InitEnd { now_ns }, Some(start_ns)) => is_whole_ms(ms, start_ns, now_ns),
            _ => is_init_time(ms, fewer),
        }
    }
}

/// The init phase tells how many resources were loaded eagerly, and how many bytes with them; the
/// last peak memory that was set; and the init time that was measured or set last.
pub proof fn law_init_phase_is_what_happened(limits: EdgeBudget, events: Seq<Event>)
    requires
        laws::history_recordable(profiler::empty_profiler(limits), events),
    ensures
        ({
            let p = laws::history(profiler::empty_profiler(limits), events);
            &&& p.budget == limits
            &&& p.init_start == init_started_at(events)
            &&& p.init.eager_loads == loads(events)
            &&& p.init.bytes_loaded == bytes_loaded(events)
            &&& p.init.peak_memory_mb == init_peak(events)
            &&& is_init_time(p.init.wall_ms, events)
        }),
    decreases events.len(),
{
    if events.len() > 0 {
        let fewer = events.drop_last();
        law_init_phase_is_what_happened(limits, fewer);
        let p = laws::history(profiler::empty_profiler(limits), fewer);
        match events.last() {
            Event::InitEnd { now_ns } => law_init_time_is_measured(p, now_ns),
            _ => {},
        }
    }
}

/// Whether a request is in flight after the events.
pub open spec fn in_flight(events: Seq<Event>) -> bool
    decreases events.len(),
{
    events.len() > 0 && match events.last() {
        Event::RequestStart { .. } => true,
        Event::RequestEnd { .. } => false,
        _ => in_flight(events.drop_last()),
    }
}

/// How many of the events end a request that is in flight.
pub open spec fn completed(events: Seq<Event>) -> nat
    decreases events.len(),
{
    if events.len() == 0 {
        0
    } else {
        completed(events.drop_last()) + if events.last() is RequestEnd && in_flight(
            events.drop_last(),
        ) {
            1nat
        } else {
            0nat
        }
    }
}

/// There are as many completed requests as ends of a request in flight, and one is in flight exactly
/// if one has started since the last end.
pub proof fn law_requests_are_those_that_ended(limits: EdgeBudget, events: Seq<Event>)
    requires
        laws::history_recordable(profiler::empty_profiler(limits), events),
    ensures
        ({
            let p = laws::history(profiler::empty_profiler(limits), events);
            &&& p.requests.len() == completed(events)
            &&& p.current is Some <==> in_flight(events)
        }),
    decreases events.len(),
{
    if events.len() > 0 {
        law_requests_are_those_that_ended(limits, events.drop_last());
        laws::law_every_history_is_wf(limits, events.drop_last());
    }
}

/// An event can be recorded exactly if no counter of the request in flight, or of the init phase,
/// would overflow. The clock never stands in the way.
pub proof fn law_only_overflow_stops_recording(p: ProfilerView, event: Event)
    ensures
        laws::recordable(p, event) <==> match event {
            Event::EagerLoad { bytes } => p.init.eager_loads + 1 <= u32::MAX && p.init.bytes_loaded
                + bytes <= u64::MAX,
            Event::FetchCall { .. } => p.current is Some ==> p.current->0.fetch_calls + 1
                <= u32::MAX,
            Event::KvRead { bytes } => p.current is Some ==> p.current->0.kv_reads + 1 <= u32::MAX
                && p.current->0.kv_read_bytes + bytes <= u64::MAX,
            Event::KvReadKey { bytes, .. } => p.current is Some ==> p.current->0.kv_reads + 1
                <= u32::MAX && p.current->0.kv_read_bytes + bytes <= u64::MAX,
            Event::KvReadChecked { bytes, .. } => p.current is Some ==> p.current->0.kv_reads + 1
                <= u32::MAX && p.current->0.kv_read_bytes + bytes <= u64::MAX,
            Event::KvWrite { bytes } => p.current is Some ==> p.current->0.kv_writes + 1 <= u32::MAX
                && p.current->0.kv_write_bytes + bytes <= u64::MAX,
            _ => true,
        },
{
}

/// The view of a request profile shows each of its fields.
pub proof fn law_profiles_show_their_fields(
    profile: PerRequestProfile,
    profiles: Seq<PerRequestProfile>,
    i: int,
    k: int,
)
    ensures
        profile@.wall_ms == profile.wall_ms,
        profile@.cpu_ms == profile.cpu_ms,
        profile@.peak_memory_mb == profile.peak_memory_mb,
        profile@.alloc_bytes == profile.alloc_bytes,
        profile@.fetch_calls == profile.fetch_calls,
        profile@.kv_reads == profile.kv_reads,
        profile@.kv_writes == profile.kv_writes,
        profile@.kv_read_bytes == profile.kv_read_bytes,
        profile@.kv_write_bytes == profile.kv_write_bytes,
        profile@.kv_keys_accessed.len() == profile.kv_keys_accessed@.len(),
        0 <= i < profile.kv_keys_accessed@.len() ==> profile@.kv_keys_accessed[i]
            == profile.kv_keys_accessed@[i]@,
        profile@.kv_keys_total == profile.kv_keys_total,
        profile@.sequential_fetch_chains == profile.sequential_fetch_chains,
        profile@.kv_unchanged_reads == profile.kv_unchanged_reads,
        profiler::request_views(profiles).len() == profiles.len(),
        0 <= k < profiles.len() ==> profiler::request_views(profiles)[k] == profiles[k]@,
{
}

} // verus!
