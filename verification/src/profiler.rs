//! Per-request and init-phase profiling.

use vstd::hash_map::StringHashMap;
use vstd::prelude::*;

use crate::binary64::{self, average, Binary64, Rounded};
use crate::budget::EdgeBudget;
use crate::clock::now_ns;
use crate::text;

verus! {

/// Fetch calls further apart than this many nanoseconds are taken as sequential.
pub const FETCH_GAP_NS: u128 = 5_000_000;

/// Summary of the global init (cold-start) phase.
#[derive(Debug, Clone)]
pub struct InitPhase {
    /// Wall time of the init phase in milliseconds.
    pub wall_ms: u64,
    /// Estimated peak memory during init in MB.
    pub peak_memory_mb: u64,
    /// Number of lazy values or config maps loaded eagerly.
    pub eager_loads: u32,
    /// Estimated bytes loaded during init.
    pub bytes_loaded: u64,
}

/// An init phase in which nothing was recorded.
pub open spec fn empty_init() -> InitPhase {
    InitPhase { wall_ms: 0, peak_memory_mb: 0, eager_loads: 0, bytes_loaded: 0 }
}

impl Default for InitPhase {
    fn default() -> (init: Self)
        ensures
            init == empty_init(),
    {
        Self::new()
    }
}

impl InitPhase {
    /// An init phase in which nothing was recorded.
    pub fn new() -> (init: Self)
        ensures
            init == empty_init(),
    {
        Self { wall_ms: 0, peak_memory_mb: 0, eager_loads: 0, bytes_loaded: 0 }
    }
}

/// Per-request resource profile.
#[derive(Debug, Clone)]
pub struct PerRequestProfile {
    /// Wall-clock time in milliseconds.
    pub wall_ms: u64,
    /// CPU time in milliseconds.
    pub cpu_ms: u64,
    /// Peak memory usage in MB during this request.
    pub peak_memory_mb: u64,
    /// Total bytes allocated (heap) during this request.
    pub alloc_bytes: u64,
    /// Number of `fetch()` calls made.
    pub fetch_calls: u32,
    /// Number of KV reads.
    pub kv_reads: u32,
    /// Number of KV writes.
    pub kv_writes: u32,
    /// Total bytes read from KV.
    pub kv_read_bytes: u64,
    /// Total bytes written to KV.
    pub kv_write_bytes: u64,
    /// Keys accessed — used for the detector's "sparse key usage" heuristic.
    pub kv_keys_accessed: Vec<String>,
    /// All keys present in the eagerly-loaded config map (if applicable).
    pub kv_keys_total: u32,
    /// Number of sequential fetch chains detected.
    pub sequential_fetch_chains: u32,
    /// Number of KV reads where the value hadn't changed since last read.
    pub kv_unchanged_reads: u32,
}

/// What a request profile holds, with the accessed keys as character sequences.
#[verifier::ext_equal]
pub struct RequestView {
    pub wall_ms: u64,
    pub cpu_ms: u64,
    pub peak_memory_mb: u64,
    pub alloc_bytes: u64,
    pub fetch_calls: u32,
    pub kv_reads: u32,
    pub kv_writes: u32,
    pub kv_read_bytes: u64,
    pub kv_write_bytes: u64,
    pub kv_keys_accessed: Seq<Seq<char>>,
    pub kv_keys_total: u32,
    pub sequential_fetch_chains: u32,
    pub kv_unchanged_reads: u32,
}

impl View for PerRequestProfile {
    type V = RequestView;

    open spec fn view(&self) -> RequestView {
        RequestView {
            wall_ms: self.wall_ms,
            cpu_ms: self.cpu_ms,
            peak_memory_mb: self.peak_memory_mb,
            alloc_bytes: self.alloc_bytes,
            fetch_calls: self.fetch_calls,
            kv_reads: self.kv_reads,
            kv_writes: self.kv_writes,
            kv_read_bytes: self.kv_read_bytes,
            kv_write_bytes: self.kv_write_bytes,
            kv_keys_accessed: text::contents(self.kv_keys_accessed@),
            kv_keys_total: self.kv_keys_total,
            sequential_fetch_chains: self.sequential_fetch_chains,
            kv_unchanged_reads: self.kv_unchanged_reads,
        }
    }
}

/// A request in which nothing was recorded.
pub open spec fn empty_request() -> RequestView {
    RequestView {
        wall_ms: 0,
        cpu_ms: 0,
        peak_memory_mb: 0,
        alloc_bytes: 0,
        fetch_calls: 0,
        kv_reads: 0,
        kv_writes: 0,
        kv_read_bytes: 0,
        kv_write_bytes: 0,
        kv_keys_accessed: Seq::empty(),
        kv_keys_total: 0,
        sequential_fetch_chains: 0,
        kv_unchanged_reads: 0,
    }
}

impl RequestView {
    /// The counters of a recorded request fit together: the first fetch call starts no chain, and
    /// every accessed key and every unchanged read belongs to a KV read.
    pub open spec fn wf(self) -> bool {
        &&& self.sequential_fetch_chains == 0 || self.sequential_fetch_chains < self.fetch_calls
        &&& self.kv_keys_accessed.len() <= self.kv_reads
        &&& self.kv_unchanged_reads <= self.kv_keys_accessed.len()
    }

    /// Whether one more KV read of `bytes` bytes can be counted.
    pub open spec fn can_read(self, bytes: u64) -> bool {
        self.kv_reads < u32::MAX && self.kv_read_bytes + bytes <= u64::MAX
    }

    /// Whether one more KV write of `bytes` bytes can be counted.
    pub open spec fn can_write(self, bytes: u64) -> bool {
        self.kv_writes < u32::MAX && self.kv_write_bytes + bytes <= u64::MAX
    }

    /// One more fetch call, which continues a sequential chain or does not.
    pub open spec fn fetched(self, chained: bool) -> RequestView {
        RequestView {
            fetch_calls: (self.fetch_calls + 1) as u32,
            sequential_fetch_chains: if chained {
                (self.sequential_fetch_chains + 1) as u32
            } else {
                self.sequential_fetch_chains
            },
            ..self
        }
    }

    /// One more KV read.
    pub open spec fn kv_read(self, bytes: u64) -> RequestView {
        RequestView {
            kv_reads: (self.kv_reads + 1) as u32,
            kv_read_bytes: (self.kv_read_bytes + bytes) as u64,
            ..self
        }
    }

    /// One more KV read, of a known key.
    pub open spec fn kv_read_key(self, key: Seq<char>, bytes: u64) -> RequestView {
        RequestView {
            kv_keys_accessed: self.kv_keys_accessed.push(key),
            ..self.kv_read(bytes)
        }
    }

    /// One more KV read, of a known key whose value is unchanged or not.
    pub open spec fn kv_read_checked(self, key: Seq<char>, bytes: u64, unchanged: bool) -> RequestView {
        RequestView {
            kv_unchanged_reads: if unchanged {
                (self.kv_unchanged_reads + 1) as u32
            } else {
                self.kv_unchanged_reads
            },
            ..self.kv_read_key(key, bytes)
        }
    }

    /// One more KV write.
    pub open spec fn kv_written(self, bytes: u64) -> RequestView {
        RequestView {
            kv_writes: (self.kv_writes + 1) as u32,
            kv_write_bytes: (self.kv_write_bytes + bytes) as u64,
            ..self
        }
    }

    /// The request after `wall_ms` of wall time, which is also its CPU time unless one was set.
    pub open spec fn ended(self, wall_ms: u64, cpu_set: bool) -> RequestView {
        RequestView {
            wall_ms,
            cpu_ms: if cpu_set {
                self.cpu_ms
            } else {
                wall_ms
            },
            ..self
        }
    }
}

impl Default for PerRequestProfile {
    fn default() -> (profile: Self)
        ensures
            profile@ == empty_request(),
    {
        Self::new()
    }
}

impl PerRequestProfile {
    /// A request in which nothing was recorded.
    pub fn new() -> (profile: Self)
        ensures
            profile@ == empty_request(),
    {
        Self {
            wall_ms: 0,
            cpu_ms: 0,
            peak_memory_mb: 0,
            alloc_bytes: 0,
            fetch_calls: 0,
            kv_reads: 0,
            kv_writes: 0,
            kv_read_bytes: 0,
            kv_write_bytes: 0,
            kv_keys_accessed: Vec::new(),
            kv_keys_total: 0,
            sequential_fetch_chains: 0,
            kv_unchanged_reads: 0,
        }
    }

    fn count_fetch(&mut self, chained: bool)
        requires
            old(self).fetch_calls < u32::MAX,
            chained ==> old(self).sequential_fetch_chains < u32::MAX,
        ensures
            final(self)@ == old(self)@.fetched(chained),
    {
        if chained {
            self.sequential_fetch_chains += 1;
        }
        self.fetch_calls += 1;
    }

    fn count_kv_read(&mut self, bytes: u64)
        requires
            old(self)@.can_read(bytes),
        ensures
            final(self)@ == old(self)@.kv_read(bytes),
    {
        self.kv_reads += 1;
        self.kv_read_bytes += bytes;
    }

    fn count_kv_read_key(&mut self, key: &str, bytes: u64)
        requires
            old(self)@.can_read(bytes),
        ensures
            final(self)@ == old(self)@.kv_read_key(key@, bytes),
    {
        self.count_kv_read(bytes);
        self.kv_keys_accessed.push(key.to_owned());
    }

    fn count_kv_write(&mut self, bytes: u64)
        requires
            old(self)@.can_write(bytes),
        ensures
            final(self)@ == old(self)@.kv_written(bytes),
    {
        self.kv_writes += 1;
        self.kv_write_bytes += bytes;
    }
}

/// A counter of a request.
#[derive(Clone, Copy)]
pub enum Counter {
    FetchCalls,
    SequentialChains,
    KvReads,
    KvWrites,
    UnchangedReads,
}

impl RequestView {
    /// What one of the counters shows.
    pub open spec fn count(self, counter: Counter) -> nat {
        match counter {
            Counter::FetchCalls => self.fetch_calls as nat,
            Counter::SequentialChains => self.sequential_fetch_chains as nat,
            Counter::KvReads => self.kv_reads as nat,
            Counter::KvWrites => self.kv_writes as nat,
            Counter::UnchangedReads => self.kv_unchanged_reads as nat,
        }
    }
}

/// The sum of a counter over all requests.
pub open spec fn total(requests: Seq<RequestView>, counter: Counter) -> nat
    decreases requests.len(),
{
    if requests.len() == 0 {
        0
    } else {
        total(requests.drop_last(), counter) + requests.last().count(counter)
    }
}

/// What each of the profiles holds.
pub open spec fn request_views(profiles: Seq<PerRequestProfile>) -> Seq<RequestView> {
    Seq::new(profiles.len(), |i: int| profiles[i]@)
}

/// The wall times of requests.
pub open spec fn wall_times(requests: Seq<RequestView>) -> Seq<u64> {
    Seq::new(requests.len(), |i: int| requests[i].wall_ms)
}

/// The fetch call counts of requests.
pub open spec fn fetch_counts(requests: Seq<RequestView>) -> Seq<u64> {
    Seq::new(requests.len(), |i: int| requests[i].fetch_calls as u64)
}

/// Whole milliseconds from a time in nanoseconds to a later one, in 64 bits. Where the clock has
/// gone back, no time has passed.
pub open spec fn elapsed_ms(start_ns: u128, now_ns: u128) -> u64 {
    if start_ns <= now_ns {
        ((now_ns - start_ns) / 1_000_000) as u64
    } else {
        0
    }
}

/// The state of a profiler.
#[verifier::ext_equal]
pub struct ProfilerView {
    pub budget: EdgeBudget,
    pub init: InitPhase,
    /// The completed requests, in the order in which they ended.
    pub requests: Seq<RequestView>,
    /// The request in flight.
    pub current: Option<RequestView>,
    /// Whether a CPU time was set since the last request start.
    pub cpu_set: bool,
    pub init_start: Option<u128>,
    pub request_start: Option<u128>,
    /// The times of the fetch calls since the last request start.
    pub fetch_times: Seq<u128>,
    /// The value hash of the last checked read of each key.
    pub kv_cache: Map<Seq<char>, u64>,
}

impl ProfilerView {
    /// The recorded requests are well formed, a request is in flight exactly while its start time
    /// is known, and the fetch times since its start are those of its fetch calls.
    pub open spec fn wf(self) -> bool {
        &&& forall|i: int| 0 <= i < self.requests.len() ==> (#[trigger] self.requests[i]).wf()
        &&& self.request_start is Some <==> self.current is Some
        &&& self.current matches Some(req) ==> req.wf() && self.fetch_times.len() == req.fetch_calls
    }

    /// The time of the last fetch call since the last request start.
    pub open spec fn last_fetch(self) -> Option<u128> {
        if self.fetch_times.len() == 0 {
            None
        } else {
            Some(self.fetch_times.last())
        }
    }

    /// The state with `f` applied to the request in flight, if there is one.
    pub open spec fn on_current(self, f: spec_fn(RequestView) -> RequestView) -> ProfilerView {
        match self.current {
            Some(req) => ProfilerView { current: Some(f(req)), ..self },
            None => self,
        }
    }

    pub open spec fn init_started(self, now_ns: u128) -> ProfilerView {
        ProfilerView { init_start: Some(now_ns), ..self }
    }

    pub open spec fn init_ended(self, now_ns: u128) -> ProfilerView {
        match self.init_start {
            Some(start) => ProfilerView {
                init: InitPhase { wall_ms: elapsed_ms(start, now_ns), ..self.init },
                ..self
            },
            None => self,
        }
    }

    pub open spec fn eager_loaded(self, bytes: u64) -> ProfilerView {
        ProfilerView {
            init: InitPhase {
                eager_loads: (self.init.eager_loads + 1) as u32,
                bytes_loaded: (self.init.bytes_loaded + bytes) as u64,
                ..self.init
            },
            ..self
        }
    }

    pub open spec fn request_started(self, now_ns: u128) -> ProfilerView {
        ProfilerView {
            request_start: Some(now_ns),
            fetch_times: Seq::empty(),
            current: Some(empty_request()),
            cpu_set: false,
            ..self
        }
    }

    pub open spec fn request_ended(self, now_ns: u128) -> ProfilerView {
        match (self.request_start, self.current) {
            (Some(start), Some(req)) => ProfilerView {
                request_start: None,
                current: None,
                requests: self.requests.push(req.ended(elapsed_ms(start, now_ns), self.cpu_set)),
                ..self
            },
            _ => self,
        }
    }

    /// Whether a fetch call at this time comes more than 5 ms after the one before it.
    pub open spec fn is_chained(self, now_ns: u128) -> bool {
        self.last_fetch() matches Some(last) && now_ns - last > FETCH_GAP_NS
    }

    pub open spec fn fetched(self, now_ns: u128) -> ProfilerView {
        ProfilerView {
            fetch_times: self.fetch_times.push(now_ns),
            ..self.on_current(|req: RequestView| req.fetched(self.is_chained(now_ns)))
        }
    }

    /// Whether one more fetch call can be counted.
    pub open spec fn can_fetch(self) -> bool {
        self.current matches Some(req) ==> req.fetch_calls < u32::MAX
    }

    /// Whether one more KV read of `bytes` bytes can be counted.
    pub open spec fn can_read(self, bytes: u64) -> bool {
        self.current matches Some(req) ==> req.can_read(bytes)
    }

    /// Whether one more KV write of `bytes` bytes can be counted.
    pub open spec fn can_write(self, bytes: u64) -> bool {
        self.current matches Some(req) ==> req.can_write(bytes)
    }

    pub open spec fn kv_read(self, bytes: u64) -> ProfilerView {
        self.on_current(|req: RequestView| req.kv_read(bytes))
    }

    pub open spec fn kv_read_key(self, key: Seq<char>, bytes: u64) -> ProfilerView {
        self.on_current(|req: RequestView| req.kv_read_key(key, bytes))
    }

    /// Whether the last checked read of `key` saw the same value hash.
    pub open spec fn is_unchanged(self, key: Seq<char>, hash: u64) -> bool {
        self.kv_cache.contains_key(key) && self.kv_cache[key] == hash
    }

    pub open spec fn kv_read_checked(self, key: Seq<char>, bytes: u64, hash: u64) -> ProfilerView {
        ProfilerView {
            kv_cache: self.kv_cache.insert(key, hash),
            ..self.on_current(
                |req: RequestView| req.kv_read_checked(key, bytes, self.is_unchanged(key, hash)),
            )
        }
    }

    pub open spec fn kv_written(self, bytes: u64) -> ProfilerView {
        self.on_current(|req: RequestView| req.kv_written(bytes))
    }

    pub open spec fn with_peak_memory(self, mb: u64) -> ProfilerView {
        self.on_current(|req: RequestView| RequestView { peak_memory_mb: mb, ..req })
    }

    pub open spec fn with_alloc_bytes(self, bytes: u64) -> ProfilerView {
        self.on_current(|req: RequestView| RequestView { alloc_bytes: bytes, ..req })
    }

    pub open spec fn with_cpu(self, ms: u64) -> ProfilerView {
        ProfilerView {
            cpu_set: self.cpu_set || self.current is Some,
            ..self.on_current(|req: RequestView| RequestView { cpu_ms: ms, ..req })
        }
    }

    pub open spec fn with_total_keys(self, keys: u32) -> ProfilerView {
        self.on_current(|req: RequestView| RequestView { kv_keys_total: keys, ..req })
    }
}

/// High-level profiler that accumulates measurements across the init phase
/// and one or more requests.
pub struct Profiler {
    budget: EdgeBudget,
    init: InitPhase,
    requests: Vec<PerRequestProfile>,
    /// In-flight request being accumulated.
    current: Option<PerRequestProfile>,
    /// Whether a CPU time was set since the last request start.
    cpu_set: bool,
    init_start_ns: Option<u128>,
    request_start_ns: Option<u128>,
    fetch_timestamps_ns: Vec<u128>,
    kv_cache: StringHashMap<u64>,
}

impl View for Profiler {
    type V = ProfilerView;

    closed spec fn view(&self) -> ProfilerView {
        ProfilerView {
            budget: self.budget,
            init: self.init,
            requests: request_views(self.requests@),
            current: match self.current {
                Some(req) => Some(req@),
                None => None,
            },
            cpu_set: self.cpu_set,
            init_start: self.init_start_ns,
            request_start: self.request_start_ns,
            fetch_times: self.fetch_timestamps_ns@,
            kv_cache: self.kv_cache@,
        }
    }
}

/// A profiler on which nothing was recorded.
pub open spec fn empty_profiler(budget: EdgeBudget) -> ProfilerView {
    ProfilerView {
        budget,
        init: empty_init(),
        requests: Seq::empty(),
        current: None,
        cpu_set: false,
        init_start: None,
        request_start: None,
        fetch_times: Seq::empty(),
        kv_cache: Map::empty(),
    }
}

impl Profiler {
    /// Create a new profiler bound to the given budget.
    pub fn new(budget: &EdgeBudget) -> (profiler: Self)
        ensures
            profiler@ == empty_profiler(*budget),
            profiler@.wf(),
    {
        let profiler = Self {
            budget: budget.clone(),
            init: InitPhase::new(),
            requests: Vec::new(),
            current: None,
            cpu_set: false,
            init_start_ns: None,
            request_start_ns: None,
            fetch_timestamps_ns: Vec::new(),
            kv_cache: StringHashMap::new(),
        };
        assert(profiler@ =~= empty_profiler(*budget));
        profiler
    }

    // ---- init phase -----------------------------------------------------

    /// Mark the start of the global init / cold-start phase at the given time.
    pub fn record_init_start_at(&mut self, now_ns: u128)
        requires
            old(self)@.wf(),
        ensures
            final(self)@.wf(),
            final(self)@ == old(self)@.init_started(now_ns),
    {
        self.init_start_ns = Some(now_ns);
    }

    /// Mark the start of the global init / cold-start phase.
    pub fn record_init_start(&mut self)
        requires
            old(self)@.wf(),
        ensures
            final(self)@.wf(),
            exists|now_ns: u128| final(self)@ == #[trigger] old(self)@.init_started(now_ns),
    {
        self.record_init_start_at(now_ns());
    }

    /// Mark the end of the init phase at the given time. No time has passed where that is before the
    /// start of the phase.
    pub fn record_init_end_at(&mut self, now_ns: u128)
        requires
            old(self)@.wf(),
        ensures
            final(self)@.wf(),
            final(self)@ == old(self)@.init_ended(now_ns),
    {
        if let Some(start) = self.init_start_ns {
            self.init.wall_ms = Self::whole_ms(start, now_ns);
        }
    }

    /// Mark the end of the init phase.
    pub fn record_init_end(&mut self)
        requires
            old(self)@.wf(),
        ensures
            final(self)@.wf(),
            exists|now_ns: u128| final(self)@ == #[trigger] old(self)@.init_ended(now_ns),
    {
        self.record_init_end_at(now_ns());
    }

    /// Whole milliseconds between two times, and none where the clock has gone back.
    fn whole_ms(start_ns: u128, now_ns: u128) -> (ms: u64)
        ensures
            ms == elapsed_ms(start_ns, now_ns),
    {
        if start_ns <= now_ns {
            ((now_ns - start_ns) / 1_000_000) as u64
        } else {
            0
        }
    }

    /// Record an eager load during init.
    pub fn record_eager_load(&mut self, bytes: u64)
        requires
            old(self)@.wf(),
            old(self)@.init.eager_loads < u32::MAX,
            old(self)@.init.bytes_loaded + bytes <= u64::MAX,
        ensures
            final(self)@.wf(),
            final(self)@ == old(self)@.eager_loaded(bytes),
    {
        self.init.eager_loads += 1;
        self.init.bytes_loaded += bytes;
    }

    /// Set peak memory observed during init.
    pub fn set_init_peak_memory_mb(&mut self, mb: u64)
        requires
            old(self)@.wf(),
        ensures
            final(self)@.wf(),
            final(self)@ == (ProfilerView {
                init: InitPhase { peak_memory_mb: mb, ..old(self)@.init },
                ..old(self)@
            }),
    {
        self.init.peak_memory_mb = mb;
    }

    /// Override the init-phase wall time.
    pub fn set_init_wall_ms(&mut self, ms: u64)
        requires
            old(self)@.wf(),
        ensures
            final(self)@.wf(),
            final(self)@ == (ProfilerView {
                init: InitPhase { wall_ms: ms, ..old(self)@.init },
                ..old(self)@
            }),
    {
        self.init.wall_ms = ms;
    }

    // ---- per-request ----------------------------------------------------

    /// Mark the start of a request handler at the given time. A request that is still in flight is
    /// dropped.
    pub fn record_request_start_at(&mut self, now_ns: u128)
        requires
            old(self)@.wf(),
        ensures
            final(self)@.wf(),
            final(self)@ == old(self)@.request_started(now_ns),
    {
        self.request_start_ns = Some(now_ns);
        self.fetch_timestamps_ns.clear();
        self.current = Some(PerRequestProfile::new());
        self.cpu_set = false;
    }

    /// Mark the start of a request handler. A request that is still in flight is dropped.
    pub fn record_request_start(&mut self)
        requires
            old(self)@.wf(),
        ensures
            final(self)@.wf(),
            exists|now_ns: u128| final(self)@ == #[trigger] old(self)@.request_started(now_ns),
    {
        self.record_request_start_at(now_ns());
    }

    /// Mark the end of the current request at the given time and commit the profile. No time has
    /// passed where that is before the start of the request.
    pub fn record_request_end_at(&mut self, now_ns: u128)
        requires
            old(self)@.wf(),
        ensures
            final(self)@.wf(),
            final(self)@ == old(self)@.request_ended(now_ns),
    {
        if let Some(start) = self.request_start_ns.take() {
            let wall_ms: u64 = Self::whole_ms(start, now_ns);
            if let Some(mut profile) = self.current.take() {
                profile.wall_ms = wall_ms;
                if !self.cpu_set {
                    profile.cpu_ms = wall_ms;
                }
                self.requests.push(profile);
            }
        }
        assert(self@.requests =~= old(self)@.request_ended(now_ns).requests);
    }

    /// Mark the end of the current request and commit the profile.
    pub fn record_request_end(&mut self)
        requires
            old(self)@.wf(),
        ensures
            final(self)@.wf(),
            exists|now_ns: u128| final(self)@ == #[trigger] old(self)@.request_ended(now_ns),
    {
        self.record_request_end_at(now_ns());
    }

    /// Record a `fetch()` call at the given time. It continues a chain if it comes more than 5 ms
    /// after the last one.
    pub fn record_fetch_call_at(&mut self, now_ns: u128)
        requires
            old(self)@.wf(),
            old(self)@.can_fetch(),
        ensures
            final(self)@.wf(),
            final(self)@ == old(self)@.fetched(now_ns),
    {
        let chained = match self.last_fetch_ns() {
            Some(last) => last <= now_ns && now_ns - last > FETCH_GAP_NS,
            None => false,
        };
        self.fetch_timestamps_ns.push(now_ns);
        if let Some(req) = &mut self.current {
            req.count_fetch(chained);
        }
    }

    /// Record a `fetch()` call.
    pub fn record_fetch_call(&mut self)
        requires
            old(self)@.wf(),
            old(self)@.can_fetch(),
        ensures
            final(self)@.wf(),
            exists|now_ns: u128| final(self)@ == #[trigger] old(self)@.fetched(now_ns),
    {
        self.record_fetch_call_at(now_ns());
    }

    /// The time of the last fetch call since the last request start.
    fn last_fetch_ns(&self) -> (last: Option<u128>)
        ensures
            last == self@.last_fetch(),
    {
        let n: usize = self.fetch_timestamps_ns.len();
        if n == 0 {
            None
        } else {
            Some(self.fetch_timestamps_ns[n - 1])
        }
    }

    /// Record a KV read.
    pub fn record_kv_read(&mut self, value_bytes: u64)
        requires
            old(self)@.wf(),
            old(self)@.can_read(value_bytes),
        ensures
            final(self)@.wf(),
            final(self)@ == old(self)@.kv_read(value_bytes),
    {
        if let Some(req) = &mut self.current {
            req.count_kv_read(value_bytes);
        }
    }

    /// Record a KV read for a specific key.
    pub fn record_kv_read_key(&mut self, key: &str, value_bytes: u64)
        requires
            old(self)@.wf(),
            old(self)@.can_read(value_bytes),
        ensures
            final(self)@.wf(),
            final(self)@ == old(self)@.kv_read_key(key@, value_bytes),
    {
        if let Some(req) = &mut self.current {
            req.count_kv_read_key(key, value_bytes);
        }
    }

    /// Record a KV read with value hash for unchanged-read detection. Returns whether the last
    /// checked read of the key saw the same hash.
    pub fn record_kv_read_checked(&mut self, key: &str, value_bytes: u64, value_hash: u64) -> (unchanged: bool)
        requires
            old(self)@.wf(),
            old(self)@.can_read(value_bytes),
        ensures
            final(self)@.wf(),
            unchanged == old(self)@.is_unchanged(key@, value_hash),
            final(self)@ == old(self)@.kv_read_checked(key@, value_bytes, value_hash),
    {
        let unchanged = match self.kv_cache.get(key) {
            Some(prev) => *prev == value_hash,
            None => false,
        };
        self.kv_cache.insert(key.to_owned(), value_hash);
        if let Some(req) = &mut self.current {
            req.count_kv_read_key(key, value_bytes);
            if unchanged {
                req.kv_unchanged_reads += 1;
            }
        }
        unchanged
    }

    /// Record a KV write.
    pub fn record_kv_write(&mut self, value_bytes: u64)
        requires
            old(self)@.wf(),
            old(self)@.can_write(value_bytes),
        ensures
            final(self)@.wf(),
            final(self)@ == old(self)@.kv_written(value_bytes),
    {
        if let Some(req) = &mut self.current {
            req.count_kv_write(value_bytes);
        }
    }

    /// Set peak memory for the current request.
    pub fn set_request_peak_memory_mb(&mut self, mb: u64)
        requires
            old(self)@.wf(),
        ensures
            final(self)@.wf(),
            final(self)@ == old(self)@.with_peak_memory(mb),
    {
        if let Some(req) = &mut self.current {
            req.peak_memory_mb = mb;
        }
    }

    /// Set total alloc bytes for the current request.
    pub fn set_request_alloc_bytes(&mut self, bytes: u64)
        requires
            old(self)@.wf(),
        ensures
            final(self)@.wf(),
            final(self)@ == old(self)@.with_alloc_bytes(bytes),
    {
        if let Some(req) = &mut self.current {
            req.alloc_bytes = bytes;
        }
    }

    /// Override CPU time for the current request.
    pub fn set_request_cpu_ms(&mut self, ms: u64)
        requires
            old(self)@.wf(),
        ensures
            final(self)@.wf(),
            final(self)@ == old(self)@.with_cpu(ms),
    {
        if let Some(req) = &mut self.current {
            req.cpu_ms = ms;
            self.cpu_set = true;
        }
    }

    /// Record the total number of keys in an eagerly-loaded config map.
    pub fn set_kv_total_keys(&mut self, total: u32)
        requires
            old(self)@.wf(),
        ensures
            final(self)@.wf(),
            final(self)@ == old(self)@.with_total_keys(total),
    {
        if let Some(req) = &mut self.current {
            req.kv_keys_total = total;
        }
    }

    // ---- accessors ------------------------------------------------------

    /// The budget that the profiler was created with.
    pub fn budget(&self) -> (budget: &EdgeBudget)
        ensures
            *budget == self@.budget,
    {
        &self.budget
    }

    /// The init phase.
    pub fn init(&self) -> (init: &InitPhase)
        ensures
            *init == self@.init,
    {
        &self.init
    }

    /// The completed requests.
    pub fn requests(&self) -> (requests: &[PerRequestProfile])
        ensures
            request_views(requests@) == self@.requests,
    {
        self.requests.as_slice()
    }

    /// Latest completed request, or `None`.
    pub fn last_request(&self) -> (last: Option<&PerRequestProfile>)
        ensures
            last is Some <==> self@.requests.len() > 0,
            last matches Some(req) ==> req@ == self@.requests.last(),
    {
        let n: usize = self.requests.len();
        if n == 0 {
            None
        } else {
            Some(&self.requests[n - 1])
        }
    }

    /// Average wall time across all recorded requests.
    pub fn avg_request_wall_ms(&self) -> (avg: Binary64)
        ensures
            avg.bits == binary64::pattern(binary64::mean(wall_times(self@.requests))),
    {
        self.mean_wall_ms().to_binary64()
    }

    /// Average number of fetch calls across all recorded requests.
    pub fn avg_fetch_calls(&self) -> (avg: Binary64)
        ensures
            avg.bits == binary64::pattern(binary64::mean(fetch_counts(self@.requests))),
    {
        self.mean_fetch_calls().to_binary64()
    }

    pub(crate) fn mean_wall_ms(&self) -> (avg: Rounded)
        ensures
            avg@ == binary64::mean(wall_times(self@.requests)),
            avg.in_range(),
    {
        let mut times: Vec<u64> = Vec::new();
        let mut i: usize = 0;
        while i < self.requests.len()
            invariant
                i <= self.requests.len(),
                times@ == wall_times(self@.requests).take(i as int),
            decreases self.requests.len() - i,
        {
            times.push(self.requests[i].wall_ms);
            i += 1;
        }
        assert(times@ =~= wall_times(self@.requests));
        average(&times)
    }

    pub(crate) fn mean_fetch_calls(&self) -> (avg: Rounded)
        ensures
            avg@ == binary64::mean(fetch_counts(self@.requests)),
            avg.in_range(),
    {
        let mut counts: Vec<u64> = Vec::new();
        let mut i: usize = 0;
        while i < self.requests.len()
            invariant
                i <= self.requests.len(),
                counts@ == fetch_counts(self@.requests).take(i as int),
            decreases self.requests.len() - i,
        {
            counts.push(self.requests[i].fetch_calls as u64);
            i += 1;
        }
        assert(counts@ =~= fetch_counts(self@.requests));
        average(&counts)
    }

    /// The sum of a counter over all recorded requests.
    pub(crate) fn total_of(&self, counter: Counter) -> (sum: u128)
        ensures
            sum == total(self@.requests, counter),
    {
        let mut sum: u128 = 0;
        let mut i: usize = 0;
        while i < self.requests.len()
            invariant
                i <= self.requests.len(),
                sum == total(self@.requests.take(i as int), counter),
                sum <= i * 0xFFFF_FFFF,
            decreases self.requests.len() - i,
        {
            let req = &self.requests[i];
            let count: u32 = match counter {
                Counter::FetchCalls => req.fetch_calls,
                Counter::SequentialChains => req.sequential_fetch_chains,
                Counter::KvReads => req.kv_reads,
                Counter::KvWrites => req.kv_writes,
                Counter::UnchangedReads => req.kv_unchanged_reads,
            };
            proof {
                let upto = self@.requests.take(i + 1);
                assert(upto.drop_last() =~= self@.requests.take(i as int));
                assert(upto.last() == req@);
            }
            sum += count as u128;
            i += 1;
        }
        assert(self@.requests.take(i as int) =~= self@.requests);
        sum
    }
}

} // verus!
