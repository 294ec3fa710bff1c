//! Waste detection heuristics.
//!
//! The detector looks at profiler data through the lens of a budget and
//! produces a list of [`Waste`] items — concrete things you can fix.

use vstd::hash_set::StringHashSet;
use vstd::prelude::*;

use crate::binary64::{self, divide, divide_percent, Binary64};
use crate::budget::EdgeBudget;
use crate::profiler::{self, Counter, InitPhase, PerRequestProfile, Profiler, ProfilerView, RequestView};
use crate::text::{self, push_decimal};

verus! {

/// The default fraction threshold for sparse-access detection: one tenth.
pub const DEFAULT_SPARSE_THRESHOLD_BITS: u64 = 0x3FB9_9999_9999_999A;

/// The default bundle-size threshold: 2 MB.
pub const DEFAULT_BUNDLE_BYTES: u64 = 2_097_152;

/// Category of detected waste.
#[derive(Debug, Clone, PartialEq, Eq, Structural)]
pub enum WasteKind {
    /// Init code that runs on every cold start but is only needed by a small
    /// fraction of requests.
    EagerInit,
    /// The WASM bundle (or a large data file) is bigger than necessary.
    OversizedBundle,
    /// Sequential `fetch()` calls that could be fired in parallel with
    /// `Promise::all` or similar.
    SequentialFetches,
    /// KV reads for data that hasn't changed since last read (or is rarely
    /// used).
    UnchangedKvReads,
    /// More KV keys loaded than actually accessed — indicates a sparse-access
    /// pattern.
    SparseKvAccess,
    /// Cold-start wall time exceeds the budget.
    ColdStartOverBudget,
    /// Per-request CPU time exceeds the budget.
    CpuTimeOverBudget,
    /// Subrequest count exceeds the budget.
    SubrequestOverBudget,
    /// Memory usage exceeds the budget.
    MemoryOverBudget,
}

/// The name of a category in reports.
pub open spec fn kind_name(kind: WasteKind) -> Seq<char> {
    match kind {
        WasteKind::EagerInit => "eager-init"@,
        WasteKind::OversizedBundle => "oversized-bundle"@,
        WasteKind::SequentialFetches => "sequential-fetches"@,
        WasteKind::UnchangedKvReads => "unchanged-kv-reads"@,
        WasteKind::SparseKvAccess => "sparse-kv-access"@,
        WasteKind::ColdStartOverBudget => "cold-start-over-budget"@,
        WasteKind::CpuTimeOverBudget => "cpu-time-over-budget"@,
        WasteKind::SubrequestOverBudget => "subrequest-over-budget"@,
        WasteKind::MemoryOverBudget => "memory-over-budget"@,
    }
}

impl WasteKind {
    /// The name of this category in reports.
    pub fn as_str(&self) -> (name: &'static str)
        ensures
            name@ == kind_name(*self),
    {
        match self {
            WasteKind::EagerInit => "eager-init",
            WasteKind::OversizedBundle => "oversized-bundle",
            WasteKind::SequentialFetches => "sequential-fetches",
            WasteKind::UnchangedKvReads => "unchanged-kv-reads",
            WasteKind::SparseKvAccess => "sparse-kv-access",
            WasteKind::ColdStartOverBudget => "cold-start-over-budget",
            WasteKind::CpuTimeOverBudget => "cpu-time-over-budget",
            WasteKind::SubrequestOverBudget => "subrequest-over-budget",
            WasteKind::MemoryOverBudget => "memory-over-budget",
        }
    }
}

/// A single detected waste item with an actionable suggestion.
#[derive(Debug, Clone)]
pub struct Waste {
    pub kind: WasteKind,
    /// Human-readable description of what was detected.
    pub description: String,
    /// Suggested fix.
    pub suggestion: String,
    /// Estimated impact (e.g. "saves ~45ms per cold start").
    pub estimated_impact: String,
}

/// What a waste item says.
#[verifier::ext_equal]
pub struct WasteView {
    pub kind: WasteKind,
    pub description: Seq<char>,
    pub suggestion: Seq<char>,
    pub estimated_impact: Seq<char>,
}

impl View for Waste {
    type V = WasteView;

    open spec fn view(&self) -> WasteView {
        WasteView {
            kind: self.kind,
            description: self.description@,
            suggestion: self.suggestion@,
            estimated_impact: self.estimated_impact@,
        }
    }
}

/// What each of the waste items says.
pub open spec fn waste_views(wastes: Seq<Waste>) -> Seq<WasteView> {
    Seq::new(wastes.len(), |i: int| wastes[i]@)
}

// ---- what is waste ------------------------------------------------------

/// A cold start over budget.
pub open spec fn cold_start_wastes(init: InitPhase, budget: EdgeBudget) -> Seq<WasteView> {
    if init.wall_ms > budget.max_cold_start_ms {
        seq![
            WasteView {
                kind: WasteKind::ColdStartOverBudget,
                description: "Cold-start wall time is "@ + text::decimal(init.wall_ms as nat)
                    + "ms, budget is "@ + text::decimal(budget.max_cold_start_ms as nat) + "ms."@,
                suggestion: "Defer non-critical init to first-use. Lazy-load config, dictionaries, and large data structures."@,
                estimated_impact: "Reducing init by "@ + text::decimal(
                    (init.wall_ms - budget.max_cold_start_ms) as nat,
                ) + "ms would bring you within budget."@,
            },
        ]
    } else {
        seq![]
    }
}

/// The keys that some request accessed.
pub open spec fn keys_used(requests: Seq<RequestView>) -> Set<Seq<char>> {
    Set::new(
        |key: Seq<char>|
            exists|i: int|
                0 <= i < requests.len() && (#[trigger] requests[i]).kv_keys_accessed.contains(key),
    )
}

/// Whether the share of a part in a whole, as a binary64 number, is below `threshold`.
pub open spec fn share_below(part: nat, whole: nat, threshold: Binary64) -> bool {
    binary64::less(binary64::pattern(binary64::quotient(part, whole)) as u64, threshold.bits)
}

/// Whether so few of the eagerly loaded resources were used that their share is below `threshold`.
/// Where no key was accessed, or as many as there were loads, nothing is flagged.
pub open spec fn is_eager(used: nat, eager_loads: u32, threshold: Binary64) -> bool {
    &&& 0 < used < eager_loads
    &&& share_below(used, eager_loads as nat, threshold)
}

/// Eager loads that hardly any request needs.
pub open spec fn eager_init_wastes(
    init: InitPhase,
    requests: Seq<RequestView>,
    threshold: Binary64,
) -> Seq<WasteView> {
    let used = keys_used(requests).len();
    if is_eager(used, init.eager_loads, threshold) {
        seq![
            WasteView {
                kind: WasteKind::EagerInit,
                description: "Init eagerly loads "@ + text::decimal(init.eager_loads as nat)
                    + " resources, but only "@ + text::decimal(used) + " ("@
                    + binary64::whole_text(binary64::percent(used, init.eager_loads as nat))
                    + "%) are used per request."@,
                suggestion: "Switch to lazy loading. Wrap expensive init in `std::sync::OnceLock` or `lazy_static!` so it only runs when first needed."@,
                estimated_impact: "Deferring "@ + text::decimal((init.eager_loads - used) as nat)
                    + " unused loads could save ~"@ + text::decimal(init.wall_ms as nat / 2)
                    + "ms per cold start."@,
            },
        ]
    } else {
        seq![]
    }
}

/// An init phase that loads more than `limit` bytes.
pub open spec fn bundle_wastes(init: InitPhase, limit: u64) -> Seq<WasteView> {
    if init.bytes_loaded > limit {
        seq![
            WasteView {
                kind: WasteKind::OversizedBundle,
                description: "Init loads "@ + binary64::tenths_text(
                    binary64::quotient(init.bytes_loaded as nat, 1_048_576),
                ) + " MB of data. Large bundles increase cold-start time and memory pressure."@,
                suggestion: "Split data into small hot paths and lazy-loaded cold paths. Consider compressing static data or moving it to KV/R2."@,
                estimated_impact: "Shaving 50% could save ~"@ + text::decimal(
                    init.wall_ms as nat / 2,
                ) + "ms cold-start time."@,
            },
        ]
    } else {
        seq![]
    }
}

/// Fetch calls made one after the other.
pub open spec fn fetch_wastes(requests: Seq<RequestView>) -> Seq<WasteView> {
    let chains = profiler::total(requests, Counter::SequentialChains);
    let fetches = profiler::total(requests, Counter::FetchCalls);
    if chains > 0 && fetches > 1 {
        seq![
            WasteView {
                kind: WasteKind::SequentialFetches,
                description: text::decimal(chains) + " sequential fetch chains detected across "@
                    + text::decimal(requests.len()) + " requests (avg "@ + binary64::tenths_text(
                    binary64::quotient(chains, requests.len()),
                ) + "/req). Total fetches: "@ + text::decimal(fetches) + "."@,
                suggestion: "Fire independent fetches concurrently using `Promise::all` or `futures::join!`. Only chain when request B depends on response A."@,
                estimated_impact: "Parallelizing could cut fetch latency by ~50% for independent calls."@,
            },
        ]
    } else {
        seq![]
    }
}

/// Whether more than 30% of the KV reads returned unchanged data.
pub open spec fn is_unchanged_heavy(unchanged: nat, reads: nat) -> bool {
    reads > 0 && 100 * unchanged > 30 * reads
}

/// KV reads that return what an earlier read returned.
pub open spec fn unchanged_wastes(requests: Seq<RequestView>) -> Seq<WasteView> {
    let unchanged = profiler::total(requests, Counter::UnchangedReads);
    let reads = profiler::total(requests, Counter::KvReads);
    if is_unchanged_heavy(unchanged, reads) {
        seq![
            WasteView {
                kind: WasteKind::UnchangedKvReads,
                description: text::decimal(unchanged) + "/"@ + text::decimal(reads)
                    + " KV reads ("@ + binary64::whole_text(binary64::percent(unchanged, reads))
                    + "%) returned unchanged data."@,
                suggestion: "Cache KV values in-memory with a TTL. Skip re-reading keys that haven't expired. Consider using KV `cacheTtl` option."@,
                estimated_impact: "Eliminating "@ + text::decimal(unchanged)
                    + " redundant reads would save ~"@ + text::decimal(2 * unchanged)
                    + "ms per request."@,
            },
        ]
    } else {
        seq![]
    }
}

/// Whether a request loaded more than 20 keys and accessed some of them, but so few that their
/// share is below `threshold`. Where as many keys were accessed as were loaded, nothing is flagged.
pub open spec fn is_sparse(req: RequestView, threshold: Binary64) -> bool {
    let accessed = req.kv_keys_accessed.len();
    &&& req.kv_keys_total > 20
    &&& 0 < accessed < req.kv_keys_total
    &&& share_below(accessed, req.kv_keys_total as nat, threshold)
}

pub open spec fn sparse_waste(req: RequestView) -> WasteView {
    let accessed = req.kv_keys_accessed.len();
    WasteView {
        kind: WasteKind::SparseKvAccess,
        description: "Loaded "@ + text::decimal(req.kv_keys_total as nat)
            + " KV keys but only accessed "@ + text::decimal(accessed) + " ("@
            + binary64::whole_text(binary64::percent(accessed, req.kv_keys_total as nat))
            + "%) per request."@,
        suggestion: "Load only the keys you need. Use a manifest index and lazy-load the rest on demand."@,
        estimated_impact: "Loading "@ + text::decimal(accessed) + " instead of "@ + text::decimal(
            req.kv_keys_total as nat,
        ) + " keys could save ~"@ + text::decimal(((req.kv_keys_total - accessed) * 256) as nat)
            + "KB per request."@,
    }
}

/// Requests that load many KV keys and access few.
pub open spec fn sparse_wastes(requests: Seq<RequestView>, threshold: Binary64) -> Seq<WasteView>
    decreases requests.len(),
{
    if requests.len() == 0 {
        seq![]
    } else if is_sparse(requests.last(), threshold) {
        sparse_wastes(requests.drop_last(), threshold).push(sparse_waste(requests.last()))
    } else {
        sparse_wastes(requests.drop_last(), threshold)
    }
}

pub open spec fn cpu_waste(number: nat, cpu_ms: u64, limit_ms: u64) -> WasteView {
    WasteView {
        kind: WasteKind::CpuTimeOverBudget,
        description: "Request #"@ + text::decimal(number) + " used "@ + text::decimal(cpu_ms as nat)
            + "ms CPU time, budget is "@ + text::decimal(limit_ms as nat) + "ms."@,
        suggestion: "Profile hot paths. Consider caching computation results, reducing JSON parsing, or offloading heavy work to Durable Objects."@,
        estimated_impact: "Cutting CPU time by "@ + text::decimal((cpu_ms - limit_ms) as nat)
            + "ms meets the budget."@,
    }
}

/// Requests whose CPU time is over the limit.
pub open spec fn cpu_wastes(requests: Seq<RequestView>, limit_ms: u64) -> Seq<WasteView>
    decreases requests.len(),
{
    if requests.len() == 0 {
        seq![]
    } else if requests.last().cpu_ms > limit_ms {
        cpu_wastes(requests.drop_last(), limit_ms).push(
            cpu_waste(requests.len(), requests.last().cpu_ms, limit_ms),
        )
    } else {
        cpu_wastes(requests.drop_last(), limit_ms)
    }
}

/// An init phase whose peak memory is over the limit.
pub open spec fn init_memory_wastes(init: InitPhase, limit_mb: u64) -> Seq<WasteView> {
    if init.peak_memory_mb > limit_mb {
        seq![
            WasteView {
                kind: WasteKind::MemoryOverBudget,
                description: "Init peak memory is "@ + text::decimal(init.peak_memory_mb as nat)
                    + "MB, budget is "@ + text::decimal(limit_mb as nat) + "MB."@,
                suggestion: "Reduce in-memory data structures. Stream large payloads instead of buffering. Use KV or R2 for large datasets."@,
                estimated_impact: "Reducing memory avoids OOM kills and improves cold-start performance."@,
            },
        ]
    } else {
        seq![]
    }
}

pub open spec fn memory_waste(number: nat, peak_mb: u64, limit_mb: u64) -> WasteView {
    WasteView {
        kind: WasteKind::MemoryOverBudget,
        description: "Request #"@ + text::decimal(number) + " peak memory is "@ + text::decimal(
            peak_mb as nat,
        ) + "MB, budget is "@ + text::decimal(limit_mb as nat) + "MB."@,
        suggestion: "Avoid buffering entire response bodies. Stream processing or paginate large results."@,
        estimated_impact: "Reducing by "@ + text::decimal((peak_mb - limit_mb) as nat)
            + "MB avoids memory pressure."@,
    }
}

/// Requests whose peak memory is over the limit.
pub open spec fn memory_wastes(requests: Seq<RequestView>, limit_mb: u64) -> Seq<WasteView>
    decreases requests.len(),
{
    if requests.len() == 0 {
        seq![]
    } else if requests.last().peak_memory_mb > limit_mb {
        memory_wastes(requests.drop_last(), limit_mb).push(
            memory_waste(requests.len(), requests.last().peak_memory_mb, limit_mb),
        )
    } else {
        memory_wastes(requests.drop_last(), limit_mb)
    }
}

pub open spec fn subrequest_waste(number: nat, calls: u32, limit: u32) -> WasteView {
    WasteView {
        kind: WasteKind::SubrequestOverBudget,
        description: "Request #"@ + text::decimal(number) + " made "@ + text::decimal(calls as nat)
            + " fetch calls, budget is "@ + text::decimal(limit as nat) + "."@,
        suggestion: "Batch API calls. Use GraphQL field selection. Cache responses. Merge sequential fetches into one."@,
        estimated_impact: "Reducing from "@ + text::decimal(calls as nat) + " to "@ + text::decimal(
            limit as nat,
        ) + " fetches stays within limits."@,
    }
}

/// Requests with more fetch calls than the limit.
pub open spec fn subrequest_wastes(requests: Seq<RequestView>, limit: u32) -> Seq<WasteView>
    decreases requests.len(),
{
    if requests.len() == 0 {
        seq![]
    } else if requests.last().fetch_calls > limit {
        subrequest_wastes(requests.drop_last(), limit).push(
            subrequest_waste(requests.len(), requests.last().fetch_calls, limit),
        )
    } else {
        subrequest_wastes(requests.drop_last(), limit)
    }
}

/// What a detector looks at, and its thresholds.
pub struct DetectorView {
    pub profiler: ProfilerView,
    pub budget: EdgeBudget,
    pub sparse_threshold: Binary64,
    pub oversized_bundle_bytes: u64,
}

impl DetectorView {
    /// All wastes, heuristic by heuristic.
    pub open spec fn wastes(self) -> Seq<WasteView> {
        let init = self.profiler.init;
        let requests = self.profiler.requests;
        cold_start_wastes(init, self.budget) + eager_init_wastes(
            init,
            requests,
            self.sparse_threshold,
        ) + bundle_wastes(init, self.oversized_bundle_bytes) + fetch_wastes(requests)
            + unchanged_wastes(requests) + sparse_wastes(requests, self.sparse_threshold) + cpu_wastes(
            requests,
            self.budget.max_cpu_time_per_request_ms,
        ) + init_memory_wastes(init, self.budget.max_memory_mb) + memory_wastes(
            requests,
            self.budget.max_memory_mb,
        ) + subrequest_wastes(requests, self.budget.max_subrequests)
    }

    /// Whether the fetch calls of all requests can be counted in 32 bits.
    pub open spec fn fetches_countable(self) -> bool {
        profiler::total(self.profiler.requests, Counter::FetchCalls) <= u32::MAX
    }

    /// Whether the KV reads of all requests can be counted in 32 bits, and the estimate for
    /// unchanged reads too where it is made.
    pub open spec fn reads_countable(self) -> bool {
        let unchanged = profiler::total(self.profiler.requests, Counter::UnchangedReads);
        let reads = profiler::total(self.profiler.requests, Counter::KvReads);
        &&& reads <= u32::MAX
        &&& is_unchanged_heavy(unchanged, reads) ==> 2 * unchanged <= u32::MAX
    }

    /// Whether the estimates for sparse access fit in 32 bits where they are made.
    pub open spec fn sparse_countable(self) -> bool {
        let requests = self.profiler.requests;
        forall|i: int|
            0 <= i < requests.len() && is_sparse(#[trigger] requests[i], self.sparse_threshold) ==> (
            requests[i].kv_keys_total - requests[i].kv_keys_accessed.len()) * 256 <= u32::MAX
    }

    /// Whether all numbers that the heuristics compute fit in 32 bits.
    pub open spec fn countable(self) -> bool {
        &&& self.fetches_countable()
        &&& self.reads_countable()
        &&& self.sparse_countable()
    }
}

/// Runs all waste-detection heuristics.
pub struct Detector<'a> {
    profiler: &'a Profiler,
    budget: &'a EdgeBudget,
    /// Threshold: if less than this fraction of the eagerly-loaded resources, or
    /// of the keys that a request loaded, is used, flag it.
    sparse_threshold: Binary64,
    /// Threshold: if the init phase loads more than this many bytes, flag it.
    oversized_bundle_bytes: u64,
}

impl<'a> View for Detector<'a> {
    type V = DetectorView;

    closed spec fn view(&self) -> DetectorView {
        DetectorView {
            profiler: self.profiler@,
            budget: *self.budget,
            sparse_threshold: self.sparse_threshold,
            oversized_bundle_bytes: self.oversized_bundle_bytes,
        }
    }
}

impl<'a> Detector<'a> {
    /// A detector with the default thresholds.
    pub fn new(profiler: &'a Profiler, budget: &'a EdgeBudget) -> (detector: Self)
        ensures
            detector@ == (DetectorView {
                profiler: profiler@,
                budget: *budget,
                sparse_threshold: Binary64 { bits: DEFAULT_SPARSE_THRESHOLD_BITS },
                oversized_bundle_bytes: DEFAULT_BUNDLE_BYTES,
            }),
    {
        Self {
            profiler,
            budget,
            sparse_threshold: Binary64 { bits: DEFAULT_SPARSE_THRESHOLD_BITS },
            oversized_bundle_bytes: DEFAULT_BUNDLE_BYTES,
        }
    }

    /// Set the fraction threshold for sparse-access detection (default 0.10).
    pub fn with_sparse_threshold(self, t: Binary64) -> (detector: Self)
        ensures
            detector@ == (DetectorView { sparse_threshold: t, ..self@ }),
    {
        Self { sparse_threshold: t, ..self }
    }

    /// Set the bundle-size threshold in bytes (default 2 MB).
    pub fn with_bundle_threshold(self, bytes: u64) -> (detector: Self)
        ensures
            detector@ == (DetectorView { oversized_bundle_bytes: bytes, ..self@ }),
    {
        Self { oversized_bundle_bytes: bytes, ..self }
    }

    /// Run all detection heuristics and return the list of wastes found.
    pub fn detect(&self) -> (wastes: Vec<Waste>)
        requires
            self@.profiler.wf(),
            self@.countable(),
        ensures
            waste_views(wastes@) == self@.wastes(),
    {
        let mut wastes: Vec<Waste> = Vec::new();
        assert(waste_views(wastes@) =~= Seq::<WasteView>::empty());

        self.detect_cold_start(&mut wastes);
        assert(waste_views(wastes@) =~= cold_start_wastes(self@.profiler.init, self@.budget));
        self.detect_eager_init(&mut wastes);
        self.detect_oversized_bundle(&mut wastes);
        self.detect_sequential_fetches(&mut wastes);
        self.detect_unchanged_kv(&mut wastes);
        self.detect_sparse_kv(&mut wastes);
        self.detect_cpu_over_budget(&mut wastes);
        self.detect_memory_over_budget(&mut wastes);
        self.detect_subrequest_over_budget(&mut wastes);

        wastes
    }

    /// Like [`Detector::detect`], but returns `None` where a number that the heuristics compute
    /// does not fit in 32 bits.
    pub fn try_detect(&self) -> (wastes: Option<Vec<Waste>>)
        requires
            self@.profiler.wf(),
        ensures
            wastes is Some <==> self@.countable(),
            wastes matches Some(found) ==> waste_views(found@) == self@.wastes(),
    {
        if self.is_countable() {
            Some(self.detect())
        } else {
            None
        }
    }

    /// Whether all numbers that the heuristics compute fit in 32 bits.
    fn is_countable(&self) -> (result: bool)
        requires
            self@.profiler.wf(),
        ensures
            result == self@.countable(),
    {
        let most: u128 = 0xFFFF_FFFF;
        proof {
            lemma_totals_ordered(self@.profiler.requests);
        }
        let unchanged: u128 = self.profiler.total_of(Counter::UnchangedReads);
        let reads: u128 = self.profiler.total_of(Counter::KvReads);
        if self.profiler.total_of(Counter::FetchCalls) > most || reads > most {
            return false;
        }
        if reads > 0 && 10 * unchanged > 3 * reads && 2 * unchanged > most {
            return false;
        }
        let requests = self.profiler.requests();
        let ghost views = self@.profiler.requests;
        let mut i: usize = 0;
        while i < requests.len()
            invariant
                i <= requests.len(),
                views == profiler::request_views(requests@),
                views == self@.profiler.requests,
                self@.profiler.wf(),
                forall|j: int|
                    0 <= j < i && is_sparse(#[trigger] views[j], self@.sparse_threshold) ==> (
                    views[j].kv_keys_total - views[j].kv_keys_accessed.len()) * 256 <= u32::MAX,
            decreases requests.len() - i,
        {
            let req = &requests[i];
            assert(views[i as int].wf());
            if self.is_sparse_request(req) {
                let unused: u64 = req.kv_keys_total as u64 - req.kv_keys_accessed.len() as u64;
                if unused * 256 > 0xFFFF_FFFF {
                    assert(is_sparse(views[i as int], self@.sparse_threshold));
                    return false;
                }
            }
            i += 1;
        }
        true
    }

    // ---- individual heuristics ------------------------------------------

    fn detect_cold_start(&self, out: &mut Vec<Waste>)
        ensures
            waste_views(final(out)@) == waste_views(old(out)@) + cold_start_wastes(
                self@.profiler.init,
                self@.budget,
            ),
    {
        let init = self.profiler.init();
        let limit: u64 = self.budget.max_cold_start_ms;
        if init.wall_ms > limit {
            let mut description = "Cold-start wall time is ".to_owned();
            push_decimal(&mut description, init.wall_ms as u128);
            description.append("ms, budget is ");
            push_decimal(&mut description, limit as u128);
            description.append("ms.");
            let mut impact = "Reducing init by ".to_owned();
            push_decimal(&mut impact, (init.wall_ms - limit) as u128);
            impact.append("ms would bring you within budget.");
            out.push(Waste {
                kind: WasteKind::ColdStartOverBudget,
                description,
                suggestion: "Defer non-critical init to first-use. Lazy-load config, dictionaries, and large data structures.".to_owned(),
                estimated_impact: impact,
            });
        }
        assert(waste_views(out@) =~= waste_views(old(out)@) + cold_start_wastes(
            self@.profiler.init,
            self@.budget,
        ));
    }

    /// The number of distinct keys that the recorded requests accessed.
    fn count_keys_used(&self) -> (n: usize)
        ensures
            n == keys_used(self@.profiler.requests).len(),
    {
        let requests = self.profiler.requests();
        let ghost views = self@.profiler.requests;
        let mut used = StringHashSet::new();
        let mut i: usize = 0;
        while i < requests.len()
            invariant
                i <= requests.len(),
                views == profiler::request_views(requests@),
                used@ == keys_used(views.take(i as int)),
            decreases requests.len() - i,
        {
            let keys = &requests[i].kv_keys_accessed;
            let mut j: usize = 0;
            while j < keys.len()
                invariant
                    i < requests.len(),
                    j <= keys.len(),
                    views == profiler::request_views(requests@),
                    *keys == requests[i as int].kv_keys_accessed,
                    used@ == keys_used(views.take(i as int)).union(
                        text::contents(keys@).take(j as int).to_set(),
                    ),
                decreases keys.len() - j,
            {
                let ghost before = text::contents(keys@).take(j as int);
                let ghost after = text::contents(keys@).take(j + 1);
                assert(after =~= before.push(keys[j as int]@));
                used.insert(keys[j].clone());
                proof {
                    assert forall|key: Seq<char>| after.to_set().contains(key) == (
                    before.to_set().contains(key) || key == keys[j as int]@) by {
                        if before.contains(key) {
                            let k = choose|k: int| 0 <= k < before.len() && before[k] == key;
                            assert(after[k] == key);
                        }
                        assert(after[j as int] == keys[j as int]@);
                        if after.contains(key) {
                            let k = choose|k: int| 0 <= k < after.len() && after[k] == key;
                            if k < j {
                                assert(before[k] == key);
                            }
                        }
                    }
                    assert(used@ =~= keys_used(views.take(i as int)).union(after.to_set()));
                }
                j += 1;
            }
            proof {
                let all = text::contents(keys@);
                assert(all.take(j as int) =~= all);
                assert(views[i as int].kv_keys_accessed =~= all);
                let before = views.take(i as int);
                let after = views.take(i + 1);
                assert forall|key: Seq<char>| keys_used(after).contains(key) == (keys_used(before).contains(
                    key,
                ) || all.contains(key)) by {
                    if keys_used(before).contains(key) {
                        let k = choose|k: int|
                            0 <= k < before.len() && (#[trigger] before[k]).kv_keys_accessed.contains(key);
                        assert(after[k].kv_keys_accessed.contains(key));
                    }
                    if all.contains(key) {
                        assert(after[i as int].kv_keys_accessed.contains(key));
                    }
                    if keys_used(after).contains(key) {
                        let k = choose|k: int|
                            0 <= k < after.len() && (#[trigger] after[k]).kv_keys_accessed.contains(key);
                        if k < i {
                            assert(before[k].kv_keys_accessed.contains(key));
                        }
                    }
                }
                assert(used@ =~= keys_used(after));
            }
            i += 1;
        }
        assert(views.take(i as int) =~= views);
        used.len()
    }

    fn detect_eager_init(&self, out: &mut Vec<Waste>)
        ensures
            waste_views(final(out)@) == waste_views(old(out)@) + eager_init_wastes(
                self@.profiler.init,
                self@.profiler.requests,
                self@.sparse_threshold,
            ),
    {
        let init = self.profiler.init();
        let used: usize = self.count_keys_used();
        if used > 0 && used as u64 <= u32::MAX as u64 && (used as u32) < init.eager_loads {
            let ratio = divide(used as u64, init.eager_loads as u64);
            if ratio.to_binary64().is_less(self.sparse_threshold) {
                let mut description = "Init eagerly loads ".to_owned();
                push_decimal(&mut description, init.eager_loads as u128);
                description.append(" resources, but only ");
                push_decimal(&mut description, used as u128);
                description.append(" (");
                divide_percent(used as u32, init.eager_loads).push_whole(&mut description);
                description.append("%) are used per request.");
                let mut impact = "Deferring ".to_owned();
                push_decimal(&mut impact, (init.eager_loads - used as u32) as u128);
                impact.append(" unused loads could save ~");
                push_decimal(&mut impact, (init.wall_ms / 2) as u128);
                impact.append("ms per cold start.");
                out.push(Waste {
                    kind: WasteKind::EagerInit,
                    description,
                    suggestion: "Switch to lazy loading. Wrap expensive init in `std::sync::OnceLock` or `lazy_static!` so it only runs when first needed.".to_owned(),
                    estimated_impact: impact,
                });
            }
        }
        assert(waste_views(out@) =~= waste_views(old(out)@) + eager_init_wastes(
            self@.profiler.init,
            self@.profiler.requests,
            self@.sparse_threshold,
        ));
    }

    fn detect_oversized_bundle(&self, out: &mut Vec<Waste>)
        ensures
            waste_views(final(out)@) == waste_views(old(out)@) + bundle_wastes(
                self@.profiler.init,
                self@.oversized_bundle_bytes,
            ),
    {
        let init = self.profiler.init();
        if init.bytes_loaded > self.oversized_bundle_bytes {
            let mut description = "Init loads ".to_owned();
            divide(init.bytes_loaded, 1_048_576).push_tenths(&mut description);
            description.append(" MB of data. Large bundles increase cold-start time and memory pressure.");
            let mut impact = "Shaving 50% could save ~".to_owned();
            push_decimal(&mut impact, (init.wall_ms / 2) as u128);
            impact.append("ms cold-start time.");
            out.push(Waste {
                kind: WasteKind::OversizedBundle,
                description,
                suggestion: "Split data into small hot paths and lazy-loaded cold paths. Consider compressing static data or moving it to KV/R2.".to_owned(),
                estimated_impact: impact,
            });
        }
        assert(waste_views(out@) =~= waste_views(old(out)@) + bundle_wastes(
            self@.profiler.init,
            self@.oversized_bundle_bytes,
        ));
    }

    fn detect_sequential_fetches(&self, out: &mut Vec<Waste>)
        requires
            self@.profiler.wf(),
            self@.fetches_countable(),
        ensures
            waste_views(final(out)@) == waste_views(old(out)@) + fetch_wastes(
                self@.profiler.requests,
            ),
    {
        proof {
            lemma_totals_ordered(self@.profiler.requests);
        }
        let total_chains: u32 = self.profiler.total_of(Counter::SequentialChains) as u32;
        let total_fetches: u32 = self.profiler.total_of(Counter::FetchCalls) as u32;
        if total_chains > 0 && total_fetches > 1 {
            let count: usize = self.profiler.requests().len();
            let mut description = String::new();
            push_decimal(&mut description, total_chains as u128);
            assert(description@ =~= text::decimal(total_chains as nat));
            description.append(" sequential fetch chains detected across ");
            push_decimal(&mut description, count as u128);
            description.append(" requests (avg ");
            divide(total_chains as u64, count as u64).push_tenths(&mut description);
            description.append("/req). Total fetches: ");
            push_decimal(&mut description, total_fetches as u128);
            description.append(".");
            out.push(Waste {
                kind: WasteKind::SequentialFetches,
                description,
                suggestion: "Fire independent fetches concurrently using `Promise::all` or `futures::join!`. Only chain when request B depends on response A.".to_owned(),
                estimated_impact: "Parallelizing could cut fetch latency by ~50% for independent calls.".to_owned(),
            });
        }
        assert(waste_views(out@) =~= waste_views(old(out)@) + fetch_wastes(self@.profiler.requests));
    }

    fn detect_unchanged_kv(&self, out: &mut Vec<Waste>)
        requires
            self@.profiler.wf(),
            self@.reads_countable(),
        ensures
            waste_views(final(out)@) == waste_views(old(out)@) + unchanged_wastes(
                self@.profiler.requests,
            ),
    {
        proof {
            lemma_totals_ordered(self@.profiler.requests);
        }
        let total_unchanged: u32 = self.profiler.total_of(Counter::UnchangedReads) as u32;
        let total_reads: u32 = self.profiler.total_of(Counter::KvReads) as u32;
        if total_reads > 0 && 10 * total_unchanged as u64 > 3 * total_reads as u64 {
            let mut description = String::new();
            push_decimal(&mut description, total_unchanged as u128);
            assert(description@ =~= text::decimal(total_unchanged as nat));
            description.append("/");
            push_decimal(&mut description, total_reads as u128);
            description.append(" KV reads (");
            divide_percent(total_unchanged, total_reads).push_whole(&mut description);
            description.append("%) returned unchanged data.");
            let mut impact = "Eliminating ".to_owned();
            push_decimal(&mut impact, total_unchanged as u128);
            impact.append(" redundant reads would save ~");
            // A KV read takes roughly 2 ms.
            push_decimal(&mut impact, (total_unchanged * 2) as u128);
            impact.append("ms per request.");
            out.push(Waste {
                kind: WasteKind::UnchangedKvReads,
                description,
                suggestion: "Cache KV values in-memory with a TTL. Skip re-reading keys that haven't expired. Consider using KV `cacheTtl` option.".to_owned(),
                estimated_impact: impact,
            });
        }
        assert(waste_views(out@) =~= waste_views(old(out)@) + unchanged_wastes(
            self@.profiler.requests,
        ));
    }

    fn detect_sparse_kv(&self, out: &mut Vec<Waste>)
        requires
            self@.profiler.wf(),
            self@.sparse_countable(),
        ensures
            waste_views(final(out)@) == waste_views(old(out)@) + sparse_wastes(
                self@.profiler.requests,
                self@.sparse_threshold,
            ),
    {
        let requests = self.profiler.requests();
        let ghost views = self@.profiler.requests;
        let ghost before = waste_views(out@);
        assert(before =~= before + sparse_wastes(views.take(0), self@.sparse_threshold));
        let mut i: usize = 0;
        while i < requests.len()
            invariant
                i <= requests.len(),
                views == profiler::request_views(requests@),
                views == self@.profiler.requests,
                self@.profiler.wf(),
                self@.sparse_countable(),
                waste_views(out@) == before + sparse_wastes(
                    views.take(i as int),
                    self@.sparse_threshold,
                ),
            decreases requests.len() - i,
        {
            let req = &requests[i];
            let ghost so_far = waste_views(out@);
            proof {
                let upto = views.take(i + 1);
                assert(upto.drop_last() =~= views.take(i as int));
                assert(upto.last() == req@);
                assert(views[i as int].wf());
            }
            if self.is_sparse_request(req) {
                out.push(Self::sparse_request_waste(req));
                assert(waste_views(out@) =~= so_far.push(sparse_waste(req@)));
            }
            assert(waste_views(out@) =~= before + sparse_wastes(
                views.take(i + 1),
                self@.sparse_threshold,
            ));
            i += 1;
        }
        assert(views.take(i as int) =~= views);
    }

    /// Whether a request loads many KV keys and accesses few.
    fn is_sparse_request(&self, req: &PerRequestProfile) -> (sparse: bool)
        requires
            req@.wf(),
        ensures
            sparse == is_sparse(req@, self@.sparse_threshold),
    {
        let accessed: u64 = req.kv_keys_accessed.len() as u64;
        let total: u64 = req.kv_keys_total as u64;
        total > 20 && 0 < accessed && accessed < total && divide(
            accessed,
            total,
        ).to_binary64().is_less(self.sparse_threshold)
    }

    fn sparse_request_waste(req: &PerRequestProfile) -> (waste: Waste)
        requires
            req@.wf(),
            req@.kv_keys_total > 0,
            req@.kv_keys_accessed.len() <= req@.kv_keys_total,
            (req@.kv_keys_total - req@.kv_keys_accessed.len()) * 256 <= u32::MAX,
        ensures
            waste@ == sparse_waste(req@),
    {
        let accessed: u32 = req.kv_keys_accessed.len() as u32;
        let mut description = "Loaded ".to_owned();
        push_decimal(&mut description, req.kv_keys_total as u128);
        description.append(" KV keys but only accessed ");
        push_decimal(&mut description, accessed as u128);
        description.append(" (");
        divide_percent(accessed, req.kv_keys_total).push_whole(&mut description);
        description.append("%) per request.");
        let mut impact = "Loading ".to_owned();
        push_decimal(&mut impact, accessed as u128);
        impact.append(" instead of ");
        push_decimal(&mut impact, req.kv_keys_total as u128);
        impact.append(" keys could save ~");
        // A key takes roughly 256 bytes.
        push_decimal(&mut impact, ((req.kv_keys_total - accessed) * 256) as u128);
        impact.append("KB per request.");
        Waste {
            kind: WasteKind::SparseKvAccess,
            description,
            suggestion: "Load only the keys you need. Use a manifest index and lazy-load the rest on demand.".to_owned(),
            estimated_impact: impact,
        }
    }

    fn detect_cpu_over_budget(&self, out: &mut Vec<Waste>)
        ensures
            waste_views(final(out)@) == waste_views(old(out)@) + cpu_wastes(
                self@.profiler.requests,
                self@.budget.max_cpu_time_per_request_ms,
            ),
    {
        let requests = self.profiler.requests();
        let limit: u64 = self.budget.max_cpu_time_per_request_ms;
        let ghost views = self@.profiler.requests;
        let ghost before = waste_views(out@);
        assert(before =~= before + cpu_wastes(views.take(0), limit));
        let mut i: usize = 0;
        while i < requests.len()
            invariant
                i <= requests.len(),
                views == profiler::request_views(requests@),
                waste_views(out@) == before + cpu_wastes(views.take(i as int), limit),
            decreases requests.len() - i,
        {
            let used: u64 = requests[i].cpu_ms;
            let ghost so_far = waste_views(out@);
            proof {
                let upto = views.take(i + 1);
                assert(upto.drop_last() =~= views.take(i as int));
                assert(upto.last() == requests[i as int]@);
            }
            if used > limit {
                let mut description = "Request #".to_owned();
                push_decimal(&mut description, (i + 1) as u128);
                description.append(" used ");
                push_decimal(&mut description, used as u128);
                description.append("ms CPU time, budget is ");
                push_decimal(&mut description, limit as u128);
                description.append("ms.");
                let mut impact = "Cutting CPU time by ".to_owned();
                push_decimal(&mut impact, (used - limit) as u128);
                impact.append("ms meets the budget.");
                out.push(Waste {
                    kind: WasteKind::CpuTimeOverBudget,
                    description,
                    suggestion: "Profile hot paths. Consider caching computation results, reducing JSON parsing, or offloading heavy work to Durable Objects.".to_owned(),
                    estimated_impact: impact,
                });
                assert(waste_views(out@) =~= so_far.push(cpu_waste((i + 1) as nat, used, limit)));
            }
            assert(waste_views(out@) =~= before + cpu_wastes(views.take(i + 1), limit));
            i += 1;
        }
        assert(views.take(i as int) =~= views);
    }

    fn detect_memory_over_budget(&self, out: &mut Vec<Waste>)
        ensures
            waste_views(final(out)@) == waste_views(old(out)@) + init_memory_wastes(
                self@.profiler.init,
                self@.budget.max_memory_mb,
            ) + memory_wastes(self@.profiler.requests, self@.budget.max_memory_mb),
    {
        let init = self.profiler.init();
        let limit: u64 = self.budget.max_memory_mb;
        if init.peak_memory_mb > limit {
            let mut description = "Init peak memory is ".to_owned();
            push_decimal(&mut description, init.peak_memory_mb as u128);
            description.append("MB, budget is ");
            push_decimal(&mut description, limit as u128);
            description.append("MB.");
            out.push(Waste {
                kind: WasteKind::MemoryOverBudget,
                description,
                suggestion: "Reduce in-memory data structures. Stream large payloads instead of buffering. Use KV or R2 for large datasets.".to_owned(),
                estimated_impact: "Reducing memory avoids OOM kills and improves cold-start performance.".to_owned(),
            });
        }
        let ghost before = waste_views(out@);
        assert(before =~= waste_views(old(out)@) + init_memory_wastes(self@.profiler.init, limit));

        let requests = self.profiler.requests();
        let ghost views = self@.profiler.requests;
        assert(before =~= before + memory_wastes(views.take(0), limit));
        let mut i: usize = 0;
        while i < requests.len()
            invariant
                i <= requests.len(),
                views == profiler::request_views(requests@),
                waste_views(out@) == before + memory_wastes(views.take(i as int), limit),
            decreases requests.len() - i,
        {
            let peak: u64 = requests[i].peak_memory_mb;
            let ghost so_far = waste_views(out@);
            proof {
                let upto = views.take(i + 1);
                assert(upto.drop_last() =~= views.take(i as int));
                assert(upto.last() == requests[i as int]@);
            }
            if peak > limit {
                let mut description = "Request #".to_owned();
                push_decimal(&mut description, (i + 1) as u128);
                description.append(" peak memory is ");
                push_decimal(&mut description, peak as u128);
                description.append("MB, budget is ");
                push_decimal(&mut description, limit as u128);
                description.append("MB.");
                let mut impact = "Reducing by ".to_owned();
                push_decimal(&mut impact, (peak - limit) as u128);
                impact.append("MB avoids memory pressure.");
                out.push(Waste {
                    kind: WasteKind::MemoryOverBudget,
                    description,
                    suggestion: "Avoid buffering entire response bodies. Stream processing or paginate large results.".to_owned(),
                    estimated_impact: impact,
                });
                assert(waste_views(out@) =~= so_far.push(memory_waste((i + 1) as nat, peak, limit)));
            }
            assert(waste_views(out@) =~= before + memory_wastes(views.take(i + 1), limit));
            i += 1;
        }
        assert(views.take(i as int) =~= views);
    }

    fn detect_subrequest_over_budget(&self, out: &mut Vec<Waste>)
        ensures
            waste_views(final(out)@) == waste_views(old(out)@) + subrequest_wastes(
                self@.profiler.requests,
                self@.budget.max_subrequests,
            ),
    {
        let requests = self.profiler.requests();
        let limit: u32 = self.budget.max_subrequests;
        let ghost views = self@.profiler.requests;
        let ghost before = waste_views(out@);
        assert(before =~= before + subrequest_wastes(views.take(0), limit));
        let mut i: usize = 0;
        while i < requests.len()
            invariant
                i <= requests.len(),
                views == profiler::request_views(requests@),
                waste_views(out@) == before + subrequest_wastes(views.take(i as int), limit),
            decreases requests.len() - i,
        {
            let calls: u32 = requests[i].fetch_calls;
            let ghost so_far = waste_views(out@);
            proof {
                let upto = views.take(i + 1);
                assert(upto.drop_last() =~= views.take(i as int));
                assert(upto.last() == requests[i as int]@);
            }
            if calls > limit {
                let mut description = "Request #".to_owned();
                push_decimal(&mut description, (i + 1) as u128);
                description.append(" made ");
                push_decimal(&mut description, calls as u128);
                description.append(" fetch calls, budget is ");
                push_decimal(&mut description, limit as u128);
                description.append(".");
                let mut impact = "Reducing from ".to_owned();
                push_decimal(&mut impact, calls as u128);
                impact.append(" to ");
                push_decimal(&mut impact, limit as u128);
                impact.append(" fetches stays within limits.");
                out.push(Waste {
                    kind: WasteKind::SubrequestOverBudget,
                    description,
                    suggestion: "Batch API calls. Use GraphQL field selection. Cache responses. Merge sequential fetches into one.".to_owned(),
                    estimated_impact: impact,
                });
                assert(waste_views(out@) =~= so_far.push(
                    subrequest_waste((i + 1) as nat, calls, limit),
                ));
            }
            assert(waste_views(out@) =~= before + subrequest_wastes(views.take(i + 1), limit));
            i += 1;
        }
        assert(views.take(i as int) =~= views);
    }
}

/// Over well-formed requests there are no more chains than fetch calls, and no more unchanged
/// reads than reads.
proof fn lemma_totals_ordered(requests: Seq<RequestView>)
    requires
        forall|i: int| 0 <= i < requests.len() ==> (#[trigger] requests[i]).wf(),
    ensures
        profiler::total(requests, Counter::SequentialChains) <= profiler::total(
            requests,
            Counter::FetchCalls,
        ),
        profiler::total(requests, Counter::UnchangedReads) <= profiler::total(
            requests,
            Counter::KvReads,
        ),
    decreases requests.len(),
{
    if requests.len() > 0 {
        assert forall|i: int| 0 <= i < requests.drop_last().len() implies (
        #[trigger] requests.drop_last()[i]).wf() by {
            assert(requests[i].wf());
        }
        lemma_totals_ordered(requests.drop_last());
        assert(requests[requests.len() - 1].wf());
    }
}

} // verus!
