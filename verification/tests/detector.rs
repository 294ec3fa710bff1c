use guardian::{Binary64, Detector, EdgeBudget, Profiler, Waste, WasteKind};

fn make_profiler_with_init() -> Profiler {
    let budget = EdgeBudget::default();
    let mut p = Profiler::new(&budget);
    p.record_init_start();
    p.record_eager_load(3 * 1024 * 1024); // 3 MB — oversized
    p.record_eager_load(1024);
    p.record_init_end();
    p
}

/// A profiler with one request that ran for `wall_ms`.
fn one_request(wall_ms: u64, record: impl Fn(&mut Profiler)) -> Profiler {
    let mut p = Profiler::new(&EdgeBudget::default());
    p.record_request_start_at(0);
    record(&mut p);
    p.record_request_end_at(wall_ms as u128 * 1_000_000);
    p
}

fn kinds(wastes: &[Waste]) -> Vec<&'static str> {
    wastes.iter().map(|w| w.kind.as_str()).collect()
}

fn threshold(t: f64) -> Binary64 {
    Binary64 { bits: t.to_bits() }
}

#[test]
fn detects_oversized_bundle() {
    let p = make_profiler_with_init();
    let budget = EdgeBudget::default();
    let d = Detector::new(&p, &budget);
    let wastes = d.detect();
    assert!(wastes.iter().any(|w| w.kind == WasteKind::OversizedBundle));
}

#[test]
fn detects_sequential_fetches() {
    let budget = EdgeBudget::default();
    let mut p = Profiler::new(&budget);

    p.record_request_start();
    p.record_fetch_call();
    // Simulate a gap (sequential)
    let start = std::time::Instant::now();
    while start.elapsed().as_millis() < 10 {}
    p.record_fetch_call();
    p.record_request_end();

    let d = Detector::new(&p, &budget);
    let wastes = d.detect();
    assert!(wastes.iter().any(|w| w.kind == WasteKind::SequentialFetches));
}

#[test]
fn detects_sparse_kv() {
    let budget = EdgeBudget::default();
    let mut p = Profiler::new(&budget);

    p.record_request_start();
    p.record_kv_read_key("key1", 100);
    p.record_kv_read_key("key2", 100);
    p.record_kv_read_key("key3", 100);
    p.set_kv_total_keys(200);
    p.record_request_end();

    let d = Detector::new(&p, &budget);
    let wastes = d.detect();
    assert!(wastes.iter().any(|w| w.kind == WasteKind::SparseKvAccess));
}

#[test]
fn no_false_positives_on_clean_run() {
    let budget = EdgeBudget::default();
    let mut p = Profiler::new(&budget);

    p.record_init_start();
    p.record_eager_load(1024); // tiny
    p.record_init_end();

    p.record_request_start();
    p.record_kv_read(100);
    p.record_request_end();

    let d = Detector::new(&p, &budget);
    let wastes = d.detect();
    // Should not flag anything major
    assert!(!wastes.iter().any(|w| w.kind == WasteKind::OversizedBundle));
    assert!(!wastes.iter().any(|w| w.kind == WasteKind::SequentialFetches));
}

#[test]
fn an_untouched_profiler_has_no_waste() {
    let budget = EdgeBudget::default();
    let p = Profiler::new(&budget);
    assert!(Detector::new(&p, &budget).detect().is_empty());
}

#[test]
fn cold_start_over_budget() {
    let budget = EdgeBudget::default();
    let mut p = Profiler::new(&budget);
    p.set_init_wall_ms(400);
    assert!(Detector::new(&p, &budget).detect().is_empty());
    p.set_init_wall_ms(425);
    let wastes = Detector::new(&p, &budget).detect();
    assert_eq!(kinds(&wastes), ["cold-start-over-budget"]);
    assert_eq!(wastes[0].description, "Cold-start wall time is 425ms, budget is 400ms.");
    assert_eq!(
        wastes[0].suggestion,
        "Defer non-critical init to first-use. Lazy-load config, dictionaries, and large data structures."
    );
    assert_eq!(wastes[0].estimated_impact, "Reducing init by 25ms would bring you within budget.");
}

#[test]
fn the_detector_takes_its_own_budget() {
    let mut p = Profiler::new(&EdgeBudget::default());
    p.set_init_wall_ms(150);
    assert_eq!(
        kinds(&Detector::new(&p, &EdgeBudget::strict()).detect()),
        ["cold-start-over-budget"]
    );
}

fn eager_profiler(loads: u32, keys: &[&str]) -> Profiler {
    let mut p = one_request(1, |p| {
        for key in keys {
            p.record_kv_read_key(key, 1);
        }
    });
    for _ in 0..loads {
        p.record_eager_load(1);
    }
    p.set_init_wall_ms(91);
    p
}

#[test]
fn eager_loads_that_are_hardly_used() {
    let budget = EdgeBudget::default();
    let p = eager_profiler(23, &["a", "b", "a"]);
    let wastes = Detector::new(&p, &budget).detect();
    assert_eq!(kinds(&wastes), ["eager-init"]);
    assert_eq!(
        wastes[0].description,
        "Init eagerly loads 23 resources, but only 2 (9%) are used per request."
    );
    assert_eq!(
        wastes[0].suggestion,
        "Switch to lazy loading. Wrap expensive init in `std::sync::OnceLock` or `lazy_static!` so it only runs when first needed."
    );
    assert_eq!(
        wastes[0].estimated_impact,
        "Deferring 21 unused loads could save ~45ms per cold start."
    );
}

#[test]
fn eager_loads_that_are_used_enough() {
    let budget = EdgeBudget::default();
    // Exactly one tenth is not below one tenth.
    assert!(Detector::new(&eager_profiler(20, &["a", "b"]), &budget).detect().is_empty());
    assert!(Detector::new(&eager_profiler(20, &[]), &budget).detect().is_empty());
    assert!(Detector::new(&eager_profiler(1, &["a", "b"]), &budget).detect().is_empty());
    let mut idle = Profiler::new(&budget);
    for _ in 0..50 {
        idle.record_eager_load(1);
    }
    assert!(Detector::new(&idle, &budget).detect().is_empty());
}

#[test]
fn sparse_thresholds() {
    let budget = EdgeBudget::default();
    for loads in [2u32, 3, 7, 10, 19, 20, 21, 30, 49] {
        for t in [0.0, -0.0, -1.0, 0.05, 0.1, 1.0 / 3.0, 0.5, 1.0, f64::INFINITY, f64::NAN, 5e-324] {
            let p = eager_profiler(loads, &["x"]);
            let wastes = Detector::new(&p, &budget).with_sparse_threshold(threshold(t)).detect();
            assert_eq!(!wastes.is_empty(), 1.0 / (loads as f64) < t, "{} {}", loads, t);
        }
    }
}

#[test]
fn the_default_sparse_threshold_is_one_tenth() {
    assert_eq!(guardian::detector::DEFAULT_SPARSE_THRESHOLD_BITS, (0.10f64).to_bits());
}

#[test]
fn the_distinct_keys_of_all_requests_count() {
    let budget = EdgeBudget::default();
    let mut p = Profiler::new(&budget);
    for key in ["a", "b", "a", "c"] {
        p.record_request_start_at(0);
        p.record_kv_read_key(key, 1);
        p.record_kv_read_key("a", 1);
        p.record_request_end_at(0);
    }
    for _ in 0..31 {
        p.record_eager_load(1);
    }
    let wastes = Detector::new(&p, &budget).detect();
    assert_eq!(
        wastes[0].description,
        "Init eagerly loads 31 resources, but only 3 (10%) are used per request."
    );
}

#[test]
fn oversized_bundle_text_and_threshold() {
    let budget = EdgeBudget::default();
    let mut p = Profiler::new(&budget);
    p.record_eager_load(2 * 1024 * 1024);
    p.set_init_wall_ms(301);
    assert!(Detector::new(&p, &budget).detect().is_empty());
    let wastes = Detector::new(&p, &budget).with_bundle_threshold(1024).detect();
    assert_eq!(kinds(&wastes), ["oversized-bundle"]);
    assert_eq!(
        wastes[0].description,
        "Init loads 2.0 MB of data. Large bundles increase cold-start time and memory pressure."
    );
    assert_eq!(
        wastes[0].suggestion,
        "Split data into small hot paths and lazy-loaded cold paths. Consider compressing static data or moving it to KV/R2."
    );
    assert_eq!(wastes[0].estimated_impact, "Shaving 50% could save ~150ms cold-start time.");
    p.record_eager_load(1);
    assert_eq!(Detector::new(&p, &budget).detect().len(), 1);
}

#[test]
fn sequential_fetches_text() {
    let budget = EdgeBudget::default();
    let mut p = Profiler::new(&budget);
    for start in [0u128, 100_000_000] {
        p.record_request_start_at(start);
        p.record_fetch_call_at(start);
        p.record_fetch_call_at(start + 6_000_000);
        if start > 0 {
            p.record_fetch_call_at(start + 12_000_000);
        }
        p.record_request_end_at(start + 12_000_000);
    }
    let wastes = Detector::new(&p, &budget).detect();
    assert_eq!(kinds(&wastes), ["sequential-fetches"]);
    assert_eq!(
        wastes[0].description,
        "3 sequential fetch chains detected across 2 requests (avg 1.5/req). Total fetches: 5."
    );
    assert_eq!(
        wastes[0].suggestion,
        "Fire independent fetches concurrently using `Promise::all` or `futures::join!`. Only chain when request B depends on response A."
    );
    assert_eq!(
        wastes[0].estimated_impact,
        "Parallelizing could cut fetch latency by ~50% for independent calls."
    );
}

#[test]
fn unchanged_reads_from_three_tenths_on() {
    let budget = EdgeBudget::default();
    for reads in 1..60u32 {
        for unchanged in 0..reads {
            let p = one_request(1, |p| {
                for i in 0..reads - unchanged {
                    p.record_kv_read_checked(&format!("k{}", i), 1, 1);
                }
                for _ in 0..unchanged {
                    p.record_kv_read_checked("k0", 1, 1);
                }
            });
            let flagged = unchanged > 0 && unchanged as f64 / reads as f64 > 0.3;
            assert_eq!(!Detector::new(&p, &budget).detect().is_empty(), flagged);
        }
    }
}

#[test]
fn unchanged_reads_text() {
    let budget = EdgeBudget::default();
    let p = one_request(1, |p| {
        p.record_kv_read_checked("a", 1, 9);
        p.record_kv_read_checked("a", 1, 9);
        p.record_kv_read_checked("a", 1, 9);
    });
    let wastes = Detector::new(&p, &budget).detect();
    assert_eq!(kinds(&wastes), ["unchanged-kv-reads"]);
    assert_eq!(wastes[0].description, "2/3 KV reads (67%) returned unchanged data.");
    assert_eq!(
        wastes[0].suggestion,
        "Cache KV values in-memory with a TTL. Skip re-reading keys that haven't expired. Consider using KV `cacheTtl` option."
    );
    assert_eq!(
        wastes[0].estimated_impact,
        "Eliminating 2 redundant reads would save ~4ms per request."
    );
}

#[test]
fn sparse_access_below_fifteen_percent() {
    let budget = EdgeBudget::default();
    for total in 0..90u32 {
        for accessed in 0..20u32 {
            let p = sparse_profiler(accessed, total);
            let flagged =
                total > 20 && accessed > 0 && (accessed as f64) / (total as f64) < 0.15;
            let d = Detector::new(&p, &budget).with_sparse_threshold(threshold(0.15));
            assert_eq!(!d.detect().is_empty(), flagged);
        }
    }
}

/// A profiler with one request that loaded `total` keys and made `accessed` reads.
fn sparse_profiler(accessed: u32, total: u32) -> Profiler {
    one_request(1, |p| {
        for _ in 0..accessed {
            p.record_kv_read_key("k", 1);
        }
        p.set_kv_total_keys(total);
    })
}

#[test]
fn sparse_access_is_below_one_tenth_by_default() {
    let budget = EdgeBudget::default();
    for total in 0..90u32 {
        for accessed in 0..20u32 {
            let p = sparse_profiler(accessed, total);
            let flagged = total > 20 && accessed > 0 && 10 * accessed < total;
            assert_eq!(!Detector::new(&p, &budget).detect().is_empty(), flagged);
        }
    }
}

#[test]
fn the_sparse_threshold_decides_on_sparse_access() {
    let budget = EdgeBudget::default();
    let p = one_request(1, |p| {
        for key in ["a", "b", "c"] {
            p.record_kv_read_key(key, 1);
        }
        p.set_kv_total_keys(200);
    });
    let found = |t: f64| {
        kinds(&Detector::new(&p, &budget).with_sparse_threshold(threshold(t)).detect()).len()
    };
    for t in [0.01, 0.015, 0.0, -1.0, f64::NAN] {
        assert_eq!(found(t), 0, "{}", t);
    }
    for t in [0.016, 0.02, 0.1, 1.0, f64::INFINITY] {
        assert_eq!(found(t), 1, "{}", t);
    }
}

#[test]
fn access_to_all_loaded_keys_is_not_sparse() {
    let budget = EdgeBudget::default();
    for (accessed, flagged) in [(24u32, true), (25, false), (26, false), (40, false)] {
        let p = sparse_profiler(accessed, 25);
        let d = Detector::new(&p, &budget).with_sparse_threshold(threshold(2.0));
        assert_eq!(!d.try_detect().unwrap().is_empty(), flagged);
    }
}

#[test]
fn sparse_access_text_of_each_request() {
    let budget = EdgeBudget::default();
    let mut p = Profiler::new(&budget);
    for total in [200u32, 10, 100] {
        p.record_request_start_at(0);
        for key in ["a", "b", "c"] {
            p.record_kv_read_key(key, 1);
        }
        p.set_kv_total_keys(total);
        p.record_request_end_at(0);
    }
    let wastes = Detector::new(&p, &budget).detect();
    assert_eq!(kinds(&wastes), ["sparse-kv-access", "sparse-kv-access"]);
    assert_eq!(
        wastes[0].description,
        "Loaded 200 KV keys but only accessed 3 (2%) per request."
    );
    assert_eq!(
        wastes[0].suggestion,
        "Load only the keys you need. Use a manifest index and lazy-load the rest on demand."
    );
    assert_eq!(
        wastes[0].estimated_impact,
        "Loading 3 instead of 200 keys could save ~50432KB per request."
    );
    assert_eq!(
        wastes[1].description,
        "Loaded 100 KV keys but only accessed 3 (3%) per request."
    );
}

#[test]
fn cpu_time_over_budget() {
    let budget = EdgeBudget::strict();
    let mut p = Profiler::new(&budget);
    for ms in [10u128, 11, 3] {
        p.record_request_start_at(0);
        p.record_request_end_at(ms * 1_000_000);
    }
    let wastes = Detector::new(&p, &budget).detect();
    assert_eq!(kinds(&wastes), ["cpu-time-over-budget"]);
    assert_eq!(wastes[0].description, "Request #2 used 11ms CPU time, budget is 10ms.");
    assert_eq!(
        wastes[0].suggestion,
        "Profile hot paths. Consider caching computation results, reducing JSON parsing, or offloading heavy work to Durable Objects."
    );
    assert_eq!(wastes[0].estimated_impact, "Cutting CPU time by 1ms meets the budget.");
}

#[test]
fn memory_over_budget() {
    let budget = EdgeBudget::strict();
    let mut p = Profiler::new(&budget);
    p.set_init_peak_memory_mb(65);
    for mb in [64u64, 70] {
        p.record_request_start_at(0);
        p.set_request_peak_memory_mb(mb);
        p.record_request_end_at(0);
    }
    let wastes = Detector::new(&p, &budget).detect();
    assert_eq!(kinds(&wastes), ["memory-over-budget", "memory-over-budget"]);
    assert_eq!(wastes[0].description, "Init peak memory is 65MB, budget is 64MB.");
    assert_eq!(
        wastes[0].suggestion,
        "Reduce in-memory data structures. Stream large payloads instead of buffering. Use KV or R2 for large datasets."
    );
    assert_eq!(
        wastes[0].estimated_impact,
        "Reducing memory avoids OOM kills and improves cold-start performance."
    );
    assert_eq!(wastes[1].description, "Request #2 peak memory is 70MB, budget is 64MB.");
    assert_eq!(
        wastes[1].suggestion,
        "Avoid buffering entire response bodies. Stream processing or paginate large results."
    );
    assert_eq!(wastes[1].estimated_impact, "Reducing by 6MB avoids memory pressure.");
}

#[test]
fn subrequests_over_budget() {
    let budget = EdgeBudget::strict();
    let p = one_request(1, |p| {
        for _ in 0..11 {
            p.record_fetch_call_at(0);
        }
    });
    let wastes = Detector::new(&p, &budget).detect();
    assert_eq!(kinds(&wastes), ["subrequest-over-budget"]);
    assert_eq!(wastes[0].description, "Request #1 made 11 fetch calls, budget is 10.");
    assert_eq!(
        wastes[0].suggestion,
        "Batch API calls. Use GraphQL field selection. Cache responses. Merge sequential fetches into one."
    );
    assert_eq!(
        wastes[0].estimated_impact,
        "Reducing from 11 to 10 fetches stays within limits."
    );
}

#[test]
fn wastes_come_heuristic_by_heuristic() {
    let budget = EdgeBudget::builder()
        .cold_start_ms(0)
        .memory_mb(0)
        .cpu_time_per_request_ms(0)
        .subrequests(0)
        .build();
    let mut p = one_request(20, |p| {
        p.record_kv_read_checked("k", 1, 1);
        p.record_kv_read_checked("k", 1, 1);
        p.record_fetch_call_at(0);
        p.record_fetch_call_at(9_000_000);
        p.set_kv_total_keys(100);
        p.set_request_peak_memory_mb(1);
    });
    for _ in 0..20 {
        p.record_eager_load(1_000_000);
    }
    p.set_init_wall_ms(1);
    p.set_init_peak_memory_mb(1);
    assert_eq!(
        kinds(&Detector::new(&p, &budget).detect()),
        [
            "cold-start-over-budget",
            "eager-init",
            "oversized-bundle",
            "sequential-fetches",
            "unchanged-kv-reads",
            "sparse-kv-access",
            "cpu-time-over-budget",
            "memory-over-budget",
            "memory-over-budget",
            "subrequest-over-budget",
        ]
    );
}

#[test]
fn counts_that_fit_are_detected() {
    let budget = EdgeBudget::default();
    let p = one_request(60, |p| p.record_kv_read(1));
    let d = Detector::new(&p, &budget);
    assert_eq!(kinds(&d.try_detect().unwrap()), ["cpu-time-over-budget"]);
    assert_eq!(kinds(&d.detect()), ["cpu-time-over-budget"]);
}

#[test]
fn estimates_that_overflow_are_not_detected() {
    let budget = EdgeBudget::default();
    let sparse = |total: u32| {
        one_request(1, move |p| {
            p.record_kv_read_key("k", 1);
            p.set_kv_total_keys(total);
        })
    };
    let p = sparse(16_777_216);
    let wastes = Detector::new(&p, &budget).try_detect().unwrap();
    assert_eq!(
        wastes[0].estimated_impact,
        "Loading 1 instead of 16777216 keys could save ~4294967040KB per request."
    );
    let p = sparse(16_777_217);
    assert!(Detector::new(&p, &budget).try_detect().is_none());
}

#[test]
fn a_request_in_flight_does_not_count() {
    let budget = EdgeBudget::default();
    let mut p = Profiler::new(&budget);
    p.record_request_start_at(0);
    p.set_request_cpu_ms(1_000);
    assert!(Detector::new(&p, &budget).detect().is_empty());
    p.record_request_end_at(0);
    assert_eq!(kinds(&Detector::new(&p, &budget).detect()), ["cpu-time-over-budget"]);
}

#[test]
fn looser_budgets_flag_no_more() {
    let mut p = one_request(60, |p| p.set_request_peak_memory_mb(100));
    p.set_init_wall_ms(300);
    assert_eq!(
        kinds(&Detector::new(&p, &EdgeBudget::strict()).detect()),
        ["cold-start-over-budget", "cpu-time-over-budget", "memory-over-budget"]
    );
    assert_eq!(kinds(&Detector::new(&p, &EdgeBudget::default()).detect()), ["cpu-time-over-budget"]);
    assert!(Detector::new(&p, &EdgeBudget::generous()).detect().is_empty());
}
