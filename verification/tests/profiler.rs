use guardian::{Binary64, EdgeBudget, InitPhase, PerRequestProfile, Profiler};

fn number(x: Binary64) -> f64 {
    f64::from_bits(x.bits)
}

#[test]
fn profiler_records_init() {
    let budget = EdgeBudget::default();
    let mut p = Profiler::new(&budget);
    p.record_init_start();
    p.record_eager_load(1024 * 1024);
    p.record_eager_load(512 * 1024);
    p.record_init_end();

    let init = p.init();
    assert!(init.wall_ms <= 10);
    assert_eq!(init.eager_loads, 2);
    assert_eq!(init.bytes_loaded, 1024 * 1024 + 512 * 1024);
}

#[test]
fn profiler_records_request() {
    let budget = EdgeBudget::default();
    let mut p = Profiler::new(&budget);

    p.record_request_start();
    p.record_fetch_call();
    p.record_kv_read(256);
    p.record_kv_write(128);
    p.record_request_end();

    let req = p.last_request().unwrap();
    assert_eq!(req.fetch_calls, 1);
    assert_eq!(req.kv_reads, 1);
    assert_eq!(req.kv_read_bytes, 256);
    assert_eq!(req.kv_writes, 1);
    assert_eq!(req.kv_write_bytes, 128);
}

#[test]
fn profiler_averages() {
    let budget = EdgeBudget::default();
    let mut p = Profiler::new(&budget);

    p.record_request_start();
    p.record_fetch_call();
    p.record_request_end();

    p.record_request_start();
    p.record_fetch_call();
    p.record_fetch_call();
    p.record_request_end();

    assert_eq!(p.requests().len(), 2);
    assert!((number(p.avg_fetch_calls()) - 1.5).abs() < f64::EPSILON);
}

#[test]
fn averages_without_requests_are_zero() {
    let p = Profiler::new(&EdgeBudget::default());
    assert_eq!(number(p.avg_fetch_calls()), 0.0);
    assert_eq!(number(p.avg_request_wall_ms()), 0.0);
    assert!(p.last_request().is_none());
    assert!(p.requests().is_empty());
}

#[test]
fn average_wall_time() {
    let mut p = Profiler::new(&EdgeBudget::default());
    for ms in [10u128, 11, 12, 20] {
        p.record_request_start_at(7_000_000);
        p.record_request_end_at(7_000_000 + ms * 1_000_000);
    }
    assert_eq!(number(p.avg_request_wall_ms()), 13.25);
}

#[test]
fn init_time_is_whole_milliseconds() {
    let mut p = Profiler::new(&EdgeBudget::default());
    p.record_init_end_at(99);
    assert_eq!(p.init().wall_ms, 0);
    p.record_init_start_at(1_000);
    p.record_init_end_at(340_999_999);
    assert_eq!(p.init().wall_ms, 340);
    p.record_init_end_at(341_001_000);
    assert_eq!(p.init().wall_ms, 341);
    p.set_init_wall_ms(7);
    p.set_init_peak_memory_mb(9);
    assert_eq!(p.init().wall_ms, 7);
    assert_eq!(p.init().peak_memory_mb, 9);
}

#[test]
fn request_time_and_cpu_time() {
    let mut p = Profiler::new(&EdgeBudget::default());
    p.record_request_start_at(0);
    p.record_request_end_at(12_900_000);
    let req = p.last_request().unwrap();
    assert_eq!((req.wall_ms, req.cpu_ms), (12, 12));

    p.record_request_start_at(0);
    p.set_request_cpu_ms(3);
    p.set_request_peak_memory_mb(4);
    p.set_request_alloc_bytes(5);
    p.set_kv_total_keys(6);
    p.record_request_end_at(12_900_000);
    let req = p.last_request().unwrap();
    assert_eq!((req.wall_ms, req.cpu_ms), (12, 3));
    assert_eq!((req.peak_memory_mb, req.alloc_bytes, req.kv_keys_total), (4, 5, 6));
    assert_eq!(p.requests().len(), 2);
}

#[test]
fn a_cpu_time_of_zero_is_kept() {
    let mut p = Profiler::new(&EdgeBudget::default());
    p.record_request_start_at(0);
    p.set_request_cpu_ms(7);
    p.set_request_cpu_ms(0);
    p.record_kv_read(1);
    p.record_request_end_at(5_000_000);
    let req = p.last_request().unwrap();
    assert_eq!((req.wall_ms, req.cpu_ms), (5, 0));

    // What was set for one request says nothing of the next.
    p.record_request_start_at(0);
    p.record_request_end_at(5_000_000);
    let req = p.last_request().unwrap();
    assert_eq!((req.wall_ms, req.cpu_ms), (5, 5));

    p.set_request_cpu_ms(9);
    p.record_request_start_at(0);
    p.record_request_end_at(5_000_000);
    assert_eq!(p.last_request().unwrap().cpu_ms, 5);
}

#[test]
fn a_clock_that_goes_back_measures_no_time() {
    let mut p = Profiler::new(&EdgeBudget::default());
    p.record_init_start_at(9_000_000);
    p.set_init_wall_ms(4);
    p.record_init_end_at(2_000_000);
    assert_eq!(p.init().wall_ms, 0);

    p.record_request_start_at(90_000_000);
    p.record_fetch_call_at(80_000_000);
    p.record_fetch_call_at(60_000_000);
    p.record_fetch_call_at(66_000_000);
    p.record_request_end_at(66_000_000);
    p.record_request_end_at(99_000_000);
    assert_eq!(p.requests().len(), 1);
    let req = p.last_request().unwrap();
    assert_eq!((req.wall_ms, req.cpu_ms), (0, 0));
    assert_eq!((req.fetch_calls, req.sequential_fetch_chains), (3, 1));
}

#[test]
fn a_committed_request_tells_what_was_recorded() {
    let mut p = Profiler::new(&EdgeBudget::default());
    p.record_request_start();
    p.record_fetch_call();
    p.record_kv_read(1);
    p.record_kv_read_key("a", 20);
    p.record_kv_read_checked("b", 300, 1);
    p.record_kv_write(4_000);
    p.record_kv_write(50_000);
    p.record_fetch_call();
    p.record_request_end();
    let req = p.last_request().unwrap();
    assert_eq!((req.fetch_calls, req.kv_reads, req.kv_writes), (2, 3, 2));
    assert_eq!((req.kv_read_bytes, req.kv_write_bytes), (321, 54_000));
    assert_eq!(req.kv_keys_accessed, ["a", "b"]);
}

#[test]
fn a_request_ends_once() {
    let mut p = Profiler::new(&EdgeBudget::default());
    p.record_request_end();
    assert_eq!(p.requests().len(), 0);
    p.record_request_start();
    p.record_request_end();
    p.record_request_end();
    assert_eq!(p.requests().len(), 1);
}

#[test]
fn a_new_start_drops_the_request_in_flight() {
    let mut p = Profiler::new(&EdgeBudget::default());
    p.record_request_start();
    p.record_kv_read(1);
    p.record_request_start();
    p.record_kv_write(2);
    p.record_request_end();
    assert_eq!(p.requests().len(), 1);
    let req = p.last_request().unwrap();
    assert_eq!((req.kv_reads, req.kv_writes), (0, 1));
}

#[test]
fn recording_between_requests_leaves_no_trace() {
    let mut p = Profiler::new(&EdgeBudget::default());
    p.record_kv_read(1);
    p.record_kv_read_key("k", 1);
    p.record_kv_write(1);
    p.record_fetch_call();
    p.set_request_cpu_ms(1);
    p.set_request_peak_memory_mb(1);
    p.set_request_alloc_bytes(1);
    p.set_kv_total_keys(1);
    p.record_request_start_at(0);
    p.record_request_end_at(0);
    let req = p.last_request().unwrap();
    assert_eq!((req.kv_reads, req.kv_writes, req.fetch_calls), (0, 0, 0));
    assert_eq!((req.cpu_ms, req.peak_memory_mb, req.alloc_bytes), (0, 0, 0));
    assert!(req.kv_keys_accessed.is_empty() && req.kv_keys_total == 0);
}

#[test]
fn fetch_calls_more_than_five_milliseconds_apart_are_chained() {
    let mut p = Profiler::new(&EdgeBudget::default());
    p.record_request_start_at(0);
    p.record_fetch_call_at(50_000_000);
    p.record_fetch_call_at(55_000_000);
    p.record_fetch_call_at(60_000_001);
    p.record_fetch_call_at(60_000_001);
    p.record_request_end_at(60_000_002);
    let req = p.last_request().unwrap();
    assert_eq!(req.fetch_calls, 4);
    assert_eq!(req.sequential_fetch_chains, 1);
}

#[test]
fn the_first_fetch_call_of_a_request_starts_no_chain() {
    let mut p = Profiler::new(&EdgeBudget::default());
    p.record_request_start_at(0);
    p.record_fetch_call_at(1);
    p.record_request_end_at(2);
    p.record_fetch_call_at(3);
    p.record_request_start_at(4);
    p.record_fetch_call_at(90_000_000);
    p.record_request_end_at(90_000_000);
    let req = p.last_request().unwrap();
    assert_eq!((req.fetch_calls, req.sequential_fetch_chains), (1, 0));
}

#[test]
fn checked_reads_tell_unchanged_values() {
    let mut p = Profiler::new(&EdgeBudget::default());
    assert!(!p.record_kv_read_checked("outside", 1, 5));
    p.record_request_start();
    assert!(!p.record_kv_read_checked("a", 10, 1));
    assert!(p.record_kv_read_checked("a", 10, 1));
    assert!(!p.record_kv_read_checked("a", 10, 2));
    assert!(!p.record_kv_read_checked("b", 10, 2));
    assert!(!p.record_kv_read_checked("a", 10, 1));
    p.record_request_end();
    p.record_request_start();
    assert!(p.record_kv_read_checked("a", 10, 1));
    assert!(p.record_kv_read_checked("outside", 10, 5));
    p.record_request_end();

    let first = &p.requests()[0];
    assert_eq!((first.kv_reads, first.kv_unchanged_reads, first.kv_read_bytes), (5, 1, 50));
    assert_eq!(first.kv_keys_accessed, ["a", "a", "a", "b", "a"]);
    let second = &p.requests()[1];
    assert_eq!((second.kv_reads, second.kv_unchanged_reads), (2, 2));
}

#[test]
fn keyed_reads_keep_the_key() {
    let mut p = Profiler::new(&EdgeBudget::default());
    p.record_request_start();
    p.record_kv_read_key("config:feature-flags", 2048);
    p.record_kv_read(1);
    p.record_request_end();
    let req = p.last_request().unwrap();
    assert_eq!(req.kv_keys_accessed, ["config:feature-flags"]);
    assert_eq!((req.kv_reads, req.kv_read_bytes), (2, 2049));
}

#[test]
fn the_clock_runs() {
    let mut p = Profiler::new(&EdgeBudget::default());
    p.record_init_start();
    p.record_request_start();
    let start = std::time::Instant::now();
    while start.elapsed().as_millis() < 20 {}
    p.record_request_end();
    p.record_init_end();
    let wall_ms = p.last_request().unwrap().wall_ms;
    assert!((15..5_000).contains(&wall_ms));
    assert!((15..5_000).contains(&p.init().wall_ms));
}

#[test]
fn the_profiler_keeps_its_budget() {
    let p = Profiler::new(&EdgeBudget::strict());
    assert_eq!(p.budget().max_cold_start_ms, 100);
    assert_eq!(p.budget().max_subrequests, 10);
}

#[test]
fn empty_profiles() {
    let init = InitPhase::default();
    assert_eq!((init.wall_ms, init.peak_memory_mb, init.eager_loads, init.bytes_loaded), (0, 0, 0, 0));
    let req = PerRequestProfile::default();
    assert_eq!((req.wall_ms, req.cpu_ms, req.fetch_calls, req.kv_reads), (0, 0, 0, 0));
    assert!(req.kv_keys_accessed.is_empty());
}
