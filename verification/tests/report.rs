use guardian::{Detector, EdgeBudget, Profiler, Report};

#[test]
fn report_on_clean_run() {
    let budget = EdgeBudget::default();
    let mut p = Profiler::new(&budget);

    p.record_init_start();
    p.record_init_end();

    p.record_request_start();
    p.record_kv_read(100);
    p.record_request_end();

    let d = Detector::new(&p, &budget);
    let wastes = d.detect();
    let report = Report::generate(&p, &budget, &wastes);

    let text = report.to_text();
    assert!(text.contains("No waste detected"));
}

#[test]
fn report_shows_wastes() {
    let budget = EdgeBudget::strict(); // tight
    let mut p = Profiler::new(&budget);

    p.record_init_start();
    p.record_eager_load(3 * 1024 * 1024);
    p.record_eager_load(1024);
    p.record_init_end();

    p.record_request_start();
    p.record_kv_read_key("k1", 100);
    p.record_kv_read_key("k2", 100);
    p.record_kv_read_key("k3", 100);
    p.set_kv_total_keys(200);
    p.record_request_end();

    let d = Detector::new(&p, &budget);
    let wastes = d.detect();
    let report = Report::generate(&p, &budget, &wastes);

    let text = report.to_text();
    assert!(text.contains("waste(s) detected"));
    assert!(text.contains("Projected Savings"));
}

#[test]
fn example_report_format() {
    let budget = EdgeBudget::builder()
        .cold_start_ms(400)
        .memory_mb(128)
        .cpu_time_per_request_ms(50)
        .subrequests(50)
        .build();

    let mut p = Profiler::new(&budget);

    p.record_init_start();
    p.record_eager_load(2 * 1024 * 1024); // 2MB config
    p.record_init_end();
    p.set_init_wall_ms(340);

    p.record_request_start();
    p.record_kv_read_key("routes:home", 128);
    p.record_kv_read_key("routes:api", 64);
    p.record_kv_read_key("features:dark-mode", 32);
    p.set_kv_total_keys(200);
    p.record_request_end();

    let d = Detector::new(&p, &budget);
    let wastes = d.detect();
    let report = Report::generate(&p, &budget, &wastes);

    let text = report.to_text();
    assert!(text.contains("340ms"));
    assert!(text.contains("2.0 MB"));
    assert!(text.contains("3/200 keys"));
    assert!(text.contains("Projected Savings"));
}

#[test]
fn full_report_text() {
    let budget = EdgeBudget::default();
    let mut p = Profiler::new(&budget);
    p.record_eager_load(2 * 1024 * 1024);
    p.set_init_wall_ms(340);
    p.record_request_start_at(0);
    p.record_kv_read_key("routes:home", 128);
    p.record_kv_read_key("routes:api", 64);
    p.record_kv_read_key("features:dark-mode", 32);
    p.set_kv_total_keys(200);
    p.record_request_end_at(12_000_000);

    let wastes = Detector::new(&p, &budget).detect();
    let text = Report::generate(&p, &budget, &wastes).to_text();
    let expected = [
        "═══ Edge Conservation Report ═══",
        "",
        "Cold-start: 340ms (budget: 400ms) ✅ within budget",
        "  Global init loads 2.0 MB across 1 resources.",
        "",
        "Requests profiled: 1",
        "  Avg wall time:   12.0ms",
        "  Avg fetch calls: 0.0",
        "  Total KV reads:  3 | writes: 0",
        "  KV access: 3/200 keys (2%)",
        "",
        "⚠️  1 waste(s) detected:",
        "",
        "1. [sparse-kv-access] Loaded 200 KV keys but only accessed 3 (2%) per request.",
        "   → Load only the keys you need. Use a manifest index and lazy-load the rest on demand.",
        "   Impact: Loading 3 instead of 200 keys could save ~50432KB per request.",
        "",
        "── Projected Savings ──",
        "Addressing the above could reduce cold-start by ~85ms.",
    ];
    assert_eq!(text, expected.join("\n"));
}

#[test]
fn report_without_requests() {
    let budget = EdgeBudget::strict();
    let mut p = Profiler::new(&budget);
    p.set_init_wall_ms(101);
    let text = Report::generate(&p, &budget, &[]).to_text();
    let expected = [
        "═══ Edge Conservation Report ═══",
        "",
        "Cold-start: 101ms (budget: 100ms) ❌ over budget",
        "",
        "",
        "✅ No waste detected. Ship it.",
    ];
    assert_eq!(text, expected.join("\n"));
}

#[test]
fn key_usage_of_the_first_request_that_shows_it() {
    let budget = EdgeBudget::default();
    let mut p = Profiler::new(&budget);
    p.record_request_start_at(0);
    p.set_kv_total_keys(9);
    p.record_request_end_at(0);
    p.record_request_start_at(0);
    p.record_kv_read_key("a", 1);
    p.set_kv_total_keys(8);
    p.record_request_end_at(0);
    p.record_request_start_at(0);
    p.record_kv_read_key("a", 1);
    p.record_kv_write(5);
    p.set_kv_total_keys(4);
    p.record_request_end_at(0);
    let text = Report::generate(&p, &budget, &[]).to_text();
    assert!(text.contains("  KV access: 1/8 keys (12%)"));
    assert!(!text.contains("1/4"));
    assert!(text.contains("  Total KV reads:  2 | writes: 1"));
}

#[test]
fn savings_are_capped_at_the_init_time() {
    let budget = EdgeBudget::default();
    let mut p = Profiler::new(&budget);
    p.set_init_wall_ms(100);
    p.record_eager_load(4 * 1024 * 1024);
    for _ in 0..4 {
        p.record_request_start_at(0);
        p.record_kv_read_key("a", 1);
        p.set_kv_total_keys(100);
        p.record_request_end_at(0);
    }
    let wastes = Detector::new(&p, &budget).detect();
    assert_eq!(wastes.len(), 5);
    let text = Report::generate(&p, &budget, &wastes).to_text();
    assert!(text.contains("reduce cold-start by ~100ms."));
    let text = Report::generate(&p, &budget, &wastes[..2]).to_text();
    assert!(text.contains("reduce cold-start by ~58ms."));
}

#[test]
fn savings_by_kind_in_any_order() {
    let budget = EdgeBudget::default();
    let mut p = Profiler::new(&budget);
    p.set_init_wall_ms(101);
    for _ in 0..30 {
        p.record_eager_load(100_000);
    }
    p.record_request_start_at(0);
    p.record_kv_read_key("a", 1);
    p.set_kv_total_keys(100);
    p.record_request_end_at(0);
    let mut wastes = Detector::new(&p, &budget).detect();
    assert_eq!(wastes.len(), 3);
    let savings = |wastes: &[guardian::Waste]| {
        let text = Report::generate(&p, &budget, wastes).to_text();
        text.lines().last().unwrap().to_string()
    };
    // 50 for eager init and 33 for the bundle.
    assert_eq!(savings(&wastes[..2]), "Addressing the above could reduce cold-start by ~83ms.");
    // 33 for the bundle and 25 for sparse access.
    assert_eq!(savings(&wastes[1..]), "Addressing the above could reduce cold-start by ~58ms.");
    wastes.reverse();
    assert_eq!(savings(&wastes[..2]), "Addressing the above could reduce cold-start by ~58ms.");
    assert_eq!(savings(&wastes[1..]), "Addressing the above could reduce cold-start by ~83ms.");
    assert_eq!(savings(&wastes), "Addressing the above could reduce cold-start by ~101ms.");
    wastes[0].description = "other".to_string();
    assert_eq!(savings(&wastes[..1]), "Addressing the above could reduce cold-start by ~25ms.");
}

#[test]
fn no_savings_line_where_nothing_is_saved() {
    let budget = EdgeBudget::default();
    let mut p = Profiler::new(&budget);
    p.set_init_peak_memory_mb(500);
    p.set_init_wall_ms(300);
    let wastes = Detector::new(&p, &budget).detect();
    let text = Report::generate(&p, &budget, &wastes).to_text();
    assert!(text.ends_with("── Projected Savings ──"));
}

#[test]
fn sums_that_fit_are_reported() {
    let budget = EdgeBudget::default();
    let mut p = Profiler::new(&budget);
    p.set_init_wall_ms(90);
    p.record_eager_load(3 * 1024 * 1024);
    let wastes = Detector::new(&p, &budget).detect();
    let tried = Report::try_generate(&p, &budget, &wastes).unwrap();
    assert_eq!(tried.to_text(), Report::generate(&p, &budget, &wastes).to_text());
    assert!(tried.to_text().contains("reduce cold-start by ~30ms."));
}

#[test]
fn savings_that_overflow_are_not_reported() {
    let budget = EdgeBudget::default();
    let mut p = Profiler::new(&budget);
    p.set_init_wall_ms(u64::MAX);
    for _ in 0..5 {
        p.record_request_start_at(0);
        p.record_kv_read_key("a", 1);
        p.set_kv_total_keys(100);
        p.record_request_end_at(0);
    }
    let wastes = Detector::new(&p, &budget).detect();
    assert_eq!(wastes.len(), 6);
    assert!(Report::try_generate(&p, &budget, &wastes[..5]).is_some());
    assert!(Report::try_generate(&p, &budget, &wastes).is_none());
}

#[test]
fn every_waste_is_shown() {
    let budget = EdgeBudget::builder().cold_start_ms(1).memory_mb(1).build();
    let mut p = Profiler::new(&budget);
    p.set_init_wall_ms(2);
    p.set_init_peak_memory_mb(2);
    let wastes = Detector::new(&p, &budget).detect();
    let text = Report::generate(&p, &budget, &wastes).to_text();
    assert!(text.contains("⚠️  2 waste(s) detected:"));
    assert!(text.contains("\n1. [cold-start-over-budget] Cold-start wall time is 2ms, budget is 1ms.\n"));
    assert!(text.contains("\n2. [memory-over-budget] Init peak memory is 2MB, budget is 1MB.\n"));
    for w in &wastes {
        assert!(text.contains(&format!("\n   → {}\n", w.suggestion)));
        assert!(text.contains(&format!("\n   Impact: {}\n", w.estimated_impact)));
    }
    assert!(!text.contains("No waste detected"));
}
