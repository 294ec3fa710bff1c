use guardian::{CpuTimeResult, EdgeBudget, ResourceUsage};

#[test]
fn default_budget_is_reasonable() {
    let b = EdgeBudget::default();
    assert!(b.check_cold_start(300));
    assert!(!b.check_cold_start(500));
    assert!(b.check_memory(100));
    assert!(b.check_subrequests(40));
}

#[test]
fn cpu_time_grading() {
    let b = EdgeBudget::default(); // 50 ms limit
    assert_eq!(b.check_cpu_time(10), CpuTimeResult::WithinBudget);
    assert!(matches!(
        b.check_cpu_time(42),
        CpuTimeResult::ApproachingLimit { .. }
    ));
    assert!(matches!(b.check_cpu_time(60), CpuTimeResult::Exceeded { .. }));
}

#[test]
fn builder_custom() {
    let b = EdgeBudget::builder()
        .cold_start_ms(50)
        .memory_mb(32)
        .cpu_time_per_request_ms(5)
        .subrequests(3)
        .build();

    assert_eq!(b.max_cold_start_ms, 50);
    assert_eq!(b.max_memory_mb, 32);
    assert_eq!(b.max_cpu_time_per_request_ms, 5);
    assert_eq!(b.max_subrequests, 3);
}

#[test]
fn builder_starts_from_the_default_and_the_last_value_wins() {
    let b = EdgeBudget::builder().memory_mb(1).memory_mb(2).build();
    assert_eq!(b.max_cold_start_ms, 400);
    assert_eq!(b.max_memory_mb, 2);
    assert_eq!(b.max_cpu_time_per_request_ms, 50);
    assert_eq!(b.max_subrequests, 50);
}

#[test]
fn preset_values() {
    let s = EdgeBudget::strict();
    assert_eq!(
        (s.max_cold_start_ms, s.max_memory_mb, s.max_cpu_time_per_request_ms, s.max_subrequests),
        (100, 64, 10, 10)
    );
    let d = EdgeBudget::default_worker().clone();
    assert_eq!(
        (d.max_cold_start_ms, d.max_memory_mb, d.max_cpu_time_per_request_ms, d.max_subrequests),
        (400, 128, 50, 50)
    );
    let g = EdgeBudget::generous();
    assert_eq!(
        (g.max_cold_start_ms, g.max_memory_mb, g.max_cpu_time_per_request_ms, g.max_subrequests),
        (800, 256, 150, 100)
    );
}

#[test]
fn checks_at_their_limits() {
    let b = EdgeBudget::strict();
    assert!(b.check_cold_start(100) && !b.check_cold_start(101));
    assert!(b.check_memory(64) && !b.check_memory(65));
    assert!(b.check_subrequests(10) && !b.check_subrequests(11));
}

#[test]
fn cpu_time_grades_at_their_limits() {
    let b = EdgeBudget::default();
    assert_eq!(b.check_cpu_time(39), CpuTimeResult::WithinBudget);
    assert_eq!(
        b.check_cpu_time(40),
        CpuTimeResult::ApproachingLimit { used_ms: 40, limit_ms: 50 }
    );
    assert_eq!(
        b.check_cpu_time(50),
        CpuTimeResult::ApproachingLimit { used_ms: 50, limit_ms: 50 }
    );
    assert_eq!(b.check_cpu_time(51), CpuTimeResult::Exceeded { used_ms: 51, limit_ms: 50 });
}

#[test]
fn cpu_time_of_a_zero_limit() {
    let b = EdgeBudget::builder().cpu_time_per_request_ms(0).build();
    assert_eq!(b.check_cpu_time(0), CpuTimeResult::WithinBudget);
    assert_eq!(b.check_cpu_time(1), CpuTimeResult::Exceeded { used_ms: 1, limit_ms: 0 });
}

#[test]
fn cpu_time_grades_like_the_used_share() {
    for limit in 1..300u64 {
        let b = EdgeBudget::builder().cpu_time_per_request_ms(limit).build();
        for used in 0..400u64 {
            let ratio = used as f64 / limit as f64;
            let grade = b.check_cpu_time(used);
            assert_eq!(ratio > 1.0, matches!(grade, CpuTimeResult::Exceeded { .. }));
            assert_eq!(
                (0.8..=1.0).contains(&ratio),
                matches!(grade, CpuTimeResult::ApproachingLimit { .. })
            );
        }
    }
}

#[test]
fn cpu_time_of_huge_limits() {
    let b = EdgeBudget::builder().cpu_time_per_request_ms(u64::MAX - 1).build();
    assert_eq!(
        b.check_cpu_time(u64::MAX),
        CpuTimeResult::Exceeded { used_ms: u64::MAX, limit_ms: u64::MAX - 1 }
    );
    assert_eq!(b.check_cpu_time(u64::MAX / 2), CpuTimeResult::WithinBudget);
}

#[test]
fn usage_starts_at_zero() {
    let u = ResourceUsage::new();
    assert_eq!((u.cold_start_ms, u.memory_mb, u.cpu_time_ms, u.subrequests), (0, 0, 0, 0));
    let d = ResourceUsage::default();
    assert_eq!((d.cold_start_ms, d.memory_mb, d.cpu_time_ms, d.subrequests), (0, 0, 0, 0));
}
