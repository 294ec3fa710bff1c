//! Budget definitions for edge function resource limits.

use vstd::prelude::*;

verus! {

/// Resource consumption snapshot.
#[derive(Debug, Clone)]
pub struct ResourceUsage {
    pub cold_start_ms: u64,
    pub memory_mb: u64,
    pub cpu_time_ms: u64,
    pub subrequests: u32,
}

impl ResourceUsage {
    /// Nothing consumed yet.
    pub fn new() -> (usage: Self)
        ensures
            usage.cold_start_ms == 0,
            usage.memory_mb == 0,
            usage.cpu_time_ms == 0,
            usage.subrequests == 0,
    {
        Self { cold_start_ms: 0, memory_mb: 0, cpu_time_ms: 0, subrequests: 0 }
    }
}

impl Default for ResourceUsage {
    fn default() -> (usage: Self)
        ensures
            usage.cold_start_ms == 0,
            usage.memory_mb == 0,
            usage.cpu_time_ms == 0,
            usage.subrequests == 0,
    {
        Self::new()
    }
}

/// Result of checking CPU time against the budget.
#[derive(Debug, Clone, Copy, PartialEq, Eq, Structural)]
pub enum CpuTimeResult {
    /// Still within the per-request CPU budget.
    WithinBudget,
    /// Approaching the limit (at least 80% consumed).
    ApproachingLimit { used_ms: u64, limit_ms: u64 },
    /// Budget exceeded.
    Exceeded { used_ms: u64, limit_ms: u64 },
}

/// The grade of a CPU time: exceeded above the limit, approaching it from 80% on, and within
/// budget below that. Of a limit of zero there is nothing to consume, so no time spent is within it.
pub open spec fn cpu_grade(used_ms: u64, limit_ms: u64) -> CpuTimeResult {
    if used_ms > limit_ms {
        CpuTimeResult::Exceeded { used_ms, limit_ms }
    } else if limit_ms > 0 && 100 * used_ms >= 80 * limit_ms {
        CpuTimeResult::ApproachingLimit { used_ms, limit_ms }
    } else {
        CpuTimeResult::WithinBudget
    }
}

/// Resource budget for an edge function.
///
/// Defines upper bounds for cold-start wall time, memory, per-request CPU
/// time, and outbound subrequests.
#[derive(Debug)]
pub struct EdgeBudget {
    /// Maximum cold-start wall time in milliseconds.
    pub max_cold_start_ms: u64,
    /// Maximum memory usage in megabytes.
    pub max_memory_mb: u64,
    /// Maximum CPU time per request in milliseconds.
    pub max_cpu_time_per_request_ms: u64,
    /// Maximum number of outbound subrequests (fetch calls).
    pub max_subrequests: u32,
}

/// The budget of a typical Cloudflare Worker on the bundled plan.
pub open spec fn default_worker_budget() -> EdgeBudget {
    EdgeBudget {
        max_cold_start_ms: 400,
        max_memory_mb: 128,
        max_cpu_time_per_request_ms: 50,
        max_subrequests: 50,
    }
}

/// The budget of a latency-sensitive endpoint.
pub open spec fn strict_budget() -> EdgeBudget {
    EdgeBudget {
        max_cold_start_ms: 100,
        max_memory_mb: 64,
        max_cpu_time_per_request_ms: 10,
        max_subrequests: 10,
    }
}

/// The budget of a heavy processing task.
pub open spec fn generous_budget() -> EdgeBudget {
    EdgeBudget {
        max_cold_start_ms: 800,
        max_memory_mb: 256,
        max_cpu_time_per_request_ms: 150,
        max_subrequests: 100,
    }
}

impl EdgeBudget {
    /// Create a budget tuned for a typical Cloudflare Worker on the
    /// [bundled plan](https://developers.cloudflare.com/workers/platform/limits/).
    pub fn default_worker() -> (budget: Self)
        ensures
            budget == default_worker_budget(),
    {
        Self {
            max_cold_start_ms: 400,
            max_memory_mb: 128,
            max_cpu_time_per_request_ms: 50,
            max_subrequests: 50,
        }
    }

    /// Stricter budget for latency-sensitive endpoints.
    pub fn strict() -> (budget: Self)
        ensures
            budget == strict_budget(),
    {
        Self {
            max_cold_start_ms: 100,
            max_memory_mb: 64,
            max_cpu_time_per_request_ms: 10,
            max_subrequests: 10,
        }
    }

    /// Generous budget for heavy processing tasks.
    pub fn generous() -> (budget: Self)
        ensures
            budget == generous_budget(),
    {
        Self {
            max_cold_start_ms: 800,
            max_memory_mb: 256,
            max_cpu_time_per_request_ms: 150,
            max_subrequests: 100,
        }
    }

    /// Build a custom budget, starting from the default one.
    pub fn builder() -> (builder: EdgeBudgetBuilder)
        ensures
            builder@ == default_worker_budget(),
    {
        EdgeBudgetBuilder { inner: Self::default_worker() }
    }

    /// Check whether a measured cold-start time is within budget.
    pub fn check_cold_start(&self, measured_ms: u64) -> (within: bool)
        ensures
            within == (measured_ms <= self.max_cold_start_ms),
    {
        measured_ms <= self.max_cold_start_ms
    }

    /// Check memory usage against the budget.
    pub fn check_memory(&self, used_mb: u64) -> (within: bool)
        ensures
            within == (used_mb <= self.max_memory_mb),
    {
        used_mb <= self.max_memory_mb
    }

    /// Check per-request CPU time. Returns a graded result so callers can
    /// warn before hard-failing.
    pub fn check_cpu_time(&self, used_ms: u64) -> (grade: CpuTimeResult)
        ensures
            grade == cpu_grade(used_ms, self.max_cpu_time_per_request_ms),
    {
        let limit_ms: u64 = self.max_cpu_time_per_request_ms;
        if used_ms > limit_ms {
            CpuTimeResult::Exceeded { used_ms, limit_ms }
        } else if limit_ms > 0 && 5 * used_ms as u128 >= 4 * limit_ms as u128 {
            CpuTimeResult::ApproachingLimit { used_ms, limit_ms }
        } else {
            CpuTimeResult::WithinBudget
        }
    }

    /// Check subrequest count against the budget.
    pub fn check_subrequests(&self, count: u32) -> (within: bool)
        ensures
            within == (count <= self.max_subrequests),
    {
        count <= self.max_subrequests
    }
}

impl Clone for EdgeBudget {
    fn clone(&self) -> (copy: Self)
        ensures
            copy == *self,
    {
        Self {
            max_cold_start_ms: self.max_cold_start_ms,
            max_memory_mb: self.max_memory_mb,
            max_cpu_time_per_request_ms: self.max_cpu_time_per_request_ms,
            max_subrequests: self.max_subrequests,
        }
    }
}

impl Default for EdgeBudget {
    fn default() -> (budget: Self)
        ensures
            budget == default_worker_budget(),
    {
        Self::default_worker()
    }
}

/// Fluent builder for [`EdgeBudget`]. Its view is the budget that it would build.
pub struct EdgeBudgetBuilder {
    inner: EdgeBudget,
}

impl View for EdgeBudgetBuilder {
    type V = EdgeBudget;

    closed spec fn view(&self) -> EdgeBudget {
        self.inner
    }
}

impl EdgeBudgetBuilder {
    /// Sets the maximum cold-start wall time.
    pub fn cold_start_ms(self, ms: u64) -> (builder: Self)
        ensures
            builder@ == (EdgeBudget { max_cold_start_ms: ms, ..self@ }),
    {
        Self { inner: EdgeBudget { max_cold_start_ms: ms, ..self.inner } }
    }

    /// Sets the maximum memory usage.
    pub fn memory_mb(self, mb: u64) -> (builder: Self)
        ensures
            builder@ == (EdgeBudget { max_memory_mb: mb, ..self@ }),
    {
        Self { inner: EdgeBudget { max_memory_mb: mb, ..self.inner } }
    }

    /// Sets the maximum CPU time per request.
    pub fn cpu_time_per_request_ms(self, ms: u64) -> (builder: Self)
        ensures
            builder@ == (EdgeBudget { max_cpu_time_per_request_ms: ms, ..self@ }),
    {
        Self { inner: EdgeBudget { max_cpu_time_per_request_ms: ms, ..self.inner } }
    }

    /// Sets the maximum number of subrequests.
    pub fn subrequests(self, n: u32) -> (builder: Self)
        ensures
            builder@ == (EdgeBudget { max_subrequests: n, ..self@ }),
    {
        Self { inner: EdgeBudget { max_subrequests: n, ..self.inner } }
    }

    /// Finishes the budget.
    pub fn build(self) -> (budget: EdgeBudget)
        ensures
            budget == self@,
    {
        self.inner
    }
}

} // verus!
