//! Edge Conservation Guardian
//!
//! Tracks serverless function resource usage and enforces cold-start budgets
//! for Cloudflare Workers.
//!
//! # Quick start
//!
//! ```
//! use guardian::{Detector, EdgeBudget, Profiler, Report};
//!
//! let budget = EdgeBudget::default();
//! let mut profiler = Profiler::new(&budget);
//!
//! profiler.record_init_start();
//! // ... your init code ...
//! profiler.record_init_end();
//!
//! profiler.record_request_start();
//! // ... handle request ...
//! profiler.record_fetch_call();
//! profiler.record_kv_read(2048);
//! profiler.record_request_end();
//!
//! let detector = Detector::new(&profiler, &budget);
//! let wastes = detector.detect();
//!
//! let report = Report::generate(&profiler, &budget, &wastes);
//! println!("{}", report.to_text());
//! ```

pub mod binary64;
pub mod budget;
mod clock;
pub mod detector;
pub mod laws;
pub mod profiler;
pub mod report;
pub mod text;

pub use binary64::Binary64;
pub use budget::{CpuTimeResult, EdgeBudget, ResourceUsage};
pub use detector::{Detector, Waste, WasteKind};
pub use profiler::{InitPhase, PerRequestProfile, Profiler};
pub use report::Report;
