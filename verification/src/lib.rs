//! Core of a concurrent HTTP load generator: how a fixed number of requests
//! is split over a pool of workers, how each worker walks its share, how the
//! outcomes are stored, and how the stored outcomes reduce to statistics.
//!
//! Everything here works on plain values. Threads, locks, clocks and the
//! network belong to the program that drives this library.

pub mod partition;
pub mod store;
pub mod stats;
pub mod method;
pub mod url;
pub mod config;
pub mod worker;
pub mod run;
pub mod log;

pub use config::Config;
pub use method::Method;
pub use stats::get_average;
pub use url::normalise_url;
