//! zeo: the execution core of a lightweight JavaScript agent runtime.
//!
//! The crate holds the verified parts of the runtime: the memory pool and
//! resource accounting, the execution metrics and the performance report,
//! the script cache of the execution engine, the engine abstraction, the
//! compatibility objects, the text scanners used by the system monitors and
//! the planning of the benchmark suite.
pub mod bench;
pub mod clock;
pub mod execution;
pub mod integration;
pub mod engine;
pub mod resource;
pub mod sysmon;
pub mod monitor;
pub mod text;
pub mod timeline;
