//! Memory-hierarchy latency profiler: builds pointer-chase rings in a word pool,
//! times dependent loads over them, and renders the results as a comma-terminated grid.
pub mod arith;
pub mod chain;
pub mod clock;
pub mod measure;
pub mod report;
pub mod text;
