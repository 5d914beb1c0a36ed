//! Streaming read-file scoring: a positional match/mismatch scoring engine,
//! launch planning for parallel devices, a bounded-memory record decoder,
//! per-file accumulation, and a whole-file checkpoint ledger for resumable
//! multi-file runs.

pub mod checkpoint;
pub mod device;
pub mod engine;
pub mod fastq;
pub mod kmers;
pub mod line_align;
pub mod orchestrator;
pub mod scoring;
pub mod telemetry;
pub mod text;
