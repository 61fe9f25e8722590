//! Client-side telemetry core for a feature-flag SDK.
//!
//! Evaluation call sites record fine-grained events (which variation of a
//! flag was served, to whom, when). This crate accumulates those events,
//! reduces each drained batch into compact per-variation counters, packages
//! the batch for transmission, and keeps not-yet-delivered batches in a
//! bounded FIFO retry buffer. The surrounding process supplies the clock,
//! the locks, the timer and the HTTP transport; everything that decides or
//! computes lives here, with its behaviour stated and proved.

pub mod aggregate;
pub mod buffer;
pub mod collector;
pub mod event;
pub mod json;
pub mod package;
pub mod recorder;
pub mod retry;
