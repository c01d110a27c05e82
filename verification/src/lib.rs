//! Multi-device audio synchronization engine.
//!
//! Aligns recordings of the same event captured on several independent
//! devices onto one timeline.  All timeline math runs at a fixed analysis
//! rate of 8 kHz; wall-clock times are carried as integer microseconds and
//! correlation confidences as integer thousandths, so that every placement
//! rule of the pipeline is exact and provable.
//!
//! The numeric signal kernels (FFT cross-correlation, drift regression)
//! live outside this library; the library states and proves everything
//! that is decided from their results: reference selection, metadata
//! placement, overlap repair, timeline normalization, drift bookkeeping,
//! and the edit-list text formats.

pub mod cloud;
pub mod correlate;
pub mod engine;
pub mod files;
pub mod grouping;
pub mod models;
pub mod project;
pub mod stitch;
pub mod text;
pub mod timeline;
