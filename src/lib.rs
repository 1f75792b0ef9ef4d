//! Detection and classification of transient events in a rectified signal.
//!
//! Sample magnitudes are carried as `u64` levels: any encoding that preserves
//! the order of the rectified amplitudes serves, and all comparisons made here
//! are comparisons of levels. Distances and widths are counted in samples.
pub mod classify;
pub mod detect;
pub mod pipeline;
pub mod types;
