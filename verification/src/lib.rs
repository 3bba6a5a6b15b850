//! Simulated power-trace synthesis for side-channel leakage assessment.
//!
//! A digital simulation records, for every signal, the points in time at
//! which its value changes.  This library turns those sparse change streams
//! into one power series under a Hamming-distance activity model, cuts the
//! series into labelled, equally wide execution windows, and holds the rules
//! by which a run over many files reuses archives and folds trace matrices
//! into a leakage statistic.
//!
//! Power is modelled in whole units of toggled bits, so every sample is an
//! unsigned integer.

pub mod cache;
pub mod fst;
pub mod listing;
pub mod matrix;
pub mod metadata;
pub mod optional_filter;
pub mod pipeline;
pub mod power_model;
pub mod segment;
pub mod signal;
pub mod synth;
pub mod wave;

pub use fst::{traces_from_fst, FstError, FstEvent};
pub use matrix::TraceMatrix;
pub use optional_filter::{FilterAdaptorWithCondition, OptFilterAdaptor, OptionalFilter};
pub use power_model::{power_model, Hamming};
pub use segment::{cut_trace, markers_to_time_indices, SegmentError};
pub use signal::{SignalChange, SignalValue};
pub use synth::{generate_power_trace, SynthesisError};
pub use wave::wave_to_powertrace;
