//! Real-time audio output buffering and MIDI event capture.
//!
//! The library models an audio output session (a cross-thread sample queue
//! with monotonic source/sink cursors and a backpressure metric), a MIDI
//! input session (a port snapshot, a connect-once state machine and a FIFO
//! queue of delta-timed, variable-length-encoded event records), and a mono
//! downmix loader for integer PCM data.

pub mod engine;
pub mod error;
pub mod midi;
pub mod vlq;
pub mod wav;
