//! Enumeration of seamless loop points: pairs of beat-aligned frames whose
//! distance lies in a duration window and whose features a judge accepts.
pub mod detect;
pub mod guarantees;
pub mod search;
pub mod window;

pub use detect::{detect_loop_pairs, find_out_of_range, ShapeError};
pub use search::{scan_loop_pairs, LoopPair};
pub use window::{DurationWindow, LengthClass};
