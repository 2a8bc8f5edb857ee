//! Core logic of a timeline-based video editor: the project model (tracks and
//! clips), undo/redo history, playback state, timeline geometry, time-code
//! formatting and parsing, file-name helpers and the decisions around frame
//! extraction.
//!
//! Every time value in this library is an `i64` count of microseconds; zoom
//! levels are counted in thousandths of a pixel per second.
pub mod labels;
pub mod media;
pub mod text;
pub mod timeline;
pub mod undo;
pub mod parse;
pub mod preview;
pub mod project;
pub mod state;
pub mod utils;
pub mod video;
pub mod voice;
