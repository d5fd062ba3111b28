//! The core of a driver that decodes video through an `ffmpeg` child
//! process: the parser of the child's diagnostics, the line splitter, and
//! the decisions of the child's life from start to shutdown. The core does
//! no I/O: its caller runs the child and reports what it read and saw.

pub mod decoder;
pub mod error;
pub mod grammar;
pub mod image_bgr;
pub mod laws;
pub mod lines;
pub mod media;
pub mod number;
pub mod parse;
pub mod text;
pub mod worker;
