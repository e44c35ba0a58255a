//! Extraction of JPEG frames from a Motion-JPEG byte stream, and the
//! decisions of the path that writes their decoded planar pixels out.
//!
//! - `scanner`: the frame boundary state machine, with its laws.
//! - `decode`: the checks made before a frame is decoded.
//! - `pipe`: pipe detection and capacity, and zero-copy transfer steps.
//! - `driver`: what the stream loop does after each read and write.
pub mod decode;
pub mod driver;
pub mod pipe;
pub mod scanner;
