//! Driver logic for an LED video-wall controller spoken to over raw Ethernet
//! frames: colour conversion, geometry, frame encoding, row chunking and the
//! discovery exchange.

pub mod chunker;
pub mod color;
pub mod discovery;
pub mod frame;
pub mod geometry;
pub mod pattern;
pub mod pipeline;
