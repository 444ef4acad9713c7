//! Trajectory segmentation, compact run encoding, and memory-bounded
//! windowed playback for large batches of timestamped position samples.
//!
//! A sorted sample stream is cut into runs of plausible continuous movement
//! (`segmenter`), runs are serialized into a fixed-width binary format with
//! an append-only progress ledger for idempotent extraction (`codec`,
//! `ledger`, `extract`, `compress`), and many runs are later replayed as
//! sprites against a bounded resident coordinate-index window (`player`),
//! with local coordinates mapped to canvas pixels by a static region table
//! (`mapper`).

pub mod coords;
pub mod mapper;
pub mod sprite;
pub mod warp;
pub mod codec;
pub mod sample;
pub mod segmenter;
pub mod ledger;
pub mod extract;
pub mod compress;
pub mod player;
