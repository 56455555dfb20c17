//! Verified core of a stuck-frame video repair pipeline.
//!
//! A damaged capture often holds runs of frames that are nearly identical to
//! their predecessor.  The pipeline decodes the video into numbered still
//! frames, scores temporally adjacent frames for similarity, drops the ones
//! that duplicate their successor, and re-encodes the survivors.  This crate
//! holds the verified logic of that pipeline: the similarity scorer over
//! plain luminance buffers, the batch-local keep/drop decisions, the ordering
//! of collected frame files, the argument lists and name handling for the
//! external media tool, and the job state machine that sequences the stages.
//! The unverified shell around it performs the file and process work and
//! hands plain values back and forth.

pub mod adapter;
pub mod collector;
pub mod filter;
pub mod frame;
pub mod job;
pub mod scorer;
