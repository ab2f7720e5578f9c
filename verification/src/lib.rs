//! A blocking random-byte device in miniature.
//!
//! Raw boolean samples are whitened by a Von Neumann extractor, packed into
//! bytes most significant bit first, gathered into blocks of 32 bytes and
//! diffused through SHA3-256. Every stage is a small state machine that is fed
//! one item at a time and answers with the unit it completed, if any; a stage
//! that has nothing to answer with makes the stages after it wait.
//!
//! - [`chunks`]: gathering items into chunks of a fixed size.
//! - [`debias`], [`pack`], [`hash`]: the three stages.
//! - [`pipeline`]: the stages in a row, fed sample by sample or all at once.
//! - [`driver`]: what a run does next, given what just happened.
//! - [`randomness_sources`]: boolean sources to draw the samples from.

pub mod chunks;
pub mod debias;
pub mod driver;
pub mod hash;
pub mod pack;
pub mod pipeline;
pub mod randomness_sources;
