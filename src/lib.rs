//! Synchronisation engine of a light wallet: planning of block ranges,
//! reorganisation recovery, the block-cache index and remote server choice.

pub mod scan;
pub mod sync;
pub mod cache;
pub mod remote;
pub mod history;
