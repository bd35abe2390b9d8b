//! A resumable, segmented HTTP download engine: the decisions and data
//! formats behind probing, planning, fetching, checkpointing and progress
//! reporting, with the network and disk work left to the caller.

pub mod text;
pub mod segment;
pub mod checkpoint;
pub mod percent;
pub mod filename;
pub mod retry;
pub mod fetch;
pub mod progress;
pub mod probe;
pub mod orchestrate;
