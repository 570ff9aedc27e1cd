//! Core logic of a threaded Lua train-simulation host: byte messages that
//! scripts read and write, the registry of running trains, the control flow
//! of a train's worker, and the translation of CPU affinity masks.

pub mod affinity;
pub mod encoding;
pub mod message;
pub mod registry;
pub mod text;
pub mod train;
