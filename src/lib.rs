//! Progress tracking for a streaming dataflow engine: the timestamp algebra,
//! frontiers, signed delta maps, the observer protocol of the data plane and
//! the boundary scopes that take part in the progress protocol.

pub mod timestamp;
pub mod count_map;
pub mod frontier;
pub mod observer;
pub mod scope;
pub mod barrier;
pub mod input;
pub mod feedback;
pub mod graph;
pub mod runs;
