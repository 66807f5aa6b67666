//! Stream multiplexing over a single connection: the wire header, the frames
//! that carry stream data and control messages, the allocation of stream ids,
//! and the bookkeeping of open and pending streams.

pub mod errors;
pub mod messages;
pub mod buffers;
pub mod frames;
pub mod state;
pub mod mux;
pub mod registry;
