//! MeshCodec geometry: the transport layer that frames the mesh payload
//! (cursors, var-ints, windows) and the transform tails that rebuild vertex
//! attributes from the decoded streams.
pub mod delta;
pub mod row_tails;
pub mod rows;
pub mod sources;
pub mod state0;
pub mod tails;
pub mod transport;
pub mod writer;
