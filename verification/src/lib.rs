//! Wire-format layer of a trivial file-transfer protocol: parsing byte
//! buffers into typed protocol messages and serializing typed messages back
//! into byte buffers, with bounds-checked cursors over the caller's buffers.

pub mod reader;
pub mod tftp;
pub mod wire;
pub mod writer;
