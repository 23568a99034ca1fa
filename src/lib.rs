use vstd::prelude::*;

pub mod binary_generation;
pub mod binary_parsing;
pub mod connection;
pub mod constants;
pub mod frame_laws;
pub mod ipc_message;
pub mod message;

verus! {

/// Width of a frame's type tag.
pub type TypeTagSize = u16;

/// Width of a frame's declared payload length.
pub type NumberBytesSize = usize;

} // verus!
