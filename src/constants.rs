use vstd::prelude::*;

verus! {

/// Name under which the daemon takes its single-instance lock.
pub const APP_DAEMON_NAME: &'static str = "daima_deamon";

/// Largest value one varint group holds, plus one.
pub const VARINT_GROUP_BASE: usize = 128;

/// Marker bit of a varint byte that is followed by another.
pub const CONTINUATION_BIT: u8 = 128;

/// Number of bytes of a frame's type tag.
pub const NUMBER_OF_TYPE_TAG_BYTES: u16 = 2;

} // verus!
