//! Verified core of the ozone plugin loader: AArch64 signature decoding,
//! NRO/NRR image handling, crash report formatting and the TCP logger's
//! bookkeeping.

use vstd::prelude::*;

pub mod fmt;
pub mod pattern;
pub mod loader;
pub mod sockets;
pub mod logger;
pub mod crash;
pub mod memory;
pub mod plugins;

verus! {

} // verus!
