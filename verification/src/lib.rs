//! Client library for Canon cameras running CHDK firmware, speaking PTP over USB.
//!
//! The library holds the protocol: the PTP wire codec and container framing, the
//! session's bookkeeping and the meaning of each response, the CHDK operations'
//! requests and replies, script messaging, and live-view decoding.
use vstd::prelude::*;

pub mod chdk;
pub mod error;
pub mod ptp;

pub use chdk::ChdkVersion;
pub use error::Error;
pub use ptp::DeviceInfo;

verus! {

/// USB vendor id of Canon Inc.
pub const CANON_VENDOR_ID: u16 = 0x04A9;

} // verus!
