//! The PTP (Picture Transfer Protocol, ISO 15740) layer: wire codec, container
//! framing, the session's bookkeeping and the `GetDeviceInfo` dataset.
pub mod codec;
pub mod container;
pub mod device_info;
pub mod opcode;
pub mod session;

pub use device_info::DeviceInfo;
pub use session::{DataPhase, PtpResponse, SessionState};
