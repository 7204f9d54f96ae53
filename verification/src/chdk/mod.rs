//! CHDK's PTP extensions: every CHDK operation rides on the vendor operation
//! `PTP_OC_CHDK` with a sub-command in the first parameter.
pub mod ext;
pub mod file;
pub mod liveview;
pub mod opcode;
pub mod script;

pub use ext::ChdkVersion;
pub use opcode::{Sub, PTP_OC_CHDK};
pub use script::{ErrorCategory, ScriptId, ScriptMsg, ScriptStatus, ScriptValue};
