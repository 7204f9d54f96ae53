//! The CHDK vendor operation code, its sub-commands and the tags of its script
//! messages (values from CHDK's `core/ptp.h`).
use vstd::prelude::*;

verus! {

/// The CHDK vendor operation code; every CHDK operation goes through it, with the
/// sub-command in the first parameter.
pub const PTP_OC_CHDK: u16 = 0x9999;

/// A CHDK sub-command, placed in the first parameter of the command container.
#[derive(Debug, Clone, Copy, PartialEq, Eq, Structural)]
pub enum Sub {
    Version,
    GetMemory,
    SetMemory,
    CallFunction,
    TempData,
    UploadFile,
    DownloadFile,
    ExecuteScript,
    ScriptStatus,
    ScriptSupport,
    ReadScriptMsg,
    WriteScriptMsg,
    GetDisplayData,
    RemoteCaptureIsReady,
    RemoteCaptureGetData,
}

/// The wire number of a sub-command.
pub open spec fn sub_code(s: Sub) -> u32 {
    match s {
        Sub::Version => 0,
        Sub::GetMemory => 1,
        Sub::SetMemory => 2,
        Sub::CallFunction => 3,
        Sub::TempData => 4,
        Sub::UploadFile => 5,
        Sub::DownloadFile => 6,
        Sub::ExecuteScript => 7,
        Sub::ScriptStatus => 8,
        Sub::ScriptSupport => 9,
        Sub::ReadScriptMsg => 10,
        Sub::WriteScriptMsg => 11,
        Sub::GetDisplayData => 12,
        Sub::RemoteCaptureIsReady => 13,
        Sub::RemoteCaptureGetData => 14,
    }
}

impl Sub {
    /// The wire number of the sub-command.
    pub fn as_u32(self) -> (c: u32)
        ensures
            c == sub_code(self),
            self is Version ==> c == 0,
            self is GetMemory ==> c == 1,
            self is SetMemory ==> c == 2,
            self is CallFunction ==> c == 3,
            self is TempData ==> c == 4,
            self is UploadFile ==> c == 5,
            self is DownloadFile ==> c == 6,
            self is ExecuteScript ==> c == 7,
            self is ScriptStatus ==> c == 8,
            self is ScriptSupport ==> c == 9,
            self is ReadScriptMsg ==> c == 10,
            self is WriteScriptMsg ==> c == 11,
            self is GetDisplayData ==> c == 12,
            self is RemoteCaptureIsReady ==> c == 13,
            self is RemoteCaptureGetData ==> c == 14,
    {
        match self {
            Sub::Version => 0,
            Sub::GetMemory => 1,
            Sub::SetMemory => 2,
            Sub::CallFunction => 3,
            Sub::TempData => 4,
            Sub::UploadFile => 5,
            Sub::DownloadFile => 6,
            Sub::ExecuteScript => 7,
            Sub::ScriptStatus => 8,
            Sub::ScriptSupport => 9,
            Sub::ReadScriptMsg => 10,
            Sub::WriteScriptMsg => 11,
            Sub::GetDisplayData => 12,
            Sub::RemoteCaptureIsReady => 13,
            Sub::RemoteCaptureGetData => 14,
        }
    }
}

/// Language selector for `ExecuteScript` (low byte of the second parameter): Lua.
pub const SCRIPT_LANG_LUA: u8 = 0;

/// Language selector for `ExecuteScript`: uBASIC.
pub const SCRIPT_LANG_UBASIC: u8 = 1;

/// `ExecuteScript` flag: do not kill a running script.
pub const SCRIPT_FLAG_NOKILL: u32 = 0x100;

/// `ExecuteScript` flag: flush the camera-to-host message queue.
pub const SCRIPT_FLAG_FLUSH_CAM_MSGS: u32 = 0x200;

/// `ExecuteScript` flag: flush the host-to-camera message queue.
pub const SCRIPT_FLAG_FLUSH_HOST_MSGS: u32 = 0x400;

/// `ScriptStatus` bit: a script is running.
pub const SCRIPT_STATUS_RUN: u32 = 0x01;

/// `ScriptStatus` bit: messages are waiting.
pub const SCRIPT_STATUS_MSG: u32 = 0x02;

/// `ReadScriptMsg` type: the queue is empty.
pub const MSGTYPE_NONE: u32 = 0;

/// `ReadScriptMsg` type: an error.
pub const MSGTYPE_ERR: u32 = 1;

/// `ReadScriptMsg` type: the script's return value.
pub const MSGTYPE_RET: u32 = 2;

/// `ReadScriptMsg` type: a message the script sent.
pub const MSGTYPE_USER: u32 = 3;

/// Value subtype: a Lua type that does not cross the wire.
pub const TYPE_UNSUPPORTED: u32 = 0;

/// Value subtype: nil.
pub const TYPE_NIL: u32 = 1;

/// Value subtype: boolean.
pub const TYPE_BOOLEAN: u32 = 2;

/// Value subtype: integer.
pub const TYPE_INTEGER: u32 = 3;

/// Value subtype: string.
pub const TYPE_STRING: u32 = 4;

/// Value subtype: table, serialized as Lua source.
pub const TYPE_TABLE: u32 = 5;

/// Error subtype: none.
pub const ERRTYPE_NONE: u32 = 0;

/// Error subtype: compile error.
pub const ERRTYPE_COMPILE: u32 = 1;

/// Error subtype: runtime error.
pub const ERRTYPE_RUN: u32 = 2;

/// The sub-command numbers of CHDK's `core/ptp.h` (`PTP_CHDK_Version` = 0 up to
/// `PTP_CHDK_RemoteCaptureGetData` = 14), and no two sub-commands share a number.
pub proof fn lemma_sub_codes()
    ensures
        sub_code(Sub::Version) == 0,
        sub_code(Sub::GetMemory) == 1,
        sub_code(Sub::SetMemory) == 2,
        sub_code(Sub::CallFunction) == 3,
        sub_code(Sub::TempData) == 4,
        sub_code(Sub::UploadFile) == 5,
        sub_code(Sub::DownloadFile) == 6,
        sub_code(Sub::ExecuteScript) == 7,
        sub_code(Sub::ScriptStatus) == 8,
        sub_code(Sub::ScriptSupport) == 9,
        sub_code(Sub::ReadScriptMsg) == 10,
        sub_code(Sub::WriteScriptMsg) == 11,
        sub_code(Sub::GetDisplayData) == 12,
        sub_code(Sub::RemoteCaptureIsReady) == 13,
        sub_code(Sub::RemoteCaptureGetData) == 14,
        forall|a: Sub, b: Sub| #[trigger] sub_code(a) == #[trigger] sub_code(b) ==> a == b,
        forall|a: Sub| #[trigger] sub_code(a) <= 14,
{
}

} // verus!
