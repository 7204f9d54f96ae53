//! Standard PTP container types, operation codes and response codes (the subset
//! this library uses).
use vstd::prelude::*;

verus! {

/// Container type of a Command block.
pub const CONTAINER_COMMAND: u16 = 1;

/// Container type of a Data block.
pub const CONTAINER_DATA: u16 = 2;

/// Container type of a Response block.
pub const CONTAINER_RESPONSE: u16 = 3;

/// Container type of an Event block.
pub const CONTAINER_EVENT: u16 = 4;

/// Operation `GetDeviceInfo`.
pub const OP_GET_DEVICE_INFO: u16 = 0x1001;

/// Operation `OpenSession`.
pub const OP_OPEN_SESSION: u16 = 0x1002;

/// Operation `CloseSession`.
pub const OP_CLOSE_SESSION: u16 = 0x1003;

/// Response `OK`.
pub const RC_OK: u16 = 0x2001;

/// Response `General_Error`.
pub const RC_GENERAL_ERROR: u16 = 0x2002;

/// Response `Session_Not_Open`.
pub const RC_SESSION_NOT_OPEN: u16 = 0x2003;

/// Response `Operation_Not_Supported`.
pub const RC_OPERATION_NOT_SUPPORTED: u16 = 0x2005;

/// Response `Session_Already_Open`.
pub const RC_SESSION_ALREADY_OPEN: u16 = 0x201E;

/// The name of a response code, `"Unknown"` for the codes not listed here.
pub open spec fn response_name_text(code: u16) -> Seq<char> {
    if code == RC_OK {
        "OK"@
    } else if code == RC_GENERAL_ERROR {
        "General_Error"@
    } else if code == RC_SESSION_NOT_OPEN {
        "Session_Not_Open"@
    } else if code == RC_OPERATION_NOT_SUPPORTED {
        "Operation_Not_Supported"@
    } else if code == RC_SESSION_ALREADY_OPEN {
        "Session_Already_Open"@
    } else {
        "Unknown"@
    }
}

/// The human-readable name of a PTP response code.
pub fn response_name(code: u16) -> (name: &'static str)
    ensures
        name@ == response_name_text(code),
{
    if code == RC_OK {
        "OK"
    } else if code == RC_GENERAL_ERROR {
        "General_Error"
    } else if code == RC_SESSION_NOT_OPEN {
        "Session_Not_Open"
    } else if code == RC_OPERATION_NOT_SUPPORTED {
        "Operation_Not_Supported"
    } else if code == RC_SESSION_ALREADY_OPEN {
        "Session_Already_Open"
    } else {
        "Unknown"
    }
}

/// The PTP codes this library uses, as ISO 15740 numbers them, and the names
/// `response_name` gives the response codes.
pub proof fn lemma_ptp_codes(code: u16)
    ensures
        CONTAINER_COMMAND == 1 && CONTAINER_DATA == 2 && CONTAINER_RESPONSE == 3
            && CONTAINER_EVENT == 4,
        OP_GET_DEVICE_INFO == 0x1001 && OP_OPEN_SESSION == 0x1002 && OP_CLOSE_SESSION == 0x1003,
        RC_OK == 0x2001 && RC_GENERAL_ERROR == 0x2002 && RC_SESSION_NOT_OPEN == 0x2003
            && RC_OPERATION_NOT_SUPPORTED == 0x2005 && RC_SESSION_ALREADY_OPEN == 0x201E,
        response_name_text(0x2001) == "OK"@,
        response_name_text(0x2002) == "General_Error"@,
        response_name_text(0x2003) == "Session_Not_Open"@,
        response_name_text(0x2005) == "Operation_Not_Supported"@,
        response_name_text(0x201E) == "Session_Already_Open"@,
        !(code == 0x2001 || code == 0x2002 || code == 0x2003 || code == 0x2005 || code
            == 0x201E) ==> response_name_text(code) == "Unknown"@,
{
}

} // verus!
