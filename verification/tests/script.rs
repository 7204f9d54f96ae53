//! Script messaging and the CHDK operations' requests and replies.

use chdkptp::chdk::ext::{
    execute_script_request, script_id_from_response, ScriptWait, WaitStep, POLL_INTERVAL_MS,
};
use chdkptp::chdk::file::upload_payload;
use chdkptp::chdk::opcode::{MSGTYPE_ERR, MSGTYPE_RET, MSGTYPE_USER, TYPE_INTEGER, TYPE_STRING};
use chdkptp::chdk::{ChdkVersion, ErrorCategory, ScriptMsg, ScriptStatus, ScriptValue, Sub};
use chdkptp::ptp::opcode::{RC_GENERAL_ERROR, RC_OK};
use chdkptp::ptp::PtpResponse;
use chdkptp::Error;

fn resp(code: u16, params: Vec<u32>, data: Vec<u8>) -> PtpResponse {
    PtpResponse { code, params, data }
}

#[test]
fn sub_command_numbers() {
    assert_eq!(Sub::Version.as_u32(), 0);
    assert_eq!(Sub::TempData.as_u32(), 4);
    assert_eq!(Sub::ExecuteScript.as_u32(), 7);
    assert_eq!(Sub::ReadScriptMsg.as_u32(), 10);
    assert_eq!(Sub::GetDisplayData.as_u32(), 12);
    assert_eq!(Sub::RemoteCaptureGetData.as_u32(), 14);
}

#[test]
fn script_status_bits() {
    let s = ScriptStatus::from_raw(3);
    assert_eq!(s.raw(), 3);
    assert!(s.running());
    assert!(s.msg_pending());
    let t = ScriptStatus::from_raw(2);
    assert!(!t.running());
    assert!(t.msg_pending());
    let d = ScriptStatus::default();
    assert_eq!(d.raw(), 0);
    assert!(!d.running() && !d.msg_pending());
    assert_eq!(ScriptStatus::from_response(&resp(RC_OK, vec![], vec![])).unwrap().raw(), 0);
    assert_eq!(ScriptStatus::from_response(&resp(RC_OK, vec![1, 7], vec![])).unwrap().raw(), 1);
    assert!(ScriptStatus::from_response(&resp(RC_GENERAL_ERROR, vec![1], vec![])).is_err());
}

#[test]
fn error_categories() {
    assert_eq!(ErrorCategory::from_raw(1), ErrorCategory::Compile);
    assert_eq!(ErrorCategory::from_raw(2), ErrorCategory::Runtime);
    assert_eq!(ErrorCategory::from_raw(0), ErrorCategory::Other(0));
    assert_eq!(ErrorCategory::from_raw(7), ErrorCategory::Other(7));
}

#[test]
fn script_values() {
    assert_eq!(ScriptValue::decode(1, &[5]), ScriptValue::Nil);
    assert_eq!(ScriptValue::decode(2, &[1]), ScriptValue::Boolean(true));
    assert_eq!(ScriptValue::decode(2, &[0]), ScriptValue::Boolean(false));
    assert_eq!(ScriptValue::decode(2, &[]), ScriptValue::Boolean(false));
    assert_eq!(ScriptValue::decode(3, &[0xFE, 0xFF, 0xFF, 0xFF]), ScriptValue::Integer(-2));
    assert_eq!(ScriptValue::decode(3, &[42, 0, 0, 0, 9]), ScriptValue::Integer(42));
    assert_eq!(ScriptValue::decode(3, &[1, 2, 3]), ScriptValue::Unsupported);
    assert_eq!(ScriptValue::decode(4, b"zoom"), ScriptValue::String("zoom".to_string()));
    assert_eq!(ScriptValue::decode(5, b"{1,2}"), ScriptValue::Table("{1,2}".to_string()));
    assert_eq!(ScriptValue::decode(0, b"x"), ScriptValue::Unsupported);
    assert_eq!(ScriptValue::decode(6, b"x"), ScriptValue::Unsupported);
}

#[test]
fn invalid_utf8_is_replaced() {
    assert_eq!(
        ScriptValue::decode(4, &[b'a', 0xFF, b'b']),
        ScriptValue::String("a\u{FFFD}b".to_string())
    );
}

#[test]
fn script_messages() {
    assert!(ScriptMsg::from_response(&resp(RC_OK, vec![], vec![])).unwrap().is_empty());
    match ScriptMsg::from_response(&resp(RC_OK, vec![MSGTYPE_ERR, 1, 12], b"oops".to_vec())).unwrap() {
        ScriptMsg::Error { script_id, category, text } => {
            assert_eq!(script_id, 12);
            assert_eq!(category, ErrorCategory::Compile);
            assert_eq!(text, "oops");
        }
        other => panic!("unexpected {:?}", other),
    }
    match ScriptMsg::from_response(&resp(RC_OK, vec![MSGTYPE_RET, TYPE_INTEGER, 3], vec![7, 0, 0, 0]))
        .unwrap()
    {
        ScriptMsg::Return { script_id, value } => {
            assert_eq!(script_id, 3);
            assert_eq!(value, ScriptValue::Integer(7));
        }
        other => panic!("unexpected {:?}", other),
    }
    match ScriptMsg::from_response(&resp(RC_OK, vec![MSGTYPE_USER, TYPE_STRING], b"hi".to_vec())).unwrap() {
        ScriptMsg::User { script_id, value } => {
            assert_eq!(script_id, 0);
            assert_eq!(value, ScriptValue::String("hi".to_string()));
        }
        other => panic!("unexpected {:?}", other),
    }
    match ScriptMsg::from_response(&resp(RC_OK, vec![9], vec![])) {
        Err(Error::Codec(m)) => assert_eq!(m, "read_script_msg: unknown msg_type 9"),
        other => panic!("unexpected {:?}", other),
    }
    assert!(matches!(
        ScriptMsg::from_response(&resp(RC_GENERAL_ERROR, vec![], vec![])),
        Err(Error::PtpResponse { code: 0x2002 })
    ));
}

#[test]
fn chdk_version_from_response() {
    let v = ChdkVersion::from_response(&resp(RC_OK, vec![2, 9], vec![])).unwrap();
    assert_eq!((v.major, v.minor), (2, 9));
    assert_eq!(v.to_string(), "2.9");
    assert_eq!(ChdkVersion { major: 120, minor: 0 }.to_string(), "120.0");
    match ChdkVersion::from_response(&resp(RC_OK, vec![2], vec![])) {
        Err(Error::Codec(m)) => assert_eq!(m, "chdk_version: expected ≥2 response params, got 1"),
        other => panic!("unexpected {:?}", other),
    }
    assert!(matches!(
        ChdkVersion::from_response(&resp(RC_GENERAL_ERROR, vec![2, 9], vec![])),
        Err(Error::PtpResponse { code: 0x2002 })
    ));
}

#[test]
fn execute_script_request_is_nul_terminated() {
    let (params, payload) = execute_script_request("return 1");
    assert_eq!(params, [7, 0x600]);
    assert_eq!(payload, b"return 1\0".to_vec());
    let (_, empty) = execute_script_request("");
    assert_eq!(empty, vec![0]);
}

#[test]
fn script_id_from_the_first_param() {
    assert_eq!(script_id_from_response(&resp(RC_OK, vec![17, 1], vec![])).unwrap(), 17);
    match script_id_from_response(&resp(RC_OK, vec![], vec![])) {
        Err(Error::Codec(m)) => assert_eq!(m, "execute_script_lua: response missing script_id"),
        other => panic!("unexpected {:?}", other),
    }
    assert!(script_id_from_response(&resp(0x2005, vec![1], vec![])).is_err());
}

#[test]
fn upload_payload_layout() {
    let p = upload_payload("A/X.LUA", &[1, 2, 3]);
    let mut expected = vec![7, 0, 0, 0];
    expected.extend_from_slice(b"A/X.LUA");
    expected.extend_from_slice(&[1, 2, 3]);
    assert_eq!(p, expected);
}

fn user(n: i32) -> ScriptMsg {
    ScriptMsg::User { script_id: 1, value: ScriptValue::Integer(n) }
}

#[test]
fn waiting_keeps_every_message_in_order_until_the_script_stops() {
    let mut w = ScriptWait::new(1000);
    assert_eq!(w.on_msg(user(1)), WaitStep::ReadMsg);
    assert_eq!(w.on_msg(ScriptMsg::Empty), WaitStep::QueryStatus);
    assert_eq!(w.on_status(ScriptStatus::from_raw(1), 5_000_000).unwrap(), WaitStep::Sleep);
    assert_eq!(POLL_INTERVAL_MS, 20);
    assert_eq!(
        w.on_msg(ScriptMsg::Error {
            script_id: 1,
            category: ErrorCategory::Runtime,
            text: "bad".to_string()
        }),
        WaitStep::ReadMsg
    );
    assert_eq!(w.on_msg(ScriptMsg::Empty), WaitStep::QueryStatus);
    assert_eq!(w.on_status(ScriptStatus::from_raw(2), 6_000_000).unwrap(), WaitStep::ReadMsg);
    assert_eq!(w.on_msg(user(3)), WaitStep::ReadMsg);
    assert_eq!(w.on_msg(ScriptMsg::Empty), WaitStep::Done);
    let msgs = w.into_messages();
    assert_eq!(msgs.len(), 3);
    assert!(matches!(msgs[0], ScriptMsg::User { value: ScriptValue::Integer(1), .. }));
    assert!(matches!(msgs[1], ScriptMsg::Error { .. }));
    assert!(matches!(msgs[2], ScriptMsg::User { value: ScriptValue::Integer(3), .. }));
}

#[test]
fn waiting_times_out_only_strictly_after_the_limit() {
    let mut w = ScriptWait::new(20_000);
    assert_eq!(
        w.on_status(ScriptStatus::from_raw(1), 20_000_000_000).unwrap(),
        WaitStep::Sleep
    );
    match w.on_status(ScriptStatus::from_raw(1), 20_000_000_001) {
        Err(Error::Usb(m)) => assert_eq!(m, "script timed out after 20000 ms"),
        other => panic!("unexpected {:?}", other),
    }
}
