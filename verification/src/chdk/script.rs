//! Script messaging: typed views of the camera-to-host message protocol.
use vstd::prelude::*;

use crate::chdk::opcode::{
    ERRTYPE_COMPILE, ERRTYPE_RUN, MSGTYPE_ERR, MSGTYPE_NONE, MSGTYPE_RET, MSGTYPE_USER,
    SCRIPT_STATUS_MSG, SCRIPT_STATUS_RUN, TYPE_BOOLEAN, TYPE_INTEGER, TYPE_NIL, TYPE_STRING,
    TYPE_TABLE,
};
use crate::error::{decimal, push_decimal, Error};
use crate::ptp::codec::{load_u32_le, u32_le_at};
use crate::ptp::opcode::RC_OK;
use crate::ptp::session::PtpResponse;

verus! {

/// The identifier `ExecuteScript` assigns to a script run.
pub type ScriptId = u32;

/// What `String::from_utf8_lossy` makes of `bytes`.
pub uninterp spec fn utf8_lossy(bytes: Seq<u8>) -> Seq<char>;

/// Calls `String::from_utf8_lossy`, which decodes UTF-8 and puts U+FFFD in place of
/// each invalid sequence. Claimed: the characters are named by `utf8_lossy`, and
/// for valid UTF-8 they are the decoded characters.
#[verifier::external_body]
fn string_from_utf8_lossy(bytes: &[u8]) -> (s: String)
    ensures
        s@ == utf8_lossy(bytes@),
        vstd::utf8::valid_utf8(bytes@) ==> s@ == vstd::utf8::decode_utf8(bytes@),
{
    String::from_utf8_lossy(bytes).into_owned()
}

/// The bitmask `ScriptStatus` returns.
#[derive(Debug, Clone, Copy, PartialEq, Eq, Structural)]
pub struct ScriptStatus {
    raw: u32,
}

impl Default for ScriptStatus {
    fn default() -> (s: Self)
        ensures
            s.bits() == 0,
    {
        ScriptStatus { raw: 0 }
    }
}

impl ScriptStatus {
    /// The raw bitmask.
    pub closed spec fn bits(self) -> u32 {
        self.raw
    }

    /// A status with the given bitmask.
    pub fn from_raw(raw: u32) -> (s: Self)
        ensures
            s.bits() == raw,
    {
        ScriptStatus { raw }
    }

    /// The raw bitmask.
    pub fn raw(&self) -> (r: u32)
        ensures
            r == self.bits(),
    {
        self.raw
    }

    /// Whether a script is running on the camera.
    pub fn running(&self) -> (b: bool)
        ensures
            b == (self.bits() & SCRIPT_STATUS_RUN != 0),
            b == (self.bits() % 2 == 1),
    {
        proof {
            lemma_status_bits(self.bits());
        }
        self.raw & SCRIPT_STATUS_RUN != 0
    }

    /// Whether messages are queued and ready to be read.
    pub fn msg_pending(&self) -> (b: bool)
        ensures
            b == (self.bits() & SCRIPT_STATUS_MSG != 0),
            b == ((self.bits() / 2) % 2 == 1),
    {
        proof {
            lemma_status_bits(self.bits());
        }
        self.raw & SCRIPT_STATUS_MSG != 0
    }

    /// The status a `ScriptStatus` response reports: its first parameter, 0 when it
    /// has none; a response code other than OK is an error.
    pub fn from_response(resp: &PtpResponse) -> (r: Result<ScriptStatus, Error>)
        ensures
            resp.code != RC_OK ==> (r matches Err(Error::PtpResponse { code }) && code == resp.code),
            resp.code == RC_OK ==> (r matches Ok(s) && s.bits() == param_or(resp.params@, 0, 0)),
            resp.code == RC_OK && resp.params@.len() > 0 ==> (r matches Ok(s) && s.bits()
                == resp.params@[0]),
            resp.code == RC_OK && resp.params@.len() == 0 ==> (r matches Ok(s) && s.bits() == 0),
    {
        match resp.ok() {
            Ok(()) => {},
            Err(e) => return Err(e),
        }
        let raw = if resp.params.len() > 0 {
            resp.params[0]
        } else {
            0
        };
        Ok(ScriptStatus::from_raw(raw))
    }
}

/// The `i`-th parameter, or `default` when there are fewer.
pub open spec fn param_or(params: Seq<u32>, i: int, default: u32) -> u32 {
    if 0 <= i < params.len() {
        params[i]
    } else {
        default
    }
}

fn get_param_or(params: &Vec<u32>, i: usize, default: u32) -> (v: u32)
    ensures
        v == param_or(params@, i as int, default),
{
    if i < params.len() {
        params[i]
    } else {
        default
    }
}

/// The kind of a script error.
#[derive(Debug, Clone, Copy, PartialEq, Eq, Structural)]
pub enum ErrorCategory {
    Compile,
    Runtime,
    Other(u32),
}

/// The category an error subtype stands for.
pub open spec fn error_category_of(v: u32) -> ErrorCategory {
    if v == ERRTYPE_COMPILE {
        ErrorCategory::Compile
    } else if v == ERRTYPE_RUN {
        ErrorCategory::Runtime
    } else {
        ErrorCategory::Other(v)
    }
}

impl ErrorCategory {
    /// The category of an error subtype; unknown subtypes are kept as `Other`.
    pub fn from_raw(v: u32) -> (c: Self)
        ensures
            c == error_category_of(v),
            v == 1 ==> c == ErrorCategory::Compile,
            v == 2 ==> c == ErrorCategory::Runtime,
            v != 1 && v != 2 ==> c == ErrorCategory::Other(v),
    {
        if v == ERRTYPE_COMPILE {
            ErrorCategory::Compile
        } else if v == ERRTYPE_RUN {
            ErrorCategory::Runtime
        } else {
            ErrorCategory::Other(v)
        }
    }
}

/// A value carried by a `Return` or `User` script message.
#[derive(Debug, Clone, PartialEq)]
pub enum ScriptValue {
    Nil,
    Boolean(bool),
    Integer(i32),
    String(String),
    /// A table, which CHDK serializes to Lua source on the camera.
    Table(String),
    /// A Lua type that does not cross the wire (function, userdata).
    Unsupported,
}

/// A script value, as values.
pub enum ScriptValueView {
    Nil,
    Boolean(bool),
    Integer(i32),
    Text(Seq<char>),
    Table(Seq<char>),
    Unsupported,
}

impl View for ScriptValue {
    type V = ScriptValueView;

    open spec fn view(&self) -> ScriptValueView {
        match self {
            ScriptValue::Nil => ScriptValueView::Nil,
            ScriptValue::Boolean(b) => ScriptValueView::Boolean(*b),
            ScriptValue::Integer(i) => ScriptValueView::Integer(*i),
            ScriptValue::String(s) => ScriptValueView::Text(s@),
            ScriptValue::Table(s) => ScriptValueView::Table(s@),
            ScriptValue::Unsupported => ScriptValueView::Unsupported,
        }
    }
}

/// The signed 32-bit value of a word read as two's complement.
pub open spec fn i32_of_word(w: u32) -> i32 {
    if w < 0x8000_0000 {
        w as i32
    } else {
        (w - 0x1_0000_0000) as i32
    }
}

/// The value a payload of the given subtype carries: a boolean is its first byte
/// being non-zero (false when there is none), an integer its first four bytes as a
/// little-endian two's-complement `i32` (unsupported when fewer), a string or table
/// its bytes read as UTF-8 with invalid sequences replaced.
pub open spec fn script_value_model(subtype: u32, data: Seq<u8>) -> ScriptValueView {
    if subtype == TYPE_NIL {
        ScriptValueView::Nil
    } else if subtype == TYPE_BOOLEAN {
        ScriptValueView::Boolean(data.len() > 0 && data[0] != 0)
    } else if subtype == TYPE_INTEGER {
        if data.len() >= 4 {
            ScriptValueView::Integer(i32_of_word(u32_le_at(data, 0)))
        } else {
            ScriptValueView::Unsupported
        }
    } else if subtype == TYPE_STRING {
        ScriptValueView::Text(utf8_lossy(data))
    } else if subtype == TYPE_TABLE {
        ScriptValueView::Table(utf8_lossy(data))
    } else {
        ScriptValueView::Unsupported
    }
}

impl ScriptValue {
    /// Decodes a value payload given its subtype tag.
    pub fn decode(subtype: u32, data: &[u8]) -> (v: Self)
        ensures
            v@ == script_value_model(subtype, data@),
            subtype == 3 && data@.len() >= 4 ==> (v matches ScriptValue::Integer(x) && x as int == ({
                let w = data@[0] as int + 256 * data@[1] as int + 65536 * data@[2] as int
                    + 16777216 * data@[3] as int;
                if w < 0x8000_0000 {
                    w
                } else {
                    w - 0x1_0000_0000
                }
            })),
    {
        if subtype == TYPE_NIL {
            ScriptValue::Nil
        } else if subtype == TYPE_BOOLEAN {
            let b = if data.len() > 0 {
                data[0] != 0
            } else {
                false
            };
            ScriptValue::Boolean(b)
        } else if subtype == TYPE_INTEGER {
            if data.len() >= 4 {
                let w = load_u32_le(data, 0);
                let x: i32 = if w < 0x8000_0000 {
                    w as i32
                } else {
                    (w - 0x8000_0000) as i32 + i32::MIN
                };
                ScriptValue::Integer(x)
            } else {
                ScriptValue::Unsupported
            }
        } else if subtype == TYPE_STRING {
            ScriptValue::String(string_from_utf8_lossy(data))
        } else if subtype == TYPE_TABLE {
            ScriptValue::Table(string_from_utf8_lossy(data))
        } else {
            ScriptValue::Unsupported
        }
    }
}

/// One message read from the script message queue.
#[derive(Debug, Clone)]
pub enum ScriptMsg {
    /// The queue is empty; no more messages for now.
    Empty,
    /// The script raised an error: `category` tells compile from runtime errors,
    /// `text` is the message.
    Error { script_id: ScriptId, category: ErrorCategory, text: String },
    /// The top-level chunk returned a value.
    Return { script_id: ScriptId, value: ScriptValue },
    /// The script sent a message with `write_usb_msg(...)`.
    User { script_id: ScriptId, value: ScriptValue },
}

/// A script message, as values.
pub enum ScriptMsgView {
    Empty,
    Error { script_id: ScriptId, category: ErrorCategory, text: Seq<char> },
    Return { script_id: ScriptId, value: ScriptValueView },
    User { script_id: ScriptId, value: ScriptValueView },
}

impl View for ScriptMsg {
    type V = ScriptMsgView;

    open spec fn view(&self) -> ScriptMsgView {
        match self {
            ScriptMsg::Empty => ScriptMsgView::Empty,
            ScriptMsg::Error { script_id, category, text } => ScriptMsgView::Error {
                script_id: *script_id,
                category: *category,
                text: text@,
            },
            ScriptMsg::Return { script_id, value } => ScriptMsgView::Return {
                script_id: *script_id,
                value: value@,
            },
            ScriptMsg::User { script_id, value } => ScriptMsgView::User {
                script_id: *script_id,
                value: value@,
            },
        }
    }
}

/// The message of an unknown message type.
pub open spec fn unknown_msg_type_msg(t: u32) -> Seq<char> {
    "read_script_msg: unknown msg_type "@ + decimal(t as nat)
}

/// The message a `ReadScriptMsg` response with these parameters and data carries:
/// parameters are type, subtype and script id (each 0 when missing; a missing type
/// means the queue is empty).
pub open spec fn script_msg_model(params: Seq<u32>, data: Seq<u8>) -> Result<
    ScriptMsgView,
    Seq<char>,
> {
    let msg_type = param_or(params, 0, MSGTYPE_NONE);
    let subtype = param_or(params, 1, 0);
    let script_id = param_or(params, 2, 0);
    if msg_type == MSGTYPE_NONE {
        Ok(ScriptMsgView::Empty)
    } else if msg_type == MSGTYPE_ERR {
        Ok(
            ScriptMsgView::Error {
                script_id,
                category: error_category_of(subtype),
                text: utf8_lossy(data),
            },
        )
    } else if msg_type == MSGTYPE_RET {
        Ok(ScriptMsgView::Return { script_id, value: script_value_model(subtype, data) })
    } else if msg_type == MSGTYPE_USER {
        Ok(ScriptMsgView::User { script_id, value: script_value_model(subtype, data) })
    } else {
        Err(unknown_msg_type_msg(msg_type))
    }
}

impl ScriptMsg {
    /// The message a `ReadScriptMsg` response carries; a response code other than
    /// OK, or an unknown message type, is an error.
    pub fn from_response(resp: &PtpResponse) -> (r: Result<ScriptMsg, Error>)
        ensures
            resp.code != RC_OK ==> (r matches Err(Error::PtpResponse { code }) && code == resp.code),
            resp.code == RC_OK ==> match script_msg_model(resp.params@, resp.data@) {
                Ok(v) => r matches Ok(m) && m@ == v,
                Err(msg) => r matches Err(e) && e.is_codec(msg),
            },
    {
        match resp.ok() {
            Ok(()) => {},
            Err(e) => return Err(e),
        }
        let msg_type = get_param_or(&resp.params, 0, MSGTYPE_NONE);
        let subtype = get_param_or(&resp.params, 1, 0);
        let script_id = get_param_or(&resp.params, 2, 0);
        let data = resp.data.as_slice();
        if msg_type == MSGTYPE_NONE {
            Ok(ScriptMsg::Empty)
        } else if msg_type == MSGTYPE_ERR {
            Ok(
                ScriptMsg::Error {
                    script_id,
                    category: ErrorCategory::from_raw(subtype),
                    text: string_from_utf8_lossy(data),
                },
            )
        } else if msg_type == MSGTYPE_RET {
            Ok(ScriptMsg::Return { script_id, value: ScriptValue::decode(subtype, data) })
        } else if msg_type == MSGTYPE_USER {
            Ok(ScriptMsg::User { script_id, value: ScriptValue::decode(subtype, data) })
        } else {
            let mut m = String::from_str("read_script_msg: unknown msg_type ");
            push_decimal(&mut m, msg_type as u128);
            Err(Error::Codec(m))
        }
    }

    /// Whether this is the marker of an empty queue.
    pub fn is_empty(&self) -> (b: bool)
        ensures
            b == (self is Empty),
    {
        match self {
            ScriptMsg::Empty => true,
            _ => false,
        }
    }
}

/// An integer payload is the whole little-endian 32-bit word of its first four
/// bytes, read as two's complement; later bytes do not matter.
pub proof fn lemma_integer_value(data: Seq<u8>)
    requires
        data.len() >= 4,
    ensures
        script_value_model(3, data) matches ScriptValueView::Integer(x) && x as int == ({
            let w = data[0] as int + 256 * data[1] as int + 65536 * data[2] as int + 16777216
                * data[3] as int;
            if w < 0x8000_0000 {
                w
            } else {
                w - 0x1_0000_0000
            }
        }),
{
}

/// Every `i32` survives being written as four little-endian two's-complement bytes
/// and decoded as an integer payload, whatever follows them.
pub proof fn lemma_integer_roundtrip(x: i32, rest: Seq<u8>)
    ensures
        script_value_model(
            3,
            crate::ptp::codec::u32_le_bytes(
                (if x >= 0 {
                    x as int
                } else {
                    x + 0x1_0000_0000
                }) as u32,
            ) + rest,
        ) == ScriptValueView::Integer(x),
{
    let w: u32 = (if x >= 0 {
        x as int
    } else {
        x + 0x1_0000_0000
    }) as u32;
    let b = crate::ptp::codec::u32_le_bytes(w) + rest;
    crate::ptp::codec::lemma_u32_le_roundtrip(w);
    assert(u32_le_at(b, 0) == u32_le_at(crate::ptp::codec::u32_le_bytes(w), 0));
}

/// Of a `ScriptStatus` bitmask, bit 0 (value 1) says a script runs and bit 1
/// (value 2) says messages wait.
pub proof fn lemma_status_bits(raw: u32)
    ensures
        (raw & SCRIPT_STATUS_RUN != 0) == (raw % 2 == 1),
        (raw & SCRIPT_STATUS_MSG != 0) == ((raw / 2) % 2 == 1),
{
    assert((raw & 1u32 != 0) == (raw % 2 == 1)) by (bit_vector);
    assert((raw & 2u32 != 0) == ((raw / 2) % 2 == 1)) by (bit_vector);
}

/// Error subtypes: 1 is a compile error, 2 a runtime error, any other is kept.
pub proof fn lemma_error_categories(v: u32)
    ensures
        error_category_of(1) == ErrorCategory::Compile,
        error_category_of(2) == ErrorCategory::Runtime,
        v != 1 && v != 2 ==> error_category_of(v) == ErrorCategory::Other(v),
{
}

/// Value subtypes (CHDK `ptp.h`): 1 nil, 2 boolean (first byte non-zero, false when
/// there is none), 3 integer (see `lemma_integer_value`; too short is
/// unsupported), 4 string and 5 table (the bytes as UTF-8), anything else
/// unsupported.
pub proof fn lemma_value_subtypes(subtype: u32, data: Seq<u8>)
    ensures
        script_value_model(1, data) == ScriptValueView::Nil,
        script_value_model(2, data) == ScriptValueView::Boolean(data.len() > 0 && data[0] != 0),
        data.len() < 4 ==> script_value_model(3, data) == ScriptValueView::Unsupported,
        script_value_model(4, data) == ScriptValueView::Text(utf8_lossy(data)),
        script_value_model(5, data) == ScriptValueView::Table(utf8_lossy(data)),
        (subtype == 0 || subtype > 5) ==> script_value_model(subtype, data)
            == ScriptValueView::Unsupported,
{
}

/// A `ReadScriptMsg` reply: the first parameter is the message type (0 or missing:
/// the queue is empty; 1 error; 2 return value; 3 user message; others refused),
/// the second the subtype, the third the script id; the data is the payload.
pub proof fn lemma_script_msg_layout(params: Seq<u32>, data: Seq<u8>)
    ensures
        params.len() == 0 ==> script_msg_model(params, data) == Ok::<ScriptMsgView, Seq<char>>(
            ScriptMsgView::Empty,
        ),
        params.len() >= 3 ==> {
            let t = params[0];
            let sub = params[1];
            let id = params[2];
            &&& t == 0 ==> script_msg_model(params, data) == Ok::<ScriptMsgView, Seq<char>>(
                ScriptMsgView::Empty,
            )
            &&& t == 1 ==> script_msg_model(params, data) == Ok::<ScriptMsgView, Seq<char>>(
                ScriptMsgView::Error {
                    script_id: id,
                    category: error_category_of(sub),
                    text: utf8_lossy(data),
                },
            )
            &&& t == 2 ==> script_msg_model(params, data) == Ok::<ScriptMsgView, Seq<char>>(
                ScriptMsgView::Return { script_id: id, value: script_value_model(sub, data) },
            )
            &&& t == 3 ==> script_msg_model(params, data) == Ok::<ScriptMsgView, Seq<char>>(
                ScriptMsgView::User { script_id: id, value: script_value_model(sub, data) },
            )
            &&& t > 3 ==> script_msg_model(params, data) is Err
        },
{
}

} // verus!
