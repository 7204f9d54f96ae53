//! The computing side of the CHDK operations: what each one sends, what its
//! response means, and the polling loop that waits for a script to finish.
use vstd::prelude::*;

use crate::chdk::opcode::{
    sub_code, Sub, SCRIPT_FLAG_FLUSH_CAM_MSGS, SCRIPT_FLAG_FLUSH_HOST_MSGS, SCRIPT_LANG_LUA,
    SCRIPT_STATUS_RUN,
};
use crate::chdk::script::{ScriptId, ScriptMsg, ScriptStatus};
use crate::error::{decimal, push_decimal, Error};
use crate::ptp::opcode::RC_OK;
use crate::ptp::session::PtpResponse;

verus! {

/// The CHDK PTP protocol version a camera reports.
#[derive(Debug, Clone, Copy)]
pub struct ChdkVersion {
    pub major: u32,
    pub minor: u32,
}

/// The message for a version response with too few parameters.
pub open spec fn short_version_msg(n: nat) -> Seq<char> {
    "chdk_version: expected ≥2 response params, got "@ + decimal(n)
}

impl ChdkVersion {
    /// The version a `Version` response carries in its first two parameters; a
    /// response code other than OK, or fewer parameters, is an error.
    pub fn from_response(resp: &PtpResponse) -> (r: Result<ChdkVersion, Error>)
        ensures
            resp.code != RC_OK ==> (r matches Err(Error::PtpResponse { code }) && code == resp.code),
            resp.code == RC_OK && resp.params@.len() < 2 ==> (r matches Err(e) && e.is_codec(
                short_version_msg(resp.params@.len()),
            )),
            resp.code == RC_OK && resp.params@.len() >= 2 ==> (r matches Ok(v) && v.major
                == resp.params@[0] && v.minor == resp.params@[1]),
    {
        match resp.ok() {
            Ok(()) => {},
            Err(e) => return Err(e),
        }
        if resp.params.len() < 2 {
            let mut m = String::from_str("chdk_version: expected ≥2 response params, got ");
            push_decimal(&mut m, resp.params.len() as u128);
            return Err(Error::Codec(m));
        }
        Ok(ChdkVersion { major: resp.params[0], minor: resp.params[1] })
    }

    /// The version as text, `major.minor`.
    pub fn to_string(&self) -> (s: String)
        ensures
            s@ == decimal(self.major as nat) + "."@ + decimal(self.minor as nat),
    {
        let mut s = String::new();
        push_decimal(&mut s, self.major as u128);
        s.append(".");
        push_decimal(&mut s, self.minor as u128);
        s
    }
}

/// The second parameter of `ExecuteScript` for Lua with both message queues flushed.
pub open spec fn lua_execute_flags() -> u32 {
    (SCRIPT_LANG_LUA as u32) | SCRIPT_FLAG_FLUSH_CAM_MSGS | SCRIPT_FLAG_FLUSH_HOST_MSGS
}

/// The parameters and data phase of `ExecuteScript` for Lua `source`: the
/// sub-command and the flags, and the source NUL-terminated (CHDK loads it as a C
/// string; without the NUL it reads on into stale buffer contents).
pub fn execute_script_request(source: &str) -> (r: ([u32; 2], Vec<u8>))
    ensures
        r.0@ == seq![sub_code(Sub::ExecuteScript), lua_execute_flags()],
        lua_execute_flags() == 0x600,
        r.0@ == seq![7u32, 0x600u32],
        r.1@ == vstd::utf8::encode_utf8(source@).push(0u8),
{
    let flags = (SCRIPT_LANG_LUA as u32) | SCRIPT_FLAG_FLUSH_CAM_MSGS | SCRIPT_FLAG_FLUSH_HOST_MSGS;
    assert((0u8 as u32) | 0x200u32 | 0x400u32 == 0x600u32) by (bit_vector);
    let mut payload: Vec<u8> = Vec::new();
    payload.extend_from_slice(source.as_bytes());
    payload.push(0);
    let params = [Sub::ExecuteScript.as_u32(), flags];
    assert(params@ =~= seq![sub_code(Sub::ExecuteScript), lua_execute_flags()]);
    (params, payload)
}

/// The message for an `ExecuteScript` response without a script id.
pub open spec fn missing_script_id_msg() -> Seq<char> {
    "execute_script_lua: response missing script_id"@
}

/// The script id an `ExecuteScript` response carries in its first parameter; a
/// response code other than OK, or no parameter, is an error.
pub fn script_id_from_response(resp: &PtpResponse) -> (r: Result<ScriptId, Error>)
    ensures
        resp.code != RC_OK ==> (r matches Err(Error::PtpResponse { code }) && code == resp.code),
        resp.code == RC_OK && resp.params@.len() == 0 ==> (r matches Err(e) && e.is_codec(
            missing_script_id_msg(),
        )),
        resp.code == RC_OK && resp.params@.len() > 0 ==> r == Ok::<ScriptId, Error>(
            resp.params@[0],
        ),
{
    match resp.ok() {
        Ok(()) => {},
        Err(e) => return Err(e),
    }
    if resp.params.len() == 0 {
        return Err(Error::Codec(String::from_str("execute_script_lua: response missing script_id")));
    }
    Ok(resp.params[0])
}

// ---------------------------------------------------------------------------
// Waiting for a script
// ---------------------------------------------------------------------------

/// How long to sleep between two status polls, in milliseconds. 20 ms keeps probe
/// round trips tight (timing-sensitive uses such as clock-sync offset estimation);
/// for a typical 1-3 s `shoot()` the extra polls cost little.
pub const POLL_INTERVAL_MS: u64 = 20;

/// What to do next while waiting for a script.
#[derive(Debug, Clone, Copy, PartialEq, Eq, Structural)]
pub enum WaitStep {
    /// Read one message (`ReadScriptMsg`) and hand it to `on_msg`.
    ReadMsg,
    /// Query the script status (`ScriptStatus`) and hand it to `on_status`.
    QueryStatus,
    /// Sleep `POLL_INTERVAL_MS`, then read a message.
    Sleep,
    /// The script has finished and its messages are all read.
    Done,
}

/// The state of waiting for a script: first drain the message queue, then poll the
/// status; once the script no longer runs, drain once more and finish.
pub struct ScriptWait {
    timeout_ms: u64,
    final_drain: bool,
    msgs: Vec<ScriptMsg>,
}

/// The message of a script that outlived its time limit.
pub open spec fn timeout_msg(timeout_ms: nat) -> Seq<char> {
    "script timed out after "@ + decimal(timeout_ms) + " ms"@
}

impl ScriptWait {
    /// The messages gathered so far, in the order read.
    pub closed spec fn messages(self) -> Seq<ScriptMsg> {
        self.msgs@
    }

    /// Whether the script has been seen to stop, so the next empty queue ends the wait.
    pub closed spec fn stopped(self) -> bool {
        self.final_drain
    }

    /// The time limit in milliseconds.
    pub closed spec fn limit_ms(self) -> u64 {
        self.timeout_ms
    }

    /// Starts waiting, with the time limit `timeout_ms`; the first step is `ReadMsg`.
    pub fn new(timeout_ms: u64) -> (w: Self)
        ensures
            w.messages().len() == 0,
            !w.stopped(),
            w.limit_ms() == timeout_ms,
    {
        ScriptWait { timeout_ms, final_drain: false, msgs: Vec::new() }
    }

    /// Takes in a message just read. An empty queue ends the drain: the status is
    /// queried next, or after the script stopped, the wait is done. Any other
    /// message, errors included, is kept and the next one is read.
    pub fn on_msg(&mut self, m: ScriptMsg) -> (step: WaitStep)
        ensures
            final(self).stopped() == old(self).stopped(),
            final(self).limit_ms() == old(self).limit_ms(),
            m is Empty ==> final(self).messages() == old(self).messages() && step == (if old(
                self,
            ).stopped() {
                WaitStep::Done
            } else {
                WaitStep::QueryStatus
            }),
            !(m is Empty) ==> final(self).messages() == old(self).messages().push(m) && step
                == WaitStep::ReadMsg,
    {
        if m.is_empty() {
            if self.final_drain {
                WaitStep::Done
            } else {
                WaitStep::QueryStatus
            }
        } else {
            self.msgs.push(m);
            WaitStep::ReadMsg
        }
    }

    /// Takes in the status just queried, `elapsed_ns` nanoseconds after the script
    /// was started. A script that no longer runs gets a final drain; one still
    /// running past the time limit is an error; otherwise sleep and drain again.
    pub fn on_status(&mut self, status: ScriptStatus, elapsed_ns: u128) -> (r: Result<
        WaitStep,
        Error,
    >)
        ensures
            final(self).messages() == old(self).messages(),
            final(self).limit_ms() == old(self).limit_ms(),
            status.bits() & SCRIPT_STATUS_RUN == 0 ==> r == Ok::<WaitStep, Error>(
                WaitStep::ReadMsg,
            ) && final(self).stopped(),
            status.bits() & SCRIPT_STATUS_RUN != 0 ==> final(self).stopped() == old(self).stopped()
                && if elapsed_ns > old(self).limit_ms() as int * 1_000_000 {
                r matches Err(e) && e.is_usb(timeout_msg(old(self).limit_ms() as nat))
            } else {
                r == Ok::<WaitStep, Error>(WaitStep::Sleep)
            },
    {
        if !status.running() {
            self.final_drain = true;
            return Ok(WaitStep::ReadMsg);
        }
        if elapsed_ns > (self.timeout_ms as u128) * 1_000_000 {
            let mut m = String::from_str("script timed out after ");
            push_decimal(&mut m, self.timeout_ms as u128);
            m.append(" ms");
            return Err(Error::Usb(m));
        }
        Ok(WaitStep::Sleep)
    }

    /// The messages gathered, in the order read.
    pub fn into_messages(self) -> (v: Vec<ScriptMsg>)
        ensures
            v@ == self.messages(),
    {
        self.msgs
    }
}

} // verus!
