//! The library's error type, and the decimal rendering used in its messages.
use vstd::prelude::*;

verus! {

/// Everything that can go wrong while talking to a camera.
#[derive(Debug)]
pub enum Error {
    /// A USB transfer or device-level failure, with a description.
    Usb(String),
    /// No Canon device is visible on the bus.
    NoDevicesFound,
    /// The device has no PTP / still-image interface with bulk IN and OUT endpoints.
    NoPtpInterface,
    /// Bytes on the wire did not follow the PTP (or CHDK) format.
    Codec(String),
    /// The camera answered a PTP operation with a response code other than OK.
    PtpResponse { code: u16 },
    /// A container of an unexpected type arrived.
    UnexpectedContainer { expected: u16, got: u16 },
}

impl Error {
    /// This is a `Codec` error whose message reads `msg`.
    pub open spec fn is_codec(self, msg: Seq<char>) -> bool {
        self matches Error::Codec(m) && m@ == msg
    }

    /// This is a `Usb` error whose message reads `msg`.
    pub open spec fn is_usb(self, msg: Seq<char>) -> bool {
        self matches Error::Usb(m) && m@ == msg
    }
}

/// The text of a single decimal digit.
pub open spec fn digit_text(d: nat) -> Seq<char> {
    if d == 0 {
        "0"@
    } else if d == 1 {
        "1"@
    } else if d == 2 {
        "2"@
    } else if d == 3 {
        "3"@
    } else if d == 4 {
        "4"@
    } else if d == 5 {
        "5"@
    } else if d == 6 {
        "6"@
    } else if d == 7 {
        "7"@
    } else if d == 8 {
        "8"@
    } else {
        "9"@
    }
}

/// The decimal rendering of `n`, most significant digit first, without leading zeros.
pub open spec fn decimal(n: nat) -> Seq<char>
    decreases n,
{
    if n < 10 {
        digit_text(n)
    } else {
        decimal(n / 10) + digit_text(n % 10)
    }
}

fn digit_str(d: u8) -> (s: &'static str)
    requires
        d < 10,
    ensures
        s@ == digit_text(d as nat),
{
    if d == 0 {
        "0"
    } else if d == 1 {
        "1"
    } else if d == 2 {
        "2"
    } else if d == 3 {
        "3"
    } else if d == 4 {
        "4"
    } else if d == 5 {
        "5"
    } else if d == 6 {
        "6"
    } else if d == 7 {
        "7"
    } else if d == 8 {
        "8"
    } else {
        "9"
    }
}

/// Appends the decimal rendering of `n` to `s`.
pub fn push_decimal(s: &mut String, n: u128)
    ensures
        final(s)@ == old(s)@ + decimal(n as nat),
    decreases n,
{
    if n >= 10 {
        push_decimal(s, n / 10);
    }
    let d = (n % 10) as u8;
    s.append(digit_str(d));
    assert(old(s)@ + decimal(n as nat) =~= s@) by {
        if n >= 10 {
            assert(decimal(n as nat) == decimal((n / 10) as nat) + digit_text((n % 10) as nat));
        }
    }
}

} // verus!
