//! PTP wire codec: little-endian primitives, length-prefixed UTF-16LE strings and
//! counted arrays.
use vstd::prelude::*;

use crate::error::{decimal, push_decimal, Error};

verus! {

// ---------------------------------------------------------------------------
// The byte-level model
// ---------------------------------------------------------------------------

/// The little-endian 16-bit value stored at `b[i..i + 2]`.
pub open spec fn u16_le_at(b: Seq<u8>, i: int) -> u16 {
    (b[i] as int + 256 * (b[i + 1] as int)) as u16
}

/// The little-endian 32-bit value stored at `b[i..i + 4]`.
pub open spec fn u32_le_at(b: Seq<u8>, i: int) -> u32 {
    (b[i] as int + 256 * (b[i + 1] as int) + 65536 * (b[i + 2] as int) + 16777216 * (
    b[i + 3] as int)) as u32
}

/// The two little-endian bytes of `v`.
pub open spec fn u16_le_bytes(v: u16) -> Seq<u8> {
    seq![(v % 256) as u8, (v / 256) as u8]
}

/// The four little-endian bytes of `v`.
pub open spec fn u32_le_bytes(v: u32) -> Seq<u8> {
    seq![
        (v % 256) as u8,
        ((v / 256) % 256) as u8,
        ((v / 65536) % 256) as u8,
        (v / 16777216) as u8,
    ]
}

/// `n` consecutive little-endian 16-bit values read from the start of `b`.
pub open spec fn u16_seq(b: Seq<u8>, n: nat) -> Seq<u16> {
    Seq::new(n, |k: int| u16_le_at(b, 2 * k))
}

/// `n` consecutive little-endian 32-bit values read from the start of `b`.
pub open spec fn u32_seq(b: Seq<u8>, n: nat) -> Seq<u32> {
    Seq::new(n, |k: int| u32_le_at(b, 4 * k))
}

/// The message of a read that needed `need` bytes where only `have` were left.
pub open spec fn short_read_msg(need: nat, have: nat) -> Seq<char> {
    "short read: need "@ + decimal(need) + ", have "@ + decimal(have)
}

// ---------------------------------------------------------------------------
// UTF-16
// ---------------------------------------------------------------------------

/// A UTF-16 code unit that opens a surrogate pair.
pub open spec fn is_high_surrogate(u: u16) -> bool {
    0xD800 <= u <= 0xDBFF
}

/// A UTF-16 code unit that closes a surrogate pair.
pub open spec fn is_low_surrogate(u: u16) -> bool {
    0xDC00 <= u <= 0xDFFF
}

/// The characters that the UTF-16 code units `units` encode, or `None` where a
/// surrogate stands unpaired.
pub open spec fn utf16_decode(units: Seq<u16>) -> Option<Seq<char>>
    decreases units.len(),
{
    if units.len() == 0 {
        Some(Seq::empty())
    } else if is_low_surrogate(units[0]) {
        None
    } else if is_high_surrogate(units[0]) {
        if units.len() >= 2 && is_low_surrogate(units[1]) {
            match utf16_decode(units.subrange(2, units.len() as int)) {
                Some(rest) => Some(
                    seq![
                        (0x10000 + (units[0] - 0xD800) * 0x400 + (units[1] - 0xDC00)) as char,
                    ] + rest,
                ),
                None => None,
            }
        } else {
            None
        }
    } else {
        match utf16_decode(units.subrange(1, units.len() as int)) {
            Some(rest) => Some(seq![units[0] as char] + rest),
            None => None,
        }
    }
}

/// What `std` renders for the error of decoding the invalid UTF-16 `units`.
pub uninterp spec fn utf16_error_text(units: Seq<u16>) -> Seq<char>;

/// Calls `String::from_utf16`, which decodes UTF-16 code units and refuses unpaired
/// surrogates. Claimed: the result is `Ok` exactly when `utf16_decode` succeeds,
/// and then holds the decoded characters; the error is rendered with `to_string`,
/// whose text is named, not stated.
#[verifier::external_body]
fn string_from_utf16(units: &[u16]) -> (r: Result<String, String>)
    ensures
        r is Ok <==> utf16_decode(units@) is Some,
        r matches Ok(s) ==> s@ == utf16_decode(units@).unwrap(),
        r matches Err(t) ==> t@ == utf16_error_text(units@),
{
    String::from_utf16(units).map_err(|e| e.to_string())
}

// ---------------------------------------------------------------------------
// What each read does to the bytes that remain
// ---------------------------------------------------------------------------

/// The result of taking `n` bytes from `s`, and how many bytes it consumes.
pub open spec fn take_model(s: Seq<u8>, n: nat) -> (Result<Seq<u8>, Seq<char>>, nat) {
    if n <= s.len() {
        (Ok(s.subrange(0, n as int)), n)
    } else {
        (Err(short_read_msg(n, s.len())), 0)
    }
}

/// Reading one byte from `s`.
pub open spec fn u8_model(s: Seq<u8>) -> (Result<u8, Seq<char>>, nat) {
    if 1 <= s.len() {
        (Ok(s[0]), 1)
    } else {
        (Err(short_read_msg(1, s.len())), 0)
    }
}

/// Reading a little-endian `u16` from `s`.
pub open spec fn u16_model(s: Seq<u8>) -> (Result<u16, Seq<char>>, nat) {
    if 2 <= s.len() {
        (Ok(u16_le_at(s, 0)), 2)
    } else {
        (Err(short_read_msg(2, s.len())), 0)
    }
}

/// Reading a little-endian `u32` from `s`.
pub open spec fn u32_model(s: Seq<u8>) -> (Result<u32, Seq<char>>, nat) {
    if 4 <= s.len() {
        (Ok(u32_le_at(s, 0)), 4)
    } else {
        (Err(short_read_msg(4, s.len())), 0)
    }
}

/// The message for a PTP string whose code units are not valid UTF-16.
pub open spec fn bad_utf16_msg(units: Seq<u16>) -> Seq<char> {
    "bad UTF-16 in PTP string: "@ + utf16_error_text(units)
}

/// Reading a PTP string from `s`: a count byte `n` (code units including the
/// terminating NUL, 0 for the empty string), then `n` little-endian code units of
/// which the last is dropped.
pub open spec fn string_model(s: Seq<u8>) -> (Result<Seq<char>, Seq<char>>, nat) {
    if s.len() < 1 {
        (Err(short_read_msg(1, s.len())), 0)
    } else {
        let n = s[0] as nat;
        let t = s.subrange(1, s.len() as int);
        if n == 0 {
            (Ok(Seq::empty()), 1)
        } else if t.len() < 2 * n {
            (Err(short_read_msg(2 * n, t.len())), 1)
        } else {
            let units = u16_seq(t, (n - 1) as nat);
            match utf16_decode(units) {
                Some(cs) => (Ok(cs), 1 + 2 * n),
                None => (Err(bad_utf16_msg(units)), 1 + 2 * n),
            }
        }
    }
}

/// Reading a PTP array of `u16` from `s`: a little-endian `u32` count, then that
/// many little-endian `u16`s. A short array fails at the first element that does
/// not fit, after the ones that did.
pub open spec fn u16_array_model(s: Seq<u8>) -> (Result<Seq<u16>, Seq<char>>, nat) {
    if s.len() < 4 {
        (Err(short_read_msg(4, s.len())), 0)
    } else {
        let n = u32_le_at(s, 0) as nat;
        let t = s.subrange(4, s.len() as int);
        if 2 * n <= t.len() {
            (Ok(u16_seq(t, n)), 4 + 2 * n)
        } else {
            let k = t.len() / 2;
            (Err(short_read_msg(2, (t.len() - 2 * k) as nat)), 4 + 2 * k)
        }
    }
}

/// `r` is what the model `m` describes: the same value (by view) on success, a
/// `Codec` error with the same message on failure.
pub open spec fn agrees<T: View>(r: Result<T, Error>, m: Result<T::V, Seq<char>>) -> bool {
    match m {
        Ok(v) => r matches Ok(x) && x@ == v,
        Err(msg) => r matches Err(e) && e.is_codec(msg),
    }
}

// ---------------------------------------------------------------------------
// Little-endian loads
// ---------------------------------------------------------------------------

/// The little-endian `u16` at `b[i..i + 2]`.
pub fn load_u16_le(b: &[u8], i: usize) -> (v: u16)
    requires
        i + 2 <= b@.len(),
    ensures
        v == u16_le_at(b@, i as int),
{
    b[i] as u16 + (b[i + 1] as u16) * 256
}

/// The little-endian `u32` at `b[i..i + 4]`.
pub fn load_u32_le(b: &[u8], i: usize) -> (v: u32)
    requires
        i + 4 <= b@.len(),
    ensures
        v == u32_le_at(b@, i as int),
{
    b[i] as u32 + (b[i + 1] as u32) * 256 + (b[i + 2] as u32) * 65536 + (b[i + 3] as u32)
        * 16777216
}

/// The `Codec` error of a read that needed `need` bytes where `have` were left.
fn short_read(need: usize, have: usize) -> (e: Error)
    ensures
        e.is_codec(short_read_msg(need as nat, have as nat)),
{
    let mut m = String::from_str("short read: need ");
    push_decimal(&mut m, need as u128);
    m.append(", have ");
    push_decimal(&mut m, have as u128);
    Error::Codec(m)
}

// ---------------------------------------------------------------------------
// Reader
// ---------------------------------------------------------------------------

/// A cursor over a byte buffer that decodes PTP wire values in order.
pub struct Reader<'a> {
    buf: &'a [u8],
    pos: usize,
}

impl<'a> Reader<'a> {
    #[verifier::type_invariant]
    spec fn inv(self) -> bool {
        self.pos <= self.buf@.len()
    }

    /// The whole buffer being read.
    pub closed spec fn bytes(self) -> Seq<u8> {
        self.buf@
    }

    /// How many bytes have been consumed.
    pub closed spec fn position(self) -> nat {
        self.pos as nat
    }

    /// The bytes not consumed yet.
    pub open spec fn rest(self) -> Seq<u8> {
        self.bytes().subrange(self.position() as int, self.bytes().len() as int)
    }

    /// A reader at the start of `buf`.
    pub fn new(buf: &'a [u8]) -> (r: Self)
        ensures
            r.bytes() == buf@,
            r.position() == 0,
    {
        Reader { buf, pos: 0 }
    }

    /// How many bytes are left.
    pub fn remaining(&self) -> (n: usize)
        ensures
            n == self.rest().len(),
            n == self.bytes().len() - self.position(),
    {
        proof {
            use_type_invariant(self);
        }
        self.buf.len() - self.pos
    }

    /// Consumes the next `n` bytes.
    fn take(&mut self, n: usize) -> (r: Result<&'a [u8], Error>)
        ensures
            final(self).bytes() == old(self).bytes(),
            final(self).position() == old(self).position() + take_model(old(self).rest(), n as nat).1,
            final(self).rest() == old(self).rest().subrange(
                take_model(old(self).rest(), n as nat).1 as int,
                old(self).rest().len() as int,
            ),
            agrees(r, take_model(old(self).rest(), n as nat).0),
    {
        proof {
            use_type_invariant(&*self);
        }
        let have = self.remaining();
        if have < n {
            assert(old(self).rest().subrange(0, old(self).rest().len() as int) =~= old(self).rest());
            return Err(short_read(n, have));
        }
        let len = self.buf.len();
        assert(self.pos + n <= len);
        let out = vstd::slice::slice_subrange(self.buf, self.pos, self.pos + n);
        self.pos = self.pos + n;
        assert(out@ =~= old(self).rest().subrange(0, n as int));
        assert(self.rest() =~= old(self).rest().subrange(n as int, old(self).rest().len() as int));
        Ok(out)
    }

    /// Reads one byte.
    pub fn read_u8(&mut self) -> (r: Result<u8, Error>)
        ensures
            final(self).bytes() == old(self).bytes(),
            final(self).position() == old(self).position() + u8_model(old(self).rest()).1,
            final(self).rest() == old(self).rest().subrange(
                u8_model(old(self).rest()).1 as int,
                old(self).rest().len() as int,
            ),
            agrees(r, u8_model(old(self).rest()).0),
    {
        match self.take(1) {
            Ok(b) => Ok(b[0]),
            Err(e) => Err(e),
        }
    }

    /// Reads a little-endian `u16`.
    pub fn read_u16(&mut self) -> (r: Result<u16, Error>)
        ensures
            final(self).bytes() == old(self).bytes(),
            final(self).position() == old(self).position() + u16_model(old(self).rest()).1,
            final(self).rest() == old(self).rest().subrange(
                u16_model(old(self).rest()).1 as int,
                old(self).rest().len() as int,
            ),
            agrees(r, u16_model(old(self).rest()).0),
    {
        match self.take(2) {
            Ok(b) => Ok(load_u16_le(b, 0)),
            Err(e) => Err(e),
        }
    }

    /// Reads a little-endian `u32`.
    pub fn read_u32(&mut self) -> (r: Result<u32, Error>)
        ensures
            final(self).bytes() == old(self).bytes(),
            final(self).position() == old(self).position() + u32_model(old(self).rest()).1,
            final(self).rest() == old(self).rest().subrange(
                u32_model(old(self).rest()).1 as int,
                old(self).rest().len() as int,
            ),
            agrees(r, u32_model(old(self).rest()).0),
    {
        match self.take(4) {
            Ok(b) => Ok(load_u32_le(b, 0)),
            Err(e) => Err(e),
        }
    }
    /// Reads a PTP string: a count byte (UTF-16 code units including the
    /// terminating NUL; 0 is the empty string with no NUL), then the code units.
    pub fn read_string(&mut self) -> (r: Result<String, Error>)
        ensures
            final(self).bytes() == old(self).bytes(),
            final(self).position() == old(self).position() + string_model(old(self).rest()).1,
            final(self).rest() == old(self).rest().subrange(
                string_model(old(self).rest()).1 as int,
                old(self).rest().len() as int,
            ),
            agrees(r, string_model(old(self).rest()).0),
    {
        let ghost s = self.rest();
        let n = match self.read_u8() {
            Ok(n) => n,
            Err(e) => return Err(e),
        };
        let ghost t = self.rest();
        assert(t =~= s.subrange(1, s.len() as int));
        if n == 0 {
            return Ok(String::new());
        }
        let count = n as usize;
        let bytes = match self.take(count * 2) {
            Ok(b) => b,
            Err(e) => {
                assert(self.rest() =~= s.subrange(1, s.len() as int));
                return Err(e);
            },
        };
        assert(self.rest() =~= s.subrange(1 + 2 * count, s.len() as int));
        let n_chars = count - 1;
        let mut units: Vec<u16> = Vec::new();
        let mut i: usize = 0;
        while i < n_chars
            invariant
                i <= n_chars,
                n_chars + 1 == count,
                count <= 255,
                bytes@.len() == 2 * count,
                bytes@ == t.subrange(0, 2 * count),
                units@ == u16_seq(bytes@, i as nat),
            decreases n_chars - i,
        {
            units.push(load_u16_le(bytes, 2 * i));
            i = i + 1;
            assert(units@ =~= u16_seq(bytes@, i as nat));
        }
        assert(units@ =~= u16_seq(t, n_chars as nat));
        match string_from_utf16(units.as_slice()) {
            Ok(text) => Ok(text),
            Err(why) => {
                let mut m = String::from_str("bad UTF-16 in PTP string: ");
                m.append(why.as_str());
                Err(Error::Codec(m))
            },
        }
    }

    /// Reads a PTP array of `u16`: a little-endian `u32` count, then the elements.
    pub fn read_u16_array(&mut self) -> (r: Result<Vec<u16>, Error>)
        ensures
            final(self).bytes() == old(self).bytes(),
            final(self).position() == old(self).position() + u16_array_model(old(self).rest()).1,
            final(self).rest() == old(self).rest().subrange(
                u16_array_model(old(self).rest()).1 as int,
                old(self).rest().len() as int,
            ),
            agrees(r, u16_array_model(old(self).rest()).0),
    {
        let ghost s = self.rest();
        let n = match self.read_u32() {
            Ok(n) => n,
            Err(e) => return Err(e),
        };
        let ghost t = self.rest();
        let ghost p0 = self.position();
        let ghost b0 = self.bytes();
        assert(t =~= s.subrange(4, s.len() as int));
        let mut out: Vec<u16> = Vec::new();
        let mut i: u32 = 0;
        while i < n
            invariant
                i <= n,
                s == old(self).rest(),
                4 <= s.len(),
                p0 == old(self).position() + 4,
                b0 == old(self).bytes(),
                n == u32_le_at(s, 0),
                t == s.subrange(4, s.len() as int),
                self.bytes() == b0,
                self.position() == p0 + 2 * i,
                2 * i <= t.len(),
                self.rest() == t.subrange(2 * i, t.len() as int),
                out@ == u16_seq(t, i as nat),
            decreases n - i,
        {
            match self.read_u16() {
                Ok(v) => {
                    out.push(v);
                    i = i + 1;
                    assert(self.rest() =~= t.subrange(2 * i, t.len() as int));
                    assert(out@ =~= u16_seq(t, i as nat));
                },
                Err(e) => {
                    assert(t.len() / 2 == i);
                    return Err(e);
                },
            }
        }
        Ok(out)
    }
}

// ---------------------------------------------------------------------------
// Writer
// ---------------------------------------------------------------------------

/// The little-endian bytes of each value of `ws`, in order.
pub open spec fn u32s_le_bytes(ws: Seq<u32>) -> Seq<u8>
    decreases ws.len(),
{
    if ws.len() == 0 {
        Seq::empty()
    } else {
        u32s_le_bytes(ws.drop_last()) + u32_le_bytes(ws.last())
    }
}

/// A growable buffer that encodes PTP wire values in order.
pub struct Writer {
    buf: Vec<u8>,
}

impl View for Writer {
    type V = Seq<u8>;

    /// The bytes written so far.
    closed spec fn view(&self) -> Seq<u8> {
        self.buf@
    }
}

impl Default for Writer {
    fn default() -> (w: Self)
        ensures
            w@ == Seq::<u8>::empty(),
    {
        Writer::new()
    }
}

impl Writer {
    /// An empty writer.
    pub fn new() -> (w: Self)
        ensures
            w@ == Seq::<u8>::empty(),
    {
        Writer { buf: Vec::new() }
    }

    /// The bytes written.
    pub fn into_bytes(self) -> (b: Vec<u8>)
        ensures
            b@ == self@,
    {
        self.buf
    }

    /// Appends `v` in little-endian order.
    pub fn write_u16(&mut self, v: u16)
        ensures
            final(self)@ == old(self)@ + u16_le_bytes(v),
    {
        self.buf.push((v % 256) as u8);
        self.buf.push((v / 256) as u8);
        assert(self@ =~= old(self)@ + u16_le_bytes(v));
    }

    /// Appends `v` in little-endian order.
    pub fn write_u32(&mut self, v: u32)
        ensures
            final(self)@ == old(self)@ + u32_le_bytes(v),
    {
        self.buf.push((v % 256) as u8);
        self.buf.push(((v / 256) % 256) as u8);
        self.buf.push(((v / 65536) % 256) as u8);
        self.buf.push((v / 16777216) as u8);
        assert(self@ =~= old(self)@ + u32_le_bytes(v));
    }

    /// Appends the bytes of `b` unchanged.
    pub fn write_bytes(&mut self, b: &[u8])
        ensures
            final(self)@ == old(self)@ + b@,
    {
        self.buf.extend_from_slice(b);
    }
}

// ---------------------------------------------------------------------------
// Laws of the encoding
// ---------------------------------------------------------------------------

/// Reading back the two bytes written for a `u16` gives the value.
pub proof fn lemma_u16_le_roundtrip(v: u16)
    ensures
        u16_le_at(u16_le_bytes(v), 0) == v,
        u16_le_bytes(v).len() == 2,
{
}

/// Reading back the four bytes written for a `u32` gives the value.
pub proof fn lemma_u32_le_roundtrip(v: u32)
    ensures
        u32_le_at(u32_le_bytes(v), 0) == v,
        u32_le_bytes(v).len() == 4,
{
    let b0 = v % 256;
    let b1 = (v / 256) % 256;
    let b2 = (v / 65536) % 256;
    let b3 = v / 16777216;
    assert(b0 + 256 * b1 + 65536 * b2 + 16777216 * b3 == v) by (nonlinear_arith)
        requires
            b0 == v % 256,
            b1 == (v / 256) % 256,
            b2 == (v / 65536) % 256,
            b3 == v / 16777216,
    ;
}

/// The `k`-th group of four bytes written for `ws` holds `ws[k]`.
pub proof fn lemma_u32s_le_bytes_at(ws: Seq<u32>, k: int)
    requires
        0 <= k < ws.len(),
    ensures
        u32s_le_bytes(ws).len() == 4 * ws.len(),
        u32s_le_bytes(ws).subrange(4 * k, 4 * k + 4) == u32_le_bytes(ws[k]),
    decreases ws.len(),
{
    let init = ws.drop_last();
    lemma_u32s_le_bytes_len(ws);
    lemma_u32s_le_bytes_len(init);
    if k < ws.len() - 1 {
        lemma_u32s_le_bytes_at(init, k);
        assert(u32s_le_bytes(ws).subrange(4 * k, 4 * k + 4) =~= u32s_le_bytes(init).subrange(
            4 * k,
            4 * k + 4,
        ));
    } else {
        assert(u32s_le_bytes(ws).subrange(4 * k, 4 * k + 4) =~= u32_le_bytes(ws[k]));
    }
}

/// The bytes of `ws` take four bytes each.
pub proof fn lemma_u32s_le_bytes_len(ws: Seq<u32>)
    ensures
        u32s_le_bytes(ws).len() == 4 * ws.len(),
    decreases ws.len(),
{
    if ws.len() > 0 {
        lemma_u32s_le_bytes_len(ws.drop_last());
    }
}

/// Reading `u32`s back from the bytes written for `ws`, followed by any bytes
/// `tail`, gives `ws` and then the whole words of `tail`.
pub proof fn lemma_u32s_le_roundtrip(ws: Seq<u32>, tail: Seq<u8>)
    ensures
        u32_seq(u32s_le_bytes(ws) + tail, ws.len() + tail.len() / 4) == ws + u32_seq(
            tail,
            tail.len() / 4,
        ),
{
    let b = u32s_le_bytes(ws) + tail;
    lemma_u32s_le_bytes_len(ws);
    let n = ws.len() + tail.len() / 4;
    assert forall|k: int| 0 <= k < n implies #[trigger] u32_le_at(b, 4 * k) == (ws + u32_seq(
        tail,
        tail.len() / 4,
    ))[k] by {
        if k < ws.len() {
            lemma_u32s_le_bytes_at(ws, k);
            lemma_u32_le_roundtrip(ws[k]);
            let g = u32s_le_bytes(ws).subrange(4 * k, 4 * k + 4);
            assert(b[4 * k] == g[0]);
            assert(b[4 * k + 1] == g[1]);
            assert(b[4 * k + 2] == g[2]);
            assert(b[4 * k + 3] == g[3]);
        } else {
            let j = k - ws.len();
            assert(4 * k == 4 * ws.len() + 4 * j);
            assert(b[4 * k] == tail[4 * j]);
            assert(b[4 * k + 1] == tail[4 * j + 1]);
            assert(b[4 * k + 2] == tail[4 * j + 2]);
            assert(b[4 * k + 3] == tail[4 * j + 3]);
        }
    }
    assert(u32_seq(b, n) =~= ws + u32_seq(tail, tail.len() / 4));
}

/// Reading a `u16` from bytes that start with what `Writer::write_u16` wrote for
/// `v` gives `v` and consumes those two bytes.
pub proof fn lemma_write_read_u16(v: u16, rest: Seq<u8>)
    ensures
        u16_model(u16_le_bytes(v) + rest) == (Ok::<u16, Seq<char>>(v), 2nat),
{
    let b = u16_le_bytes(v) + rest;
    lemma_u16_le_roundtrip(v);
    assert(u16_le_at(b, 0) == u16_le_at(u16_le_bytes(v), 0));
}

/// Reading a `u32` from bytes that start with what `Writer::write_u32` wrote for
/// `v` gives `v` and consumes those four bytes.
pub proof fn lemma_write_read_u32(v: u32, rest: Seq<u8>)
    ensures
        u32_model(u32_le_bytes(v) + rest) == (Ok::<u32, Seq<char>>(v), 4nat),
{
    let b = u32_le_bytes(v) + rest;
    lemma_u32_le_roundtrip(v);
    assert(u32_le_at(b, 0) == u32_le_at(u32_le_bytes(v), 0));
}

/// No read consumes more than the bytes that remain, whether it succeeds or not;
/// a successful string or array read consumes exactly its count and elements.
pub proof fn lemma_reads_stay_in_bounds(s: Seq<u8>)
    ensures
        u8_model(s).1 <= s.len(),
        u16_model(s).1 <= s.len(),
        u32_model(s).1 <= s.len(),
        string_model(s).1 <= s.len(),
        u16_array_model(s).1 <= s.len(),
        string_model(s).0 is Ok ==> string_model(s).1 == (if s[0] == 0 {
            1
        } else {
            1 + 2 * s[0]
        }),
        u16_array_model(s).0 is Ok ==> u16_array_model(s).1 == 4 + 2 * (u32_le_at(s, 0) as nat),
{
}

// ---------------------------------------------------------------------------
// Sequences of reads
// ---------------------------------------------------------------------------

/// The bytes of `s` after the first `n`.
pub open spec fn after(s: Seq<u8>, n: nat) -> Seq<u8> {
    s.subrange(n as int, s.len() as int)
}

/// A kind of wire value that a `Reader` reads.
pub enum Field {
    U16,
    U32,
    Text,
    U16Array,
}

/// A wire value read, as a value.
pub enum FieldValue {
    U16(u16),
    U32(u32),
    Text(Seq<char>),
    U16Array(Seq<u16>),
}

/// Reading one value of kind `f` from `s`, and how many bytes it consumes.
pub open spec fn field_model(f: Field, s: Seq<u8>) -> (Result<FieldValue, Seq<char>>, nat) {
    match f {
        Field::U16 => match u16_model(s) {
            (Ok(v), c) => (Ok(FieldValue::U16(v)), c),
            (Err(m), c) => (Err(m), c),
        },
        Field::U32 => match u32_model(s) {
            (Ok(v), c) => (Ok(FieldValue::U32(v)), c),
            (Err(m), c) => (Err(m), c),
        },
        Field::Text => match string_model(s) {
            (Ok(v), c) => (Ok(FieldValue::Text(v)), c),
            (Err(m), c) => (Err(m), c),
        },
        Field::U16Array => match u16_array_model(s) {
            (Ok(v), c) => (Ok(FieldValue::U16Array(v)), c),
            (Err(m), c) => (Err(m), c),
        },
    }
}

/// Reading the values of kinds `fs[i..]` one after another from `s`: the values and
/// the bytes consumed, or the first failing read's message.
#[verifier::opaque]
pub open spec fn fields_from(fs: Seq<Field>, i: nat, s: Seq<u8>) -> Result<
    (Seq<FieldValue>, nat),
    Seq<char>,
>
    decreases fs.len() - i,
{
    if i >= fs.len() {
        Ok((Seq::empty(), 0))
    } else {
        match field_model(fs[i as int], s) {
            (Err(m), _) => Err(m),
            (Ok(v), c) => match fields_from(fs, i + 1, after(s, c)) {
                Err(m) => Err(m),
                Ok((vs, c2)) => Ok((seq![v] + vs, c + c2)),
            },
        }
    }
}

/// Reading the values of kinds `fs` one after another from `s`.
pub open spec fn fields_model(fs: Seq<Field>, s: Seq<u8>) -> Result<(Seq<FieldValue>, nat), Seq<char>> {
    fields_from(fs, 0, s)
}

/// The reads of `fs` from the start, given that those before some point gave the
/// values `pre` and consumed `c` bytes, and `r` is what the reads from that point give.
pub open spec fn after_prefix(pre: Seq<FieldValue>, c: nat, r: Result<(Seq<FieldValue>, nat), Seq<char>>) -> Result<
    (Seq<FieldValue>, nat),
    Seq<char>,
> {
    match r {
        Err(m) => Err(m),
        Ok((vs, c2)) => Ok((pre + vs, c + c2)),
    }
}

/// Nothing is read before the first field.
pub proof fn lemma_fields_start(fs: Seq<Field>, s: Seq<u8>)
    ensures
        fields_from(fs, 0, s) == after_prefix(Seq::empty(), 0, fields_from(fs, 0, s)),
{
    reveal(fields_from);
    if let Ok((vs, c)) = fields_from(fs, 0, s) {
        assert(Seq::<FieldValue>::empty() + vs =~= vs);
    }
}

/// One more field read successfully moves the point on by one field.
pub proof fn lemma_fields_advance(
    fs: Seq<Field>,
    s0: Seq<u8>,
    i: nat,
    s: Seq<u8>,
    pre: Seq<FieldValue>,
    c: nat,
)
    requires
        i < fs.len(),
        fields_from(fs, 0, s0) == after_prefix(pre, c, fields_from(fs, i, s)),
        field_model(fs[i as int], s).0 is Ok,
    ensures
        fields_from(fs, 0, s0) == after_prefix(
            pre.push(field_model(fs[i as int], s).0->Ok_0),
            c + field_model(fs[i as int], s).1,
            fields_from(fs, i + 1, after(s, field_model(fs[i as int], s).1)),
        ),
{
    reveal(fields_from);
    let v = field_model(fs[i as int], s).0->Ok_0;
    if let Ok((vs, c2)) = fields_from(fs, i + 1, after(s, field_model(fs[i as int], s).1)) {
        assert(pre + (seq![v] + vs) =~= pre.push(v) + vs);
    }
}

/// A field that fails to read ends the reads with its message.
pub proof fn lemma_fields_fail(
    fs: Seq<Field>,
    s0: Seq<u8>,
    i: nat,
    s: Seq<u8>,
    pre: Seq<FieldValue>,
    c: nat,
)
    requires
        i < fs.len(),
        fields_from(fs, 0, s0) == after_prefix(pre, c, fields_from(fs, i, s)),
        field_model(fs[i as int], s).0 is Err,
    ensures
        fields_from(fs, 0, s0) == Err::<(Seq<FieldValue>, nat), Seq<char>>(
            field_model(fs[i as int], s).0->Err_0,
        ),
{
    reveal(fields_from);
}

/// After the last field nothing more is read.
pub proof fn lemma_fields_end(fs: Seq<Field>, s: Seq<u8>)
    ensures
        fields_from(fs, fs.len(), s) == Ok::<(Seq<FieldValue>, nat), Seq<char>>((Seq::empty(), 0)),
{
    reveal(fields_from);
}

/// A read that succeeds sees only the bytes it consumes: bytes appended after `s`
/// change nothing.
pub proof fn lemma_field_extension(f: Field, s: Seq<u8>, e: Seq<u8>)
    requires
        field_model(f, s).0 is Ok,
    ensures
        field_model(f, s + e) == field_model(f, s),
{
    let b = s + e;
    match f {
        Field::U16 => {},
        Field::U32 => {},
        Field::Text => {
            let n = s[0] as nat;
            if n > 0 {
                let t = s.subrange(1, s.len() as int);
                let tb = b.subrange(1, b.len() as int);
                assert(u16_seq(tb, (n - 1) as nat) =~= u16_seq(t, (n - 1) as nat));
            }
        },
        Field::U16Array => {
            let n = u32_le_at(s, 0) as nat;
            let t = s.subrange(4, s.len() as int);
            let tb = b.subrange(4, b.len() as int);
            assert(u16_seq(tb, n) =~= u16_seq(t, n));
        },
    }
}

/// A read that succeeds on `s` fails on every prefix shorter than what it consumes,
/// and gives the same on every prefix at least that long.
pub proof fn lemma_field_prefix(f: Field, s: Seq<u8>, k: nat)
    requires
        field_model(f, s).0 is Ok,
        k <= s.len(),
    ensures
        k < field_model(f, s).1 ==> field_model(f, s.take(k as int)).0 is Err,
        k >= field_model(f, s).1 ==> field_model(f, s.take(k as int)) == field_model(f, s),
{
    let p = s.take(k as int);
    if k >= field_model(f, s).1 {
        match f {
            Field::U16 => {},
            Field::U32 => {},
            Field::Text => {
                let n = s[0] as nat;
                if n > 0 {
                    let t = s.subrange(1, s.len() as int);
                    let tp = p.subrange(1, p.len() as int);
                    assert(u16_seq(tp, (n - 1) as nat) =~= u16_seq(t, (n - 1) as nat));
                }
            },
            Field::U16Array => {
                let n = u32_le_at(s, 0) as nat;
                let t = s.subrange(4, s.len() as int);
                let tp = p.subrange(4, p.len() as int);
                assert(u16_seq(tp, n) =~= u16_seq(t, n));
            },
        }
    }
}

/// A successful sequence of reads consumes no more than the bytes there are, so
/// what remains after it is the rest of `s`, `s.len()` minus what was consumed.
pub proof fn lemma_fields_consumed(fs: Seq<Field>, i: nat, s: Seq<u8>)
    ensures
        fields_from(fs, i, s) matches Ok((_, c)) ==> c <= s.len() && after(s, c).len() == s.len()
            - c,
    decreases fs.len() - i,
{
    reveal(fields_from);
    if i < fs.len() {
        lemma_reads_stay_in_bounds(s);
        let c = field_model(fs[i as int], s).1;
        lemma_fields_consumed(fs, i + 1, after(s, c));
    }
}

/// A successful sequence of reads sees only the bytes it consumes: bytes appended
/// after `s` change nothing.
pub proof fn lemma_fields_extension(fs: Seq<Field>, i: nat, s: Seq<u8>, e: Seq<u8>)
    requires
        fields_from(fs, i, s) is Ok,
    ensures
        fields_from(fs, i, s + e) == fields_from(fs, i, s),
    decreases fs.len() - i,
{
    reveal(fields_from);
    if i < fs.len() {
        lemma_field_extension(fs[i as int], s, e);
        lemma_reads_stay_in_bounds(s);
        let c = field_model(fs[i as int], s).1;
        assert(after(s + e, c) =~= after(s, c) + e);
        lemma_fields_extension(fs, i + 1, after(s, c), e);
    }
}

/// A successful sequence of reads fails on every prefix of `s` shorter than what it
/// consumes.
pub proof fn lemma_fields_prefix(fs: Seq<Field>, i: nat, s: Seq<u8>, k: nat)
    requires
        fields_from(fs, i, s) matches Ok((_, c)) && k < c,
    ensures
        fields_from(fs, i, s.take(k as int)) is Err,
    decreases fs.len() - i,
{
    reveal(fields_from);
    lemma_fields_consumed(fs, i, s);
    let f = fs[i as int];
    let c0 = field_model(f, s).1;
    lemma_field_prefix(f, s, k);
    if k >= c0 {
        let rest = after(s, c0);
        lemma_fields_consumed(fs, i + 1, rest);
        assert(after(s.take(k as int), c0) =~= rest.take(k - c0));
        lemma_fields_prefix(fs, i + 1, rest, (k - c0) as nat);
    }
}

// ---------------------------------------------------------------------------
// Sequences of writes
// ---------------------------------------------------------------------------

/// One `Writer` call: `write_u16`, `write_u32` or `write_bytes`.
pub enum WriteOp {
    U16(u16),
    U32(u32),
    Bytes(Seq<u8>),
}

/// The bytes one call appends.
pub open spec fn op_bytes(op: WriteOp) -> Seq<u8> {
    match op {
        WriteOp::U16(v) => u16_le_bytes(v),
        WriteOp::U32(v) => u32_le_bytes(v),
        WriteOp::Bytes(b) => b,
    }
}

/// What a new `Writer` holds after the calls `ops`, in order: each call's bytes
/// appended after the previous ones'.
pub open spec fn written(ops: Seq<WriteOp>) -> Seq<u8>
    decreases ops.len(),
{
    if ops.len() == 0 {
        Seq::empty()
    } else {
        written(ops.drop_last()) + op_bytes(ops.last())
    }
}

/// A new `Writer` holds nothing, and each call appends its bytes after all before
/// it: this is what `Writer::new`, `write_u16`, `write_u32` and `write_bytes` each
/// ensure, so `into_bytes` after the calls `ops` gives `written(ops)`.
pub proof fn lemma_written_in_call_order(ops: Seq<WriteOp>, op: WriteOp)
    ensures
        written(Seq::empty()) == Seq::<u8>::empty(),
        written(ops.push(op)) == written(ops) + op_bytes(op),
{
    assert(ops.push(op).drop_last() =~= ops);
}

/// The read that gives back what a `write_u16` or `write_u32` call wrote.
pub open spec fn read_back_field(op: WriteOp) -> Field {
    match op {
        WriteOp::U32(_) => Field::U32,
        _ => Field::U16,
    }
}

/// The value a `write_u16` or `write_u32` call wrote.
pub open spec fn read_back_value(op: WriteOp) -> FieldValue {
    match op {
        WriteOp::U16(v) => FieldValue::U16(v),
        WriteOp::U32(v) => FieldValue::U32(v),
        WriteOp::Bytes(_) => FieldValue::U16(0),
    }
}

/// The bytes of the calls `ops` taken from the first: the same as `written(ops)`.
pub open spec fn written_forward(ops: Seq<WriteOp>) -> Seq<u8>
    decreases ops.len(),
{
    if ops.len() == 0 {
        Seq::empty()
    } else {
        op_bytes(ops[0]) + written_forward(ops.subrange(1, ops.len() as int))
    }
}

proof fn lemma_written_forward(ops: Seq<WriteOp>)
    ensures
        written(ops) == written_forward(ops),
    decreases ops.len(),
{
    if ops.len() > 0 {
        let tail = ops.subrange(1, ops.len() as int);
        lemma_written_forward(ops.drop_last());
        lemma_written_forward(tail);
        if ops.len() > 1 {
            let mid = ops.drop_last().subrange(1, ops.len() - 1);
            assert(mid =~= tail.drop_last());
            lemma_written_forward(mid);
            lemma_written_forward(tail.drop_last());
            assert(written(tail) == written(tail.drop_last()) + op_bytes(tail.last()));
            assert(written_forward(ops.drop_last()) == op_bytes(ops[0]) + written_forward(mid));
            assert(written(ops) =~= written_forward(ops));
        } else {
            assert(ops.drop_last() =~= Seq::<WriteOp>::empty());
            assert(tail =~= Seq::<WriteOp>::empty());
            assert(written(ops) =~= written_forward(ops));
        }
    }
}

/// Reading back, field by field, what `write_u16` and `write_u32` calls wrote, in
/// order and followed by any bytes, gives the values written and consumes exactly
/// the bytes written.
pub proof fn lemma_writes_read_back(ops: Seq<WriteOp>, rest: Seq<u8>)
    requires
        forall|i: int| 0 <= i < ops.len() ==> !(#[trigger] ops[i] is Bytes),
    ensures
        fields_model(ops.map_values(|op: WriteOp| read_back_field(op)), written(ops) + rest) == Ok::<
            (Seq<FieldValue>, nat),
            Seq<char>,
        >((ops.map_values(|op: WriteOp| read_back_value(op)), written(ops).len())),
{
    lemma_written_forward(ops);
    lemma_writes_read_back_from(ops, 0, rest);
    assert(ops.subrange(0, ops.len() as int) =~= ops);
}

proof fn lemma_writes_read_back_from(ops: Seq<WriteOp>, i: nat, rest: Seq<u8>)
    requires
        i <= ops.len(),
        forall|j: int| 0 <= j < ops.len() ==> !(#[trigger] ops[j] is Bytes),
    ensures
        fields_from(
            ops.map_values(|op: WriteOp| read_back_field(op)),
            i,
            written_forward(ops.subrange(i as int, ops.len() as int)) + rest,
        ) == Ok::<(Seq<FieldValue>, nat), Seq<char>>(
            (
                ops.subrange(i as int, ops.len() as int).map_values(
                    |op: WriteOp| read_back_value(op),
                ),
                written_forward(ops.subrange(i as int, ops.len() as int)).len(),
            ),
        ),
    decreases ops.len() - i,
{
    reveal(fields_from);
    let fs = ops.map_values(|op: WriteOp| read_back_field(op));
    let tail = ops.subrange(i as int, ops.len() as int);
    if i == ops.len() {
        assert(tail =~= Seq::<WriteOp>::empty());
        assert(tail.map_values(|op: WriteOp| read_back_value(op)) =~= Seq::<FieldValue>::empty());
        assert(written_forward(tail) + rest =~= rest);
    } else {
        let op = ops[i as int];
        let next = ops.subrange(i + 1 as int, ops.len() as int);
        assert(tail.subrange(1, tail.len() as int) =~= next);
        let b = written_forward(tail) + rest;
        let tb = written_forward(next) + rest;
        assert(b =~= op_bytes(op) + tb);
        match op {
            WriteOp::U16(v) => {
                lemma_write_read_u16(v, tb);
                assert(after(b, 2) =~= tb);
            },
            WriteOp::U32(v) => {
                lemma_write_read_u32(v, tb);
                assert(after(b, 4) =~= tb);
            },
            WriteOp::Bytes(_) => {
                assert(ops[i as int] is Bytes);
            },
        }
        lemma_writes_read_back_from(ops, i + 1, rest);
        assert(tail.map_values(|op: WriteOp| read_back_value(op)) =~= seq![read_back_value(op)]
            + next.map_values(|op: WriteOp| read_back_value(op)));
    }
}

/// Reads are little-endian: the first byte is the least significant.
pub proof fn lemma_reads_little_endian(s: Seq<u8>)
    ensures
        s.len() >= 1 ==> u8_model(s) == (Ok::<u8, Seq<char>>(s[0]), 1nat),
        s.len() >= 2 ==> u16_model(s).1 == 2,
        s.len() >= 2 ==> (u16_model(s).0 matches Ok(v) && v as int == s[0] as int + 256 * s[1] as int),
        s.len() >= 4 ==> u32_model(s).1 == 4,
        s.len() >= 4 ==> (u32_model(s).0 matches Ok(v) && v as int == s[0] as int + 256 * s[1] as int
            + 65536 * s[2] as int + 16777216 * s[3] as int),
        s.len() < 2 ==> u16_model(s).0 is Err && u16_model(s).1 == 0,
        s.len() < 4 ==> u32_model(s).0 is Err && u32_model(s).1 == 0,
{
}

/// Writes are little-endian: the least significant byte comes first.
pub proof fn lemma_writes_little_endian(a: u16, b: u32)
    ensures
        u16_le_bytes(a).len() == 2,
        u16_le_bytes(a)[0] as int + 256 * u16_le_bytes(a)[1] as int == a,
        u32_le_bytes(b).len() == 4,
        u32_le_bytes(b)[0] as int + 256 * u32_le_bytes(b)[1] as int + 65536 * u32_le_bytes(b)[2]
            as int + 16777216 * u32_le_bytes(b)[3] as int == b,
{
    lemma_u32_le_roundtrip(b);
}

// ---------------------------------------------------------------------------
// Encoding strings and arrays, and reading them back
// ---------------------------------------------------------------------------

/// The little-endian bytes of each value of `xs`, in order.
pub open spec fn u16s_le_bytes(xs: Seq<u16>) -> Seq<u8>
    decreases xs.len(),
{
    if xs.len() == 0 {
        Seq::empty()
    } else {
        u16s_le_bytes(xs.drop_last()) + u16_le_bytes(xs.last())
    }
}

/// A PTP string of the UTF-16 code units `units`: a count byte (the units plus a
/// terminating NUL), the units little-endian, then the NUL; the empty string is a
/// lone 0 count.
pub open spec fn ptp_string_bytes(units: Seq<u16>) -> Seq<u8> {
    if units.len() == 0 {
        seq![0u8]
    } else {
        seq![(units.len() + 1) as u8] + u16s_le_bytes(units) + seq![0u8, 0u8]
    }
}

/// A PTP array of `u16`: the count as a little-endian `u32`, then the values.
pub open spec fn ptp_u16_array_bytes(xs: Seq<u16>) -> Seq<u8> {
    u32_le_bytes(xs.len() as u32) + u16s_le_bytes(xs)
}

/// The bytes of `xs` take two bytes each, and the `k`-th pair holds `xs[k]`.
pub proof fn lemma_u16s_le_bytes_at(xs: Seq<u16>, k: int)
    requires
        0 <= k < xs.len(),
    ensures
        u16s_le_bytes(xs).len() == 2 * xs.len(),
        u16s_le_bytes(xs).subrange(2 * k, 2 * k + 2) == u16_le_bytes(xs[k]),
    decreases xs.len(),
{
    let init = xs.drop_last();
    lemma_u16s_le_bytes_len(xs);
    lemma_u16s_le_bytes_len(init);
    if k < xs.len() - 1 {
        lemma_u16s_le_bytes_at(init, k);
        assert(u16s_le_bytes(xs).subrange(2 * k, 2 * k + 2) =~= u16s_le_bytes(init).subrange(
            2 * k,
            2 * k + 2,
        ));
    } else {
        assert(u16s_le_bytes(xs).subrange(2 * k, 2 * k + 2) =~= u16_le_bytes(xs[k]));
    }
}

/// The bytes of `xs` take two bytes each.
pub proof fn lemma_u16s_le_bytes_len(xs: Seq<u16>)
    ensures
        u16s_le_bytes(xs).len() == 2 * xs.len(),
    decreases xs.len(),
{
    if xs.len() > 0 {
        lemma_u16s_le_bytes_len(xs.drop_last());
    }
}

/// Reading `u16`s back from the bytes written for `xs`, whatever follows, gives `xs`.
pub proof fn lemma_u16s_le_roundtrip(xs: Seq<u16>, tail: Seq<u8>)
    ensures
        u16_seq(u16s_le_bytes(xs) + tail, xs.len()) == xs,
{
    let b = u16s_le_bytes(xs) + tail;
    lemma_u16s_le_bytes_len(xs);
    assert forall|k: int| 0 <= k < xs.len() implies #[trigger] u16_le_at(b, 2 * k) == xs[k] by {
        lemma_u16s_le_bytes_at(xs, k);
        lemma_u16_le_roundtrip(xs[k]);
        let g = u16s_le_bytes(xs).subrange(2 * k, 2 * k + 2);
        assert(b[2 * k] == g[0]);
        assert(b[2 * k + 1] == g[1]);
    }
    assert(u16_seq(b, xs.len()) =~= xs);
}

/// Reading a string back from what `ptp_string_bytes` wrote, whatever follows,
/// gives the decoded code units (or the UTF-16 error) and consumes exactly those
/// bytes.
pub proof fn lemma_string_roundtrip(units: Seq<u16>, rest: Seq<u8>)
    requires
        units.len() < 255,
    ensures
        string_model(ptp_string_bytes(units) + rest) == (
            match utf16_decode(units) {
                Some(cs) => Ok::<Seq<char>, Seq<char>>(cs),
                None => Err(bad_utf16_msg(units)),
            },
            ptp_string_bytes(units).len(),
        ),
{
    let s = ptp_string_bytes(units) + rest;
    lemma_u16s_le_bytes_len(units);
    if units.len() == 0 {
        assert(utf16_decode(units) == Some(Seq::<char>::empty()));
    } else {
        let n = units.len() + 1;
        let t = s.subrange(1, s.len() as int);
        assert(t =~= u16s_le_bytes(units) + (seq![0u8, 0u8] + rest));
        lemma_u16s_le_roundtrip(units, seq![0u8, 0u8] + rest);
    }
}

/// Reading an array back from what `ptp_u16_array_bytes` wrote, whatever follows,
/// gives the values and consumes exactly those bytes.
pub proof fn lemma_u16_array_roundtrip(xs: Seq<u16>, rest: Seq<u8>)
    requires
        xs.len() <= u32::MAX,
    ensures
        u16_array_model(ptp_u16_array_bytes(xs) + rest) == (
            Ok::<Seq<u16>, Seq<char>>(xs),
            ptp_u16_array_bytes(xs).len(),
        ),
{
    let s = ptp_u16_array_bytes(xs) + rest;
    lemma_u16s_le_bytes_len(xs);
    lemma_u32_le_roundtrip(xs.len() as u32);
    assert(u32_le_at(s, 0) == u32_le_at(u32_le_bytes(xs.len() as u32), 0));
    let t = s.subrange(4, s.len() as int);
    assert(t =~= u16s_le_bytes(xs) + rest);
    lemma_u16s_le_roundtrip(xs, rest);
}

/// The encodings `es[i..]` one after another.
pub open spec fn concat_from(es: Seq<Seq<u8>>, i: nat) -> Seq<u8>
    decreases es.len() - i,
{
    if i >= es.len() {
        Seq::empty()
    } else {
        es[i as int] + concat_from(es, i + 1)
    }
}

/// Reads of kinds `fs` from encodings written one after another give the encoded
/// values and consume exactly the encodings, when each read on its own encoding
/// gives its value, consuming that encoding, whatever follows it.
pub proof fn lemma_fields_read_encoded(
    fs: Seq<Field>,
    es: Seq<Seq<u8>>,
    vs: Seq<FieldValue>,
    i: nat,
    rest: Seq<u8>,
)
    requires
        fs.len() == es.len(),
        es.len() == vs.len(),
        i <= fs.len(),
        forall|k: int|
            i <= k < fs.len() ==> #[trigger] field_model(
                fs[k],
                es[k] + (concat_from(es, (k + 1) as nat) + rest),
            ) == (Ok::<FieldValue, Seq<char>>(vs[k]), es[k].len()),
    ensures
        fields_from(fs, i, concat_from(es, i) + rest) == Ok::<(Seq<FieldValue>, nat), Seq<char>>(
            (vs.subrange(i as int, vs.len() as int), concat_from(es, i).len()),
        ),
    decreases fs.len() - i,
{
    reveal(fields_from);
    if i >= fs.len() {
        assert(vs.subrange(i as int, vs.len() as int) =~= Seq::<FieldValue>::empty());
        assert(concat_from(es, i) + rest =~= rest);
    } else {
        let tail = concat_from(es, i + 1) + rest;
        let s = concat_from(es, i) + rest;
        assert(s =~= es[i as int] + tail);
        let k = i as int;
        assert(field_model(fs[k], es[k] + tail) == (Ok::<FieldValue, Seq<char>>(vs[k]), es[k].len()));
        assert(after(s, es[k].len()) =~= tail);
        lemma_fields_read_encoded(fs, es, vs, i + 1, rest);
        assert(seq![vs[k]] + vs.subrange(k + 1, vs.len() as int) =~= vs.subrange(k, vs.len() as int));
    }
}

} // verus!
