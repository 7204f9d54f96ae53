//! PTP container framing: the 12-byte header (length, type, code, transaction id)
//! that prefixes every command, data, response and event block.
use vstd::prelude::*;

use crate::error::{decimal, push_decimal, Error};
use crate::ptp::codec::{
    load_u16_le, load_u32_le, u16_le_at, u16_le_bytes, u32_le_at, u32_le_bytes, u32_seq,
    u32s_le_bytes, lemma_u32s_le_bytes_len, lemma_u32s_le_bytes_at, lemma_u16_le_roundtrip, lemma_u32_le_roundtrip, lemma_u32s_le_roundtrip, Writer,
};
use crate::ptp::opcode::CONTAINER_DATA;

verus! {

/// Length of the container header in bytes.
pub const HEADER_LEN: usize = 12;

/// The bytes of a container: the total length (truncated to 32 bits), the type, the
/// code and the transaction id, then each parameter, then the payload.
pub open spec fn encode_model(
    container_type: u16,
    code: u16,
    txn_id: u32,
    params: Seq<u32>,
    payload: Seq<u8>,
) -> Seq<u8> {
    u32_le_bytes((12 + 4 * params.len() + payload.len()) as u32) + u16_le_bytes(container_type)
        + u16_le_bytes(code) + u32_le_bytes(txn_id) + u32s_le_bytes(params) + payload
}

/// Encodes a container ready to ship over bulk OUT.
///
/// Command containers carry up to 5 parameters and no payload; Data containers
/// carry a payload and no parameters.
pub fn encode(container_type: u16, code: u16, txn_id: u32, params: &[u32], payload: &[u8]) -> (b:
    Vec<u8>)
    requires
        12 + 4 * params@.len() + payload@.len() <= usize::MAX,
    ensures
        b@ == encode_model(container_type, code, txn_id, params@, payload@),
        b@.len() == 12 + 4 * params@.len() + payload@.len(),
{
    let body_len = params.len() * 4 + payload.len();
    let total = HEADER_LEN + body_len;
    let mut w = Writer::new();
    w.write_u32(total as u32);
    w.write_u16(container_type);
    w.write_u16(code);
    w.write_u32(txn_id);
    let ghost head = w@;
    let mut i: usize = 0;
    while i < params.len()
        invariant
            i <= params@.len(),
            w@ == head + u32s_le_bytes(params@.subrange(0, i as int)),
        decreases params@.len() - i,
    {
        w.write_u32(params[i]);
        i = i + 1;
        assert(params@.subrange(0, i as int).drop_last() =~= params@.subrange(0, i - 1));
        assert(w@ =~= head + u32s_le_bytes(params@.subrange(0, i as int)));
    }
    assert(params@.subrange(0, params@.len() as int) =~= params@);
    w.write_bytes(payload);
    let b = w.into_bytes();
    proof {
        lemma_u32s_le_bytes_len(params@);
        assert(b@ =~= encode_model(container_type, code, txn_id, params@, payload@));
    }
    b
}

/// A decoded container.
#[derive(Debug)]
pub struct Decoded {
    pub container_type: u16,
    pub code: u16,
    pub txn_id: u32,
    /// Populated for every container but Data (the body read as `u32`s).
    pub params: Vec<u32>,
    /// Populated for Data containers (the raw body).
    pub payload: Vec<u8>,
}

/// A decoded container, as values.
pub struct DecodedView {
    pub container_type: u16,
    pub code: u16,
    pub txn_id: u32,
    pub params: Seq<u32>,
    pub payload: Seq<u8>,
}

impl View for Decoded {
    type V = DecodedView;

    open spec fn view(&self) -> DecodedView {
        DecodedView {
            container_type: self.container_type,
            code: self.code,
            txn_id: self.txn_id,
            params: self.params@,
            payload: self.payload@,
        }
    }
}

/// Decoding the container at the start of `b`: the length field must cover the
/// header and fit in `b`; the body is the bytes between the header and that length.
pub open spec fn decode_model(b: Seq<u8>) -> Result<DecodedView, Seq<char>> {
    if b.len() < 12 {
        Err("container too short: "@ + decimal(b.len()) + " bytes"@)
    } else {
        let length = u32_le_at(b, 0) as nat;
        if length < 12 {
            Err("container length "@ + decimal(length) + " smaller than header"@)
        } else if length > b.len() {
            Err("container length "@ + decimal(length) + " exceeds buffer "@ + decimal(b.len()))
        } else {
            let container_type = u16_le_at(b, 4);
            let body = b.subrange(12, length as int);
            if container_type == CONTAINER_DATA {
                Ok(
                    DecodedView {
                        container_type,
                        code: u16_le_at(b, 6),
                        txn_id: u32_le_at(b, 8),
                        params: Seq::empty(),
                        payload: body,
                    },
                )
            } else {
                Ok(
                    DecodedView {
                        container_type,
                        code: u16_le_at(b, 6),
                        txn_id: u32_le_at(b, 8),
                        params: u32_seq(body, body.len() / 4),
                        payload: Seq::empty(),
                    },
                )
            }
        }
    }
}

/// `r` is what `decode_model` describes.
pub open spec fn decode_agrees(r: Result<Decoded, Error>, m: Result<DecodedView, Seq<char>>) -> bool {
    match m {
        Ok(v) => r matches Ok(d) && d@ == v,
        Err(msg) => r matches Err(e) && e.is_codec(msg),
    }
}

/// Decodes a complete container. The caller has read at least as many bytes as the
/// container's length field.
pub fn decode(bytes: &[u8]) -> (r: Result<Decoded, Error>)
    ensures
        decode_agrees(r, decode_model(bytes@)),
{
    if bytes.len() < HEADER_LEN {
        let mut m = String::from_str("container too short: ");
        push_decimal(&mut m, bytes.len() as u128);
        m.append(" bytes");
        return Err(Error::Codec(m));
    }
    let length = load_u32_le(bytes, 0) as usize;
    if length < HEADER_LEN {
        let mut m = String::from_str("container length ");
        push_decimal(&mut m, length as u128);
        m.append(" smaller than header");
        return Err(Error::Codec(m));
    }
    if length > bytes.len() {
        let mut m = String::from_str("container length ");
        push_decimal(&mut m, length as u128);
        m.append(" exceeds buffer ");
        push_decimal(&mut m, bytes.len() as u128);
        return Err(Error::Codec(m));
    }
    let container_type = load_u16_le(bytes, 4);
    let code = load_u16_le(bytes, 6);
    let txn_id = load_u32_le(bytes, 8);
    let body = vstd::slice::slice_subrange(bytes, HEADER_LEN, length);
    if container_type == CONTAINER_DATA {
        let payload = vstd::slice::slice_to_vec(body);
        Ok(Decoded { container_type, code, txn_id, params: Vec::new(), payload })
    } else {
        let blen = body.len();
        let n = blen / 4;
        let mut params: Vec<u32> = Vec::new();
        let mut i: usize = 0;
        while i < n
            invariant
                i <= n,
                n == body@.len() / 4,
                blen == body@.len(),
                params@ == u32_seq(body@, i as nat),
            decreases n - i,
        {
            params.push(load_u32_le(body, 4 * i));
            i = i + 1;
            assert(params@ =~= u32_seq(body@, i as nat));
        }
        Ok(Decoded { container_type, code, txn_id, params, payload: Vec::new() })
    }
}

/// What decoding gives back for an encoded container.
pub open spec fn roundtrip_view(
    container_type: u16,
    code: u16,
    txn_id: u32,
    params: Seq<u32>,
    payload: Seq<u8>,
) -> DecodedView {
    if container_type == CONTAINER_DATA {
        DecodedView {
            container_type,
            code,
            txn_id,
            params: Seq::empty(),
            payload: u32s_le_bytes(params) + payload,
        }
    } else {
        DecodedView {
            container_type,
            code,
            txn_id,
            params: params + u32_seq(payload, payload.len() / 4),
            payload: Seq::empty(),
        }
    }
}

/// Decoding an encoded container gives back its type, code and transaction id; a
/// Data container gives back its body as payload, any other its body as parameters.
/// So a Command gives back its parameters, and a Data container its payload.
pub proof fn lemma_decode_encode(
    container_type: u16,
    code: u16,
    txn_id: u32,
    params: Seq<u32>,
    payload: Seq<u8>,
)
    requires
        12 + 4 * params.len() + payload.len() <= u32::MAX,
    ensures
        decode_model(encode_model(container_type, code, txn_id, params, payload)) == Ok::<
            DecodedView,
            Seq<char>,
        >(roundtrip_view(container_type, code, txn_id, params, payload)),
        container_type != CONTAINER_DATA && payload.len() == 0 ==> roundtrip_view(
            container_type,
            code,
            txn_id,
            params,
            payload,
        ).params == params,
        container_type == CONTAINER_DATA && params.len() == 0 ==> roundtrip_view(
            container_type,
            code,
            txn_id,
            params,
            payload,
        ).payload == payload,
{
    let total = 12 + 4 * params.len() + payload.len();
    let b = encode_model(container_type, code, txn_id, params, payload);
    let h0 = u32_le_bytes(total as u32);
    let h1 = u16_le_bytes(container_type);
    let h2 = u16_le_bytes(code);
    let h3 = u32_le_bytes(txn_id);
    let body = u32s_le_bytes(params) + payload;
    lemma_u32s_le_bytes_len(params);
    lemma_u32_le_roundtrip(total as u32);
    lemma_u16_le_roundtrip(container_type);
    lemma_u16_le_roundtrip(code);
    lemma_u32_le_roundtrip(txn_id);
    assert(b =~= h0 + h1 + h2 + h3 + body);
    assert(b.len() == total);
    assert(u32_le_at(b, 0) == u32_le_at(h0, 0));
    assert(u16_le_at(b, 4) == u16_le_at(h1, 0));
    assert(u16_le_at(b, 6) == u16_le_at(h2, 0));
    assert(u32_le_at(b, 8) == u32_le_at(h3, 0));
    assert(b.subrange(12, total as int) =~= body);
    lemma_u32s_le_roundtrip(params, payload);
    assert(body.len() / 4 == params.len() + payload.len() / 4) by {
        assert(body.len() == 4 * params.len() + payload.len());
    }
    assert(u32_seq(Seq::<u8>::empty(), 0) =~= Seq::<u32>::empty());
    assert(params + Seq::<u32>::empty() =~= params);
    assert(Seq::<u8>::empty() + payload =~= payload);
    if params.len() == 0 {
        assert(u32s_le_bytes(params) =~= Seq::<u8>::empty());
    }
}

/// The layout of an encoded container, read back at fixed offsets: the total
/// length at 0, the type at 4, the code at 6, the transaction id at 8, then each
/// parameter as a `u32` from offset 12 on, then the payload's bytes.
pub proof fn lemma_encode_layout(
    container_type: u16,
    code: u16,
    txn_id: u32,
    params: Seq<u32>,
    payload: Seq<u8>,
)
    requires
        12 + 4 * params.len() + payload.len() <= u32::MAX,
    ensures
        ({
            let b = encode_model(container_type, code, txn_id, params, payload);
            &&& b.len() == 12 + 4 * params.len() + payload.len()
            &&& u32_le_at(b, 0) == 12 + 4 * params.len() + payload.len()
            &&& u16_le_at(b, 4) == container_type
            &&& u16_le_at(b, 6) == code
            &&& u32_le_at(b, 8) == txn_id
            &&& forall|k: int| 0 <= k < params.len() ==> #[trigger] u32_le_at(b, 12 + 4 * k) == params[k]
            &&& forall|j: int| 0 <= j < payload.len() ==> b[12 + 4 * params.len() + j] == #[trigger] payload[j]
        }),
{
    let total = 12 + 4 * params.len() + payload.len();
    let b = encode_model(container_type, code, txn_id, params, payload);
    let head = u32_le_bytes(total as u32) + u16_le_bytes(container_type) + u16_le_bytes(code)
        + u32_le_bytes(txn_id);
    let words = u32s_le_bytes(params);
    lemma_u32s_le_bytes_len(params);
    lemma_u32_le_roundtrip(total as u32);
    lemma_u16_le_roundtrip(container_type);
    lemma_u16_le_roundtrip(code);
    lemma_u32_le_roundtrip(txn_id);
    assert(b =~= head + words + payload);
    assert(u32_le_at(b, 0) == u32_le_at(u32_le_bytes(total as u32), 0));
    assert(u16_le_at(b, 4) == u16_le_at(u16_le_bytes(container_type), 0));
    assert(u16_le_at(b, 6) == u16_le_at(u16_le_bytes(code), 0));
    assert(u32_le_at(b, 8) == u32_le_at(u32_le_bytes(txn_id), 0));
    assert forall|k: int| 0 <= k < params.len() implies #[trigger] u32_le_at(b, 12 + 4 * k)
        == params[k] by {
        lemma_u32s_le_bytes_at(params, k);
        lemma_u32_le_roundtrip(params[k]);
        let g = words.subrange(4 * k, 4 * k + 4);
        assert(b[12 + 4 * k] == g[0]);
        assert(b[12 + 4 * k + 1] == g[1]);
        assert(b[12 + 4 * k + 2] == g[2]);
        assert(b[12 + 4 * k + 3] == g[3]);
    }
}

/// What decoding gives, read at fixed offsets: type at 4, code at 6, transaction
/// id at 8, a length field at 0 within the buffer; a Data container (type 2) has
/// its body (offset 12 up to the length) as payload and no parameters; any other
/// has no payload and the body's whole 32-bit words as parameters.
pub proof fn lemma_decode_layout(b: Seq<u8>)
    ensures
        decode_model(b) matches Ok(d) ==> {
            let length = u32_le_at(b, 0) as int;
            &&& 12 <= length <= b.len()
            &&& d.container_type == u16_le_at(b, 4)
            &&& d.code == u16_le_at(b, 6)
            &&& d.txn_id == u32_le_at(b, 8)
            &&& d.container_type == 2 ==> d.params.len() == 0 && d.payload == b.subrange(12, length)
            &&& d.container_type != 2 ==> d.payload.len() == 0 && d.params.len() == (length - 12) / 4
                && forall|k: int| 0 <= k < d.params.len() ==> #[trigger] d.params[k] == u32_le_at(
                b,
                12 + 4 * k,
            )
        },
        decode_model(b) is Err <==> (b.len() < 12 || u32_le_at(b, 0) < 12 || u32_le_at(b, 0)
            > b.len()),
{
    if let Ok(d) = decode_model(b) {
        let length = u32_le_at(b, 0) as int;
        let body = b.subrange(12, length);
        if d.container_type != 2 {
            assert forall|k: int| 0 <= k < d.params.len() implies #[trigger] d.params[k]
                == u32_le_at(b, 12 + 4 * k) by {
                assert(body[4 * k] == b[12 + 4 * k]);
                assert(body[4 * k + 1] == b[12 + 4 * k + 1]);
                assert(body[4 * k + 2] == b[12 + 4 * k + 2]);
                assert(body[4 * k + 3] == b[12 + 4 * k + 3]);
            }
        }
    }
}

} // verus!
