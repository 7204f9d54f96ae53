//! The transport-independent part of a PTP session: which interface and endpoints
//! to use, the transaction counter, the containers each transaction sends, and what
//! each container that comes back means.
use vstd::prelude::*;

use crate::error::Error;
use crate::ptp::codec::u32_le_at;
use crate::ptp::container::{decode, decode_model, encode, encode_model, Decoded, DecodedView};
use crate::ptp::opcode::{
    CONTAINER_COMMAND, CONTAINER_DATA, CONTAINER_RESPONSE, RC_OK, RC_SESSION_ALREADY_OPEN,
};

verus! {

/// How a PTP transaction moves data besides its Command and Response.
#[derive(Debug, Clone, Copy)]
pub enum DataPhase<'a> {
    /// No data phase.
    NoData,
    /// The camera sends a Data container after the Command.
    In,
    /// The host sends a Data container with these bytes after the Command.
    Out(&'a [u8]),
}

/// The outcome of a PTP transaction.
#[derive(Debug)]
pub struct PtpResponse {
    /// The response code.
    pub code: u16,
    /// The response parameters.
    pub params: Vec<u32>,
    /// The bytes of the IN data phase, if there was one; empty otherwise.
    pub data: Vec<u8>,
}

impl PtpResponse {
    /// `Ok` when the response code is OK, else the code as an error.
    pub fn ok(&self) -> (r: Result<(), Error>)
        ensures
            self.code == RC_OK ==> r is Ok,
            self.code != RC_OK ==> (r matches Err(Error::PtpResponse { code }) && code == self.code),
            r is Ok <==> self.code == 0x2001,
    {
        if self.code == RC_OK {
            Ok(())
        } else {
            Err(Error::PtpResponse { code: self.code })
        }
    }
}

/// The containers that one transaction sends.
pub struct Outgoing {
    /// The transaction id the containers carry.
    pub txn_id: u32,
    /// The Command container.
    pub command: Vec<u8>,
    /// The Data container of an OUT data phase.
    pub data: Option<Vec<u8>>,
    /// Whether a Data container is expected back before the Response.
    pub expects_data_in: bool,
}

/// The session's bookkeeping: its endpoints, the next transaction id, and whether
/// `OpenSession` succeeded.
pub struct SessionState {
    ep_in: u8,
    ep_out: u8,
    transaction_id: u32,
    session_open: bool,
}

impl SessionState {
    /// The id the next transaction will carry.
    pub closed spec fn next_txn(self) -> u32 {
        self.transaction_id
    }

    /// Whether the session is open.
    pub closed spec fn open(self) -> bool {
        self.session_open
    }

    /// The bulk IN endpoint address.
    pub closed spec fn in_endpoint(self) -> u8 {
        self.ep_in
    }

    /// The bulk OUT endpoint address.
    pub closed spec fn out_endpoint(self) -> u8 {
        self.ep_out
    }

    /// The bulk IN endpoint address.
    pub fn ep_in(&self) -> (a: u8)
        ensures
            a == self.in_endpoint(),
    {
        self.ep_in
    }

    /// The bulk OUT endpoint address.
    pub fn ep_out(&self) -> (a: u8)
        ensures
            a == self.out_endpoint(),
    {
        self.ep_out
    }

    /// The state of a session over the given endpoints, before `OpenSession`:
    /// transaction ids start at 0.
    pub fn new(ep_in: u8, ep_out: u8) -> (s: Self)
        ensures
            s.in_endpoint() == ep_in,
            s.out_endpoint() == ep_out,
            s.next_txn() == 0,
            !s.open(),
    {
        SessionState { ep_in, ep_out, transaction_id: 0, session_open: false }
    }

    /// The id the next transaction will carry.
    pub fn transaction_id(&self) -> (t: u32)
        ensures
            t == self.next_txn(),
    {
        self.transaction_id
    }

    /// Whether the session is open.
    pub fn is_open(&self) -> (b: bool)
        ensures
            b == self.open(),
    {
        self.session_open
    }

    /// Takes the id for a new transaction: the current one, after which the counter
    /// moves on by one, wrapping at 2^32.
    pub fn take_transaction_id(&mut self) -> (t: u32)
        ensures
            t == old(self).next_txn(),
            final(self).next_txn() == (if old(self).next_txn() == u32::MAX {
                0
            } else {
                old(self).next_txn() + 1
            }),
            final(self).open() == old(self).open(),
            final(self).in_endpoint() == old(self).in_endpoint(),
            final(self).out_endpoint() == old(self).out_endpoint(),
    {
        let txn = self.transaction_id;
        self.transaction_id = if txn == u32::MAX {
            0
        } else {
            txn + 1
        };
        txn
    }

    /// Starts a transaction: takes the next transaction id (the counter wraps at
    /// 2^32) and encodes the Command container, and for an OUT data phase the Data
    /// container, both with that id.
    pub fn begin_transaction(&mut self, code: u16, params: &[u32], data_phase: DataPhase) -> (out:
        Outgoing)
        requires
            12 + 4 * params@.len() <= usize::MAX,
            data_phase matches DataPhase::Out(d) ==> 12 + d@.len() <= usize::MAX,
        ensures
            out.txn_id == old(self).next_txn(),
            final(self).next_txn() == (if old(self).next_txn() == u32::MAX {
                0
            } else {
                old(self).next_txn() + 1
            }),
            final(self).open() == old(self).open(),
            final(self).in_endpoint() == old(self).in_endpoint(),
            final(self).out_endpoint() == old(self).out_endpoint(),
            out.command@ == encode_model(
                CONTAINER_COMMAND,
                code,
                out.txn_id,
                params@,
                Seq::empty(),
            ),
            match data_phase {
                DataPhase::Out(d) => out.data matches Some(b) && b@ == encode_model(
                    CONTAINER_DATA,
                    code,
                    out.txn_id,
                    Seq::empty(),
                    d@,
                ),
                _ => out.data is None,
            },
            out.expects_data_in == (data_phase is In),
    {
        let txn = self.take_transaction_id();
        let no_bytes: [u8; 0] = [];
        let no_params: [u32; 0] = [];
        let command = encode(CONTAINER_COMMAND, code, txn, params, no_bytes.as_slice());
        assert(no_bytes@ =~= Seq::<u8>::empty());
        assert(no_params@ =~= Seq::<u32>::empty());
        let (data, expects_data_in) = match data_phase {
            DataPhase::NoData => (None, false),
            DataPhase::In => (None, true),
            DataPhase::Out(d) => (Some(encode(CONTAINER_DATA, code, txn, no_params.as_slice(), d)), false),
        };
        Outgoing { txn_id: txn, command, data, expects_data_in }
    }

    /// Judges the response to `OpenSession`: OK opens the session, and so does
    /// Session_Already_Open (a session left open by an earlier client is now ours);
    /// any other code is an error and leaves the state as it was.
    pub fn on_open_response(&mut self, code: u16) -> (r: Result<(), Error>)
        ensures
            final(self).next_txn() == old(self).next_txn(),
            final(self).in_endpoint() == old(self).in_endpoint(),
            final(self).out_endpoint() == old(self).out_endpoint(),
            (code == RC_OK || code == RC_SESSION_ALREADY_OPEN) ==> r is Ok && final(self).open(),
            r is Ok <==> (code == 0x2001 || code == 0x201E),
            !(code == RC_OK || code == RC_SESSION_ALREADY_OPEN) ==> (r matches Err(
                Error::PtpResponse { code: c },
            ) && c == code && final(self).open() == old(self).open()),
    {
        if code != RC_OK && code != RC_SESSION_ALREADY_OPEN {
            return Err(Error::PtpResponse { code });
        }
        self.session_open = true;
        Ok(())
    }

    /// Marks the session closed; `true` when it was open, so that `CloseSession`
    /// is to be sent.
    pub fn begin_close(&mut self) -> (send_close: bool)
        ensures
            send_close == old(self).open(),
            !final(self).open(),
            final(self).next_txn() == old(self).next_txn(),
            final(self).in_endpoint() == old(self).in_endpoint(),
            final(self).out_endpoint() == old(self).out_endpoint(),
    {
        let was_open = self.session_open;
        self.session_open = false;
        was_open
    }
}

/// What the first container after the Command of an IN transaction is.
#[derive(Debug)]
pub enum InPhase {
    /// The camera skipped the data phase and answered at once.
    Response(PtpResponse),
    /// The data phase's bytes; the Response is still to come.
    Data(Vec<u8>),
}

/// Interprets the first container of an IN data phase. The responder may skip the
/// data phase (nothing to return, or an error): a Response there ends the
/// transaction with no data. A Data container gives the payload; anything else is
/// an error.
pub fn on_data_phase_container(d: Decoded) -> (r: Result<InPhase, Error>)
    ensures
        d.container_type == CONTAINER_RESPONSE ==> (r matches Ok(InPhase::Response(resp))
            && resp.code == d.code && resp.params@ == d.params@ && resp.data@.len() == 0),
        d.container_type == CONTAINER_DATA ==> (r matches Ok(InPhase::Data(p)) && p@ == d.payload@),
        d.container_type == 3 ==> (r matches Ok(InPhase::Response(_))),
        d.container_type == 2 ==> (r matches Ok(InPhase::Data(_))),
        r is Err <==> (d.container_type != 2 && d.container_type != 3),
        d.container_type != CONTAINER_RESPONSE && d.container_type != CONTAINER_DATA ==> (r matches Err(
            Error::UnexpectedContainer { expected, got },
        ) && expected == CONTAINER_DATA && got == d.container_type),
{
    if d.container_type == CONTAINER_RESPONSE {
        return Ok(InPhase::Response(PtpResponse { code: d.code, params: d.params, data: Vec::new() }));
    }
    if d.container_type != CONTAINER_DATA {
        return Err(Error::UnexpectedContainer { expected: CONTAINER_DATA, got: d.container_type });
    }
    Ok(InPhase::Data(d.payload))
}

/// Interprets the container that ends a transaction, which must be a Response;
/// `data` is what the IN data phase brought (empty if none).
pub fn on_response_container(d: Decoded, data: Vec<u8>) -> (r: Result<PtpResponse, Error>)
    ensures
        d.container_type == CONTAINER_RESPONSE ==> (r matches Ok(resp) && resp.code == d.code
            && resp.params@ == d.params@ && resp.data@ == data@),
        d.container_type != CONTAINER_RESPONSE ==> (r matches Err(
            Error::UnexpectedContainer { expected, got },
        ) && expected == CONTAINER_RESPONSE && got == d.container_type),
        r is Ok <==> d.container_type == 3,
{
    if d.container_type != CONTAINER_RESPONSE {
        return Err(
            Error::UnexpectedContainer { expected: CONTAINER_RESPONSE, got: d.container_type },
        );
    }
    Ok(PtpResponse { code: d.code, params: d.params, data })
}

/// Adds one bulk IN chunk to the bytes gathered so far for a container.
///
/// An empty first chunk is an error. Once the gathered bytes hold the container's
/// length field and at least that many bytes, they are cut to that length and
/// decoded. An empty chunk before that is an error; otherwise more is needed
/// (`Ok(None)`).
pub fn add_container_chunk(buf: &mut Vec<u8>, chunk: &[u8]) -> (r: Result<Option<Decoded>, Error>)
    ensures
        old(buf)@.len() == 0 && chunk@.len() == 0 ==> (r matches Err(e) && e.is_usb(
            "empty bulk_in response"@,
        ) && final(buf)@ == old(buf)@),
        !(old(buf)@.len() == 0 && chunk@.len() == 0) ==> {
            let joined = old(buf)@ + chunk@;
            if joined.len() >= 4 && joined.len() >= u32_le_at(joined, 0) {
                let framed = joined.subrange(0, u32_le_at(joined, 0) as int);
                &&& final(buf)@ == framed
                &&& match decode_model(framed) {
                    Ok(v) => r matches Ok(Some(d)) && d@ == v,
                    Err(msg) => r matches Err(e) && e.is_codec(msg),
                }
            } else if chunk@.len() == 0 {
                &&& final(buf)@ == joined
                &&& r matches Err(e) && e.is_usb("short bulk_in chunk before full container"@)
            } else {
                &&& final(buf)@ == joined
                &&& r matches Ok(None)
            }
        },
{
    if chunk.len() == 0 && buf.len() == 0 {
        return Err(Error::Usb(String::from_str("empty bulk_in response")));
    }
    buf.extend_from_slice(chunk);
    let ghost joined = buf@;
    assert(joined == old(buf)@ + chunk@);
    if buf.len() >= 4 {
        let total = crate::ptp::codec::load_u32_le(buf.as_slice(), 0) as usize;
        assert(total == u32_le_at(joined, 0));
        if buf.len() >= total {
            buf.truncate(total);
            assert(buf@ == joined.subrange(0, total as int));
            return match decode(buf.as_slice()) {
                Ok(d) => Ok(Some(d)),
                Err(e) => Err(e),
            };
        }
    }
    if chunk.len() == 0 {
        return Err(Error::Usb(String::from_str("short bulk_in chunk before full container")));
    }
    Ok(None)
}

// ---------------------------------------------------------------------------
// Choosing the PTP interface
// ---------------------------------------------------------------------------

/// An endpoint of an interface alternate setting, as the descriptor gives it.
#[derive(Debug, Clone, Copy)]
pub struct EndpointDesc {
    /// The endpoint address.
    pub address: u8,
    /// Whether the transfer type is Bulk.
    pub bulk: bool,
    /// Whether the direction is IN (device to host).
    pub dir_in: bool,
}

/// An interface alternate setting, as the configuration descriptor gives it.
#[derive(Debug, Clone)]
pub struct AltSettingDesc {
    pub interface_number: u8,
    pub class: u8,
    pub subclass: u8,
    pub protocol: u8,
    /// The endpoints, in descriptor order.
    pub endpoints: Vec<EndpointDesc>,
}

/// A still-image (PTP) interface: class 6, subclass 1, protocol 1.
pub open spec fn is_ptp_alt(a: AltSettingDesc) -> bool {
    a.class == 6 && a.subclass == 1 && a.protocol == 1
}

/// The address of the last bulk endpoint of direction `dir_in` in `eps`.
pub open spec fn last_bulk(eps: Seq<EndpointDesc>, dir_in: bool) -> Option<u8>
    decreases eps.len(),
{
    if eps.len() == 0 {
        None
    } else if eps.last().bulk && eps.last().dir_in == dir_in {
        Some(eps.last().address)
    } else {
        last_bulk(eps.drop_last(), dir_in)
    }
}

/// The interface number and bulk IN / OUT endpoints of `a`, if it is a PTP
/// interface with both.
pub open spec fn ptp_endpoints_of(a: AltSettingDesc) -> Option<(u8, u8, u8)> {
    if is_ptp_alt(a) {
        match (last_bulk(a.endpoints@, true), last_bulk(a.endpoints@, false)) {
            (Some(i), Some(o)) => Some((a.interface_number, i, o)),
            _ => None,
        }
    } else {
        None
    }
}

/// The first alternate setting of `alts` that is a PTP interface with bulk IN and
/// OUT endpoints.
pub open spec fn find_ptp_model(alts: Seq<AltSettingDesc>) -> Option<(u8, u8, u8)>
    decreases alts.len(),
{
    if alts.len() == 0 {
        None
    } else {
        match ptp_endpoints_of(alts[0]) {
            Some(found) => Some(found),
            None => find_ptp_model(alts.subrange(1, alts.len() as int)),
        }
    }
}

/// The bulk IN and OUT endpoints of `a`, each the last of its direction.
fn bulk_endpoints(a: &AltSettingDesc) -> (r: (Option<u8>, Option<u8>))
    ensures
        r.0 == last_bulk(a.endpoints@, true),
        r.1 == last_bulk(a.endpoints@, false),
        r.0 matches Some(x) ==> exists|j: int|
            #[trigger] is_last_bulk_at(a.endpoints@, j, true) && a.endpoints@[j].address == x,
        r.1 matches Some(y) ==> exists|j: int|
            #[trigger] is_last_bulk_at(a.endpoints@, j, false) && a.endpoints@[j].address == y,
        r.0 is None <==> !has_bulk(a.endpoints@, true),
        r.1 is None <==> !has_bulk(a.endpoints@, false),
{
    let mut ep_in: Option<u8> = None;
    let mut ep_out: Option<u8> = None;
    let mut j: usize = 0;
    while j < a.endpoints.len()
        invariant
            j <= a.endpoints@.len(),
            ep_in == last_bulk(a.endpoints@.subrange(0, j as int), true),
            ep_out == last_bulk(a.endpoints@.subrange(0, j as int), false),
        decreases a.endpoints@.len() - j,
    {
        let ep = a.endpoints[j];
        if ep.bulk {
            if ep.dir_in {
                ep_in = Some(ep.address);
            } else {
                ep_out = Some(ep.address);
            }
        }
        j = j + 1;
        assert(a.endpoints@.subrange(0, j as int).drop_last() =~= a.endpoints@.subrange(
            0,
            j - 1,
        ));
    }
    assert(a.endpoints@.subrange(0, j as int) =~= a.endpoints@);
    proof {
        lemma_last_bulk_choice(a.endpoints@, true);
        lemma_last_bulk_choice(a.endpoints@, false);
    }
    (ep_in, ep_out)
}

/// Finds the still-image interface (class 6 / subclass 1 / protocol 1) with bulk IN
/// and OUT endpoints among the alternate settings, in descriptor order; gives its
/// interface number and endpoint addresses.
pub fn find_ptp_endpoints(alts: &[AltSettingDesc]) -> (r: Result<(u8, u8, u8), Error>)
    ensures
        match find_ptp_model(alts@) {
            Some(found) => r == Ok::<(u8, u8, u8), Error>(found),
            None => r matches Err(Error::NoPtpInterface),
        },
        r matches Ok((i, ein, eout)) ==> exists|k: int|
            0 <= k < alts@.len() && #[trigger] is_ptp_candidate(alts@[k]) && (forall|m: int|
                0 <= m < k ==> !#[trigger] is_ptp_candidate(alts@[m])) && alts@[k].interface_number
                == i && (exists|j: int|
                #[trigger] is_last_bulk_at(alts@[k].endpoints@, j, true)
                    && alts@[k].endpoints@[j].address == ein) && (exists|j: int|
                #[trigger] is_last_bulk_at(alts@[k].endpoints@, j, false)
                    && alts@[k].endpoints@[j].address == eout),
        r is Err ==> forall|k: int| 0 <= k < alts@.len() ==> !#[trigger] is_ptp_candidate(alts@[k]),
{
    let mut i: usize = 0;
    assert(alts@.subrange(0, alts@.len() as int) =~= alts@);
    while i < alts.len()
        invariant
            i <= alts@.len(),
            find_ptp_model(alts@) == find_ptp_model(alts@.subrange(i as int, alts@.len() as int)),
        decreases alts@.len() - i,
    {
        let a = &alts[i];
        let ghost tail = alts@.subrange(i as int, alts@.len() as int);
        assert(tail[0] == alts@[i as int]);
        assert(tail.subrange(1, tail.len() as int) =~= alts@.subrange(i + 1, alts@.len() as int));
        if a.class == 6 && a.subclass == 1 && a.protocol == 1 {
            let (ep_in, ep_out) = bulk_endpoints(a);
            match (ep_in, ep_out) {
                (Some(x), Some(y)) => {
                    proof {
                        lemma_find_ptp_choice(alts@);
                    }
                    return Ok((a.interface_number, x, y));
                },
                _ => {},
            }
        }
        i = i + 1;
    }
    proof {
        lemma_find_ptp_choice(alts@);
    }
    Err(Error::NoPtpInterface)
}

// ---------------------------------------------------------------------------
// Which interface and endpoints are chosen
// ---------------------------------------------------------------------------

/// `eps` has a bulk endpoint of direction `dir_in`.
pub open spec fn has_bulk(eps: Seq<EndpointDesc>, dir_in: bool) -> bool {
    exists|j: int| 0 <= j < eps.len() && #[trigger] eps[j].bulk && eps[j].dir_in == dir_in
}

/// `eps[j]` is a bulk endpoint of direction `dir_in` and no later one is.
pub open spec fn is_last_bulk_at(eps: Seq<EndpointDesc>, j: int, dir_in: bool) -> bool {
    &&& 0 <= j < eps.len()
    &&& eps[j].bulk
    &&& eps[j].dir_in == dir_in
    &&& forall|k: int| j < k < eps.len() ==> !(#[trigger] eps[k].bulk && eps[k].dir_in == dir_in)
}

/// An alternate setting that can carry PTP: class 6, subclass 1, protocol 1, with a
/// bulk IN and a bulk OUT endpoint.
pub open spec fn is_ptp_candidate(a: AltSettingDesc) -> bool {
    &&& a.class == 6
    &&& a.subclass == 1
    &&& a.protocol == 1
    &&& has_bulk(a.endpoints@, true)
    &&& has_bulk(a.endpoints@, false)
}

/// The endpoint of a direction that is taken is the last bulk one of that
/// direction; there is none exactly when no endpoint of that direction is bulk.
pub proof fn lemma_last_bulk_choice(eps: Seq<EndpointDesc>, dir_in: bool)
    ensures
        last_bulk(eps, dir_in) matches Some(a) ==> exists|j: int|
            #[trigger] is_last_bulk_at(eps, j, dir_in) && eps[j].address == a,
        last_bulk(eps, dir_in) is None <==> !has_bulk(eps, dir_in),
    decreases eps.len(),
{
    if eps.len() > 0 {
        let init = eps.drop_last();
        lemma_last_bulk_choice(init, dir_in);
        let n = eps.len() - 1;
        if eps.last().bulk && eps.last().dir_in == dir_in {
            assert(is_last_bulk_at(eps, n, dir_in));
            assert(eps[n].bulk && eps[n].dir_in == dir_in);
        } else {
            if let Some(a) = last_bulk(init, dir_in) {
                let j = choose|j: int| #[trigger] is_last_bulk_at(init, j, dir_in) && init[j].address == a;
                assert(init[j] == eps[j]);
                assert forall|k: int| j < k < eps.len() implies !(#[trigger] eps[k].bulk && eps[k].dir_in
                    == dir_in) by {
                    if k < n {
                        assert(init[k] == eps[k]);
                    }
                }
                assert(is_last_bulk_at(eps, j, dir_in));
            }
            if has_bulk(eps, dir_in) {
                let j = choose|j: int| 0 <= j < eps.len() && #[trigger] eps[j].bulk && eps[j].dir_in == dir_in;
                assert(j < n);
                assert(init[j] == eps[j]);
                assert(has_bulk(init, dir_in));
            }
            if has_bulk(init, dir_in) {
                let j = choose|j: int| 0 <= j < init.len() && #[trigger] init[j].bulk && init[j].dir_in == dir_in;
                assert(init[j] == eps[j]);
                assert(has_bulk(eps, dir_in));
            }
        }
    }
}

/// The choice of PTP interface: the first alternate setting that is a still-image
/// interface (class 6 / subclass 1 / protocol 1) with a bulk IN and a bulk OUT
/// endpoint, and of its endpoints the last bulk IN and the last bulk OUT; none when
/// no alternate setting qualifies. A non-bulk endpoint is never taken.
pub proof fn lemma_find_ptp_choice(alts: Seq<AltSettingDesc>)
    ensures
        find_ptp_model(alts) matches Some((i, ein, eout)) ==> exists|k: int|
            0 <= k < alts.len() && #[trigger] is_ptp_candidate(alts[k]) && (forall|m: int|
                0 <= m < k ==> !#[trigger] is_ptp_candidate(alts[m])) && alts[k].interface_number
                == i && (exists|j: int|
                #[trigger] is_last_bulk_at(alts[k].endpoints@, j, true)
                    && alts[k].endpoints@[j].address == ein) && (exists|j: int|
                #[trigger] is_last_bulk_at(alts[k].endpoints@, j, false)
                    && alts[k].endpoints@[j].address == eout),
        find_ptp_model(alts) is None ==> forall|k: int|
            0 <= k < alts.len() ==> !#[trigger] is_ptp_candidate(alts[k]),
    decreases alts.len(),
{
    if alts.len() > 0 {
        let a = alts[0];
        let tail = alts.subrange(1, alts.len() as int);
        lemma_last_bulk_choice(a.endpoints@, true);
        lemma_last_bulk_choice(a.endpoints@, false);
        lemma_find_ptp_choice(tail);
        if ptp_endpoints_of(a) is Some {
            assert(is_ptp_candidate(alts[0]));
        } else {
            assert(!is_ptp_candidate(alts[0]));
            if let Some((i, ein, eout)) = find_ptp_model(tail) {
                let k = choose|k: int|
                    0 <= k < tail.len() && #[trigger] is_ptp_candidate(tail[k]) && (forall|m: int|
                        0 <= m < k ==> !#[trigger] is_ptp_candidate(tail[m]))
                        && tail[k].interface_number == i && (exists|j: int|
                        #[trigger] is_last_bulk_at(tail[k].endpoints@, j, true)
                            && tail[k].endpoints@[j].address == ein) && (exists|j: int|
                        #[trigger] is_last_bulk_at(tail[k].endpoints@, j, false)
                            && tail[k].endpoints@[j].address == eout);
                assert(tail[k] == alts[k + 1]);
                assert forall|m: int| 0 <= m < k + 1 implies !#[trigger] is_ptp_candidate(alts[m]) by {
                    if m > 0 {
                        assert(tail[m - 1] == alts[m]);
                    }
                }
                assert(is_ptp_candidate(alts[k + 1]));
            } else {
                assert forall|k: int| 0 <= k < alts.len() implies !#[trigger] is_ptp_candidate(alts[k]) by {
                    if k > 0 {
                        assert(tail[k - 1] == alts[k]);
                    }
                }
            }
        }
    }
}

} // verus!
