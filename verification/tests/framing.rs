//! Container framing, the session bookkeeping and the meaning of each container.

use chdkptp::ptp::container::{decode, encode, Decoded};
use chdkptp::ptp::opcode::{self, response_name};
use chdkptp::ptp::session::{
    add_container_chunk, find_ptp_endpoints, on_data_phase_container, on_response_container,
    AltSettingDesc, EndpointDesc, InPhase,
};
use chdkptp::ptp::{DataPhase, PtpResponse, SessionState};
use chdkptp::Error;

fn codec_msg(e: Error) -> String {
    match e {
        Error::Codec(m) => m,
        other => panic!("expected a codec error, got {:?}", other),
    }
}

#[test]
fn encode_lays_out_header_params_and_payload() {
    let bytes = encode(opcode::CONTAINER_COMMAND, 0x1002, 0x0102_0304, &[1], &[0xAA]);
    assert_eq!(
        bytes,
        vec![17, 0, 0, 0, 1, 0, 0x02, 0x10, 4, 3, 2, 1, 1, 0, 0, 0, 0xAA]
    );
}

#[test]
fn decode_drops_trailing_bytes_of_a_response_body() {
    let bytes = [14, 0, 0, 0, 3, 0, 0x01, 0x20, 5, 0, 0, 0, 0xFF, 0xFF];
    let dec = decode(&bytes).unwrap();
    assert_eq!(dec.container_type, opcode::CONTAINER_RESPONSE);
    assert_eq!(dec.code, opcode::RC_OK);
    assert_eq!(dec.txn_id, 5);
    assert!(dec.params.is_empty());
    assert!(dec.payload.is_empty());
}

#[test]
fn decode_uses_the_length_field_not_the_buffer() {
    let mut bytes = encode(opcode::CONTAINER_DATA, 1, 2, &[], &[1, 2, 3]);
    bytes.extend_from_slice(&[7, 7, 7]);
    let dec = decode(&bytes).unwrap();
    assert_eq!(dec.payload, vec![1, 2, 3]);
}

#[test]
fn decode_error_messages() {
    assert_eq!(codec_msg(decode(&[1, 2, 3]).unwrap_err()), "container too short: 3 bytes");
    let mut small = vec![4, 0, 0, 0];
    small.extend_from_slice(&[0; 8]);
    assert_eq!(
        codec_msg(decode(&small).unwrap_err()),
        "container length 4 smaller than header"
    );
    let mut big = 1000u32.to_le_bytes().to_vec();
    big.extend_from_slice(&[0; 8]);
    assert_eq!(
        codec_msg(decode(&big).unwrap_err()),
        "container length 1000 exceeds buffer 12"
    );
}

#[test]
fn response_ok_and_names() {
    let ok = PtpResponse { code: opcode::RC_OK, params: vec![], data: vec![] };
    assert!(ok.ok().is_ok());
    let bad = PtpResponse { code: opcode::RC_GENERAL_ERROR, params: vec![], data: vec![] };
    assert!(matches!(bad.ok(), Err(Error::PtpResponse { code: 0x2002 })));
    assert_eq!(response_name(opcode::RC_OK), "OK");
    assert_eq!(response_name(opcode::RC_SESSION_ALREADY_OPEN), "Session_Already_Open");
    assert_eq!(response_name(0x2005), "Operation_Not_Supported");
    assert_eq!(response_name(0x1234), "Unknown");
}

#[test]
fn transactions_take_consecutive_ids() {
    let mut s = SessionState::new(0x81, 0x02);
    assert_eq!(s.ep_in(), 0x81);
    assert_eq!(s.ep_out(), 0x02);
    let first = s.begin_transaction(opcode::OP_OPEN_SESSION, &[1], DataPhase::NoData);
    assert_eq!(first.txn_id, 0);
    assert_eq!(first.command, encode(opcode::CONTAINER_COMMAND, 0x1002, 0, &[1], &[]));
    assert!(first.data.is_none());
    assert!(!first.expects_data_in);
    let second = s.begin_transaction(0x9999, &[5], DataPhase::Out(&[1, 2]));
    assert_eq!(second.txn_id, 1);
    assert_eq!(second.data.unwrap(), encode(opcode::CONTAINER_DATA, 0x9999, 1, &[], &[1, 2]));
    let third = s.begin_transaction(opcode::OP_GET_DEVICE_INFO, &[], DataPhase::In);
    assert_eq!(third.txn_id, 2);
    assert!(third.expects_data_in);
    assert_eq!(s.transaction_id(), 3);
}

#[test]
fn open_accepts_ok_and_already_open_only() {
    let mut s = SessionState::new(1, 2);
    assert!(!s.is_open());
    assert!(matches!(
        s.on_open_response(opcode::RC_GENERAL_ERROR),
        Err(Error::PtpResponse { code: 0x2002 })
    ));
    assert!(!s.is_open());
    assert!(s.on_open_response(opcode::RC_SESSION_ALREADY_OPEN).is_ok());
    assert!(s.is_open());
    assert!(s.begin_close());
    assert!(!s.is_open());
    assert!(!s.begin_close());
    let mut t = SessionState::new(1, 2);
    assert!(t.on_open_response(opcode::RC_OK).is_ok());
    assert!(t.is_open());
}

fn decoded(container_type: u16, code: u16, params: Vec<u32>, payload: Vec<u8>) -> Decoded {
    Decoded { container_type, code, txn_id: 9, params, payload }
}

#[test]
fn data_phase_may_be_skipped_by_a_response() {
    match on_data_phase_container(decoded(3, 0x2002, vec![4], vec![])).unwrap() {
        InPhase::Response(r) => {
            assert_eq!(r.code, 0x2002);
            assert_eq!(r.params, vec![4]);
            assert!(r.data.is_empty());
        }
        InPhase::Data(_) => panic!("expected a response"),
    }
    match on_data_phase_container(decoded(2, 0x1001, vec![], vec![5, 6])).unwrap() {
        InPhase::Data(d) => assert_eq!(d, vec![5, 6]),
        InPhase::Response(_) => panic!("expected data"),
    }
    assert!(matches!(
        on_data_phase_container(decoded(4, 0, vec![], vec![])),
        Err(Error::UnexpectedContainer { expected: 2, got: 4 })
    ));
}

#[test]
fn transaction_ends_with_a_response() {
    let r = on_response_container(decoded(3, 0x2001, vec![1, 2], vec![]), vec![8]).unwrap();
    assert_eq!(r.code, 0x2001);
    assert_eq!(r.params, vec![1, 2]);
    assert_eq!(r.data, vec![8]);
    assert!(matches!(
        on_response_container(decoded(2, 0, vec![], vec![]), vec![]),
        Err(Error::UnexpectedContainer { expected: 3, got: 2 })
    ));
}

#[test]
fn container_assembles_from_chunks() {
    let whole = encode(opcode::CONTAINER_DATA, 0x1001, 3, &[], &[1, 2, 3, 4, 5]);
    let mut buf = Vec::new();
    assert!(add_container_chunk(&mut buf, &whole[0..2]).unwrap().is_none());
    assert!(add_container_chunk(&mut buf, &whole[2..10]).unwrap().is_none());
    let mut rest = whole[10..].to_vec();
    rest.extend_from_slice(&[0xEE, 0xEE]);
    let d = add_container_chunk(&mut buf, &rest).unwrap().unwrap();
    assert_eq!(d.payload, vec![1, 2, 3, 4, 5]);
    assert_eq!(buf, whole);
}

#[test]
fn container_chunk_errors() {
    let mut buf = Vec::new();
    match add_container_chunk(&mut buf, &[]) {
        Err(Error::Usb(m)) => assert_eq!(m, "empty bulk_in response"),
        other => panic!("unexpected {:?}", other),
    }
    assert!(add_container_chunk(&mut buf, &[20, 0, 0, 0, 1]).unwrap().is_none());
    match add_container_chunk(&mut buf, &[]) {
        Err(Error::Usb(m)) => assert_eq!(m, "short bulk_in chunk before full container"),
        other => panic!("unexpected {:?}", other),
    }
    let mut tiny = Vec::new();
    assert_eq!(
        codec_msg(add_container_chunk(&mut tiny, &[2, 0, 0, 0]).unwrap_err()),
        "container too short: 2 bytes"
    );
}

fn ep(address: u8, bulk: bool, dir_in: bool) -> EndpointDesc {
    EndpointDesc { address, bulk, dir_in }
}

#[test]
fn finds_the_first_ptp_interface_with_both_bulk_endpoints() {
    let alts = vec![
        AltSettingDesc {
            interface_number: 0,
            class: 3,
            subclass: 1,
            protocol: 1,
            endpoints: vec![ep(0x81, true, true), ep(0x01, true, false)],
        },
        AltSettingDesc {
            interface_number: 1,
            class: 6,
            subclass: 1,
            protocol: 1,
            endpoints: vec![ep(0x82, true, true)],
        },
        AltSettingDesc {
            interface_number: 2,
            class: 6,
            subclass: 1,
            protocol: 1,
            endpoints: vec![
                ep(0x83, true, true),
                ep(0x84, false, true),
                ep(0x03, true, false),
                ep(0x85, true, true),
            ],
        },
    ];
    assert_eq!(find_ptp_endpoints(&alts).unwrap(), (2, 0x85, 0x03));
    assert!(matches!(find_ptp_endpoints(&alts[..2]), Err(Error::NoPtpInterface)));
    assert!(matches!(find_ptp_endpoints(&[]), Err(Error::NoPtpInterface)));
}

#[test]
fn transaction_ids_advance_one_by_one() {
    let mut s = SessionState::new(1, 2);
    assert_eq!(s.take_transaction_id(), 0);
    assert_eq!(s.take_transaction_id(), 1);
    let out = s.begin_transaction(0x9999, &[], DataPhase::NoData);
    assert_eq!(out.txn_id, 2);
    assert_eq!(s.transaction_id(), 3);
}
