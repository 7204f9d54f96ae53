//! The GetDeviceInfo dataset.

use chdkptp::ptp::codec::Writer;
use chdkptp::ptp::opcode::{RC_GENERAL_ERROR, RC_OK};
use chdkptp::ptp::PtpResponse;
use chdkptp::{DeviceInfo, Error};

fn put_string(w: &mut Writer, s: &str) {
    if s.is_empty() {
        w.write_bytes(&[0]);
        return;
    }
    let units: Vec<u16> = s.encode_utf16().collect();
    w.write_bytes(&[(units.len() + 1) as u8]);
    for u in units {
        w.write_u16(u);
    }
    w.write_u16(0);
}

fn put_array(w: &mut Writer, a: &[u16]) {
    w.write_u32(a.len() as u32);
    for v in a {
        w.write_u16(*v);
    }
}

fn dataset() -> Vec<u8> {
    let mut w = Writer::new();
    w.write_u16(100);
    w.write_u32(11);
    w.write_u16(100);
    put_string(&mut w, "CHDK");
    w.write_u16(0);
    put_array(&mut w, &[0x1001, 0x1002, 0x9999]);
    put_array(&mut w, &[0x4001]);
    put_array(&mut w, &[]);
    put_array(&mut w, &[0x3801]);
    put_array(&mut w, &[0x3801, 0x3000]);
    put_string(&mut w, "Canon Inc.");
    put_string(&mut w, "Canon PowerShot ELPH 180");
    put_string(&mut w, "1-15.0.1.0");
    put_string(&mut w, "");
    w.into_bytes()
}

#[test]
fn decodes_every_field_in_order() {
    let info = DeviceInfo::decode(&dataset()).unwrap();
    assert_eq!(info.standard_version, 100);
    assert_eq!(info.vendor_extension_id, 11);
    assert_eq!(info.vendor_extension_version, 100);
    assert_eq!(info.vendor_extension_desc, "CHDK");
    assert_eq!(info.functional_mode, 0);
    assert_eq!(info.operations_supported, vec![0x1001, 0x1002, 0x9999]);
    assert_eq!(info.events_supported, vec![0x4001]);
    assert!(info.device_properties_supported.is_empty());
    assert_eq!(info.capture_formats, vec![0x3801]);
    assert_eq!(info.image_formats, vec![0x3801, 0x3000]);
    assert_eq!(info.manufacturer, "Canon Inc.");
    assert_eq!(info.model, "Canon PowerShot ELPH 180");
    assert_eq!(info.device_version, "1-15.0.1.0");
    assert_eq!(info.serial_number, "");
    assert!(info.has_chdk());
}

#[test]
fn has_chdk_needs_the_vendor_operation() {
    let mut info = DeviceInfo::decode(&dataset()).unwrap();
    info.operations_supported = vec![0x1001, 0x9998];
    assert!(!info.has_chdk());
}

#[test]
fn truncated_dataset_fails_at_the_first_missing_field() {
    let bytes = dataset();
    let cut = &bytes[..bytes.len() - 1];
    match DeviceInfo::decode(cut) {
        Err(Error::Codec(m)) => assert_eq!(m, "short read: need 1, have 0"),
        other => panic!("unexpected {:?}", other.map(|i| i.model)),
    }
}

#[test]
fn from_response_checks_the_code() {
    let bad = PtpResponse { code: RC_GENERAL_ERROR, params: vec![], data: dataset() };
    assert!(matches!(DeviceInfo::from_response(&bad), Err(Error::PtpResponse { code: 0x2002 })));
    let good = PtpResponse { code: RC_OK, params: vec![], data: dataset() };
    assert_eq!(DeviceInfo::from_response(&good).unwrap().manufacturer, "Canon Inc.");
}

#[test]
fn trailing_bytes_are_ignored_and_every_shorter_prefix_fails() {
    let bytes = dataset();
    let full = DeviceInfo::decode(&bytes).unwrap();
    let mut longer = bytes.clone();
    longer.extend_from_slice(&[1, 2, 3, 4, 5]);
    let extended = DeviceInfo::decode(&longer).unwrap();
    assert_eq!(extended.model, full.model);
    assert_eq!(extended.serial_number, full.serial_number);
    assert_eq!(extended.image_formats, full.image_formats);
    for k in 0..bytes.len() {
        assert!(DeviceInfo::decode(&bytes[..k]).is_err(), "prefix of {} bytes decoded", k);
    }
}
