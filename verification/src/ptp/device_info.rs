//! The `GetDeviceInfo` response dataset.
use vstd::prelude::*;

use crate::error::Error;
use crate::ptp::codec::{
    after_prefix, field_model, fields_from, fields_model, lemma_fields_advance, lemma_fields_consumed,
    lemma_fields_end, lemma_fields_extension, lemma_fields_fail, lemma_fields_prefix, lemma_fields_start, Field, FieldValue, Reader,
};
use crate::ptp::opcode::RC_OK;
use crate::ptp::session::PtpResponse;

verus! {

/// The device descriptor a camera returns for `GetDeviceInfo`.
#[derive(Debug, Clone)]
pub struct DeviceInfo {
    pub standard_version: u16,
    pub vendor_extension_id: u32,
    pub vendor_extension_version: u16,
    pub vendor_extension_desc: String,
    pub functional_mode: u16,
    pub operations_supported: Vec<u16>,
    pub events_supported: Vec<u16>,
    pub device_properties_supported: Vec<u16>,
    pub capture_formats: Vec<u16>,
    pub image_formats: Vec<u16>,
    pub manufacturer: String,
    pub model: String,
    pub device_version: String,
    pub serial_number: String,
}

/// The device descriptor, as values.
pub struct DeviceInfoView {
    pub standard_version: u16,
    pub vendor_extension_id: u32,
    pub vendor_extension_version: u16,
    pub vendor_extension_desc: Seq<char>,
    pub functional_mode: u16,
    pub operations_supported: Seq<u16>,
    pub events_supported: Seq<u16>,
    pub device_properties_supported: Seq<u16>,
    pub capture_formats: Seq<u16>,
    pub image_formats: Seq<u16>,
    pub manufacturer: Seq<char>,
    pub model: Seq<char>,
    pub device_version: Seq<char>,
    pub serial_number: Seq<char>,
}

impl View for DeviceInfo {
    type V = DeviceInfoView;

    open spec fn view(&self) -> DeviceInfoView {
        DeviceInfoView {
            standard_version: self.standard_version,
            vendor_extension_id: self.vendor_extension_id,
            vendor_extension_version: self.vendor_extension_version,
            vendor_extension_desc: self.vendor_extension_desc@,
            functional_mode: self.functional_mode,
            operations_supported: self.operations_supported@,
            events_supported: self.events_supported@,
            device_properties_supported: self.device_properties_supported@,
            capture_formats: self.capture_formats@,
            image_formats: self.image_formats@,
            manufacturer: self.manufacturer@,
            model: self.model@,
            device_version: self.device_version@,
            serial_number: self.serial_number@,
        }
    }
}

/// The fields of the `GetDeviceInfo` dataset, in wire order.
pub open spec fn device_info_layout() -> Seq<Field> {
    seq![
        Field::U16,
        Field::U32,
        Field::U16,
        Field::Text,
        Field::U16,
        Field::U16Array,
        Field::U16Array,
        Field::U16Array,
        Field::U16Array,
        Field::U16Array,
        Field::Text,
        Field::Text,
        Field::Text,
        Field::Text,
    ]
}

/// The device descriptor made of the dataset's field values, in wire order.
pub open spec fn device_info_from_fields(vs: Seq<FieldValue>) -> DeviceInfoView {
    DeviceInfoView {
        standard_version: vs[0]->U16_0,
        vendor_extension_id: vs[1]->U32_0,
        vendor_extension_version: vs[2]->U16_0,
        vendor_extension_desc: vs[3]->Text_0,
        functional_mode: vs[4]->U16_0,
        operations_supported: vs[5]->U16Array_0,
        events_supported: vs[6]->U16Array_0,
        device_properties_supported: vs[7]->U16Array_0,
        capture_formats: vs[8]->U16Array_0,
        image_formats: vs[9]->U16Array_0,
        manufacturer: vs[10]->Text_0,
        model: vs[11]->Text_0,
        device_version: vs[12]->Text_0,
        serial_number: vs[13]->Text_0,
    }
}

/// Decoding the `GetDeviceInfo` dataset at the start of `s`: its fields read in
/// order, the first failing read giving the error.
pub open spec fn device_info_model(s: Seq<u8>) -> Result<DeviceInfoView, Seq<char>> {
    match fields_model(device_info_layout(), s) {
        Ok((vs, _)) => Ok(device_info_from_fields(vs)),
        Err(m) => Err(m),
    }
}

/// How many bytes the dataset at the start of `b` takes (0 when it does not decode).
pub open spec fn device_info_size(b: Seq<u8>) -> nat {
    match fields_model(device_info_layout(), b) {
        Ok((_, c)) => c,
        Err(_) => 0,
    }
}

impl DeviceInfo {
    /// Decodes the `GetDeviceInfo` dataset.
    #[verifier::rlimit(40)]
    pub fn decode(bytes: &[u8]) -> (r: Result<DeviceInfo, Error>)
        ensures
            match device_info_model(bytes@) {
                Ok(v) => r matches Ok(d) && d@ == v,
                Err(msg) => r matches Err(e) && e.is_codec(msg),
            },
    {
        let ghost layout = device_info_layout();
        let ghost s0 = bytes@;
        assert(layout[0] == Field::U16);
        assert(layout[1] == Field::U32);
        assert(layout[2] == Field::U16);
        assert(layout[3] == Field::Text);
        assert(layout[4] == Field::U16);
        assert(layout[5] == Field::U16Array);
        assert(layout[6] == Field::U16Array);
        assert(layout[7] == Field::U16Array);
        assert(layout[8] == Field::U16Array);
        assert(layout[9] == Field::U16Array);
        assert(layout[10] == Field::Text);
        assert(layout[11] == Field::Text);
        assert(layout[12] == Field::Text);
        assert(layout[13] == Field::Text);
        let mut r = Reader::new(bytes);
        assert(r.rest() =~= bytes@);
        let ghost mut pre: Seq<FieldValue> = Seq::empty();
        let ghost mut used: nat = 0;
        proof {
            lemma_fields_start(layout, s0);
        }
        let ghost s0 = r.rest();
        let standard_version = match r.read_u16() {
            Ok(v) => v,
            Err(e) => {
                proof {
                    lemma_fields_fail(layout, s0, 0, s0, pre, used);
                }
                return Err(e);
            },
        };
        proof {
            lemma_fields_advance(layout, s0, 0, s0, pre, used);
            used = used + field_model(layout[0], s0).1;
            pre = pre.push(FieldValue::U16(standard_version));
        }
        let ghost s1 = r.rest();
        let vendor_extension_id = match r.read_u32() {
            Ok(v) => v,
            Err(e) => {
                proof {
                    lemma_fields_fail(layout, s0, 1, s1, pre, used);
                }
                return Err(e);
            },
        };
        proof {
            lemma_fields_advance(layout, s0, 1, s1, pre, used);
            used = used + field_model(layout[1], s1).1;
            pre = pre.push(FieldValue::U32(vendor_extension_id));
        }
        let ghost s2 = r.rest();
        let vendor_extension_version = match r.read_u16() {
            Ok(v) => v,
            Err(e) => {
                proof {
                    lemma_fields_fail(layout, s0, 2, s2, pre, used);
                }
                return Err(e);
            },
        };
        proof {
            lemma_fields_advance(layout, s0, 2, s2, pre, used);
            used = used + field_model(layout[2], s2).1;
            pre = pre.push(FieldValue::U16(vendor_extension_version));
        }
        let ghost s3 = r.rest();
        let vendor_extension_desc = match r.read_string() {
            Ok(v) => v,
            Err(e) => {
                proof {
                    lemma_fields_fail(layout, s0, 3, s3, pre, used);
                }
                return Err(e);
            },
        };
        proof {
            lemma_fields_advance(layout, s0, 3, s3, pre, used);
            used = used + field_model(layout[3], s3).1;
            pre = pre.push(FieldValue::Text(vendor_extension_desc@));
        }
        let ghost s4 = r.rest();
        let functional_mode = match r.read_u16() {
            Ok(v) => v,
            Err(e) => {
                proof {
                    lemma_fields_fail(layout, s0, 4, s4, pre, used);
                }
                return Err(e);
            },
        };
        proof {
            lemma_fields_advance(layout, s0, 4, s4, pre, used);
            used = used + field_model(layout[4], s4).1;
            pre = pre.push(FieldValue::U16(functional_mode));
        }
        let ghost s5 = r.rest();
        let operations_supported = match r.read_u16_array() {
            Ok(v) => v,
            Err(e) => {
                proof {
                    lemma_fields_fail(layout, s0, 5, s5, pre, used);
                }
                return Err(e);
            },
        };
        proof {
            lemma_fields_advance(layout, s0, 5, s5, pre, used);
            used = used + field_model(layout[5], s5).1;
            pre = pre.push(FieldValue::U16Array(operations_supported@));
        }
        let ghost s6 = r.rest();
        let events_supported = match r.read_u16_array() {
            Ok(v) => v,
            Err(e) => {
                proof {
                    lemma_fields_fail(layout, s0, 6, s6, pre, used);
                }
                return Err(e);
            },
        };
        proof {
            lemma_fields_advance(layout, s0, 6, s6, pre, used);
            used = used + field_model(layout[6], s6).1;
            pre = pre.push(FieldValue::U16Array(events_supported@));
        }
        let ghost s7 = r.rest();
        let device_properties_supported = match r.read_u16_array() {
            Ok(v) => v,
            Err(e) => {
                proof {
                    lemma_fields_fail(layout, s0, 7, s7, pre, used);
                }
                return Err(e);
            },
        };
        proof {
            lemma_fields_advance(layout, s0, 7, s7, pre, used);
            used = used + field_model(layout[7], s7).1;
            pre = pre.push(FieldValue::U16Array(device_properties_supported@));
        }
        let ghost s8 = r.rest();
        let capture_formats = match r.read_u16_array() {
            Ok(v) => v,
            Err(e) => {
                proof {
                    lemma_fields_fail(layout, s0, 8, s8, pre, used);
                }
                return Err(e);
            },
        };
        proof {
            lemma_fields_advance(layout, s0, 8, s8, pre, used);
            used = used + field_model(layout[8], s8).1;
            pre = pre.push(FieldValue::U16Array(capture_formats@));
        }
        let ghost s9 = r.rest();
        let image_formats = match r.read_u16_array() {
            Ok(v) => v,
            Err(e) => {
                proof {
                    lemma_fields_fail(layout, s0, 9, s9, pre, used);
                }
                return Err(e);
            },
        };
        proof {
            lemma_fields_advance(layout, s0, 9, s9, pre, used);
            used = used + field_model(layout[9], s9).1;
            pre = pre.push(FieldValue::U16Array(image_formats@));
        }
        let ghost s10 = r.rest();
        let manufacturer = match r.read_string() {
            Ok(v) => v,
            Err(e) => {
                proof {
                    lemma_fields_fail(layout, s0, 10, s10, pre, used);
                }
                return Err(e);
            },
        };
        proof {
            lemma_fields_advance(layout, s0, 10, s10, pre, used);
            used = used + field_model(layout[10], s10).1;
            pre = pre.push(FieldValue::Text(manufacturer@));
        }
        let ghost s11 = r.rest();
        let model = match r.read_string() {
            Ok(v) => v,
            Err(e) => {
                proof {
                    lemma_fields_fail(layout, s0, 11, s11, pre, used);
                }
                return Err(e);
            },
        };
        proof {
            lemma_fields_advance(layout, s0, 11, s11, pre, used);
            used = used + field_model(layout[11], s11).1;
            pre = pre.push(FieldValue::Text(model@));
        }
        let ghost s12 = r.rest();
        let device_version = match r.read_string() {
            Ok(v) => v,
            Err(e) => {
                proof {
                    lemma_fields_fail(layout, s0, 12, s12, pre, used);
                }
                return Err(e);
            },
        };
        proof {
            lemma_fields_advance(layout, s0, 12, s12, pre, used);
            used = used + field_model(layout[12], s12).1;
            pre = pre.push(FieldValue::Text(device_version@));
        }
        let ghost s13 = r.rest();
        let serial_number = match r.read_string() {
            Ok(v) => v,
            Err(e) => {
                proof {
                    lemma_fields_fail(layout, s0, 13, s13, pre, used);
                }
                return Err(e);
            },
        };
        proof {
            lemma_fields_advance(layout, s0, 13, s13, pre, used);
            used = used + field_model(layout[13], s13).1;
            pre = pre.push(FieldValue::Text(serial_number@));
        }
        proof {
            lemma_fields_end(layout, r.rest());
        }
        assert(pre + Seq::<FieldValue>::empty() =~= pre);
        Ok(DeviceInfo {
            standard_version,
            vendor_extension_id,
            vendor_extension_version,
            vendor_extension_desc,
            functional_mode,
            operations_supported,
            events_supported,
            device_properties_supported,
            capture_formats,
            image_formats,
            manufacturer,
            model,
            device_version,
            serial_number,
        })
    }

    /// The device descriptor a `GetDeviceInfo` response carries in its data phase;
    /// a response code other than OK is an error.
    pub fn from_response(resp: &PtpResponse) -> (r: Result<DeviceInfo, Error>)
        ensures
            resp.code != RC_OK ==> (r matches Err(Error::PtpResponse { code }) && code == resp.code),
            resp.code == RC_OK ==> match device_info_model(resp.data@) {
                Ok(v) => r matches Ok(d) && d@ == v,
                Err(msg) => r matches Err(e) && e.is_codec(msg),
            },
    {
        match resp.ok() {
            Ok(()) => {},
            Err(e) => return Err(e),
        }
        DeviceInfo::decode(resp.data.as_slice())
    }

    /// Whether the device offers the CHDK vendor operation 0x9999.
    pub fn has_chdk(&self) -> (b: bool)
        ensures
            b == self.operations_supported@.contains(0x9999u16),
    {
        let ops = &self.operations_supported;
        let mut i: usize = 0;
        while i < ops.len()
            invariant
                i <= ops@.len(),
                ops@ == self.operations_supported@,
                forall|j: int| 0 <= j < i ==> ops@[j] != 0x9999u16,
            decreases ops@.len() - i,
        {
            if ops[i] == 0x9999 {
                assert(ops@[i as int] == 0x9999u16);
                return true;
            }
            i = i + 1;
        }
        false
    }
}

/// The dataset decodes from its own bytes alone: bytes after it change nothing, and
/// every prefix shorter than the dataset fails to decode.
pub proof fn lemma_device_info_prefix_and_extension(b: Seq<u8>, extra: Seq<u8>, k: nat)
    requires
        device_info_model(b) is Ok,
    ensures
        device_info_model(b + extra) == device_info_model(b),
        k < device_info_size(b) ==> device_info_model(b.take(k as int)) is Err,
        device_info_size(b) <= b.len(),
{
    lemma_fields_extension(device_info_layout(), 0, b, extra);
    lemma_fields_consumed(device_info_layout(), 0, b);
    if k < device_info_size(b) {
        lemma_fields_prefix(device_info_layout(), 0, b, k);
    }
}

} // verus!
