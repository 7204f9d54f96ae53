//! CHDK file transfer: the data phase of `UploadFile`.
use vstd::prelude::*;

use crate::ptp::codec::{u32_le_bytes, Writer};

verus! {

/// The data phase of `UploadFile`: the path's byte length as a little-endian `u32`
/// (truncated to 32 bits), the path's UTF-8 bytes, then the file's contents.
///
/// `camera_path` is the absolute path on the camera, whose SD card root is `A/`
/// (for example `A/CHDK/SCRIPTS/foo.lua`).
pub fn upload_payload(camera_path: &str, contents: &[u8]) -> (p: Vec<u8>)
    ensures
        p@ == u32_le_bytes(vstd::utf8::encode_utf8(camera_path@).len() as u32)
            + vstd::utf8::encode_utf8(camera_path@) + contents@,
{
    let path_bytes = camera_path.as_bytes();
    let mut w = Writer::new();
    w.write_u32(path_bytes.len() as u32);
    w.write_bytes(path_bytes);
    w.write_bytes(contents);
    w.into_bytes()
}

} // verus!
