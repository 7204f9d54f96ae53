//! Live view buffers and the Y411 to RGB decoding.

use chdkptp::chdk::liveview::{FramebufferDesc, LiveViewFrame, LvDataHeader, LV_FB_YUV8};
use chdkptp::ptp::codec::Writer;
use chdkptp::ptp::opcode::{RC_GENERAL_ERROR, RC_OK};
use chdkptp::ptp::PtpResponse;
use chdkptp::Error;

fn codec_msg(e: Error) -> String {
    match e {
        Error::Codec(m) => m,
        other => panic!("expected a codec error, got {:?}", other),
    }
}

fn buffer(vp_desc_start: u32, fb_type: u32) -> Vec<u8> {
    let mut w = Writer::new();
    for v in [2, 1, 0, 0, 0, vp_desc_start, 0, 0] {
        w.write_u32(v);
    }
    // viewport descriptor at 32: Y411, data at 68, stride 4, 4 x 2 visible
    for v in [fb_type, 68, 4, 4, 2, 0, 0, 0, 0] {
        w.write_u32(v);
    }
    // row 0: U Y0 V Y1 Y2 Y3
    w.write_bytes(&[0, 128, 0, 0, 255, 16]);
    // row 1: U = -128, V = 127
    w.write_bytes(&[0x80, 100, 0x7F, 0, 255, 50]);
    w.into_bytes()
}

fn narrow_buffer(buffer_width: u32, data: &[u8]) -> Vec<u8> {
    let mut w = Writer::new();
    for v in [2, 1, 0, 0, 0, 32, 0, 0] {
        w.write_u32(v);
    }
    // viewport descriptor at 32: Y411, data at 68, 5 x 1 visible
    for v in [LV_FB_YUV8, 68, buffer_width, 5, 1, 0, 0, 0, 0] {
        w.write_u32(v);
    }
    w.write_bytes(data);
    w.into_bytes()
}

fn frame(raw: Vec<u8>) -> LiveViewFrame {
    LiveViewFrame::from_response(PtpResponse { code: RC_OK, params: vec![], data: raw }).unwrap()
}

#[test]
fn header_and_descriptors() {
    let raw = buffer(32, LV_FB_YUV8);
    let h = LvDataHeader::parse(&raw).unwrap();
    assert_eq!((h.version_major, h.version_minor, h.vp_desc_start), (2, 1, 32));
    assert_eq!(LvDataHeader::SIZE, 32);
    assert_eq!(FramebufferDesc::SIZE, 36);
    let f = frame(raw);
    let d = f.viewport_desc().unwrap().unwrap();
    assert_eq!((d.fb_type, d.data_start, d.buffer_width), (0, 68, 4));
    assert_eq!((d.visible_width, d.visible_height), (4, 2));
    assert!(f.bitmap_desc().unwrap().is_none());
}

#[test]
fn decodes_y411_with_bt601() {
    let (w, h, rgb) = frame(buffer(32, LV_FB_YUV8)).decode_viewport_rgb().unwrap();
    assert_eq!((w, h), (4, 2));
    assert_eq!(rgb.len(), 4 * 2 * 3);
    assert_eq!(
        &rgb[..12],
        &[128, 128, 128, 0, 0, 0, 255, 255, 255, 16, 16, 16]
    );
    assert_eq!(
        &rgb[12..],
        &[255, 53, 0, 178, 0, 0, 255, 208, 28, 228, 3, 0]
    );
}

#[test]
fn viewport_errors() {
    assert_eq!(
        codec_msg(frame(buffer(0, LV_FB_YUV8)).decode_viewport_rgb().unwrap_err()),
        "viewport not present in response"
    );
    let mut short = buffer(32, LV_FB_YUV8);
    short.pop();
    assert_eq!(
        codec_msg(frame(short).decode_viewport_rgb().unwrap_err()),
        "viewport plane truncated: need 80 bytes, have 79"
    );
    assert_eq!(
        codec_msg(frame(buffer(32, 1)).decode_viewport_rgb().unwrap_err()),
        "viewport fb_type 1 — only LV_FB_YUV8 (Y411) decoded today"
    );
    let cut = buffer(32, LV_FB_YUV8)[..40].to_vec();
    assert_eq!(
        codec_msg(frame(cut).viewport_desc().unwrap_err()),
        "framebuffer_desc at 32: need 36 bytes, buffer has 40"
    );
}

#[test]
fn frame_from_response() {
    match LiveViewFrame::from_response(PtpResponse { code: RC_OK, params: vec![], data: vec![0; 10] }) {
        Err(e) => assert_eq!(codec_msg(e), "lv_data_header: need 32 bytes, have 10"),
        Ok(_) => panic!("expected an error"),
    }
    assert!(matches!(
        LiveViewFrame::from_response(PtpResponse {
            code: RC_GENERAL_ERROR,
            params: vec![],
            data: buffer(32, 0)
        }),
        Err(Error::PtpResponse { code: 0x2002 })
    ));
}

#[test]
fn width_not_multiple_of_four_decodes_every_pixel() {
    let raw = narrow_buffer(8, &[0, 128, 0, 0, 255, 16, 0x80, 100, 0x7F, 1, 2, 3]);
    let (w, h, rgb) = frame(raw).decode_viewport_rgb().unwrap();
    assert_eq!((w, h), (5, 1));
    assert_eq!(rgb.len(), 3 * 5);
    assert_eq!(
        rgb,
        vec![128, 128, 128, 0, 0, 0, 255, 255, 255, 16, 16, 16, 255, 53, 0]
    );
}

#[test]
fn rows_past_the_buffer_are_an_error() {
    let raw = narrow_buffer(4, &[0, 128, 0, 0, 255, 16]);
    assert_eq!(
        codec_msg(frame(raw).decode_viewport_rgb().unwrap_err()),
        "viewport rows overrun buffer: need 80 bytes, have 74"
    );
}
