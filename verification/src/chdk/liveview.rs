//! CHDK live view: the `GetDisplayData` buffer (a header with offsets to
//! framebuffer descriptors, then the framebuffers) and the decoding of the
//! viewport's Y411 frame to RGB888 (BT.601, as CHDK's `liveimg.c` does it).
use vstd::prelude::*;

use crate::error::{decimal, push_decimal, Error};
use crate::ptp::codec::{
    lemma_u32s_le_bytes_len, lemma_u32s_le_roundtrip, load_u32_le, u32_le_at, u32_seq, u32s_le_bytes,
};
use crate::ptp::opcode::RC_OK;
use crate::ptp::session::PtpResponse;

verus! {

/// `GetDisplayData` flag: the viewport (sensor preview) framebuffer.
pub const LV_TFR_VIEWPORT: u32 = 0x01;

/// `GetDisplayData` flag: the palette (needed for a paletted bitmap).
pub const LV_TFR_PALETTE: u32 = 0x02;

/// `GetDisplayData` flag: the bitmap (UI overlay) framebuffer.
pub const LV_TFR_BITMAP: u32 = 0x04;

/// `GetDisplayData` flag: the bitmap's opacity plane.
pub const LV_TFR_BITMAP_OPACITY: u32 = 0x08;

/// Framebuffer type: YUV 4:1:1 (Y411), the canonical first variant.
pub const LV_FB_YUV8: u32 = 0;

/// Framebuffer type: 8-bit paletted.
pub const LV_FB_PAL8: u32 = 1;

/// Framebuffer type: YUV, variant B.
pub const LV_FB_YUV8B: u32 = 2;

/// Framebuffer type: paletted with opacity.
pub const LV_FB_PAL8_OPACITY: u32 = 3;

/// Framebuffer type: YUV, variant C.
pub const LV_FB_YUV8C: u32 = 4;

/// Framebuffer type: 8-bit opacity.
pub const LV_FB_OPACITY8: u32 = 5;

/// The header at the start of a `GetDisplayData` buffer (CHDK's `lv_data_header`,
/// version 2.x): eight little-endian `u32`s.
#[derive(Debug, Clone, Copy)]
pub struct LvDataHeader {
    pub version_major: u32,
    pub version_minor: u32,
    pub lcd_aspect_ratio: u32,
    pub palette_type: u32,
    pub palette_data_start: u32,
    pub vp_desc_start: u32,
    pub bm_desc_start: u32,
    /// Present from version 2.1 on (offset 28).
    pub bm_opacity_desc_start: u32,
}

/// The header of the buffer `buf`, or the message of a buffer too short for it.
pub open spec fn lv_header_model(buf: Seq<u8>) -> Result<LvDataHeader, Seq<char>> {
    if buf.len() < 32 {
        Err("lv_data_header: need "@ + decimal(32) + " bytes, have "@ + decimal(buf.len()))
    } else {
        Ok(
            LvDataHeader {
                version_major: u32_le_at(buf, 0),
                version_minor: u32_le_at(buf, 4),
                lcd_aspect_ratio: u32_le_at(buf, 8),
                palette_type: u32_le_at(buf, 12),
                palette_data_start: u32_le_at(buf, 16),
                vp_desc_start: u32_le_at(buf, 20),
                bm_desc_start: u32_le_at(buf, 24),
                bm_opacity_desc_start: u32_le_at(buf, 28),
            },
        )
    }
}

impl LvDataHeader {
    /// Size of the header in bytes.
    pub const SIZE: usize = 32;

    /// Reads the header at the start of `buf`.
    pub fn parse(buf: &[u8]) -> (r: Result<Self, Error>)
        ensures
            match lv_header_model(buf@) {
                Ok(h) => r == Ok::<LvDataHeader, Error>(h),
                Err(msg) => r matches Err(e) && e.is_codec(msg),
            },
            buf@.len() >= 32 ==> (r matches Ok(h) && h.vp_desc_start == u32_le_at(buf@, 20)
                && h.bm_desc_start == u32_le_at(buf@, 24) && h.bm_opacity_desc_start == u32_le_at(
                buf@,
                28,
            )),
    {
        if buf.len() < 32 {
            let mut m = String::from_str("lv_data_header: need ");
            push_decimal(&mut m, 32);
            m.append(" bytes, have ");
            push_decimal(&mut m, buf.len() as u128);
            return Err(Error::Codec(m));
        }
        Ok(
            LvDataHeader {
                version_major: load_u32_le(buf, 0),
                version_minor: load_u32_le(buf, 4),
                lcd_aspect_ratio: load_u32_le(buf, 8),
                palette_type: load_u32_le(buf, 12),
                palette_data_start: load_u32_le(buf, 16),
                vp_desc_start: load_u32_le(buf, 20),
                bm_desc_start: load_u32_le(buf, 24),
                bm_opacity_desc_start: load_u32_le(buf, 28),
            },
        )
    }
}

/// A framebuffer descriptor (CHDK's `lv_framebuffer_desc`): nine little-endian
/// `u32`s. `data_start` is an offset into the whole buffer, `buffer_width` the row
/// stride in pixels (padding included), `visible_width` the pixels shown per row.
#[derive(Debug, Clone, Copy)]
pub struct FramebufferDesc {
    pub fb_type: u32,
    pub data_start: u32,
    pub buffer_width: u32,
    pub visible_width: u32,
    pub visible_height: u32,
    pub margin_top: u32,
    pub margin_left: u32,
    pub margin_bot: u32,
    pub margin_right: u32,
}

/// The descriptor at `offset` in `buf`, or the message of a buffer too short for it.
pub open spec fn fb_desc_model(buf: Seq<u8>, offset: u32) -> Result<FramebufferDesc, Seq<char>> {
    let off = offset as int;
    if buf.len() < off + 36 {
        Err(
            "framebuffer_desc at "@ + decimal(off as nat) + ": need "@ + decimal(36)
                + " bytes, buffer has "@ + decimal(buf.len()),
        )
    } else {
        Ok(
            FramebufferDesc {
                fb_type: u32_le_at(buf, off),
                data_start: u32_le_at(buf, off + 4),
                buffer_width: u32_le_at(buf, off + 8),
                visible_width: u32_le_at(buf, off + 12),
                visible_height: u32_le_at(buf, off + 16),
                margin_top: u32_le_at(buf, off + 20),
                margin_left: u32_le_at(buf, off + 24),
                margin_bot: u32_le_at(buf, off + 28),
                margin_right: u32_le_at(buf, off + 32),
            },
        )
    }
}

impl FramebufferDesc {
    /// Size of a descriptor in bytes.
    pub const SIZE: usize = 36;

    /// Reads the descriptor at `offset` in `buf`.
    pub fn parse_at(buf: &[u8], offset: u32) -> (r: Result<Self, Error>)
        ensures
            match fb_desc_model(buf@, offset) {
                Ok(d) => r == Ok::<FramebufferDesc, Error>(d),
                Err(msg) => r matches Err(e) && e.is_codec(msg),
            },
    {
        let len = buf.len();
        if len < 36 || (offset as usize) > len - 36 {
            let mut m = String::from_str("framebuffer_desc at ");
            push_decimal(&mut m, offset as u128);
            m.append(": need ");
            push_decimal(&mut m, 36);
            m.append(" bytes, buffer has ");
            push_decimal(&mut m, len as u128);
            return Err(Error::Codec(m));
        }
        let off = offset as usize;
        Ok(
            FramebufferDesc {
                fb_type: load_u32_le(buf, off),
                data_start: load_u32_le(buf, off + 4),
                buffer_width: load_u32_le(buf, off + 8),
                visible_width: load_u32_le(buf, off + 12),
                visible_height: load_u32_le(buf, off + 16),
                margin_top: load_u32_le(buf, off + 20),
                margin_left: load_u32_le(buf, off + 24),
                margin_bot: load_u32_le(buf, off + 28),
                margin_right: load_u32_le(buf, off + 32),
            },
        )
    }
}

/// The descriptor whose offset is `start`: none when the offset is 0.
pub open spec fn desc_model(raw: Seq<u8>, start: u32) -> Result<Option<FramebufferDesc>, Seq<char>> {
    if start == 0 {
        Ok(None)
    } else {
        match fb_desc_model(raw, start) {
            Ok(d) => Ok(Some(d)),
            Err(m) => Err(m),
        }
    }
}

// ---------------------------------------------------------------------------
// Y411 to RGB
// ---------------------------------------------------------------------------

/// A byte read as a signed 8-bit value.
pub open spec fn signed_byte(b: u8) -> int {
    if b >= 128 {
        b - 256
    } else {
        b as int
    }
}

/// `x` clamped to 0..=255.
pub open spec fn clamp_u8(x: int) -> u8 {
    if x < 0 {
        0
    } else if x > 255 {
        255
    } else {
        x as u8
    }
}

/// BT.601 YUV to RGB in CHDK's fixed point (scaled by 4096, rounded, floored):
/// R = Y + V*5743, G = Y - U*1411 - V*2925, B = Y + U*7258, each clamped.
pub open spec fn yuv_to_rgb_model(y: int, u: int, v: int) -> Seq<u8> {
    seq![
        clamp_u8((4096 * y + 5743 * v + 2048) / 4096),
        clamp_u8((4096 * y - 1411 * u - 2925 * v + 2048) / 4096),
        clamp_u8((4096 * y + 7258 * u + 2048) / 4096),
    ]
}

/// Bytes a Y411 row of `width` visible pixels is read from: six bytes for each group
/// of four pixels, the last group counted whole even when the width leaves it
/// partly visible.
pub open spec fn y411_line_len(width: nat) -> nat {
    6 * ((width + 3) / 4)
}

/// Where the luma of the `j`-th pixel of a group `U Y0 V Y1 Y2 Y3` lies.
pub open spec fn y411_luma_offset(j: int) -> int {
    if j == 0 {
        1
    } else if j == 1 {
        3
    } else if j == 2 {
        4
    } else {
        5
    }
}

/// The three RGB bytes of pixel `i` of a Y411 `line`: the luma of its place in
/// group `i / 4`, with that group's shared chroma pair.
pub open spec fn y411_pixel_rgb(line: Seq<u8>, i: int) -> Seq<u8> {
    let p = 6 * (i / 4);
    yuv_to_rgb_model(
        line[p + y411_luma_offset(i % 4)] as int,
        signed_byte(line[p]),
        signed_byte(line[p + 2]),
    )
}

/// The RGB bytes of the first `n` pixels of `line`, in order.
pub open spec fn y411_row_model(line: Seq<u8>, n: nat) -> Seq<u8>
    decreases n,
{
    if n == 0 {
        Seq::empty()
    } else {
        y411_row_model(line, (n - 1) as nat) + y411_pixel_rgb(line, n - 1)
    }
}

/// Converts one BT.601 channel sum (scaled by 4096) to a clamped byte.
fn channel(sum: i32) -> (c: u8)
    requires
        -1000000 <= sum <= 3000000,
    ensures
        c == clamp_u8((sum + 2048) / 4096),
{
    let shifted = (sum + 2048 + 1048576) / 4096 - 256;
    assert(shifted == (sum + 2048) / 4096) by (nonlinear_arith)
        requires
            shifted == (sum + 2048 + 1048576) / 4096 - 256,
            sum + 2048 + 1048576 >= 0,
    ;
    if shifted < 0 {
        0
    } else if shifted > 255 {
        255
    } else {
        shifted as u8
    }
}

/// BT.601 YUV to RGB for `y` in 0..=255 and signed `u`, `v` in -128..=127.
fn yuv_to_rgb(y: i32, u: i32, v: i32) -> (rgb: (u8, u8, u8))
    requires
        0 <= y <= 255,
        -128 <= u <= 127,
        -128 <= v <= 127,
    ensures
        seq![rgb.0, rgb.1, rgb.2] == yuv_to_rgb_model(y as int, u as int, v as int),
{
    let base = y * 4096;
    let r = channel(base + v * 5743);
    let g = channel(base - u * 1411 - v * 2925);
    let b = channel(base + u * 7258);
    (r, g, b)
}

fn signed_value(b: u8) -> (v: i32)
    ensures
        v == signed_byte(b),
        -128 <= v <= 127,
{
    if b >= 128 {
        b as i32 - 256
    } else {
        b as i32
    }
}

fn push_pixel(out: &mut Vec<u8>, y: u8, u: i32, v: i32)
    requires
        -128 <= u <= 127,
        -128 <= v <= 127,
    ensures
        final(out)@ == old(out)@ + yuv_to_rgb_model(y as int, u as int, v as int),
{
    let (r, g, b) = yuv_to_rgb(y as i32, u, v);
    out.push(r);
    out.push(g);
    out.push(b);
    assert(final(out)@ =~= old(out)@ + yuv_to_rgb_model(y as int, u as int, v as int));
}

fn luma_offset(j: usize) -> (o: usize)
    requires
        j < 4,
    ensures
        o == y411_luma_offset(j as int),
{
    if j == 0 {
        1
    } else if j == 1 {
        3
    } else if j == 2 {
        4
    } else {
        5
    }
}

/// Decodes one row of Y411 (UYVYYY: 12 bits per pixel, 6 bytes per 4 pixels) into
/// RGB888 appended to `out`: every visible pixel, those of a last, partly visible
/// group included.
fn decode_y411_row(line: &[u8], visible_width: usize, out: &mut Vec<u8>)
    requires
        y411_line_len(visible_width as nat) <= line@.len(),
    ensures
        final(out)@ == old(out)@ + y411_row_model(line@, visible_width as nat),
{
    let len = line.len();
    let mut i: usize = 0;
    while i < visible_width
        invariant
            i <= visible_width,
            y411_line_len(visible_width as nat) <= line@.len(),
            len == line@.len(),
            out@ == old(out)@ + y411_row_model(line@, i as nat),
        decreases visible_width - i,
    {
        let k = i / 4;
        let j = i % 4;
        assert(6 * k + 6 <= y411_line_len(visible_width as nat)) by (nonlinear_arith)
            requires
                k == i / 4,
                i < visible_width,
        ;
        let p = 6 * k;
        let u = signed_value(line[p]);
        let v = signed_value(line[p + 2]);
        let y = line[p + luma_offset(j)];
        push_pixel(out, y, u, v);
        i = i + 1;
        assert(out@ =~= old(out)@ + y411_row_model(line@, i as nat));
    }
}

// ---------------------------------------------------------------------------
// Frames
// ---------------------------------------------------------------------------

/// The RGB bytes of the first `rows` rows of a Y411 plane that starts at `start` in
/// `raw` with `row_bytes` bytes per row; each row is read from its first
/// `y411_line_len(width)` bytes.
pub open spec fn frame_rgb_model(raw: Seq<u8>, start: int, row_bytes: int, width: nat, rows: nat) -> Seq<
    u8,
>
    decreases rows,
{
    if rows == 0 {
        Seq::empty()
    } else {
        let row_start = start + (rows - 1) * row_bytes;
        frame_rgb_model(raw, start, row_bytes, width, (rows - 1) as nat) + y411_row_model(
            raw.subrange(row_start, row_start + y411_line_len(width)),
            width,
        )
    }
}

/// Bytes per row of a Y411 plane whose stride is `buffer_width` pixels.
pub open spec fn y411_row_bytes(d: FramebufferDesc) -> int {
    d.buffer_width * 3 / 2
}

/// Where the bytes that decoding reads of the last row end: that row's start plus
/// the bytes of its visible pixels' groups, which can pass the plane's end when the
/// visible width exceeds the stride.
pub open spec fn y411_last_row_end(d: FramebufferDesc) -> int {
    d.data_start + (d.visible_height - 1) * y411_row_bytes(d) + y411_line_len(d.visible_width as nat)
}

/// Bytes a Y411 plane spans from the start of the buffer: its offset plus its rows.
pub open spec fn y411_plane_end(d: FramebufferDesc) -> int {
    d.data_start + y411_row_bytes(d) * d.visible_height
}

/// The viewport decoded to RGB888: its visible width and height and every visible
/// pixel row by row, or the message of why it cannot be: no viewport, a descriptor
/// or plane that does not fit the buffer, a framebuffer type other than Y411, or a
/// last row whose visible pixels' groups run past the buffer.
pub open spec fn viewport_rgb_model(header: LvDataHeader, raw: Seq<u8>) -> Result<
    (u32, u32, Seq<u8>),
    Seq<char>,
> {
    match desc_model(raw, header.vp_desc_start) {
        Err(m) => Err(m),
        Ok(None) => Err("viewport not present in response"@),
        Ok(Some(d)) => {
            if raw.len() < y411_plane_end(d) {
                Err(
                    "viewport plane truncated: need "@ + decimal(y411_plane_end(d) as nat)
                        + " bytes, have "@ + decimal(raw.len()),
                )
            } else if d.fb_type != LV_FB_YUV8 {
                Err(
                    "viewport fb_type "@ + decimal(d.fb_type as nat)
                        + " — only LV_FB_YUV8 (Y411) decoded today"@,
                )
            } else if d.visible_height > 0 && y411_last_row_end(d) > raw.len() {
                Err(
                    "viewport rows overrun buffer: need "@ + decimal(y411_last_row_end(d) as nat)
                        + " bytes, have "@ + decimal(raw.len()),
                )
            } else {
                Ok(
                    (
                        d.visible_width,
                        d.visible_height,
                        frame_rgb_model(
                            raw,
                            d.data_start as int,
                            y411_row_bytes(d),
                            d.visible_width as nat,
                            d.visible_height as nat,
                        ),
                    ),
                )
            }
        },
    }
}

/// A live view frame: the header and the whole `GetDisplayData` buffer, which the
/// descriptors index into.
#[derive(Debug, Clone)]
pub struct LiveViewFrame {
    pub header: LvDataHeader,
    /// The whole buffer; plane data is found through the descriptors' offsets.
    pub raw: Vec<u8>,
}

impl LiveViewFrame {
    /// The frame a `GetDisplayData` response carries; a response code other than
    /// OK, or data too short for the header, is an error.
    pub fn from_response(resp: PtpResponse) -> (r: Result<LiveViewFrame, Error>)
        ensures
            resp.code != RC_OK ==> (r matches Err(Error::PtpResponse { code }) && code == resp.code),
            resp.code == RC_OK ==> match lv_header_model(resp.data@) {
                Ok(h) => r matches Ok(f) && f.header == h && f.raw@ == resp.data@,
                Err(msg) => r matches Err(e) && e.is_codec(msg),
            },
    {
        match resp.ok() {
            Ok(()) => {},
            Err(e) => return Err(e),
        }
        let header = match LvDataHeader::parse(resp.data.as_slice()) {
            Ok(h) => h,
            Err(e) => return Err(e),
        };
        Ok(LiveViewFrame { header, raw: resp.data })
    }

    /// The viewport's descriptor, if the frame has one.
    pub fn viewport_desc(&self) -> (r: Result<Option<FramebufferDesc>, Error>)
        ensures
            match desc_model(self.raw@, self.header.vp_desc_start) {
                Ok(d) => r == Ok::<Option<FramebufferDesc>, Error>(d),
                Err(msg) => r matches Err(e) && e.is_codec(msg),
            },
    {
        if self.header.vp_desc_start == 0 {
            return Ok(None);
        }
        match FramebufferDesc::parse_at(self.raw.as_slice(), self.header.vp_desc_start) {
            Ok(d) => Ok(Some(d)),
            Err(e) => Err(e),
        }
    }

    /// The bitmap's descriptor, if the frame has one.
    pub fn bitmap_desc(&self) -> (r: Result<Option<FramebufferDesc>, Error>)
        ensures
            match desc_model(self.raw@, self.header.bm_desc_start) {
                Ok(d) => r == Ok::<Option<FramebufferDesc>, Error>(d),
                Err(msg) => r matches Err(e) && e.is_codec(msg),
            },
    {
        if self.header.bm_desc_start == 0 {
            return Ok(None);
        }
        match FramebufferDesc::parse_at(self.raw.as_slice(), self.header.bm_desc_start) {
            Ok(d) => Ok(Some(d)),
            Err(e) => Err(e),
        }
    }

    /// Decodes the viewport to packed RGB888: `(width, height, bytes)` with the bytes
    /// `R, G, B` per pixel, row by row, no padding.
    ///
    /// The viewport format is Y411 (UYVYYY, 12 bits per pixel: `U Y0 V Y1 Y2 Y3`
    /// per four pixels sharing one chroma pair), converted with BT.601 with U and V
    /// signed, as CHDK's `liveimg.c` does. A width that is not a multiple of four
    /// leaves the last group partly visible; its visible pixels are decoded with the
    /// group's chroma pair. A last row whose groups run past the buffer is an error.
    pub fn decode_viewport_rgb(&self) -> (r: Result<(u32, u32, Vec<u8>), Error>)
        ensures
            match viewport_rgb_model(self.header, self.raw@) {
                Ok((w, h, rgb)) => r matches Ok(t) && t.0 == w && t.1 == h && t.2@ == rgb,
                Err(msg) => r matches Err(e) && e.is_codec(msg),
            },
    {
        let desc = match self.viewport_desc() {
            Ok(Some(d)) => d,
            Ok(None) => {
                return Err(Error::Codec(String::from_str("viewport not present in response")));
            },
            Err(e) => return Err(e),
        };
        let width = desc.visible_width as u64;
        let height = desc.visible_height as u64;
        let row_bytes = (desc.buffer_width as u64) * 3 / 2;
        let start = desc.data_start as u64;
        assert(row_bytes * height <= 0x2_0000_0000u128 * 0x1_0000_0000u128) by (nonlinear_arith)
            requires
                row_bytes <= 0x2_0000_0000u64,
                height <= 0x1_0000_0000u64,
        ;
        let total = (start as u128) + (row_bytes as u128) * (height as u128);
        let len = self.raw.len();
        if (len as u128) < total {
            let mut m = String::from_str("viewport plane truncated: need ");
            push_decimal(&mut m, total);
            m.append(" bytes, have ");
            push_decimal(&mut m, len as u128);
            return Err(Error::Codec(m));
        }
        if desc.fb_type != LV_FB_YUV8 {
            let mut m = String::from_str("viewport fb_type ");
            push_decimal(&mut m, desc.fb_type as u128);
            m.append(" — only LV_FB_YUV8 (Y411) decoded today");
            return Err(Error::Codec(m));
        }
        let line_len = 6 * ((width + 3) / 4);
        if height > 0 {
            assert((height - 1) * row_bytes <= row_bytes * height) by (nonlinear_arith)
                requires
                    height > 0,
            ;
            let end = (start as u128) + ((height - 1) as u128) * (row_bytes as u128)
                + (line_len as u128);
            if end > len as u128 {
                let mut m = String::from_str("viewport rows overrun buffer: need ");
                push_decimal(&mut m, end);
                m.append(" bytes, have ");
                push_decimal(&mut m, len as u128);
                return Err(Error::Codec(m));
            }
        }
        let raw = self.raw.as_slice();
        let mut rgb: Vec<u8> = Vec::new();
        let mut row: u64 = 0;
        let mut row_start: u128 = start as u128;
        while row < height
            invariant
                row <= height,
                height == desc.visible_height,
                width == desc.visible_width,
                row_bytes == y411_row_bytes(desc),
                start == desc.data_start,
                line_len == y411_line_len(width as nat),
                len == raw@.len(),
                raw@ == self.raw@,
                row_start == start + row * row_bytes,
                height == 0 || start + (height - 1) * row_bytes + line_len <= len,
                rgb@ == frame_rgb_model(raw@, start as int, row_bytes as int, width as nat, row as nat),
            decreases height - row,
        {
            assert(row * row_bytes <= (height - 1) * row_bytes) by (nonlinear_arith)
                requires
                    row < height,
            ;
            let line = vstd::slice::slice_subrange(
                raw,
                row_start as usize,
                (row_start + line_len as u128) as usize,
            );
            decode_y411_row(line, width as usize, &mut rgb);
            row_start = row_start + row_bytes as u128;
            row = row + 1;
            assert(row_start == start + row * row_bytes) by (nonlinear_arith)
                requires
                    row_start == start + (row - 1) * row_bytes + row_bytes,
            ;
        }
        Ok((desc.visible_width, desc.visible_height, rgb))
    }
}

/// Each decoded pixel gives three bytes.
pub proof fn lemma_y411_row_len(line: Seq<u8>, n: nat)
    ensures
        y411_row_model(line, n).len() == 3 * n,
    decreases n,
{
    if n > 0 {
        lemma_y411_row_len(line, (n - 1) as nat);
    }
}

/// Every row of a frame gives three bytes per visible pixel.
pub proof fn lemma_frame_rgb_len(raw: Seq<u8>, start: int, row_bytes: int, width: nat, rows: nat)
    ensures
        frame_rgb_model(raw, start, row_bytes, width, rows).len() == rows * (3 * width),
    decreases rows,
{
    if rows > 0 {
        let row_start = start + (rows - 1) * row_bytes;
        lemma_frame_rgb_len(raw, start, row_bytes, width, (rows - 1) as nat);
        lemma_y411_row_len(raw.subrange(row_start, row_start + y411_line_len(width)), width);
        let g = 3 * width;
        assert(rows * g == (rows - 1) * g + g) by (nonlinear_arith)
            requires
                rows > 0,
        ;
    } else {
        assert(rows * (3 * width) == 0) by (nonlinear_arith)
            requires
                rows == 0,
        ;
    }
}

/// A decoded viewport is packed RGB888 with no padding: three bytes for each of its
/// `width` times `height` pixels, whatever the width.
pub proof fn lemma_viewport_rgb_len(header: LvDataHeader, raw: Seq<u8>)
    ensures
        viewport_rgb_model(header, raw) matches Ok((w, h, rgb)) ==> rgb.len() == 3 * w * h,
{
    if let Ok((w, h, rgb)) = viewport_rgb_model(header, raw) {
        let d = desc_model(raw, header.vp_desc_start)->Ok_0->Some_0;
        lemma_frame_rgb_len(raw, d.data_start as int, y411_row_bytes(d), w as nat, h as nat);
        assert(h * (3 * w) == 3 * w * h) by (nonlinear_arith);
    }
}

/// The header's fields are the eight little-endian `u32`s at offsets 0, 4, .., 28 of
/// the buffer, in CHDK's `lv_data_header` order: version major and minor, LCD
/// aspect ratio, palette type, palette offset, viewport descriptor offset, bitmap
/// descriptor offset (24), bitmap opacity descriptor offset (28).
pub proof fn lemma_lv_header_offsets(buf: Seq<u8>)
    requires
        buf.len() >= 32,
    ensures
        lv_header_model(buf) matches Ok(h)
            && h.version_major == u32_le_at(buf, 0)
            && h.version_minor == u32_le_at(buf, 4)
            && h.lcd_aspect_ratio == u32_le_at(buf, 8)
            && h.palette_type == u32_le_at(buf, 12)
            && h.palette_data_start == u32_le_at(buf, 16)
            && h.vp_desc_start == u32_le_at(buf, 20)
            && h.bm_desc_start == u32_le_at(buf, 24)
            && h.bm_opacity_desc_start == u32_le_at(buf, 28),
{
}

/// A header written as its eight fields in `lv_data_header` order, each a
/// little-endian `u32`, reads back as the same header, whatever follows.
pub proof fn lemma_lv_header_roundtrip(h: LvDataHeader, rest: Seq<u8>)
    ensures
        lv_header_model(u32s_le_bytes(seq![h.version_major, h.version_minor, h.lcd_aspect_ratio, h.palette_type, h.palette_data_start, h.vp_desc_start, h.bm_desc_start, h.bm_opacity_desc_start]) + rest) == Ok::<LvDataHeader, Seq<char>>(h),
{
    let ws = seq![h.version_major, h.version_minor, h.lcd_aspect_ratio, h.palette_type, h.palette_data_start, h.vp_desc_start, h.bm_desc_start, h.bm_opacity_desc_start];
    let b = u32s_le_bytes(ws) + rest;
    lemma_u32s_le_bytes_len(ws);
    lemma_u32s_le_roundtrip(ws, rest);
    assert(ws + u32_seq(rest, rest.len() / 4) == u32_seq(b, 8 + rest.len() / 4));
    assert(u32_le_at(b, 0) == u32_le_at(b, 0int));
    assert(u32_seq(b, 8 + rest.len() / 4)[0] == ws[0]);
    assert(u32_le_at(b, 4) == u32_le_at(b, 4int));
    assert(u32_seq(b, 8 + rest.len() / 4)[1] == ws[1]);
    assert(u32_le_at(b, 8) == u32_le_at(b, 8int));
    assert(u32_seq(b, 8 + rest.len() / 4)[2] == ws[2]);
    assert(u32_le_at(b, 12) == u32_le_at(b, 12int));
    assert(u32_seq(b, 8 + rest.len() / 4)[3] == ws[3]);
    assert(u32_le_at(b, 16) == u32_le_at(b, 16int));
    assert(u32_seq(b, 8 + rest.len() / 4)[4] == ws[4]);
    assert(u32_le_at(b, 20) == u32_le_at(b, 20int));
    assert(u32_seq(b, 8 + rest.len() / 4)[5] == ws[5]);
    assert(u32_le_at(b, 24) == u32_le_at(b, 24int));
    assert(u32_seq(b, 8 + rest.len() / 4)[6] == ws[6]);
    assert(u32_le_at(b, 28) == u32_le_at(b, 28int));
    assert(u32_seq(b, 8 + rest.len() / 4)[7] == ws[7]);
}

/// A descriptor's fields are the nine little-endian `u32`s from its offset on, in
/// CHDK's `lv_framebuffer_desc` order.
pub proof fn lemma_fb_desc_offsets(buf: Seq<u8>, offset: u32)
    requires
        buf.len() >= offset + 36,
    ensures
        fb_desc_model(buf, offset) matches Ok(d)
            && d.fb_type == u32_le_at(buf, offset + 0)
            && d.data_start == u32_le_at(buf, offset + 4)
            && d.buffer_width == u32_le_at(buf, offset + 8)
            && d.visible_width == u32_le_at(buf, offset + 12)
            && d.visible_height == u32_le_at(buf, offset + 16)
            && d.margin_top == u32_le_at(buf, offset + 20)
            && d.margin_left == u32_le_at(buf, offset + 24)
            && d.margin_bot == u32_le_at(buf, offset + 28)
            && d.margin_right == u32_le_at(buf, offset + 32),
{
}

/// A descriptor written as its nine fields in `lv_framebuffer_desc` order, each a
/// little-endian `u32`, after any `pre` bytes, reads back from offset `pre.len()` as
/// the same descriptor, whatever follows.
pub proof fn lemma_fb_desc_roundtrip(pre: Seq<u8>, d: FramebufferDesc, rest: Seq<u8>)
    requires
        pre.len() <= u32::MAX,
    ensures
        fb_desc_model(pre + u32s_le_bytes(seq![d.fb_type, d.data_start, d.buffer_width, d.visible_width, d.visible_height, d.margin_top, d.margin_left, d.margin_bot, d.margin_right]) + rest, pre.len() as u32) == Ok::<
            FramebufferDesc,
            Seq<char>,
        >(d),
{
    let ws = seq![d.fb_type, d.data_start, d.buffer_width, d.visible_width, d.visible_height, d.margin_top, d.margin_left, d.margin_bot, d.margin_right];
    let x = u32s_le_bytes(ws) + rest;
    let b = pre + x;
    let off = pre.len() as int;
    lemma_u32s_le_bytes_len(ws);
    lemma_u32s_le_roundtrip(ws, rest);
    assert(b =~= pre + u32s_le_bytes(ws) + rest);
    assert(ws + u32_seq(rest, rest.len() / 4) == u32_seq(x, 9 + rest.len() / 4));
    assert(u32_le_at(b, off + 0) == u32_le_at(x, 0int));
    assert(u32_seq(x, 9 + rest.len() / 4)[0] == ws[0]);
    assert(u32_le_at(b, off + 4) == u32_le_at(x, 4int));
    assert(u32_seq(x, 9 + rest.len() / 4)[1] == ws[1]);
    assert(u32_le_at(b, off + 8) == u32_le_at(x, 8int));
    assert(u32_seq(x, 9 + rest.len() / 4)[2] == ws[2]);
    assert(u32_le_at(b, off + 12) == u32_le_at(x, 12int));
    assert(u32_seq(x, 9 + rest.len() / 4)[3] == ws[3]);
    assert(u32_le_at(b, off + 16) == u32_le_at(x, 16int));
    assert(u32_seq(x, 9 + rest.len() / 4)[4] == ws[4]);
    assert(u32_le_at(b, off + 20) == u32_le_at(x, 20int));
    assert(u32_seq(x, 9 + rest.len() / 4)[5] == ws[5]);
    assert(u32_le_at(b, off + 24) == u32_le_at(x, 24int));
    assert(u32_seq(x, 9 + rest.len() / 4)[6] == ws[6]);
    assert(u32_le_at(b, off + 28) == u32_le_at(x, 28int));
    assert(u32_seq(x, 9 + rest.len() / 4)[7] == ws[7]);
    assert(u32_le_at(b, off + 32) == u32_le_at(x, 32int));
    assert(u32_seq(x, 9 + rest.len() / 4)[8] == ws[8]);
}

/// Gray stays gray: with no chroma each channel equals the luma, and red ignores U
/// while blue ignores V (BT.601).
pub proof fn lemma_yuv_gray_and_channels(y: int, u: int, v: int, u2: int, v2: int)
    requires
        0 <= y <= 255,
    ensures
        yuv_to_rgb_model(y, 0, 0) == seq![y as u8, y as u8, y as u8],
        yuv_to_rgb_model(y, u, v)[0] == yuv_to_rgb_model(y, u2, v)[0],
        yuv_to_rgb_model(y, u, v)[2] == yuv_to_rgb_model(y, u, v2)[2],
{
    assert((4096 * y + 2048) / 4096 == y) by (nonlinear_arith)
        requires
            0 <= y,
    ;
    assert(yuv_to_rgb_model(y, 0, 0) =~= seq![y as u8, y as u8, y as u8]);
}

/// In a Y411 row each group of six bytes is `U Y0 V Y1 Y2 Y3` for four pixels:
/// pixel `4k + j` takes its luma from byte `6k + 1`, `6k + 3`, `6k + 4` or `6k + 5`
/// and the signed chroma pair from bytes `6k` and `6k + 2`.
pub proof fn lemma_y411_group_layout(line: Seq<u8>, k: int)
    requires
        0 <= k,
        6 * k + 6 <= line.len(),
    ensures
        ({
            let u = if line[6 * k] >= 128 {
                line[6 * k] - 256
            } else {
                line[6 * k] as int
            };
            let v = if line[6 * k + 2] >= 128 {
                line[6 * k + 2] - 256
            } else {
                line[6 * k + 2] as int
            };
            &&& y411_pixel_rgb(line, 4 * k) == yuv_to_rgb_model(line[6 * k + 1] as int, u, v)
            &&& y411_pixel_rgb(line, 4 * k + 1) == yuv_to_rgb_model(line[6 * k + 3] as int, u, v)
            &&& y411_pixel_rgb(line, 4 * k + 2) == yuv_to_rgb_model(line[6 * k + 4] as int, u, v)
            &&& y411_pixel_rgb(line, 4 * k + 3) == yuv_to_rgb_model(line[6 * k + 5] as int, u, v)
        }),
{
    assert((4 * k) / 4 == k && (4 * k) % 4 == 0);
    assert((4 * k + 1) / 4 == k && (4 * k + 1) % 4 == 1);
    assert((4 * k + 2) / 4 == k && (4 * k + 2) % 4 == 2);
    assert((4 * k + 3) / 4 == k && (4 * k + 3) % 4 == 3);
}

/// A decoded row holds its pixels in order, three bytes each: bytes `3i .. 3i + 3`
/// are pixel `i`.
pub proof fn lemma_y411_row_order(line: Seq<u8>, n: nat, i: int)
    requires
        0 <= i < n,
    ensures
        y411_row_model(line, n).subrange(3 * i, 3 * i + 3) == y411_pixel_rgb(line, i),
    decreases n,
{
    lemma_y411_row_len(line, (n - 1) as nat);
    let prev = y411_row_model(line, (n - 1) as nat);
    if i < n - 1 {
        lemma_y411_row_order(line, (n - 1) as nat, i);
        assert(y411_row_model(line, n).subrange(3 * i, 3 * i + 3) =~= prev.subrange(3 * i, 3 * i + 3));
    } else {
        assert(y411_row_model(line, n).subrange(3 * i, 3 * i + 3) =~= y411_pixel_rgb(line, i));
    }
}

/// Row `r` of a decoded frame is the bytes `3 * width * r .. 3 * width * (r + 1)`,
/// decoded from the line that starts `r` strides after the plane's start.
pub proof fn lemma_frame_rows(raw: Seq<u8>, start: int, row_bytes: int, width: nat, rows: nat, r: int)
    requires
        0 <= r < rows,
    ensures
        frame_rgb_model(raw, start, row_bytes, width, rows).subrange(
            3 * width * r,
            3 * width * (r + 1),
        ) == y411_row_model(
            raw.subrange(start + r * row_bytes, start + r * row_bytes + y411_line_len(width)),
            width,
        ),
    decreases rows,
{
    let prev = frame_rgb_model(raw, start, row_bytes, width, (rows - 1) as nat);
    lemma_frame_rgb_len(raw, start, row_bytes, width, (rows - 1) as nat);
    let rs = start + (rows - 1) * row_bytes;
    let last = y411_row_model(raw.subrange(rs, rs + y411_line_len(width)), width);
    lemma_y411_row_len(raw.subrange(rs, rs + y411_line_len(width)), width);
    let w3 = 3 * width;
    assert(prev.len() == (rows - 1) * w3);
    assert(w3 * r + w3 == w3 * (r + 1)) by (nonlinear_arith);
    if r < rows - 1 {
        lemma_frame_rows(raw, start, row_bytes, width, (rows - 1) as nat, r);
        assert(w3 * (r + 1) <= (rows - 1) * w3) by (nonlinear_arith)
            requires
                r + 1 <= rows - 1,
                w3 >= 0,
        ;
        assert(frame_rgb_model(raw, start, row_bytes, width, rows).subrange(w3 * r, w3 * (r + 1))
            =~= prev.subrange(w3 * r, w3 * (r + 1)));
    } else {
        assert(w3 * r == (rows - 1) * w3) by (nonlinear_arith)
            requires
                r == rows - 1,
        ;
        assert(frame_rgb_model(raw, start, row_bytes, width, rows).subrange(w3 * r, w3 * (r + 1))
            =~= last);
    }
}

/// Row `r` of a decoded viewport comes from the viewport descriptor's Y411 plane:
/// it starts at the descriptor's `data_start` plus `r` strides of
/// `buffer_width * 3 / 2` bytes, and only framebuffer type 0 (Y411) decodes.
pub proof fn lemma_viewport_rows(header: LvDataHeader, raw: Seq<u8>, r: int)
    ensures
        viewport_rgb_model(header, raw) matches Ok((w, h, rgb)) ==> {
            let d = fb_desc_model(raw, header.vp_desc_start)->Ok_0;
            let rs = d.data_start + r * (d.buffer_width * 3 / 2);
            &&& header.vp_desc_start != 0
            &&& d.fb_type == 0
            &&& w == d.visible_width && h == d.visible_height
            &&& 0 <= r < h ==> rgb.subrange(3 * w * r, 3 * w * (r + 1)) == y411_row_model(
                raw.subrange(rs, rs + 6 * ((w + 3) / 4)),
                w as nat,
            )
        },
{
    if let Ok((w, h, rgb)) = viewport_rgb_model(header, raw) {
        let d = fb_desc_model(raw, header.vp_desc_start)->Ok_0;
        if 0 <= r < h {
            lemma_frame_rows(raw, d.data_start as int, y411_row_bytes(d), w as nat, h as nat, r);
        }
    }
}

} // verus!
