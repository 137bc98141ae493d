//! Byte-exact encoders for the wire frames sent to the controller.
//!
//! Every frame starts with the link address pair: the receiver card's
//! hardware address followed by the sender's.

use vstd::prelude::*;

verus! {

/// Link address pair: receiver address then sender address.
pub open spec fn link_header() -> Seq<u8> {
    seq![
        0x11u8, 0x22u8, 0x33u8, 0x44u8, 0x55u8, 0x66u8,
        0x22u8, 0x22u8, 0x33u8, 0x44u8, 0x55u8, 0x66u8,
    ]
}

/// `n` zero bytes.
pub open spec fn zeros(n: nat) -> Seq<u8> {
    Seq::new(n, |i: int| 0u8)
}

/// The discovery frame: type tag `07 00` and 270 zero bytes.
pub open spec fn recv_frame_bytes() -> Seq<u8> {
    link_header() + seq![0x07u8, 0x00u8] + zeros(270)
}

/// The brightness frame: tag `0A`, the brightness three times, marker `FF`,
/// then 60 zero bytes.
pub open spec fn bright_frame_bytes(b: u8) -> Seq<u8> {
    link_header() + seq![0x0Au8, b, b, b, 0xFFu8] + zeros(60)
}

/// The display-commit frame: tag `01 07`, 21 zero bytes, the brightness
/// block `b 05 00 b b b`, then 71 zero bytes.
pub open spec fn disp_frame_bytes(b: u8) -> Seq<u8> {
    link_header() + seq![0x01u8, 0x07u8] + zeros(21) + seq![b, 0x05u8, 0x00u8, b, b, b] + zeros(
        71,
    )
}

/// Header of a row-data frame: tag `55` and the high byte of the row, the
/// low byte of the row, the pixel offset and pixel count big-endian, and the
/// markers `08 88`.
pub open spec fn row_header_bytes(row: u16, offset: u16, count: u16) -> Seq<u8> {
    link_header() + seq![
        0x55u8,
        (row / 256) as u8,
        (row % 256) as u8,
        (offset / 256) as u8,
        (offset % 256) as u8,
        (count / 256) as u8,
        (count % 256) as u8,
        0x08u8,
        0x88u8,
    ]
}

/// A whole row-data frame carrying `payload`.
pub open spec fn row_frame_bytes(row: u16, offset: u16, count: u16, payload: Seq<u8>) -> Seq<u8> {
    row_header_bytes(row, offset, count) + payload
}

/// Number of bytes in front of the pixel payload of a row-data frame.
pub const ROW_HEADER_LEN: usize = 21;

/// Encoding a brightness value is deterministic, and distinct values give
/// distinct frames.
pub proof fn lemma_bright_frame_idempotent(a: u8, b: u8)
    ensures
        (bright_frame_bytes(a) == bright_frame_bytes(b)) <==> (a == b),
{
    if bright_frame_bytes(a) == bright_frame_bytes(b) {
        assert(bright_frame_bytes(a)[13] == a);
        assert(bright_frame_bytes(b)[13] == b);
    }
}

fn push_header(frame: &mut Vec<u8>)
    ensures
        final(frame)@ == old(frame)@ + link_header(),
{
    frame.push(0x11);
    frame.push(0x22);
    frame.push(0x33);
    frame.push(0x44);
    frame.push(0x55);
    frame.push(0x66);
    frame.push(0x22);
    frame.push(0x22);
    frame.push(0x33);
    frame.push(0x44);
    frame.push(0x55);
    frame.push(0x66);
    assert(frame@ =~= old(frame)@ + link_header());
}

fn push_zeros(frame: &mut Vec<u8>, n: usize)
    ensures
        final(frame)@ == old(frame)@ + zeros(n as nat),
{
    let ghost start = frame@;
    let mut i: usize = 0;
    while i < n
        invariant
            i <= n,
            frame@ =~= start + zeros(i as nat),
        decreases n - i,
    {
        frame.push(0);
        i = i + 1;
        assert(frame@ =~= start + zeros(i as nat));
    }
}

fn push_slice(frame: &mut Vec<u8>, data: &[u8])
    ensures
        final(frame)@ == old(frame)@ + data@,
{
    let ghost start = frame@;
    let mut i: usize = 0;
    while i < data.len()
        invariant
            i <= data@.len(),
            frame@ =~= start + data@.subrange(0, i as int),
        decreases data@.len() - i,
    {
        frame.push(data[i]);
        i = i + 1;
        assert(frame@ =~= start + data@.subrange(0, i as int));
    }
    assert(data@.subrange(0, data@.len() as int) =~= data@);
}

/// Builds the discovery frame broadcast to find the controller.
pub fn encode_recv_frame() -> (r: Vec<u8>)
    ensures
        r@ == recv_frame_bytes(),
{
    let mut frame: Vec<u8> = Vec::new();
    push_header(&mut frame);
    frame.push(0x07);
    frame.push(0x00);
    push_zeros(&mut frame, 270);
    assert(frame@ =~= recv_frame_bytes());
    frame
}

/// Builds the brightness frame for the intensity `brightness`.
pub fn encode_bright_frame(brightness: u8) -> (r: Vec<u8>)
    ensures
        r@ == bright_frame_bytes(brightness),
{
    let mut frame: Vec<u8> = Vec::new();
    push_header(&mut frame);
    frame.push(0x0A);
    frame.push(brightness);
    frame.push(brightness);
    frame.push(brightness);
    frame.push(0xFF);
    push_zeros(&mut frame, 60);
    assert(frame@ =~= bright_frame_bytes(brightness));
    frame
}

/// Builds the display-commit frame, which makes the controller show the rows
/// sent so far, at the intensity `brightness`.
pub fn encode_disp_frame(brightness: u8) -> (r: Vec<u8>)
    ensures
        r@ == disp_frame_bytes(brightness),
{
    let mut frame: Vec<u8> = Vec::new();
    push_header(&mut frame);
    frame.push(0x01);
    frame.push(0x07);
    push_zeros(&mut frame, 21);
    frame.push(brightness);
    frame.push(0x05);
    frame.push(0x00);
    frame.push(brightness);
    frame.push(brightness);
    frame.push(brightness);
    push_zeros(&mut frame, 71);
    assert(frame@ =~= disp_frame_bytes(brightness));
    frame
}

/// Why a row-data frame could not be encoded.
#[derive(Clone, Copy, Debug, PartialEq, Eq, Structural)]
pub enum FrameError {
    /// The payload is not three bytes per announced pixel.
    PayloadLength,
}

/// Builds a row-data frame for `count` pixels of row `row`, starting at pixel
/// `offset` of that row as the controller counts them. Fails unless the
/// payload holds exactly three bytes per pixel.
pub fn encode_row_frame(row: u16, offset: u16, count: u16, payload: &[u8]) -> (r: Result<
    Vec<u8>,
    FrameError,
>)
    ensures
        payload@.len() == 3 * count ==> r is Ok && r->Ok_0@ == row_frame_bytes(
            row,
            offset,
            count,
            payload@,
        ),
        payload@.len() != 3 * count ==> r == Err::<Vec<u8>, FrameError>(FrameError::PayloadLength),
{
    if payload.len() != 3 * (count as usize) {
        return Err(FrameError::PayloadLength);
    }
    let mut frame: Vec<u8> = Vec::new();
    push_header(&mut frame);
    frame.push(0x55);
    frame.push((row / 256) as u8);
    frame.push((row % 256) as u8);
    frame.push((offset / 256) as u8);
    frame.push((offset % 256) as u8);
    frame.push((count / 256) as u8);
    frame.push((count % 256) as u8);
    frame.push(0x08);
    frame.push(0x88);
    assert(frame@ =~= row_header_bytes(row, offset, count));
    push_slice(&mut frame, payload);
    Ok(frame)
}

} // verus!
