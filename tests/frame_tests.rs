use ledwall::frame::{
    encode_bright_frame, encode_disp_frame, encode_recv_frame, encode_row_frame, FrameError,
    ROW_HEADER_LEN,
};

const HEADER: [u8; 12] = [0x11, 0x22, 0x33, 0x44, 0x55, 0x66, 0x22, 0x22, 0x33, 0x44, 0x55, 0x66];

#[test]
fn discovery_frame_layout() {
    let f = encode_recv_frame();
    assert_eq!(f.len(), 12 + 2 + 270);
    assert_eq!(&f[..12], &HEADER);
    assert_eq!(&f[12..14], &[0x07, 0x00]);
    assert!(f[14..].iter().all(|&b| b == 0));
}

#[test]
fn brightness_frame_layout() {
    let f = encode_bright_frame(0x42);
    assert_eq!(f.len(), 12 + 5 + 60);
    assert_eq!(&f[..12], &HEADER);
    assert_eq!(&f[12..17], &[0x0A, 0x42, 0x42, 0x42, 0xFF]);
    assert!(f[17..].iter().all(|&b| b == 0));
}

#[test]
fn brightness_encoding_is_idempotent() {
    assert_eq!(encode_bright_frame(0xff), encode_bright_frame(0xff));
    assert_eq!(encode_bright_frame(0), encode_bright_frame(0));
    assert_ne!(encode_bright_frame(1), encode_bright_frame(2));
}

#[test]
fn display_commit_frame_layout() {
    let f = encode_disp_frame(0x80);
    assert_eq!(f.len(), 12 + 2 + 21 + 6 + 71);
    assert_eq!(&f[..12], &HEADER);
    assert_eq!(&f[12..14], &[0x01, 0x07]);
    assert!(f[14..35].iter().all(|&b| b == 0));
    assert_eq!(&f[35..41], &[0x80, 0x05, 0x00, 0x80, 0x80, 0x80]);
    assert!(f[41..].iter().all(|&b| b == 0));
}

#[test]
fn row_frame_layout() {
    let payload = [1u8, 2, 3, 4, 5, 6];
    let f = encode_row_frame(0x0123, 0x01F1, 2, &payload).unwrap();
    assert_eq!(f.len(), ROW_HEADER_LEN + 6);
    assert_eq!(&f[..12], &HEADER);
    assert_eq!(&f[12..21], &[0x55, 0x01, 0x23, 0x01, 0xF1, 0x00, 0x02, 0x08, 0x88]);
    assert_eq!(&f[21..], &payload);
}

#[test]
fn row_frame_low_rows_use_tag_5500() {
    let f = encode_row_frame(7, 0, 0, &[]).unwrap();
    assert_eq!(&f[12..21], &[0x55, 0x00, 0x07, 0x00, 0x00, 0x00, 0x00, 0x08, 0x88]);
}

#[test]
fn row_frame_rejects_mismatched_payload() {
    assert_eq!(encode_row_frame(0, 0, 2, &[0u8; 5]), Err(FrameError::PayloadLength));
    assert_eq!(encode_row_frame(0, 0, 1, &[0u8; 6]), Err(FrameError::PayloadLength));
}
