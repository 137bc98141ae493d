use ledwall::color::{clamp, convert_chunk, ycbcr_to_rgb, yuv422_to_rgb24};

#[test]
fn gray_input_gives_luma_minus_offset() {
    let input = vec![128u8; 64];
    let mut out = vec![0u8; 96];
    yuv422_to_rgb24(&input, &mut out);
    assert_eq!(out.len(), input.len() * 3 / 2);
    assert!(out.iter().all(|&b| b == 112));
}

#[test]
fn output_is_blue_green_red() {
    let input = [81u8, 90, 81, 240];
    let mut out = [0u8; 6];
    yuv422_to_rgb24(&input, &mut out);
    assert_eq!(out, [0, 20, 241, 0, 20, 241]);
}

#[test]
fn two_lumas_share_chroma() {
    let input = [16u8, 128, 235, 128];
    let mut out = [9u8; 6];
    yuv422_to_rgb24(&input, &mut out);
    assert_eq!(out, [0, 0, 0, 219, 219, 219]);
}

#[test]
fn convert_chunk_matches_whole_buffer() {
    let input = [200u8, 30, 60, 220];
    let mut a = [0u8; 6];
    let mut b = [0u8; 6];
    convert_chunk(&input, &mut a);
    yuv422_to_rgb24(&input, &mut b);
    assert_eq!(a, b);
}

#[test]
fn black_and_clamped_extremes() {
    assert_eq!(ycbcr_to_rgb(16, 128, 128), (0, 0, 0));
    assert_eq!(ycbcr_to_rgb(255, 255, 255), (255, 156, 255));
    assert_eq!(ycbcr_to_rgb(0, 0, 0), (0, 68, 0));
}

#[test]
fn clamp_rounds_half_up_and_bounds() {
    assert_eq!(clamp(-1), 0);
    assert_eq!(clamp(0), 0);
    assert_eq!(clamp(499_999), 0);
    assert_eq!(clamp(500_000), 1);
    assert_eq!(clamp(254_500_000), 255);
    assert_eq!(clamp(255_000_000), 255);
    assert_eq!(clamp(255_000_001), 255);
    assert_eq!(clamp(i64::MAX), 255);
}

#[test]
fn empty_buffer_converts_to_empty() {
    let input: [u8; 0] = [];
    let mut out: [u8; 0] = [];
    yuv422_to_rgb24(&input, &mut out);
    assert!(out.is_empty());
}
