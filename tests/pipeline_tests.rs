use ledwall::chunker::{ChunkError, ChunkLayout, ChunkTable, Segment};
use ledwall::color::yuv422_to_rgb24;
use ledwall::frame::{encode_row_frame, ROW_HEADER_LEN};
use ledwall::geometry::{transform_frame, ResizeAlgorithm};
use ledwall::pipeline::{encode_panel_rows, PipelineError};

fn single_chunk_table(width: usize) -> ChunkTable {
    ChunkTable { chunks: vec![ChunkLayout { segments: vec![Segment::Live { offset: 0, len: width }] }], max_pixels: width }
}

#[test]
fn rows_are_framed_in_order() {
    let panel: Vec<u8> = (0..2 * 3 * 3).map(|i| i as u8).collect();
    let table = ChunkTable {
        chunks: vec![
            ChunkLayout { segments: vec![Segment::Blank(1), Segment::Live { offset: 0, len: 1 }] },
            ChunkLayout { segments: vec![Segment::Live { offset: 1, len: 2 }] },
        ],
        max_pixels: 2,
    };
    let rows = encode_panel_rows(&table, &panel, 3, 2).unwrap();
    assert_eq!(rows.len(), 2);
    assert_eq!(rows[1][0], encode_row_frame(1, 0, 2, &[0, 0, 0, 9, 10, 11]).unwrap());
    assert_eq!(rows[1][1], encode_row_frame(1, 2, 2, &panel[12..18]).unwrap());
    assert_eq!(rows[0][1], encode_row_frame(0, 2, 2, &panel[3..9]).unwrap());
}

#[test]
fn panel_errors() {
    let table = single_chunk_table(4);
    assert_eq!(encode_panel_rows(&table, &[0u8; 10], 4, 1), Err(PipelineError::PanelSize));
    assert_eq!(encode_panel_rows(&table, &[0u8; 9], 3, 1), Err(PipelineError::Chunk(ChunkError::LiveRunOutsideRow)));
    assert_eq!(encode_panel_rows(&table, &[], 0, 70000), Err(PipelineError::TooManyRows));
    assert_eq!(encode_panel_rows(&table, &[], 3, 0), Ok(vec![]));
}

#[test]
fn diagonal_line_end_to_end() {
    let (w, h) = (640usize, 480usize);
    let mut yuyv = Vec::with_capacity(w * h * 2);
    for y in 0..h {
        for x in (0..w).step_by(2) {
            let luma = |x: usize| if x >= y && x < y + 4 { 255u8 } else { 16u8 };
            yuyv.extend_from_slice(&[luma(x), 128, luma(x + 1), 128]);
        }
    }
    let mut rgb = vec![0u8; yuyv.len() * 3 / 2];
    yuv422_to_rgb24(&yuyv, &mut rgb);
    let panel = transform_frame(rgb, 640, 480, 128, 128, 640, 480, ResizeAlgorithm::Nearest, false).unwrap();
    let rows = encode_panel_rows(&single_chunk_table(128), &panel, 128, 128).unwrap();
    assert_eq!(rows.len(), 128);
    let mut lit_rows = 0;
    for (r, frames) in rows.iter().enumerate() {
        assert_eq!(frames.len(), 1);
        let f = &frames[0];
        assert_eq!(f.len(), 128 * 3 + ROW_HEADER_LEN);
        let src_y = (1.875f64 + 3.75 * r as f64) as usize;
        for x in 0..128 {
            let src_x = (81.875f64 + 3.75 * x as f64) as usize;
            let v = if src_x >= src_y && src_x < src_y + 4 { 239 } else { 0 };
            let i = ROW_HEADER_LEN + 3 * x;
            assert_eq!(&f[i..i + 3], &[v, v, v], "row {} column {}", r, x);
            if v != 0 {
                lit_rows += 1;
            }
        }
    }
    assert!(lit_rows >= 100);
}
