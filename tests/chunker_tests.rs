use ledwall::chunker::{chunk_row, ChunkError, ChunkLayout, ChunkTable, Segment};

fn live(offset: usize, len: usize) -> Segment {
    Segment::Live { offset, len }
}

/// Two 256-pixel splits showing 128 and 192 pixels behind 128 and 64 blank
/// ones, sent as three chunks under a 1500-byte MTU.
fn cabinet_table() -> ChunkTable {
    ChunkTable {
        chunks: vec![
            ChunkLayout { segments: vec![Segment::Blank(128), live(0, 128), Segment::Blank(64), live(128, 177)] },
            ChunkLayout {
                segments: vec![live(305, 15), Segment::Blank(128), live(320, 128), Segment::Blank(64), live(448, 162)],
            },
            ChunkLayout { segments: vec![live(610, 30)] },
        ],
        max_pixels: 497,
    }
}

fn sample_line(pixels: usize) -> Vec<u8> {
    (0..pixels * 3).map(|i| (i % 251) as u8 + 1).collect()
}

/// Reads back the live pixels of one chunk payload.
fn replay(layout: &ChunkLayout, payload: &[u8]) -> Vec<u8> {
    let mut out = Vec::new();
    let mut pos = 0;
    for s in &layout.segments {
        match *s {
            Segment::Blank(n) => pos += 3 * n,
            Segment::Live { len, .. } => {
                out.extend_from_slice(&payload[pos..pos + 3 * len]);
                pos += 3 * len;
            }
        }
    }
    out
}

#[test]
fn cabinet_row_is_split_in_three() {
    let table = cabinet_table();
    let line = sample_line(640);
    let chunks = chunk_row(&table, 9, &line).unwrap();
    assert_eq!(chunks.len(), 3);
    assert_eq!(
        chunks.iter().map(|c| (c.row, c.pixel_offset, c.pixel_count)).collect::<Vec<_>>(),
        vec![(9, 0, 497), (9, 497, 497), (9, 994, 30)]
    );
    let first = &chunks[0].payload;
    assert_eq!(first.len(), 497 * 3);
    assert!(first[..384].iter().all(|&b| b == 0));
    assert_eq!(&first[384..768], &line[..384]);
    assert!(first[768..960].iter().all(|&b| b == 0));
    assert_eq!(&first[960..], &line[384..915]);
    assert_eq!(&chunks[2].payload[..], &line[1830..]);
}

#[test]
fn replaying_chunks_rebuilds_the_row() {
    let table = cabinet_table();
    let line = sample_line(640);
    let chunks = chunk_row(&table, 0, &line).unwrap();
    let mut rebuilt = Vec::new();
    for (layout, c) in table.chunks.iter().zip(&chunks) {
        assert!(c.pixel_count as usize <= table.max_pixels);
        assert_eq!(c.payload.len(), 3 * c.pixel_count as usize);
        rebuilt.extend(replay(layout, &c.payload));
    }
    assert_eq!(rebuilt, line);
    for w in chunks.windows(2) {
        assert_eq!(w[0].pixel_offset + w[0].pixel_count, w[1].pixel_offset);
    }
}

#[test]
fn live_run_past_the_row_is_rejected() {
    let table = cabinet_table();
    let line = sample_line(639);
    assert_eq!(chunk_row(&table, 0, &line).unwrap_err(), ChunkError::LiveRunOutsideRow);
}

#[test]
fn chunk_over_budget_is_rejected() {
    let mut table = cabinet_table();
    table.max_pixels = 496;
    assert_eq!(chunk_row(&table, 0, &sample_line(640)).unwrap_err(), ChunkError::ChunkOverBudget);
}

#[test]
fn row_too_long_is_rejected() {
    let table = ChunkTable {
        chunks: vec![
            ChunkLayout { segments: vec![Segment::Blank(40000)] },
            ChunkLayout { segments: vec![Segment::Blank(30000)] },
        ],
        max_pixels: 100000,
    };
    assert_eq!(chunk_row(&table, 0, &[]).unwrap_err(), ChunkError::RowTooLong);
}

#[test]
fn largest_row_fits() {
    let table = ChunkTable { chunks: vec![ChunkLayout { segments: vec![Segment::Blank(65535)] }], max_pixels: 65535 };
    let chunks = chunk_row(&table, 0, &[]).unwrap();
    assert_eq!(chunks[0].pixel_count, 65535);
    assert_eq!(chunks[0].payload.len(), 65535 * 3);
}

#[test]
fn empty_table_gives_no_chunks() {
    let table = ChunkTable { chunks: vec![], max_pixels: 0 };
    assert!(chunk_row(&table, 0, &sample_line(4)).unwrap().is_empty());
}
