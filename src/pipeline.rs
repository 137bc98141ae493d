//! The row stream of one display cycle: every row of the panel image cut
//! into chunks and framed, in row order.

use crate::chunker::{
    chunk_row, chunks_of_row, layout_bytes, layout_in_row, layout_pixels, lemma_layout_bytes_len, table_fits,
    table_in_row, table_pixels, ChunkError, ChunkTable, MAX_ROW_PIXELS,
};
use crate::frame::{encode_row_frame, row_frame_bytes};
use vstd::prelude::*;
use vstd::slice::slice_subrange;

verus! {

/// Why a panel image could not be turned into row frames.
#[derive(Clone, Copy, Debug, PartialEq, Eq, Structural)]
pub enum PipelineError {
    /// The image is not three bytes per pixel of the panel size.
    PanelSize,
    /// The panel has more rows than a 16-bit row index addresses.
    TooManyRows,
    /// The chunk table does not fit the rows.
    Chunk(ChunkError),
}

/// Most rows that a row-data frame addresses.
pub const MAX_ROWS: usize = 65536;

/// Row `row` of a panel image `width` pixels wide.
pub open spec fn panel_line(panel: Seq<u8>, width: nat, row: int) -> Seq<u8> {
    panel.subrange(3 * width * row, 3 * width * (row + 1))
}

/// The frame that carries chunk `c` of `line`, row `row`.
pub open spec fn chunk_frame(table: ChunkTable, line: Seq<u8>, row: int, c: int) -> Seq<u8> {
    let segs = table.chunks@[c].segments@;
    row_frame_bytes(
        row as u16,
        table_pixels(table.chunks@.subrange(0, c)) as u16,
        layout_pixels(segs) as u16,
        layout_bytes(segs, line),
    )
}

/// The error that chunking a row of `line_len` bytes with `table` gives.
pub open spec fn chunk_error(table: ChunkTable, line_len: nat) -> ChunkError {
    if !table_in_row(table.chunks@, line_len) {
        ChunkError::LiveRunOutsideRow
    } else if table_pixels(table.chunks@) > MAX_ROW_PIXELS {
        ChunkError::RowTooLong
    } else {
        ChunkError::ChunkOverBudget
    }
}

/// Cuts every row of the `width`×`height` panel image `panel` into chunks by
/// `table` and frames each chunk: result `[row][chunk]`.
pub fn encode_panel_rows(table: &ChunkTable, panel: &[u8], width: usize, height: usize) -> (r:
    Result<Vec<Vec<Vec<u8>>>, PipelineError>)
    ensures
        panel@.len() != 3 * width * height ==> r == Err::<Vec<Vec<Vec<u8>>>, PipelineError>(
            PipelineError::PanelSize,
        ),
        panel@.len() == 3 * width * height && height > MAX_ROWS ==> r == Err::<
            Vec<Vec<Vec<u8>>>,
            PipelineError,
        >(PipelineError::TooManyRows),
        panel@.len() == 3 * width * height && 0 < height <= MAX_ROWS && !table_fits(
            *table,
            3 * width as nat,
        ) ==> r == Err::<Vec<Vec<Vec<u8>>>, PipelineError>(
            PipelineError::Chunk(chunk_error(*table, 3 * width as nat)),
        ),
        panel@.len() == 3 * width * height && height <= MAX_ROWS && (height == 0 || table_fits(
            *table,
            3 * width as nat,
        )) ==> r is Ok && r->Ok_0@.len() == height && forall|row: int|
            0 <= row < height ==> (#[trigger] r->Ok_0@[row])@.len() == table.chunks@.len() && forall|
                c: int,
            |
                0 <= c < table.chunks@.len() ==> (#[trigger] r->Ok_0@[row]@[c])@ == chunk_frame(
                    *table,
                    panel_line(panel@, width as nat, row),
                    row,
                    c,
                ),
{
    let plen = panel.len();
    let row_len = match width.checked_mul(3) {
        Some(n) => n,
        None => {
            proof {
                assert(3 * width * height != panel@.len() || height == 0) by (nonlinear_arith)
                    requires 3 * width > usize::MAX, plen <= usize::MAX, plen == panel@.len();
            }
            if height == 0 && panel.len() == 0 {
                return Ok(Vec::new());
            }
            return Err(PipelineError::PanelSize);
        },
    };
    let total = match row_len.checked_mul(height) {
        Some(n) => n,
        None => return Err(PipelineError::PanelSize),
    };
    if panel.len() != total {
        return Err(PipelineError::PanelSize);
    }
    if height > MAX_ROWS {
        return Err(PipelineError::TooManyRows);
    }
    let mut rows: Vec<Vec<Vec<u8>>> = Vec::new();
    let mut row: usize = 0;
    while row < height
        invariant
            row <= height <= MAX_ROWS,
            row_len == 3 * width,
            plen == panel@.len(),
            panel@.len() == row_len * height,
            row > 0 ==> table_fits(*table, 3 * width as nat),
            rows@.len() == row,
            forall|k: int|
                0 <= k < row ==> (#[trigger] rows@[k])@.len() == table.chunks@.len() && forall|c: int|
                    0 <= c < table.chunks@.len() ==> (#[trigger] rows@[k]@[c])@ == chunk_frame(
                        *table,
                        panel_line(panel@, width as nat, k),
                        k,
                        c,
                    ),
        decreases height - row,
    {
        proof {
            assert(row_len * (row + 1) <= row_len * height) by (nonlinear_arith)
                requires row < height;
            assert(row_len * row + row_len == row_len * (row + 1)) by (nonlinear_arith);
            assert(3 * width * row == row_len * row);
        }
        let start = row_len * row;
        let line = slice_subrange(panel, start, start + row_len);
        let chunks = match chunk_row(table, row as u16, line) {
            Ok(chunks) => chunks,
            Err(e) => {
                return Err(PipelineError::Chunk(e));
            },
        };
        let ghost line_seq = line@;
        let mut frames: Vec<Vec<u8>> = Vec::new();
        let mut c: usize = 0;
        while c < chunks.len()
            invariant
                c <= chunks@.len(),
                table_fits(*table, line_seq.len()),
                line@ == line_seq,
                line_seq == panel_line(panel@, width as nat, row as int),
                row < MAX_ROWS,
                chunks_of_row(*table, row as u16, line_seq, chunks@),
                frames@.len() == c,
                forall|k: int| 0 <= k < c ==> (#[trigger] frames@[k])@ == chunk_frame(*table, line_seq, row as int, k),
            decreases chunks@.len() - c,
        {
            let ch = &chunks[c];
            proof {
                assert(table_in_row(table.chunks@, line_seq.len()));
                assert(layout_in_row(table.chunks@[c as int].segments@, line_seq.len()));
                lemma_layout_bytes_len(table.chunks@[c as int].segments@, line_seq);
            }
            match encode_row_frame(row as u16, ch.pixel_offset, ch.pixel_count, ch.payload.as_slice()) {
                Ok(f) => frames.push(f),
                Err(_) => {
                    return Err(PipelineError::PanelSize);
                },
            }
            c = c + 1;
        }
        rows.push(frames);
        row = row + 1;
    }
    Ok(rows)
}

} // verus!
