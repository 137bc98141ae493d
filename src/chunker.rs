//! Splitting one scanline into row-data chunks according to a per-deployment
//! layout table.
//!
//! The controller's physical segment width does not match the logical panel
//! width, so each chunk interleaves runs of blank pixels (which land on
//! unused wiring) with runs of live pixels taken from the scanline. A chunk
//! records its pixel offset and pixel count as the controller counts them:
//! blank and live pixels together.

use crate::frame::zeros;
use vstd::prelude::*;

verus! {

/// One run of pixels inside a chunk.
#[derive(Clone, Copy, Debug, PartialEq, Eq, Structural)]
pub enum Segment {
    /// This many pixels of black.
    Blank(usize),
    /// `len` pixels copied from the scanline, starting at pixel `offset`.
    Live { offset: usize, len: usize },
}

/// The ordered runs that make up one chunk.
#[derive(Clone, Debug)]
pub struct ChunkLayout {
    pub segments: Vec<Segment>,
}

/// The chunk layout of every row, and the most pixels one chunk may carry
/// (the MTU budget).
#[derive(Clone, Debug)]
pub struct ChunkTable {
    pub chunks: Vec<ChunkLayout>,
    pub max_pixels: usize,
}

/// A piece of one row, ready to be framed.
#[derive(Clone, Debug)]
pub struct Chunk {
    pub row: u16,
    pub pixel_offset: u16,
    pub pixel_count: u16,
    pub payload: Vec<u8>,
}

/// Why a row could not be chunked.
#[derive(Clone, Copy, Debug, PartialEq, Eq, Structural)]
pub enum ChunkError {
    /// A live run reaches past the end of the scanline.
    LiveRunOutsideRow,
    /// The chunks of a row hold more pixels than a 16-bit offset can address.
    RowTooLong,
    /// A chunk holds more pixels than the table's budget.
    ChunkOverBudget,
}

/// Most pixels that the offsets and counts of one row can address.
pub const MAX_ROW_PIXELS: usize = 65535;

pub open spec fn seg_pixels(s: Segment) -> nat {
    match s {
        Segment::Blank(n) => n as nat,
        Segment::Live { offset, len } => len as nat,
    }
}

/// Pixels in a chunk, blank and live together.
pub open spec fn layout_pixels(segs: Seq<Segment>) -> nat
    decreases segs.len(),
{
    if segs.len() == 0 {
        0
    } else {
        layout_pixels(segs.drop_last()) + seg_pixels(segs.last())
    }
}

/// Pixels in all chunks of a row.
pub open spec fn table_pixels(chunks: Seq<ChunkLayout>) -> nat
    decreases chunks.len(),
{
    if chunks.len() == 0 {
        0
    } else {
        table_pixels(chunks.drop_last()) + layout_pixels(chunks.last().segments@)
    }
}

/// A live run lies within a scanline of `line_len` bytes.
pub open spec fn seg_in_row(s: Segment, line_len: nat) -> bool {
    match s {
        Segment::Blank(n) => true,
        Segment::Live { offset, len } => offset + len <= line_len / 3,
    }
}

pub open spec fn layout_in_row(segs: Seq<Segment>, line_len: nat) -> bool {
    forall|j: int| 0 <= j < segs.len() ==> seg_in_row(#[trigger] segs[j], line_len)
}

/// Every live run of the table lies within the scanline.
pub open spec fn table_in_row(chunks: Seq<ChunkLayout>, line_len: nat) -> bool {
    forall|i: int| 0 <= i < chunks.len() ==> layout_in_row(#[trigger] chunks[i].segments@, line_len)
}

/// Every chunk is within the pixel budget.
pub open spec fn table_in_budget(chunks: Seq<ChunkLayout>, max_pixels: nat) -> bool {
    forall|i: int| 0 <= i < chunks.len() ==> layout_pixels(#[trigger] chunks[i].segments@) <= max_pixels
}

/// The bytes a run puts on the wire.
pub open spec fn seg_bytes(s: Segment, line: Seq<u8>) -> Seq<u8> {
    match s {
        Segment::Blank(n) => zeros(3 * n as nat),
        Segment::Live { offset, len } => line.subrange(3 * offset, 3 * (offset + len)),
    }
}

/// The payload of a chunk: its runs one after the other.
pub open spec fn layout_bytes(segs: Seq<Segment>, line: Seq<u8>) -> Seq<u8>
    decreases segs.len(),
{
    if segs.len() == 0 {
        Seq::empty()
    } else {
        layout_bytes(segs.drop_last(), line) + seg_bytes(segs.last(), line)
    }
}

/// The scanline bytes that the live runs of a chunk select, in order.
pub open spec fn live_bytes(segs: Seq<Segment>, line: Seq<u8>) -> Seq<u8>
    decreases segs.len(),
{
    if segs.len() == 0 {
        Seq::empty()
    } else {
        live_bytes(segs.drop_last(), line) + match segs.last() {
            Segment::Blank(n) => Seq::empty(),
            Segment::Live { offset, len } => line.subrange(3 * offset, 3 * (offset + len)),
        }
    }
}

/// The scanline bytes that the live runs of the whole table select, in order.
pub open spec fn table_live_bytes(chunks: Seq<ChunkLayout>, line: Seq<u8>) -> Seq<u8>
    decreases chunks.len(),
{
    if chunks.len() == 0 {
        Seq::empty()
    } else {
        table_live_bytes(chunks.drop_last(), line) + live_bytes(chunks.last().segments@, line)
    }
}

/// What a receiver reads back from `payload` at the live positions of a
/// chunk laid out as `segs`, skipping the blank runs.
pub open spec fn extract_live(segs: Seq<Segment>, payload: Seq<u8>) -> Seq<u8>
    decreases segs.len(),
{
    if segs.len() == 0 {
        Seq::empty()
    } else {
        let start: int = 3 * layout_pixels(segs.drop_last()) as int;
        extract_live(segs.drop_last(), payload) + match segs.last() {
            Segment::Blank(n) => Seq::empty(),
            Segment::Live { offset, len } => payload.subrange(start, start + 3 * len),
        }
    }
}

/// The live pixels read back from every chunk of a row, in chunk order.
pub open spec fn replay_row(chunks: Seq<ChunkLayout>, out: Seq<Chunk>) -> Seq<u8>
    decreases chunks.len(),
{
    if chunks.len() == 0 || out.len() == 0 {
        Seq::empty()
    } else {
        replay_row(chunks.drop_last(), out.drop_last()) + extract_live(
            chunks.last().segments@,
            out.last().payload@,
        )
    }
}

/// The table can chunk a scanline of `line_len` bytes.
pub open spec fn table_fits(table: ChunkTable, line_len: nat) -> bool {
    &&& table_in_row(table.chunks@, line_len)
    &&& table_pixels(table.chunks@) <= MAX_ROW_PIXELS
    &&& table_in_budget(table.chunks@, table.max_pixels as nat)
}

/// `out` is the chunking of row `row`, holding `line`, by `table`: one chunk
/// per layout, each at the offset where the previous one ended.
pub open spec fn chunks_of_row(table: ChunkTable, row: u16, line: Seq<u8>, out: Seq<Chunk>) -> bool {
    &&& out.len() == table.chunks@.len()
    &&& forall|i: int|
        0 <= i < out.len() ==> {
            &&& (#[trigger] out[i]).row == row
            &&& out[i].pixel_offset == table_pixels(table.chunks@.subrange(0, i))
            &&& out[i].pixel_count == layout_pixels(table.chunks@[i].segments@)
            &&& out[i].payload@ == layout_bytes(table.chunks@[i].segments@, line)
        }
}

proof fn lemma_layout_prefix(segs: Seq<Segment>, j: int)
    requires
        0 <= j <= segs.len(),
    ensures
        layout_pixels(segs.subrange(0, j)) <= layout_pixels(segs),
    decreases segs.len(),
{
    if j < segs.len() {
        assert(segs.drop_last().subrange(0, j) =~= segs.subrange(0, j));
        lemma_layout_prefix(segs.drop_last(), j);
    } else {
        assert(segs.subrange(0, j) =~= segs);
    }
}

proof fn lemma_table_prefix(chunks: Seq<ChunkLayout>, i: int)
    requires
        0 <= i <= chunks.len(),
    ensures
        table_pixels(chunks.subrange(0, i)) <= table_pixels(chunks),
    decreases chunks.len(),
{
    if i < chunks.len() {
        assert(chunks.drop_last().subrange(0, i) =~= chunks.subrange(0, i));
        lemma_table_prefix(chunks.drop_last(), i);
    } else {
        assert(chunks.subrange(0, i) =~= chunks);
    }
}

proof fn lemma_table_step(chunks: Seq<ChunkLayout>, i: int)
    requires
        0 <= i < chunks.len(),
    ensures
        table_pixels(chunks.subrange(0, i + 1)) == table_pixels(chunks.subrange(0, i))
            + layout_pixels(chunks[i].segments@),
        layout_pixels(chunks[i].segments@) <= table_pixels(chunks),
{
    assert(chunks.subrange(0, i + 1).drop_last() =~= chunks.subrange(0, i));
    lemma_table_prefix(chunks, i + 1);
}

proof fn lemma_layout_step(segs: Seq<Segment>, j: int)
    requires
        0 <= j < segs.len(),
    ensures
        layout_pixels(segs.subrange(0, j + 1)) == layout_pixels(segs.subrange(0, j)) + seg_pixels(
            segs[j],
        ),
        layout_pixels(segs.subrange(0, j + 1)) <= layout_pixels(segs),
{
    assert(segs.subrange(0, j + 1).drop_last() =~= segs.subrange(0, j));
    lemma_layout_prefix(segs, j + 1);
}

/// A chunk's payload is three bytes per pixel of its layout.
pub proof fn lemma_layout_bytes_len(segs: Seq<Segment>, line: Seq<u8>)
    requires
        layout_in_row(segs, line.len()),
    ensures
        layout_bytes(segs, line).len() == 3 * layout_pixels(segs),
    decreases segs.len(),
{
    if segs.len() > 0 {
        assert(seg_in_row(segs[segs.len() - 1], line.len()));
        lemma_layout_bytes_len(segs.drop_last(), line);
    }
}

proof fn lemma_extract_prefix(segs: Seq<Segment>, a: Seq<u8>, b: Seq<u8>)
    requires
        a.len() >= 3 * layout_pixels(segs),
    ensures
        extract_live(segs, a + b) == extract_live(segs, a),
    decreases segs.len(),
{
    if segs.len() > 0 {
        lemma_extract_prefix(segs.drop_last(), a, b);
        let start: int = 3 * layout_pixels(segs.drop_last()) as int;
        match segs.last() {
            Segment::Blank(n) => {},
            Segment::Live { offset, len } => {
                assert((a + b).subrange(start, start + 3 * len) =~= a.subrange(start, start + 3 * len));
            },
        }
    }
}

/// Reading a chunk's payload back at its live positions yields exactly the
/// scanline bytes that its live runs select.
pub proof fn lemma_extract_layout(segs: Seq<Segment>, line: Seq<u8>)
    requires
        layout_in_row(segs, line.len()),
    ensures
        extract_live(segs, layout_bytes(segs, line)) == live_bytes(segs, line),
    decreases segs.len(),
{
    if segs.len() > 0 {
        let prev = segs.drop_last();
        assert(seg_in_row(segs[segs.len() - 1], line.len()));
        lemma_layout_bytes_len(prev, line);
        lemma_extract_prefix(prev, layout_bytes(prev, line), seg_bytes(segs.last(), line));
        lemma_extract_layout(prev, line);
        let start: int = 3 * layout_pixels(prev) as int;
        match segs.last() {
            Segment::Blank(n) => {},
            Segment::Live { offset, len } => {
                assert((layout_bytes(prev, line) + seg_bytes(segs.last(), line)).subrange(
                    start,
                    start + 3 * len,
                ) =~= seg_bytes(segs.last(), line));
            },
        }
    }
}

proof fn lemma_replay(chunks: Seq<ChunkLayout>, out: Seq<Chunk>, line: Seq<u8>)
    requires
        out.len() == chunks.len(),
        table_in_row(chunks, line.len()),
        forall|i: int|
            0 <= i < out.len() ==> (#[trigger] out[i]).payload@ == layout_bytes(
                chunks[i].segments@,
                line,
            ),
    ensures
        replay_row(chunks, out) == table_live_bytes(chunks, line),
    decreases chunks.len(),
{
    if chunks.len() > 0 {
        let k = chunks.len() - 1;
        assert(out[k].payload@ == layout_bytes(chunks[k].segments@, line));
        assert(layout_in_row(chunks[k].segments@, line.len()));
        lemma_extract_layout(chunks[k].segments@, line);
        assert forall|i: int| 0 <= i < out.drop_last().len() implies (
        #[trigger] out.drop_last()[i]).payload@ == layout_bytes(
            chunks.drop_last()[i].segments@,
            line,
        ) by {
            assert(out[i].payload@ == layout_bytes(chunks[i].segments@, line));
        }
        assert forall|i: int| 0 <= i < chunks.drop_last().len() implies layout_in_row(
            #[trigger] chunks.drop_last()[i].segments@,
            line.len(),
        ) by {
            assert(layout_in_row(chunks[i].segments@, line.len()));
        }
        lemma_replay(chunks.drop_last(), out.drop_last(), line);
    }
}

/// Replaying the chunks of a row against the table, reading each payload at
/// its live positions, gives back the scanline bytes that the table's live
/// runs select, in order. The chunks follow one another without overlap
/// and none exceeds the table's pixel budget.
pub proof fn lemma_chunks_reconstruct_row(table: ChunkTable, row: u16, line: Seq<u8>, out: Seq<Chunk>)
    requires
        table_fits(table, line.len()),
        chunks_of_row(table, row, line, out),
    ensures
        replay_row(table.chunks@, out) == table_live_bytes(table.chunks@, line),
        forall|i: int| 0 <= i < out.len() ==> (#[trigger] out[i]).pixel_count <= table.max_pixels,
        forall|i: int|
            0 <= i < out.len() - 1 ==> (#[trigger] out[i]).pixel_offset + out[i].pixel_count
                == out[i + 1].pixel_offset,
        out.len() > 0 ==> out[0].pixel_offset == 0,
{
    let chunks = table.chunks@;
    assert forall|i: int| 0 <= i < out.len() implies (#[trigger] out[i]).payload@ == layout_bytes(
        chunks[i].segments@,
        line,
    ) by {}
    lemma_replay(chunks, out, line);
    assert forall|i: int| 0 <= i < out.len() implies (#[trigger] out[i]).pixel_count
        <= table.max_pixels by {
        assert(layout_pixels(chunks[i].segments@) <= table.max_pixels);
    }
    assert forall|i: int| 0 <= i < out.len() - 1 implies (#[trigger] out[i]).pixel_offset
        + out[i].pixel_count == out[i + 1].pixel_offset by {
        lemma_table_step(chunks, i);
        assert(out[i + 1].pixel_offset == table_pixels(chunks.subrange(0, i + 1)));
    }
    if out.len() > 0 {
        assert(chunks.subrange(0, 0).len() == 0);
    }
}

/// Where the live runs of `segs` end, when each starts where the one before
/// it ended and the first starts at pixel `start`; `None` otherwise.
pub open spec fn layout_tiles(segs: Seq<Segment>, start: int) -> Option<int>
    decreases segs.len(),
{
    if segs.len() == 0 {
        Some(start)
    } else {
        match layout_tiles(segs.drop_last(), start) {
            Some(e) => match segs.last() {
                Segment::Blank(n) => Some(e),
                Segment::Live { offset, len } => if offset == e {
                    Some(e + len)
                } else {
                    None
                },
            },
            None => None,
        }
    }
}

/// Where the live runs of the whole table end, when they follow one another
/// from pixel 0 without gap or overlap; `None` otherwise.
pub open spec fn table_tiles(chunks: Seq<ChunkLayout>) -> Option<int>
    decreases chunks.len(),
{
    if chunks.len() == 0 {
        Some(0)
    } else {
        match table_tiles(chunks.drop_last()) {
            Some(s) => layout_tiles(chunks.last().segments@, s),
            None => None,
        }
    }
}

proof fn lemma_layout_tiles_grow(segs: Seq<Segment>, start: int)
    requires
        layout_tiles(segs, start) is Some,
    ensures
        start <= layout_tiles(segs, start)->Some_0,
    decreases segs.len(),
{
    if segs.len() > 0 {
        lemma_layout_tiles_grow(segs.drop_last(), start);
    }
}

proof fn lemma_table_tiles_grow(chunks: Seq<ChunkLayout>)
    requires
        table_tiles(chunks) is Some,
    ensures
        chunks.len() > 0 ==> table_tiles(chunks.drop_last()) is Some && 0 <= table_tiles(
            chunks.drop_last(),
        )->Some_0 <= table_tiles(chunks)->Some_0,
        0 <= table_tiles(chunks)->Some_0,
    decreases chunks.len(),
{
    if chunks.len() > 0 {
        lemma_table_tiles_grow(chunks.drop_last());
        lemma_layout_tiles_grow(chunks.last().segments@, table_tiles(chunks.drop_last())->Some_0);
    }
}

proof fn lemma_layout_tiles(segs: Seq<Segment>, start: int, line: Seq<u8>)
    requires
        0 <= start,
        layout_tiles(segs, start) is Some,
        3 * layout_tiles(segs, start)->Some_0 <= line.len(),
    ensures
        start <= layout_tiles(segs, start)->Some_0,
        live_bytes(segs, line) == line.subrange(3 * start, 3 * layout_tiles(segs, start)->Some_0),
    decreases segs.len(),
{
    if segs.len() == 0 {
        assert(line.subrange(3 * start, 3 * start) =~= Seq::<u8>::empty());
    } else {
        let prev = segs.drop_last();
        let e = layout_tiles(prev, start)->Some_0;
        match segs.last() {
            Segment::Blank(n) => {
                lemma_layout_tiles(prev, start, line);
            },
            Segment::Live { offset, len } => {
                lemma_layout_tiles(prev, start, line);
                assert(line.subrange(3 * start, 3 * e) + line.subrange(3 * e, 3 * (e + len))
                    =~= line.subrange(3 * start, 3 * (e + len)));
            },
        }
    }
}

proof fn lemma_table_tiles(chunks: Seq<ChunkLayout>, line: Seq<u8>)
    requires
        table_tiles(chunks) is Some,
        3 * table_tiles(chunks)->Some_0 <= line.len(),
    ensures
        table_live_bytes(chunks, line) == line.subrange(0, 3 * table_tiles(chunks)->Some_0),
    decreases chunks.len(),
{
    if chunks.len() == 0 {
        assert(line.subrange(0, 0) =~= Seq::<u8>::empty());
    } else {
        let prev = chunks.drop_last();
        let s = table_tiles(prev)->Some_0;
        let e = table_tiles(chunks)->Some_0;
        lemma_table_tiles_grow(chunks);
        lemma_layout_tiles(chunks.last().segments@, s, line);
        lemma_table_tiles(prev, line);
        assert(line.subrange(0, 3 * s) + line.subrange(3 * s, 3 * e) =~= line.subrange(0, 3 * e));
    }
}

/// When the table's live runs cover the scanline in order, from its first
/// pixel to its last without gap or overlap, replaying the chunks of a row
/// gives back exactly that row.
pub proof fn lemma_tiled_chunks_rebuild_row(table: ChunkTable, row: u16, line: Seq<u8>, out: Seq<Chunk>)
    requires
        table_fits(table, line.len()),
        chunks_of_row(table, row, line, out),
        line.len() % 3 == 0,
        table_tiles(table.chunks@) == Some(line.len() as int / 3),
    ensures
        replay_row(table.chunks@, out) == line,
{
    lemma_chunks_reconstruct_row(table, row, line, out);
    lemma_table_tiles(table.chunks@, line);
    assert(line.subrange(0, line.len() as int) =~= line);
}

fn check_in_row(table: &ChunkTable, line_len: usize) -> (r: bool)
    ensures
        r == table_in_row(table.chunks@, line_len as nat),
{
    let n_pixels = line_len / 3;
    let mut i: usize = 0;
    while i < table.chunks.len()
        invariant
            i <= table.chunks@.len(),
            n_pixels == line_len as nat / 3,
            forall|k: int| 0 <= k < i ==> layout_in_row(#[trigger] table.chunks@[k].segments@, line_len as nat),
        decreases table.chunks@.len() - i,
    {
        let segs = &table.chunks[i].segments;
        let mut j: usize = 0;
        while j < segs.len()
            invariant
                i < table.chunks@.len(),
                segs@ == table.chunks@[i as int].segments@,
                j <= segs@.len(),
                n_pixels == line_len as nat / 3,
                forall|m: int| 0 <= m < j ==> seg_in_row(#[trigger] segs@[m], line_len as nat),
            decreases segs@.len() - j,
        {
            match segs[j] {
                Segment::Blank(_) => {},
                Segment::Live { offset, len } => {
                    if offset > n_pixels || len > n_pixels - offset {
                        assert(!seg_in_row(segs@[j as int], line_len as nat));
                        assert(segs@ == table.chunks@[i as int].segments@);
                        assert(!layout_in_row(table.chunks@[i as int].segments@, line_len as nat));
                        return false;
                    }
                },
            }
            j = j + 1;
        }
        i = i + 1;
    }
    true
}

fn total_pixels(table: &ChunkTable) -> (r: Option<usize>)
    ensures
        r is Some <==> table_pixels(table.chunks@) <= MAX_ROW_PIXELS,
        r is Some ==> r->Some_0 == table_pixels(table.chunks@),
{
    let chunks = &table.chunks;
    let mut total: usize = 0;
    let mut i: usize = 0;
    while i < chunks.len()
        invariant
            chunks == &table.chunks,
            i <= chunks@.len(),
            total == table_pixels(chunks@.subrange(0, i as int)),
            total <= MAX_ROW_PIXELS,
        decreases chunks@.len() - i,
    {
        let segs = &chunks[i].segments;
        let ghost base = total;
        let mut j: usize = 0;
        while j < segs.len()
            invariant
                chunks == &table.chunks,
                i < chunks@.len(),
                segs@ == chunks@[i as int].segments@,
                base == table_pixels(chunks@.subrange(0, i as int)),
                j <= segs@.len(),
                total == base + layout_pixels(segs@.subrange(0, j as int)),
                total <= MAX_ROW_PIXELS,
            decreases segs@.len() - j,
        {
            proof {
                lemma_layout_step(segs@, j as int);
            }
            let n = match segs[j] {
                Segment::Blank(n) => n,
                Segment::Live { offset, len } => len,
            };
            assert(seg_pixels(segs@[j as int]) == n);
            if n > MAX_ROW_PIXELS - total {
                proof {
                    lemma_layout_prefix(segs@, j as int + 1);
                    lemma_table_step(chunks@, i as int);
                    lemma_table_prefix(chunks@, i as int + 1);
                    assert(layout_pixels(segs@.subrange(0, j as int + 1)) <= layout_pixels(segs@));
                    assert(base + layout_pixels(segs@) <= table_pixels(chunks@));
                    assert(table_pixels(chunks@) > MAX_ROW_PIXELS);
                    assert(table_pixels(table.chunks@) > MAX_ROW_PIXELS);
                }
                return None;
            }
            total = total + n;
            j = j + 1;
        }
        proof {
            assert(segs@.subrange(0, j as int) =~= segs@);
            lemma_table_step(chunks@, i as int);
        }
        i = i + 1;
    }
    assert(chunks@.subrange(0, i as int) =~= chunks@);
    Some(total)
}

fn layout_pixel_count(segs: &Vec<Segment>) -> (r: usize)
    requires
        layout_pixels(segs@) <= MAX_ROW_PIXELS,
    ensures
        r == layout_pixels(segs@),
{
    let mut total: usize = 0;
    let mut j: usize = 0;
    while j < segs.len()
        invariant
            j <= segs@.len(),
            layout_pixels(segs@) <= MAX_ROW_PIXELS,
            total == layout_pixels(segs@.subrange(0, j as int)),
        decreases segs@.len() - j,
    {
        proof {
            lemma_layout_step(segs@, j as int);
        }
        let n = match segs[j] {
            Segment::Blank(n) => n,
            Segment::Live { offset, len } => len,
        };
        total = total + n;
        j = j + 1;
    }
    assert(segs@.subrange(0, j as int) =~= segs@);
    total
}

fn layout_payload(segs: &Vec<Segment>, line: &[u8]) -> (r: Vec<u8>)
    requires
        layout_pixels(segs@) <= MAX_ROW_PIXELS,
        layout_in_row(segs@, line@.len()),
    ensures
        r@ == layout_bytes(segs@, line@),
{
    let line_len = line.len();
    let mut payload: Vec<u8> = Vec::new();
    let mut j: usize = 0;
    while j < segs.len()
        invariant
            j <= segs@.len(),
            layout_pixels(segs@) <= MAX_ROW_PIXELS,
            layout_in_row(segs@, line@.len()),
            line_len == line@.len(),
            payload@ == layout_bytes(segs@.subrange(0, j as int), line@),
        decreases segs@.len() - j,
    {
        proof {
            lemma_layout_step(segs@, j as int);
            assert(segs@.subrange(0, j as int + 1).drop_last() =~= segs@.subrange(0, j as int));
            assert(seg_in_row(segs@[j as int], line@.len()));
        }
        let ghost before = payload@;
        match segs[j] {
            Segment::Blank(n) => {
                let mut k: usize = 0;
                while k < 3 * n
                    invariant
                        n <= MAX_ROW_PIXELS,
                        k <= 3 * n,
                        payload@ =~= before + zeros(k as nat),
                    decreases 3 * n - k,
                {
                    payload.push(0);
                    k = k + 1;
                    assert(payload@ =~= before + zeros(k as nat));
                }
            },
            Segment::Live { offset, len } => {
                assert(offset + len <= line_len / 3);
                assert(3 * (offset + len) <= line_len);
                let mut k: usize = 3 * offset;
                let end: usize = 3 * (offset + len);
                while k < end
                    invariant
                        end == 3 * (offset + len),
                        3 * (offset + len) <= line@.len(),
                        3 * offset <= k <= 3 * (offset + len),
                        payload@ =~= before + line@.subrange(3 * offset as int, k as int),
                    decreases 3 * (offset + len) - k,
                {
                    payload.push(line[k]);
                    k = k + 1;
                    assert(payload@ =~= before + line@.subrange(3 * offset as int, k as int));
                }
            },
        }
        j = j + 1;
    }
    assert(segs@.subrange(0, j as int) =~= segs@);
    payload
}

/// Splits row `row`, whose pixels are `line` (three bytes each, B,G,R), into
/// one chunk per layout of `table`. Fails when a live run reaches past the
/// scanline, when the row's chunks hold more pixels than 16-bit offsets
/// address, or when a chunk exceeds the table's budget, checked in that
/// order.
pub fn chunk_row(table: &ChunkTable, row: u16, line: &[u8]) -> (r: Result<Vec<Chunk>, ChunkError>)
    ensures
        !table_in_row(table.chunks@, line@.len()) ==> r == Err::<Vec<Chunk>, ChunkError>(
            ChunkError::LiveRunOutsideRow,
        ),
        table_in_row(table.chunks@, line@.len()) && table_pixels(table.chunks@) > MAX_ROW_PIXELS
            ==> r == Err::<Vec<Chunk>, ChunkError>(ChunkError::RowTooLong),
        table_in_row(table.chunks@, line@.len()) && table_pixels(table.chunks@) <= MAX_ROW_PIXELS
            && !table_in_budget(table.chunks@, table.max_pixels as nat) ==> r == Err::<
            Vec<Chunk>,
            ChunkError,
        >(ChunkError::ChunkOverBudget),
        table_fits(*table, line@.len()) ==> r is Ok && chunks_of_row(*table, row, line@, r->Ok_0@),
{
    if !check_in_row(table, line.len()) {
        return Err(ChunkError::LiveRunOutsideRow);
    }
    if total_pixels(table).is_none() {
        return Err(ChunkError::RowTooLong);
    }
    let chunks = &table.chunks;
    let mut i: usize = 0;
    while i < chunks.len()
        invariant
            i <= chunks@.len(),
            chunks == &table.chunks,
            table_in_row(table.chunks@, line@.len()),
            table_pixels(chunks@) <= MAX_ROW_PIXELS,
            forall|k: int| 0 <= k < i ==> layout_pixels(#[trigger] chunks@[k].segments@) <= table.max_pixels,
        decreases chunks@.len() - i,
    {
        proof {
            lemma_table_step(chunks@, i as int);
        }
        if layout_pixel_count(&chunks[i].segments) > table.max_pixels {
            return Err(ChunkError::ChunkOverBudget);
        }
        i = i + 1;
    }
    let mut out: Vec<Chunk> = Vec::new();
    let mut offset: usize = 0;
    let mut i: usize = 0;
    while i < chunks.len()
        invariant
            i <= chunks@.len(),
            table_fits(*table, line@.len()),
            chunks == &table.chunks,
            offset == table_pixels(chunks@.subrange(0, i as int)),
            out@.len() == i,
            forall|k: int|
                0 <= k < i ==> {
                    &&& (#[trigger] out@[k]).row == row
                    &&& out@[k].pixel_offset == table_pixels(chunks@.subrange(0, k))
                    &&& out@[k].pixel_count == layout_pixels(chunks@[k].segments@)
                    &&& out@[k].payload@ == layout_bytes(chunks@[k].segments@, line@)
                },
        decreases chunks@.len() - i,
    {
        proof {
            lemma_table_step(chunks@, i as int);
            lemma_table_prefix(chunks@, i as int);
            assert(layout_in_row(chunks@[i as int].segments@, line@.len()));
        }
        let segs = &chunks[i].segments;
        let count = layout_pixel_count(segs);
        let payload = layout_payload(segs, line);
        out.push(Chunk { row, pixel_offset: offset as u16, pixel_count: count as u16, payload });
        offset = offset + count;
        i = i + 1;
    }
    Ok(out)
}

} // verus!
