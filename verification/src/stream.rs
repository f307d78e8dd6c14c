//! Streaming reader that rebuilds rows block by block.
//!
//! Only the header is parsed when a stream is opened. Each call of `next`
//! reads whole blocks until at least the wanted number of rows is buffered or
//! the data has ended, and hands out all buffered rows as one chunk. Values
//! that do not fill a row wait for the next block.

use crate::block_reader::{block_at, lemma_block_extent, Block, BlockReader};
use crate::layout::{extract_signal, real_column, scale_column, signal_column};
use crate::parser::{header_only, parse_header_only, HeaderMetadata, HeaderView};
use crate::text::{find_name, is_listed, str_eq, string_views};
use crate::types::{
    fault_eof, Fault, PostVersion, VectorData, VectorView, WaveformError, COMPLEX_VAR,
};
use vstd::prelude::*;
use vstd::string::*;

verus! {

/// Rows wanted per chunk where the caller names no number.
pub const DEFAULT_CHUNK_SIZE: usize = 10000;

// ----------------------------------------------------------------------------
// Chunks
// ----------------------------------------------------------------------------

/// A batch of rows.
#[derive(Debug)]
pub struct DataChunk {
    /// Position of the chunk in the stream, from 0.
    pub chunk_index: usize,
    /// Scale value of the first and of the last row.
    pub time_range: (u64, u64),
    /// The scale under its name, then each selected signal under its name, in
    /// header order.
    pub data: Vec<(String, VectorData)>,
}

/// A chunk as contracts speak of it.
pub struct ChunkView {
    pub chunk_index: int,
    pub time_range: (u64, u64),
    pub data: Seq<(Seq<char>, VectorView)>,
}

/// The views of a sequence of named vectors.
pub open spec fn entry_views(v: Seq<(String, VectorData)>) -> Seq<(Seq<char>, VectorView)> {
    v.map_values(|e: (String, VectorData)| (e.0@, e.1@))
}

impl View for DataChunk {
    type V = ChunkView;

    open spec fn view(&self) -> ChunkView {
        ChunkView {
            chunk_index: self.chunk_index as int,
            time_range: self.time_range,
            data: entry_views(self.data@),
        }
    }
}

impl ChunkView {
    /// Number of rows: the length of the scale vector.
    pub open spec fn rows(self) -> nat {
        if self.data.len() > 0 {
            self.data[0].1.len()
        } else {
            0
        }
    }

    /// Index of the last entry called `name` at or before `i`, or -1.
    pub open spec fn last_entry_upto(self, name: Seq<char>, i: int) -> int
        decreases i + 1,
    {
        if i < 0 || i >= self.data.len() {
            -1
        } else if self.data[i].0 == name {
            i
        } else {
            self.last_entry_upto(name, i - 1)
        }
    }

    /// Index of the last entry called `name`, or -1.
    pub open spec fn last_entry(self, name: Seq<char>) -> int {
        self.last_entry_upto(name, self.data.len() - 1)
    }
}

impl Clone for DataChunk {
    fn clone(&self) -> (r: Self)
        ensures
            r@ == self@,
    {
        let mut data: Vec<(String, VectorData)> = Vec::new();
        let mut i: usize = 0;
        while i < self.data.len()
            invariant
                i <= self.data@.len(),
                data@.len() == i,
                forall|k: int|
                    0 <= k < i ==> (#[trigger] data@[k]).0@ == self.data@[k].0@ && data@[k].1@
                        == self.data@[k].1@,
            decreases self.data@.len() - i,
        {
            data.push((self.data[i].0.clone(), self.data[i].1.clone()));
            i = i + 1;
        }
        assert(entry_views(data@) == entry_views(self.data@));
        DataChunk {
            chunk_index: self.chunk_index,
            time_range: (self.time_range.0, self.time_range.1),
            data,
        }
    }
}

impl DataChunk {
    /// Number of rows.
    pub fn len(&self) -> (n: usize)
        ensures
            n == self@.rows(),
    {
        if self.data.len() > 0 {
            assert(self@.data[0] == (self.data@[0].0@, self.data@[0].1@));
            self.data[0].1.len()
        } else {
            0
        }
    }

    /// The vector stored under `name`. Where several entries bear the name,
    /// the last one counts.
    pub fn get(&self, name: &str) -> (r: Option<&VectorData>)
        ensures
            match r {
                Some(v) => 0 <= self@.last_entry(name@) < self@.data.len() && v@
                    == self@.data[self@.last_entry(name@)].1,
                None => self@.last_entry(name@) == -1,
            },
    {
        let mut i: usize = self.data.len();
        while i > 0
            invariant
                i <= self.data@.len(),
                self@.last_entry(name@) == self@.last_entry_upto(name@, i - 1),
            decreases i,
        {
            i = i - 1;
            assert(self@.data[i as int] == (self.data@[i as int].0@, self.data@[i as int].1@));
            if str_eq(self.data[i].0.as_str(), name) {
                return Some(&self.data[i].1);
            }
        }
        None
    }
}

/// What a file says of itself before any data is read.
#[derive(Debug, Clone)]
pub struct StreamMetadata {
    pub title: String,
    pub date: String,
    pub scale_name: String,
    pub signal_names: Vec<String>,
    pub post_version: PostVersion,
    pub is_complex: bool,
}

// ----------------------------------------------------------------------------
// The state of a stream
// ----------------------------------------------------------------------------

/// Where a stream stands in its life.
#[derive(Debug, Clone, Copy, PartialEq, Eq, Structural)]
pub enum StreamState {
    /// Blocks remain to be read.
    Reading,
    /// The data has ended; buffered rows may still make a last chunk.
    Draining,
    /// Nothing is left to hand out.
    Done,
}

/// A stream as contracts speak of it.
pub struct StreamView {
    /// The whole file.
    pub data: Seq<u8>,
    /// Offset of the next block.
    pub position: int,
    pub header: HeaderView,
    /// Rows to buffer before a chunk is handed out.
    pub min_chunk_size: int,
    /// Index of the next chunk.
    pub current_chunk: int,
    /// The signals to hand out, or `None` for all.
    pub filter: Option<Seq<Seq<char>>>,
    pub state: StreamState,
    /// Complete rows not yet handed out, back to back.
    pub rows: Seq<u64>,
    /// Values after the last complete row.
    pub pending: Seq<u64>,
    /// Whether no block has been read yet.
    pub first_read: bool,
}

impl StreamView {
    /// Number of flat values in one row.
    pub open spec fn columns(self) -> int {
        self.header.columns()
    }

    /// Number of buffered rows.
    pub open spec fn buffered(self) -> int {
        self.rows.len() as int / self.columns()
    }

    /// The header is the file's and well formed, the position is within the
    /// file, the row buffer holds whole rows and the leftover less than one
    /// row, nothing is buffered once the stream is done, and there are no more
    /// chunks behind than blocks.
    pub open spec fn well_formed(self) -> bool {
        &&& header_only(self.data) is Ok
        &&& header_only(self.data)->Ok_0.0 == self.header
        &&& self.header.well_formed()
        &&& 0 <= self.position <= self.data.len() <= usize::MAX
        &&& self.min_chunk_size >= 1
        &&& 0 <= self.current_chunk
        &&& self.rows.len() % (self.columns() as nat) == 0
        &&& self.pending.len() < self.columns()
        &&& (self.state == StreamState::Done ==> self.rows.len() == 0)
        &&& 20 * (self.current_chunk + if self.rows.len() > 0 {
            1int
        } else {
            0int
        }) <= self.position
    }

    /// All of `well_formed` but the bound on the leftover, which may here hold
    /// whole rows.
    pub open spec fn well_formed_apart_from_leftover(self) -> bool {
        &&& header_only(self.data) is Ok
        &&& header_only(self.data)->Ok_0.0 == self.header
        &&& self.header.well_formed()
        &&& 0 <= self.position <= self.data.len() <= usize::MAX
        &&& self.min_chunk_size >= 1
        &&& 0 <= self.current_chunk
        &&& self.rows.len() % (self.columns() as nat) == 0
        &&& (self.state == StreamState::Done ==> self.rows.len() == 0)
        &&& 20 * (self.current_chunk + if self.rows.len() > 0 {
            1int
        } else {
            0int
        }) <= self.position
    }
}

/// The whole rows that stand at the start of the leftover, back to back.
pub open spec fn rows_in_leftover(s: StreamView) -> Seq<u64> {
    s.pending.take((s.pending.len() as int / s.columns()) * s.columns())
}

/// The stream after its leftover is flushed: a leftover of at least one row
/// is given up, whole rows and remainder alike; a shorter one stays.
pub open spec fn flushed(s: StreamView) -> StreamView {
    if s.pending.len() >= s.columns() {
        StreamView { pending: Seq::empty(), ..s }
    } else {
        s
    }
}

/// Whether the signal called `name` is handed out under `filter`.
pub open spec fn is_selected(filter: Option<Seq<Seq<char>>>, name: Seq<char>) -> bool {
    match filter {
        None => true,
        Some(list) => is_listed(list, name),
    }
}

/// The entries of the first `i` signals that `filter` selects, over the rows
/// `rows`.
pub open spec fn selected_upto(
    header: HeaderView,
    filter: Option<Seq<Seq<char>>>,
    rows: Seq<u64>,
    i: int,
) -> Seq<(Seq<char>, VectorView)>
    decreases i,
{
    if i <= 0 {
        Seq::empty()
    } else {
        let before = selected_upto(header, filter, rows, i - 1);
        if is_selected(filter, header.names[i - 1]) {
            before.push(
                (
                    header.names[i - 1],
                    signal_column(
                        rows,
                        0,
                        rows.len() as int / header.columns(),
                        header.columns(),
                        i - 1,
                        header.num_variables,
                        header.var_type,
                    ),
                ),
            )
        } else {
            before
        }
    }
}

/// The chunk with index `index` that the rows `rows` make: the scale of the
/// first and of the last row as its range, then the scale and every selected
/// signal as vectors over all the rows.
pub open spec fn chunk_from(
    header: HeaderView,
    filter: Option<Seq<Seq<char>>>,
    index: int,
    rows: Seq<u64>,
) -> ChunkView {
    let cols = header.columns();
    let count = rows.len() as int / cols;
    ChunkView {
        chunk_index: index,
        time_range: (rows[0], rows[(count - 1) * cols]),
        data: seq![(header.scale_name, scale_column(rows, 0, count, cols))] + selected_upto(
            header,
            filter,
            rows,
            header.names.len() as int,
        ),
    }
}

/// The values of a block as the stream takes them: without the end marker.
pub open spec fn stripped(block: Block) -> Seq<u64> {
    if block.is_end && block.values.len() > 0 {
        block.values.drop_last()
    } else {
        block.values
    }
}

/// The values that stand for rows once `values` follow on the leftover: in a
/// swept file the very first value read, the sweep value, is left out.
pub open spec fn joined(s: StreamView, values: Seq<u64>) -> Seq<u64> {
    let all = s.pending + values;
    if s.first_read && s.header.sweep_name is Some && all.len() > 0 {
        all.skip(1)
    } else {
        all
    }
}

/// The stream after the rows of `values` are split off: the complete rows go
/// to the row buffer, the rest becomes the leftover.
pub open spec fn with_rows_of(s: StreamView, values: Seq<u64>) -> StreamView {
    let all = joined(s, values);
    let complete = (all.len() as int / s.columns()) * s.columns();
    StreamView {
        rows: s.rows + all.take(complete),
        pending: all.skip(complete),
        first_read: false,
        ..s
    }
}

/// The stream after it has read `block`.
pub open spec fn absorbed(s: StreamView, block: Block) -> StreamView {
    with_rows_of(
        StreamView {
            position: block.end,
            state: if block.is_end {
                StreamState::Draining
            } else {
                s.state
            },
            ..s
        },
        stripped(block),
    )
}

/// The stream after it has read blocks until enough rows are buffered or the
/// data has ended, and the failure that stopped it, if one did. A block is
/// read whole or not at all.
pub open spec fn filled(s: StreamView) -> (StreamView, Option<Fault>)
    decreases s.data.len() - s.position,
{
    if s.state != StreamState::Reading || s.buffered() >= s.min_chunk_size {
        (s, None)
    } else if s.position >= s.data.len() {
        (StreamView { state: StreamState::Draining, ..s }, None)
    } else {
        match block_at(s.data, s.position, s.header.post_version) {
            Err(fault) => (s, Some(fault)),
            Ok(block) => if s.position < block.end <= s.data.len() {
                filled(absorbed(s, block))
            } else {
                (s, Some(fault_eof()))
            },
        }
    }
}

/// What one call of `next` hands out.
pub enum Outcome {
    /// A chunk of all buffered rows.
    Chunk(ChunkView),
    /// A block could not be read.
    Failed(Fault),
    /// No rows are buffered and the data has ended.
    End,
}

/// One call of `next`: the stream after it and what it hands out.
pub open spec fn stepped(s: StreamView) -> (StreamView, Outcome) {
    let (t, fault) = filled(s);
    match fault {
        Some(f) => (t, Outcome::Failed(f)),
        None => if t.rows.len() == 0 {
            (StreamView { state: StreamState::Done, ..t }, Outcome::End)
        } else {
            (
                StreamView { rows: Seq::empty(), current_chunk: t.current_chunk + 1, ..t },
                Outcome::Chunk(chunk_from(t.header, t.filter, t.current_chunk, t.rows)),
            )
        },
    }
}

/// The stream as it stands when a file is opened.
pub open spec fn opened(data: Seq<u8>, min_chunk_size: int) -> Result<StreamView, Fault> {
    match header_only(data) {
        Err(fault) => Err(fault),
        Ok((header, position)) => Ok(
            StreamView {
                data,
                position,
                header,
                min_chunk_size: if min_chunk_size > 1 {
                    min_chunk_size
                } else {
                    1
                },
                current_chunk: 0,
                filter: None,
                state: StreamState::Reading,
                rows: Seq::empty(),
                pending: Seq::empty(),
                first_read: true,
            },
        ),
    }
}

// ----------------------------------------------------------------------------
// Arithmetic of whole rows
// ----------------------------------------------------------------------------

/// Among `len` values there are `len / cols` whole rows, and fewer than
/// `cols` values after them.
pub proof fn lemma_whole_rows(len: int, cols: int)
    requires
        0 <= len,
        0 < cols,
    ensures
        0 <= len / cols,
        0 <= (len / cols) * cols <= len,
        len - (len / cols) * cols == len % cols,
        0 <= len % cols < cols,
        ((len / cols) * cols) % cols == 0,
        ((len / cols) * cols) / cols == len / cols,
{
    vstd::arithmetic::div_mod::lemma_fundamental_div_mod(len, cols);
    vstd::arithmetic::div_mod::lemma_div_pos_is_pos(len, cols);
    vstd::arithmetic::div_mod::lemma_mod_multiples_basic(len / cols, cols);
    vstd::arithmetic::div_mod::lemma_div_multiples_vanish(len / cols, cols);
    assert(cols * (len / cols) == (len / cols) * cols) by (nonlinear_arith);
    assert(0 <= (len / cols) * cols) by (nonlinear_arith)
        requires
            0 <= len / cols,
            0 < cols,
    ;
    assert(0 <= len % cols < cols) by (nonlinear_arith)
        requires
            0 < cols,
    ;
}

/// Whole rows after whole rows are whole rows, and their numbers add up.
pub proof fn lemma_rows_add(a: int, b: int, cols: int)
    requires
        0 <= a,
        0 <= b,
        0 < cols,
        a % cols == 0,
        b % cols == 0,
    ensures
        (a + b) % cols == 0,
        (a + b) / cols == a / cols + b / cols,
{
    vstd::arithmetic::div_mod::lemma_fundamental_div_mod(a, cols);
    vstd::arithmetic::div_mod::lemma_fundamental_div_mod(b, cols);
    let x = a / cols;
    let y = b / cols;
    assert(a + b == cols * (x + y)) by (nonlinear_arith)
        requires
            a == cols * x,
            b == cols * y,
    ;
    vstd::arithmetic::div_mod::lemma_div_multiples_vanish(x + y, cols);
    vstd::arithmetic::div_mod::lemma_mod_multiples_basic(x + y, cols);
    assert((x + y) * cols == cols * (x + y)) by (nonlinear_arith);
}

// ----------------------------------------------------------------------------
// The reader
// ----------------------------------------------------------------------------

/// A stream over a file held in memory.
pub struct HspiceStreamReader<'a> {
    data: &'a [u8],
    data_position: usize,
    metadata: HeaderMetadata,
    min_chunk_size: usize,
    current_chunk: usize,
    signal_filter: Option<Vec<String>>,
    state: StreamState,
    row_buffer: Vec<u64>,
    pending_data: Vec<u64>,
    num_columns: usize,
    first_read: bool,
}

/// The view of an optional list of strings.
pub open spec fn option_list(filter: Option<Vec<String>>) -> Option<Seq<Seq<char>>> {
    match filter {
        Some(list) => Some(string_views(list@)),
        None => None,
    }
}

impl<'a> View for HspiceStreamReader<'a> {
    type V = StreamView;

    closed spec fn view(&self) -> StreamView {
        StreamView {
            data: self.data@,
            position: self.data_position as int,
            header: self.metadata@,
            min_chunk_size: self.min_chunk_size as int,
            current_chunk: self.current_chunk as int,
            filter: option_list(self.signal_filter),
            state: self.state,
            rows: self.row_buffer@,
            pending: self.pending_data@,
            first_read: self.first_read,
        }
    }
}

impl<'a> HspiceStreamReader<'a> {
    /// The state is well formed and the row width is the one the header gives.
    pub closed spec fn well_formed(&self) -> bool {
        self@.well_formed() && self.num_columns == self@.columns()
    }

    /// As `well_formed`, but the leftover may hold whole rows.
    pub closed spec fn well_formed_apart_from_leftover(&self) -> bool {
        self@.well_formed_apart_from_leftover() && self.num_columns == self@.columns()
    }

    /// A well-formed reader has a well-formed state.
    pub proof fn lemma_well_formed(&self)
        requires
            self.well_formed(),
        ensures
            self@.well_formed(),
    {
    }

    /// Opens a stream over `data`, to hand out chunks of at least
    /// `min_chunk_size` rows, and of at least one row in any case. Only the
    /// header is parsed.
    pub fn open(data: &'a [u8], min_chunk_size: usize) -> (r: Result<Self, WaveformError>)
        ensures
            match opened(data@, min_chunk_size as int) {
                Ok(s) => r is Ok && r->Ok_0@ == s && r->Ok_0.well_formed(),
                Err(fault) => r is Err && r->Err_0@ == fault,
            },
    {
        let (metadata, data_position) = match parse_header_only(data) {
            Ok(found) => found,
            Err(e) => {
                return Err(e);
            },
        };
        proof {
            crate::parser::lemma_header_blob_position(data@, 0, Seq::empty());
        }
        let num_columns = match crate::layout::row_width(
            metadata.num_vectors,
            metadata.num_variables,
            metadata.var_type,
        ) {
            Some(n) => n,
            None => 0,
        };
        proof {
            assert(vstd::slice::spec_slice_len(data) == data@.len());
        }
        let reader = Self {
            data,
            data_position,
            metadata,
            min_chunk_size: if min_chunk_size > 1 {
                min_chunk_size
            } else {
                1
            },
            current_chunk: 0,
            signal_filter: None,
            state: StreamState::Reading,
            row_buffer: Vec::new(),
            pending_data: Vec::new(),
            num_columns,
            first_read: true,
        };
        proof {
            let s = opened(data@, min_chunk_size as int)->Ok_0;
            assert(reader@ == s);
            assert(0int % s.columns() == 0) by (nonlinear_arith)
                requires
                    s.columns() >= 1,
            ;
        }
        Ok(reader)
    }

    /// Hands out only the signals named in `signals`.
    pub fn with_signals(self, signals: Vec<String>) -> (r: Self)
        requires
            self.well_formed(),
        ensures
            r.well_formed(),
            r@ == (StreamView { filter: Some(string_views(signals@)), ..self@ }),
    {
        let mut reader = self;
        reader.signal_filter = Some(signals);
        reader
    }

    /// What the header says of the file.
    pub fn metadata(&self) -> (m: StreamMetadata)
        ensures
            m.title@ == self@.header.title,
            m.date@ == self@.header.date,
            m.scale_name@ == self@.header.scale_name,
            string_views(m.signal_names@) == self@.header.names,
            m.post_version == self@.header.post_version,
            m.is_complex == (self@.header.var_type == COMPLEX_VAR),
    {
        StreamMetadata {
            title: self.metadata.title.clone(),
            date: self.metadata.date.clone(),
            scale_name: self.metadata.scale_name.clone(),
            signal_names: clone_names(&self.metadata.names),
            post_version: self.metadata.post_version,
            is_complex: self.metadata.var_type == COMPLEX_VAR,
        }
    }

    /// Whether the signal called `name` is handed out.
    fn should_include_signal(&self, name: &str) -> (b: bool)
        ensures
            b == is_selected(self@.filter, name@),
    {
        match &self.signal_filter {
            Some(list) => find_name(list.as_slice(), name) < list.len(),
            None => true,
        }
    }
}

impl<'a> HspiceStreamReader<'a> {
    /// Reads the next block, if blocks are still being read and one is left,
    /// and returns its values without the end marker. The end of the input
    /// and a block that ends the data both end the reading.
    fn read_one_block(&mut self) -> (r: Result<Option<Vec<u64>>, WaveformError>)
        requires
            old(self).well_formed(),
        ensures
            final(self).well_formed(),
            old(self)@.state != StreamState::Reading ==> r is Ok && r->Ok_0 is None && final(self)@
                == old(self)@,
            old(self)@.state == StreamState::Reading && old(self)@.position >= old(self)@.data.len()
                ==> r is Ok && r->Ok_0 is None && final(self)@ == (StreamView {
                state: StreamState::Draining,
                ..old(self)@
            }),
            old(self)@.state == StreamState::Reading && old(self)@.position < old(self)@.data.len()
                ==> match block_at(
                old(self)@.data,
                old(self)@.position,
                old(self)@.header.post_version,
            ) {
                Ok(block) => {
                    &&& r is Ok
                    &&& r->Ok_0 is Some
                    &&& r->Ok_0->Some_0@ == stripped(block)
                    &&& old(self)@.position + 20 <= block.end <= old(self)@.data.len()
                    &&& final(self)@ == (StreamView {
                        position: block.end,
                        state: if block.is_end {
                            StreamState::Draining
                        } else {
                            StreamState::Reading
                        },
                        ..old(self)@
                    })
                },
                Err(fault) => r is Err && r->Err_0@ == fault && final(self)@ == old(self)@,
            },
    {
        match self.state {
            StreamState::Reading => {},
            _ => {
                return Ok(None);
            },
        }
        if self.data_position >= self.data.len() {
            self.state = StreamState::Draining;
            return Ok(None);
        }
        let mut block_reader = BlockReader::starting_at(
            self.data,
            self.data_position,
            self.metadata.post_version,
        );
        proof {
            if block_at(self.data@, self.data_position as int, self.metadata.post_version) is Ok {
                lemma_block_extent(
                    self.data@,
                    self.data_position as int,
                    self.metadata.post_version,
                );
            }
        }
        let block = match block_reader.next_block() {
            Ok(Some(block)) => block,
            Ok(None) => {
                self.state = StreamState::Draining;
                return Ok(None);
            },
            Err(e) => {
                return Err(e);
            },
        };
        self.data_position = block_reader.bytes_consumed();
        let mut values = block.values;
        if block.is_end {
            self.state = StreamState::Draining;
            if values.len() > 0 {
                values.pop();
            }
        }
        Ok(Some(values))
    }

    /// Joins the values of a block to the leftover and splits off the
    /// complete rows. In a swept file the very first value read is dropped.
    /// What does not fill a row becomes the new leftover.
    fn block_to_rows(&mut self, block_data: Vec<u64>) -> (rows: Vec<u64>)
        requires
            old(self).well_formed(),
        ensures
            final(self).well_formed(),
            rows@.len() % (old(self)@.columns() as nat) == 0,
            with_rows_of(old(self)@, block_data@) == (StreamView {
                rows: old(self)@.rows + rows@,
                ..final(self)@
            }),
            final(self)@.rows == old(self)@.rows,
    {
        let ghost s = self@;
        let ghost cols = s.columns();
        let ghost given = block_data@;
        let mut block_data = block_data;
        let mut raw_data: Vec<u64> = Vec::new();
        raw_data.append(&mut self.pending_data);
        raw_data.append(&mut block_data);
        assert(raw_data@ == s.pending + given);
        if self.first_read && self.metadata.sweep_name.is_some() && raw_data.len() > 0 {
            raw_data.remove(0);
        }
        assert(raw_data@ == joined(s, given));
        self.first_read = false;
        let total_values = raw_data.len();
        proof {
            lemma_whole_rows(total_values as int, cols);
        }
        let num_complete_rows = total_values / self.num_columns;
        let complete_values = num_complete_rows * self.num_columns;
        let rest = raw_data.split_off(complete_values);
        self.pending_data = rest;
        assert(raw_data@ == joined(s, given).take(complete_values as int));
        assert(self.pending_data@ == joined(s, given).skip(complete_values as int));
        raw_data
    }

    /// Takes the whole rows out of the leftover once the data has ended. Where
    /// the leftover holds at least one row, its whole rows are returned and the
    /// rest of it is dropped; a leftover of less than a row stays as it is and
    /// nothing is returned.
    fn flush_pending(&mut self) -> (rows: Vec<u64>)
        requires
            old(self).well_formed_apart_from_leftover(),
        ensures
            final(self).well_formed(),
            final(self)@ == flushed(old(self)@),
            rows@ == (if old(self)@.pending.len() >= old(self)@.columns() {
                rows_in_leftover(old(self)@)
            } else {
                Seq::empty()
            }),
            rows@.len() % (old(self)@.columns() as nat) == 0,
    {
        let ghost cols = self@.columns();
        let ghost leftover = self@.pending;
        proof {
            lemma_whole_rows(leftover.len() as int, cols);
            assert(0nat % (cols as nat) == 0) by (nonlinear_arith)
                requires
                    cols >= 1,
            ;
        }
        if self.pending_data.len() >= self.num_columns && self.num_columns > 0 {
            let num_rows = self.pending_data.len() / self.num_columns;
            let mut rows: Vec<u64> = Vec::new();
            rows.append(&mut self.pending_data);
            rows.truncate(num_rows * self.num_columns);
            assert(rows@ == leftover.take((leftover.len() as int / cols) * cols));
            rows
        } else {
            Vec::new()
        }
    }

    /// Makes a chunk of the given rows. No rows make no chunk.
    fn build_chunk(&self, rows: &[u64]) -> (r: Option<DataChunk>)
        requires
            self.well_formed(),
            rows@.len() % (self@.columns() as nat) == 0,
        ensures
            rows@.len() == 0 ==> r is None,
            rows@.len() > 0 ==> r is Some && r->Some_0@ == chunk_from(
                self@.header,
                self@.filter,
                self@.current_chunk,
                rows@,
            ),
    {
        if rows.len() == 0 {
            return None;
        }
        let cols = self.num_columns;
        let count = rows.len() / cols;
        proof {
            lemma_whole_rows(rows@.len() as int, cols as int);
            assert(count >= 1) by (nonlinear_arith)
                requires
                    rows@.len() > 0,
                    cols > 0,
                    rows@.len() == count * cols,
            ;
            crate::layout::lemma_row_within(count - 1, count as int, cols as int);
        }
        let scale = real_column(rows, 0, count, cols, 0);
        let time_range = (rows[0], rows[(count - 1) * cols]);
        let ghost want = chunk_from(self@.header, self@.filter, self@.current_chunk, rows@);
        let mut data: Vec<(String, VectorData)> = Vec::new();
        data.push((self.metadata.scale_name.clone(), VectorData::Real(scale)));
        assert(entry_views(data@) == seq![
            (self@.header.scale_name, scale_column(rows@, 0, count as int, cols as int)),
        ]);
        let mut i: usize = 0;
        while i < self.metadata.names.len()
            invariant
                self.well_formed(),
                i <= self.metadata.names@.len(),
                cols == self.num_columns,
                count == rows@.len() as int / cols as int,
                count * cols == rows@.len(),
                count >= 1,
                entry_views(data@) == seq![
                    (self@.header.scale_name, scale_column(rows@, 0, count as int, cols as int)),
                ] + selected_upto(self@.header, self@.filter, rows@, i as int),
            decreases self.metadata.names@.len() - i,
        {
            let name = &self.metadata.names[i];
            assert(self@.header.names[i as int] == name@);
            let ghost before = entry_views(data@);
            if self.should_include_signal(name.as_str()) {
                let column = extract_signal(
                    rows,
                    0,
                    count,
                    cols,
                    i,
                    self.metadata.num_vectors,
                    self.metadata.num_variables,
                    self.metadata.var_type,
                );
                data.push((name.clone(), column));
                assert(entry_views(data@) == before.push(
                    (
                        name@,
                        signal_column(
                            rows@,
                            0,
                            count as int,
                            cols as int,
                            i as int,
                            self@.header.num_variables,
                            self@.header.var_type,
                        ),
                    ),
                ));
            }
            i = i + 1;
        }
        assert(i == self@.header.names.len());
        Some(DataChunk { chunk_index: self.current_chunk, time_range, data })
    }

    /// Reads whole blocks until at least the wanted number of rows is buffered
    /// or the data has ended. Returns the error if a block cannot be read.
    fn fill(&mut self) -> (r: Option<WaveformError>)
        requires
            old(self).well_formed(),
        ensures
            final(self).well_formed(),
            final(self)@ == filled(old(self)@).0,
            match filled(old(self)@).1 {
                Some(fault) => r is Some && r->Some_0@ == fault,
                None => r is None,
            },
    {
        loop
            invariant_except_break
                filled(self@) == filled(old(self)@),
            invariant
                self.well_formed(),
            ensures
                self@ == filled(old(self)@).0,
                filled(old(self)@).1 is None,
            decreases self@.data.len() - self@.position,
        {
            if self.row_buffer.len() / self.num_columns >= self.min_chunk_size || !self.is_reading() {
                break;
            }
            let ghost s = self@;
            match self.read_one_block() {
                Ok(Some(block_data)) => {
                    let mut rows = self.block_to_rows(block_data);
                    let ghost split = self@;
                    proof {
                        lemma_rows_add(
                            split.rows.len() as int,
                            rows@.len() as int,
                            split.columns(),
                        );
                    }
                    self.row_buffer.append(&mut rows);
                    assert(self@ == absorbed(
                        s,
                        block_at(s.data, s.position, s.header.post_version)->Ok_0,
                    ));
                },
                Ok(None) => {
                    break;
                },
                Err(e) => {
                    return Some(e);
                },
            }
        }
        None
    }

    /// Hands out the next chunk: reads whole blocks until at least the wanted
    /// number of rows is buffered or the data has ended, then gives all
    /// buffered rows as one chunk. Gives `None` when no rows are buffered and
    /// the data has ended, and the error when a block cannot be read.
    pub fn next(&mut self) -> (r: Option<Result<DataChunk, WaveformError>>)
        requires
            old(self).well_formed(),
        ensures
            final(self).well_formed(),
            final(self)@ == stepped(old(self)@).0,
            match stepped(old(self)@).1 {
                Outcome::Chunk(chunk) => r is Some && r->Some_0 is Ok && r->Some_0->Ok_0@ == chunk,
                Outcome::Failed(fault) => r is Some && r->Some_0 is Err && r->Some_0->Err_0@
                    == fault,
                Outcome::End => r is None,
            },
    {
        match self.fill() {
            Some(e) => {
                return Some(Err(e));
            },
            None => {},
        }
        if !self.is_reading() && self.pending_data.len() > 0 {
            let mut final_rows = self.flush_pending();
            self.row_buffer.append(&mut final_rows);
        }
        let ghost t = self@;
        assert(t == filled(old(self)@).0);
        if self.row_buffer.len() == 0 {
            self.state = StreamState::Done;
            return None;
        }
        let mut chunk_rows: Vec<u64> = Vec::new();
        chunk_rows.append(&mut self.row_buffer);
        proof {
            assert(0nat % (self@.columns() as nat) == 0) by (nonlinear_arith)
                requires
                    self@.columns() >= 1,
            ;
        }
        match self.build_chunk(chunk_rows.as_slice()) {
            Some(chunk) => {
                self.current_chunk = self.current_chunk + 1;
                Some(Ok(chunk))
            },
            None => None,
        }
    }

    /// Whether blocks are still being read.
    fn is_reading(&self) -> (b: bool)
        ensures
            b == (self@.state == StreamState::Reading),
    {
        match self.state {
            StreamState::Reading => true,
            _ => false,
        }
    }

    /// Goes back to the start of the data section and forgets all buffered
    /// values, so that the file can be streamed again. The filter stays.
    pub fn reset(&mut self)
        requires
            old(self).well_formed(),
        ensures
            final(self).well_formed(),
            opened(old(self)@.data, old(self)@.min_chunk_size) is Ok,
            final(self)@ == (StreamView {
                filter: old(self)@.filter,
                ..opened(old(self)@.data, old(self)@.min_chunk_size)->Ok_0
            }),
    {
        match parse_header_only(self.data) {
            Ok((_, position)) => {
                proof {
                    crate::parser::lemma_header_blob_position(self.data@, 0, Seq::empty());
                }
                self.data_position = position;
                self.current_chunk = 0;
                self.state = StreamState::Reading;
                self.row_buffer.clear();
                self.pending_data.clear();
                self.first_read = true;
                proof {
                    assert(0nat % (self@.columns() as nat) == 0) by (nonlinear_arith)
                        requires
                            self@.columns() >= 1,
                    ;
                }
            },
            Err(_) => {},
        }
    }
}

/// A copy of a list of names.
fn clone_names(names: &Vec<String>) -> (r: Vec<String>)
    ensures
        string_views(r@) == string_views(names@),
{
    let mut r: Vec<String> = Vec::new();
    let mut i: usize = 0;
    while i < names.len()
        invariant
            i <= names@.len(),
            r@.len() == i,
            forall|j: int| 0 <= j < i ==> (#[trigger] r@[j])@ == names@[j]@,
        decreases names@.len() - i,
    {
        r.push(names[i].clone());
        i = i + 1;
    }
    assert(string_views(r@) == string_views(names@));
    r
}

// ----------------------------------------------------------------------------
// Opening a stream
// ----------------------------------------------------------------------------

/// Opens a stream that hands out chunks of at least `DEFAULT_CHUNK_SIZE`
/// rows.
pub fn read_stream<'a>(data: &'a [u8]) -> (r: Result<HspiceStreamReader<'a>, WaveformError>)
    ensures
        match opened(data@, DEFAULT_CHUNK_SIZE as int) {
            Ok(s) => r is Ok && r->Ok_0@ == s && r->Ok_0.well_formed(),
            Err(fault) => r is Err && r->Err_0@ == fault,
        },
{
    HspiceStreamReader::open(data, DEFAULT_CHUNK_SIZE)
}

/// Opens a stream that hands out chunks of at least `chunk_size` rows.
pub fn read_stream_chunked<'a>(data: &'a [u8], chunk_size: usize) -> (r: Result<
    HspiceStreamReader<'a>,
    WaveformError,
>)
    ensures
        match opened(data@, chunk_size as int) {
            Ok(s) => r is Ok && r->Ok_0@ == s && r->Ok_0.well_formed(),
            Err(fault) => r is Err && r->Err_0@ == fault,
        },
{
    HspiceStreamReader::open(data, chunk_size)
}

/// Opens a stream that hands out only the signals named in `signals`, in
/// chunks of at least `chunk_size` rows.
pub fn read_stream_signals<'a>(data: &'a [u8], signals: &[&str], chunk_size: usize) -> (r: Result<
    HspiceStreamReader<'a>,
    WaveformError,
>)
    ensures
        match opened(data@, chunk_size as int) {
            Ok(s) => r is Ok && r->Ok_0.well_formed() && r->Ok_0@ == (StreamView {
                filter: Some(signals@.map_values(|t: &str| t@)),
                ..s
            }),
            Err(fault) => r is Err && r->Err_0@ == fault,
        },
{
    let reader = match HspiceStreamReader::open(data, chunk_size) {
        Ok(reader) => reader,
        Err(e) => {
            return Err(e);
        },
    };
    let mut names: Vec<String> = Vec::new();
    let mut i: usize = 0;
    while i < signals.len()
        invariant
            i <= signals@.len(),
            names@.len() == i,
            forall|j: int| 0 <= j < i ==> (#[trigger] names@[j])@ == signals@[j]@,
        decreases signals@.len() - i,
    {
        names.push(String::from_str(signals[i]));
        i = i + 1;
    }
    assert(string_views(names@) == signals@.map_values(|t: &str| t@));
    Ok(reader.with_signals(names))
}

} // verus!
