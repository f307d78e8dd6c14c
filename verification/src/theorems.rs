//! What holds of a whole stream, and of a stream next to a full decode.
//!
//! The statements speak of the calls of `next` one after another: the state
//! after a number of calls, what each call hands out, and the values that the
//! stream has still before it.

use crate::block_reader::{block_at, lemma_block_extent, payload_at, Block};
use crate::header::field_int;
use crate::ieee::{double_is_finite, double_le, lemma_widened_class, single_is_finite};
use crate::layout::{
    column_count, complex_values, layout_fits, lemma_row_within, lemma_signal_within_row,
    real_values, scale_column, signal_column,
};
use crate::reader::{frame_at, long_word, unsigned_word};
use crate::parser::{
    decoded, header_only, lemma_table_is_rectangular, lemma_table_values, table_of, table_rows,
    table_values_from, tables_from, HeaderView,
};
use crate::stream::{
    absorbed, chunk_from, filled, joined, lemma_rows_add, lemma_whole_rows, opened,
    selected_upto, stepped, stripped, Outcome, StreamState, StreamView,
};
use crate::parser::{description_tokens, header_of};
use crate::types::{Endian, PostVersion, VectorView};
use vstd::prelude::*;

verus! {

// ----------------------------------------------------------------------------
// The values that a stream has before it
// ----------------------------------------------------------------------------

/// `values` joined to the leftover `pending`, without the first value where
/// `drop_first` asks for it and there is one.
pub open spec fn joined_values(pending: Seq<u64>, values: Seq<u64>, drop_first: bool) -> Seq<u64> {
    let all = pending + values;
    if drop_first && all.len() > 0 {
        all.skip(1)
    } else {
        all
    }
}

/// The values that will stand for rows after the leftover `pending`, given
/// that the next block is at `position`: the leftover, then the values of the
/// blocks up to the end of the data, the end marker and the sweep value left
/// out. Reading ends with the block that ends the data, with the end of the
/// input, or with a block that cannot be read.
pub open spec fn tail_values(
    data: Seq<u8>,
    position: int,
    header: HeaderView,
    reading: bool,
    first_read: bool,
    pending: Seq<u64>,
) -> Seq<u64>
    decreases data.len() - position,
{
    if !reading || position >= data.len() {
        pending
    } else {
        match block_at(data, position, header.post_version) {
            Err(_) => pending,
            Ok(block) => if position < block.end <= data.len() {
                let all = joined_values(
                    pending,
                    stripped(block),
                    first_read && header.sweep_name is Some,
                );
                let complete = (all.len() as int / header.columns()) * header.columns();
                all.take(complete) + tail_values(
                    data,
                    block.end,
                    header,
                    !block.is_end,
                    false,
                    all.skip(complete),
                )
            } else {
                pending
            },
        }
    }
}

/// All values that a stream has before it: the buffered rows, the leftover,
/// and what the blocks still to be read will add.
pub open spec fn values_ahead(s: StreamView) -> Seq<u64> {
    s.rows + tail_values(
        s.data,
        s.position,
        s.header,
        s.state == StreamState::Reading,
        s.first_read,
        s.pending,
    )
}

/// Reading a block keeps a stream well formed and leaves the values before it
/// as they were.
pub proof fn lemma_absorbed(s: StreamView, block: Block)
    requires
        s.well_formed(),
        s.state == StreamState::Reading,
        s.position < s.data.len(),
        block_at(s.data, s.position, s.header.post_version) == Ok::<Block, crate::types::Fault>(
            block,
        ),
    ensures
        absorbed(s, block).well_formed(),
        values_ahead(absorbed(s, block)) == values_ahead(s),
        s.position + 20 <= absorbed(s, block).position <= s.data.len(),
        absorbed(s, block).data == s.data,
        absorbed(s, block).header == s.header,
        absorbed(s, block).filter == s.filter,
        absorbed(s, block).min_chunk_size == s.min_chunk_size,
        absorbed(s, block).current_chunk == s.current_chunk,
        absorbed(s, block).state != StreamState::Done,
{
    lemma_block_extent(s.data, s.position, s.header.post_version);
    let cols = s.columns();
    let a = absorbed(s, block);
    let all = joined(s, stripped(block));
    assert(all == joined_values(
        s.pending,
        stripped(block),
        s.first_read && s.header.sweep_name is Some,
    ));
    lemma_whole_rows(all.len() as int, cols);
    let complete = (all.len() as int / cols) * cols;
    assert(a.rows == s.rows + all.take(complete));
    assert(a.pending == all.skip(complete));
    lemma_rows_add(s.rows.len() as int, complete, cols);
    assert(a.rows.len() == s.rows.len() + complete);
    assert(values_ahead(a) == values_ahead(s)) by {
        let rest = tail_values(s.data, block.end, s.header, !block.is_end, false, a.pending);
        assert((s.rows + all.take(complete)) + rest == s.rows + (all.take(complete) + rest));
    }
}

/// Filling the row buffer keeps a stream well formed, leaves the values
/// before it as they were, and ends without failure only with enough rows
/// buffered or with the data at its end.
pub proof fn lemma_filled(s: StreamView)
    requires
        s.well_formed(),
    ensures
        filled(s).0.well_formed(),
        values_ahead(filled(s).0) == values_ahead(s),
        filled(s).0.data == s.data,
        filled(s).0.header == s.header,
        filled(s).0.filter == s.filter,
        filled(s).0.min_chunk_size == s.min_chunk_size,
        filled(s).0.current_chunk == s.current_chunk,
        s.state != StreamState::Done ==> filled(s).0.state != StreamState::Done,
        s.state == StreamState::Done ==> filled(s).0 == s,
        filled(s).1 is None ==> filled(s).0.state != StreamState::Reading || filled(s).0.buffered()
            >= s.min_chunk_size,
    decreases s.data.len() - s.position,
{
    if s.state != StreamState::Reading || s.buffered() >= s.min_chunk_size {
    } else if s.position >= s.data.len() {
    } else {
        match block_at(s.data, s.position, s.header.post_version) {
            Err(_) => {},
            Ok(block) => {
                lemma_block_extent(s.data, s.position, s.header.post_version);
                lemma_absorbed(s, block);
                lemma_filled(absorbed(s, block));
            },
        }
    }
}

/// What one call of `next` does to a well-formed stream. The stream stays
/// well formed. A chunk holds all rows buffered after filling, at least one,
/// and these are the first of the values that the stream had before it; the
/// others are still before it. A failure or the end hands out nothing.
pub proof fn lemma_stepped(s: StreamView)
    requires
        s.well_formed(),
    ensures
        stepped(s).0.well_formed(),
        stepped(s).0.data == s.data,
        stepped(s).0.header == s.header,
        stepped(s).0.filter == s.filter,
        stepped(s).0.min_chunk_size == s.min_chunk_size,
        match stepped(s).1 {
            Outcome::Chunk(chunk) => {
                &&& filled(s).0.rows.len() > 0
                &&& filled(s).0.rows.len() % (s.columns() as nat) == 0
                &&& chunk == chunk_from(s.header, s.filter, s.current_chunk, filled(s).0.rows)
                &&& values_ahead(s) == filled(s).0.rows + values_ahead(stepped(s).0)
                &&& stepped(s).0.current_chunk == s.current_chunk + 1
            },
            Outcome::Failed(_) => {
                &&& values_ahead(stepped(s).0) == values_ahead(s)
                &&& stepped(s).0.current_chunk == s.current_chunk
            },
            Outcome::End => {
                &&& values_ahead(stepped(s).0) == values_ahead(s)
                &&& stepped(s).0.current_chunk == s.current_chunk
                &&& stepped(s).0.state == StreamState::Done
                &&& values_ahead(s).len() < s.columns()
            },
        },
{
    lemma_filled(s);
    let t = filled(s).0;
    let cols = s.columns();
    if filled(s).1 is None {
        if t.rows.len() == 0 {
            let u = stepped(s).0;
            assert(t.state != StreamState::Reading) by {
                if t.state == StreamState::Reading {
                    assert(t.buffered() >= 1);
                    vstd::arithmetic::div_mod::lemma_basic_div(0, cols);
                }
            }
            assert(values_ahead(t) == t.rows + t.pending);
            assert(values_ahead(u) == u.rows + u.pending);
            assert(t.rows + t.pending == t.pending);
        } else {
            let u = stepped(s).0;
            assert(values_ahead(u) == Seq::<u64>::empty() + tail_values(
                t.data,
                t.position,
                t.header,
                t.state == StreamState::Reading,
                t.first_read,
                t.pending,
            ));
            assert(Seq::<u64>::empty() + tail_values(
                t.data,
                t.position,
                t.header,
                t.state == StreamState::Reading,
                t.first_read,
                t.pending,
            ) == tail_values(
                t.data,
                t.position,
                t.header,
                t.state == StreamState::Reading,
                t.first_read,
                t.pending,
            ));
            assert(0nat % (cols as nat) == 0) by (nonlinear_arith)
                requires
                    cols >= 1,
            ;
        }
    }
}

// ----------------------------------------------------------------------------
// Calls of `next` one after another
// ----------------------------------------------------------------------------

/// The stream after `k` calls of `next`.
pub open spec fn after_calls(s: StreamView, k: nat) -> StreamView
    decreases k,
{
    if k == 0 {
        s
    } else {
        stepped(after_calls(s, (k - 1) as nat)).0
    }
}

/// What call number `k` of `next` hands out, counting from 0.
pub open spec fn outcome_of_call(s: StreamView, k: nat) -> Outcome {
    stepped(after_calls(s, k)).1
}

/// The rows of the chunk that call number `k` hands out, back to back, or
/// nothing where it hands out no chunk.
pub open spec fn rows_of_call(s: StreamView, k: nat) -> Seq<u64> {
    if outcome_of_call(s, k) is Chunk {
        filled(after_calls(s, k)).0.rows
    } else {
        Seq::empty()
    }
}

/// Number of chunks that the first `k` calls hand out.
pub open spec fn chunks_before(s: StreamView, k: nat) -> nat
    decreases k,
{
    if k == 0 {
        0
    } else {
        chunks_before(s, (k - 1) as nat) + if outcome_of_call(s, (k - 1) as nat) is Chunk {
            1nat
        } else {
            0nat
        }
    }
}

/// The rows that the first `k` calls hand out, back to back.
pub open spec fn handed_out(s: StreamView, k: nat) -> Seq<u64>
    decreases k,
{
    if k == 0 {
        Seq::empty()
    } else {
        handed_out(s, (k - 1) as nat) + rows_of_call(s, (k - 1) as nat)
    }
}

/// Number of rows in the chunks that the first `k` calls hand out.
pub open spec fn rows_handed_out(s: StreamView, k: nat) -> nat
    decreases k,
{
    if k == 0 {
        0
    } else {
        rows_handed_out(s, (k - 1) as nat) + match outcome_of_call(s, (k - 1) as nat) {
            Outcome::Chunk(chunk) => chunk.rows(),
            _ => 0nat,
        }
    }
}

/// A chunk has as many rows as the rows it was made of.
pub proof fn lemma_chunk_rows(
    header: HeaderView,
    filter: Option<Seq<Seq<char>>>,
    index: int,
    rows: Seq<u64>,
)
    requires
        header.columns() >= 1,
    ensures
        chunk_from(header, filter, index, rows).rows() == rows.len() as int / header.columns(),
{
    let cols = header.columns();
    vstd::arithmetic::div_mod::lemma_div_pos_is_pos(rows.len() as int, cols);
    let chunk = chunk_from(header, filter, index, rows);
    assert(chunk.data[0] == (header.scale_name, scale_column(rows, 0, rows.len() as int / cols, cols)));
}

/// After any number of calls the stream is well formed and reads the same
/// file with the same settings. The values it had before it at the start are
/// the rows handed out so far followed by the values still before it, and the
/// rows handed out are whole rows. The index of the next chunk has grown by
/// the number of chunks handed out.
pub proof fn lemma_after_calls(s: StreamView, k: nat)
    requires
        s.well_formed(),
    ensures
        after_calls(s, k).well_formed(),
        after_calls(s, k).data == s.data,
        after_calls(s, k).header == s.header,
        after_calls(s, k).filter == s.filter,
        after_calls(s, k).min_chunk_size == s.min_chunk_size,
        after_calls(s, k).current_chunk == s.current_chunk + chunks_before(s, k),
        values_ahead(s) == handed_out(s, k) + values_ahead(after_calls(s, k)),
        handed_out(s, k).len() % (s.columns() as nat) == 0,
        rows_handed_out(s, k) == handed_out(s, k).len() as int / s.columns(),
    decreases k,
{
    let cols = s.columns();
    if k == 0 {
        assert(Seq::<u64>::empty() + values_ahead(s) == values_ahead(s));
        assert(0nat % (cols as nat) == 0) by (nonlinear_arith)
            requires
                cols >= 1,
        ;
        vstd::arithmetic::div_mod::lemma_basic_div(0, cols);
    } else {
        let j = (k - 1) as nat;
        lemma_after_calls(s, j);
        let before = after_calls(s, j);
        lemma_stepped(before);
        let rows = rows_of_call(s, j);
        match outcome_of_call(s, j) {
            Outcome::Chunk(chunk) => {
                assert(handed_out(s, j) + (rows + values_ahead(after_calls(s, k))) == (handed_out(
                    s,
                    j,
                ) + rows) + values_ahead(after_calls(s, k)));
                lemma_rows_add(handed_out(s, j).len() as int, rows.len() as int, cols);
                lemma_chunk_rows(s.header, s.filter, before.current_chunk, rows);
            },
            _ => {
                assert(handed_out(s, j) + rows == handed_out(s, j));
            },
        }
    }
}

/// The chunks of a stream are numbered in the order in which they are handed
/// out, without gaps: a chunk bears the index of the first chunk plus the
/// number of chunks handed out before it. A stream just opened starts at 0.
pub proof fn lemma_chunk_indices_sequential(s: StreamView, k: nat)
    requires
        s.well_formed(),
        outcome_of_call(s, k) is Chunk,
    ensures
        outcome_of_call(s, k)->Chunk_0.chunk_index == s.current_chunk + chunks_before(s, k),
{
    lemma_after_calls(s, k);
    lemma_stepped(after_calls(s, k));
}

// ----------------------------------------------------------------------------
// The scale ranges of the chunks
// ----------------------------------------------------------------------------

/// The scale value of row `r` among rows of width `cols` laid out in
/// `values`.
pub open spec fn scale_at(values: Seq<u64>, cols: int, r: int) -> u64 {
    values[r * cols]
}

/// The scale never decreases from one whole row of `values` to a later one.
pub open spec fn scale_sorted(values: Seq<u64>, cols: int) -> bool {
    forall|i: int, j: int|
        0 <= i <= j && (j + 1) * cols <= values.len() ==> double_le(
            #[trigger] scale_at(values, cols, i),
            #[trigger] scale_at(values, cols, j),
        )
}

/// The rows handed out only grow from call to call.
pub proof fn lemma_handed_out_grows(s: StreamView, a: nat, b: nat)
    requires
        a <= b,
    ensures
        handed_out(s, a).len() <= handed_out(s, b).len(),
    decreases b,
{
    if a < b {
        lemma_handed_out_grows(s, a, (b - 1) as nat);
    }
}

/// Where the rows of a chunk stand among the values that the stream had
/// before it at the start: right after the rows handed out before. The range
/// of the chunk is the scale of its first and of its last row.
pub proof fn lemma_chunk_position(s: StreamView, k: nat)
    requires
        s.well_formed(),
        outcome_of_call(s, k) is Chunk,
    ensures
        ({
            let cols = s.columns();
            let first = handed_out(s, k).len() as int / cols;
            let count = rows_of_call(s, k).len() as int / cols;
            let chunk = outcome_of_call(s, k)->Chunk_0;
            &&& cols >= 1
            &&& 0 <= first
            &&& 1 <= count
            &&& handed_out(s, k).len() == first * cols
            &&& handed_out(s, k + 1).len() == (first + count) * cols
            &&& (first + count) * cols <= values_ahead(s).len()
            &&& chunk.time_range.0 == scale_at(values_ahead(s), cols, first)
            &&& chunk.time_range.1 == scale_at(values_ahead(s), cols, first + count - 1)
        }),
{
    let cols = s.columns();
    let all = values_ahead(s);
    let before = handed_out(s, k);
    let rows = rows_of_call(s, k);
    let first = before.len() as int / cols;
    let count = rows.len() as int / cols;
    lemma_after_calls(s, k);
    let state = after_calls(s, k);
    lemma_stepped(state);
    assert(all == before + (rows + values_ahead(stepped(state).0)));
    lemma_whole_rows(before.len() as int, cols);
    lemma_whole_rows(rows.len() as int, cols);
    assert(before.len() == first * cols);
    assert(rows.len() == count * cols);
    assert(count >= 1) by (nonlinear_arith)
        requires
            rows.len() > 0,
            rows.len() == count * cols,
            cols >= 1,
            count >= 0,
    ;
    assert((first + count) * cols == first * cols + count * cols) by (nonlinear_arith);
    assert((first + count - 1) * cols == first * cols + (count - 1) * cols) by (nonlinear_arith);
    lemma_row_within(count - 1, count, cols);
    assert(all[first * cols] == rows[0]);
    assert(all[first * cols + (count - 1) * cols] == rows[(count - 1) * cols]);
}

/// Where the scale of the values before a stream never decreases from row to
/// row, every chunk starts no later than it ends, and a chunk ends no later
/// than any chunk handed out after it starts.
pub proof fn lemma_scale_ranges_ordered(s: StreamView, i: nat, j: nat)
    requires
        s.well_formed(),
        scale_sorted(values_ahead(s), s.columns()),
        i < j,
        outcome_of_call(s, i) is Chunk,
        outcome_of_call(s, j) is Chunk,
    ensures
        double_le(
            outcome_of_call(s, i)->Chunk_0.time_range.0,
            outcome_of_call(s, i)->Chunk_0.time_range.1,
        ),
        double_le(
            outcome_of_call(s, i)->Chunk_0.time_range.1,
            outcome_of_call(s, j)->Chunk_0.time_range.0,
        ),
        double_le(
            outcome_of_call(s, j)->Chunk_0.time_range.0,
            outcome_of_call(s, j)->Chunk_0.time_range.1,
        ),
{
    let cols = s.columns();
    let all = values_ahead(s);
    lemma_chunk_position(s, i);
    lemma_chunk_position(s, j);
    lemma_handed_out_grows(s, i + 1, j);
    let first_i = handed_out(s, i).len() as int / cols;
    let count_i = rows_of_call(s, i).len() as int / cols;
    let first_j = handed_out(s, j).len() as int / cols;
    let count_j = rows_of_call(s, j).len() as int / cols;
    let last_i = first_i + count_i - 1;
    let last_j = first_j + count_j - 1;
    assert(first_i + count_i <= first_j) by (nonlinear_arith)
        requires
            (first_i + count_i) * cols <= first_j * cols,
            cols >= 1,
    ;
    assert((last_i + 1) * cols <= all.len());
    assert((last_j + 1) * cols <= all.len());
    assert((first_j + 1) * cols <= all.len()) by (nonlinear_arith)
        requires
            (first_j + count_j) * cols <= all.len(),
            count_j >= 1,
            cols >= 1,
    ;
    assert(double_le(scale_at(all, cols, first_i), scale_at(all, cols, last_i)));
    assert(double_le(scale_at(all, cols, last_i), scale_at(all, cols, first_j)));
    assert(double_le(scale_at(all, cols, first_j), scale_at(all, cols, last_j)));
}

/// A single chunk starts no later than it ends, where the scale of the values
/// before the stream never decreases from row to row.
pub proof fn lemma_scale_range_of_chunk(s: StreamView, k: nat)
    requires
        s.well_formed(),
        scale_sorted(values_ahead(s), s.columns()),
        outcome_of_call(s, k) is Chunk,
    ensures
        double_le(
            outcome_of_call(s, k)->Chunk_0.time_range.0,
            outcome_of_call(s, k)->Chunk_0.time_range.1,
        ),
{
    let cols = s.columns();
    let all = values_ahead(s);
    lemma_chunk_position(s, k);
    let first = handed_out(s, k).len() as int / cols;
    let count = rows_of_call(s, k).len() as int / cols;
    assert(double_le(scale_at(all, cols, first), scale_at(all, cols, first + count - 1)));
}

// ----------------------------------------------------------------------------
// A stream next to a full decode
// ----------------------------------------------------------------------------

/// A stream just opened over a file that a `usize` can measure is well
/// formed.
pub proof fn lemma_opened_well_formed(data: Seq<u8>, min_chunk_size: int)
    requires
        data.len() <= usize::MAX,
        opened(data, min_chunk_size) is Ok,
    ensures
        opened(data, min_chunk_size)->Ok_0.well_formed(),
{
    let s = opened(data, min_chunk_size)->Ok_0;
    let blob = crate::parser::header_blob_from(data, 0, Seq::empty())->Ok_0.0;
    crate::parser::lemma_header_well_formed(blob);
    crate::parser::lemma_header_blob_position(data, 0, Seq::empty());
    assert(0nat % (s.columns() as nat) == 0) by (nonlinear_arith)
        requires
            s.columns() >= 1,
    ;
}

/// A file that decodes opens as a stream, and both give the variables the
/// same names in the same order: the scale, then the signals.
pub proof fn lemma_same_names(data: Seq<u8>, min_chunk_size: int)
    requires
        decoded(data) is Ok,
    ensures
        opened(data, min_chunk_size) is Ok,
        decoded(data)->Ok_0.variables.len() == opened(data, min_chunk_size)->Ok_0.header.names.len()
            + 1,
        decoded(data)->Ok_0.variables[0].name == opened(
            data,
            min_chunk_size,
        )->Ok_0.header.scale_name,
        forall|i: int|
            0 <= i < opened(data, min_chunk_size)->Ok_0.header.names.len() ==> (
            #[trigger] decoded(data)->Ok_0.variables[i + 1]).name == opened(
                data,
                min_chunk_size,
            )->Ok_0.header.names[i],
{
}

/// Without a sweep, the values that a stream reads from the start of a table
/// are the values of the table without the end marker, after the leftover.
pub proof fn lemma_tail_values(
    data: Seq<u8>,
    position: int,
    header: HeaderView,
    first_read: bool,
    pending: Seq<u64>,
)
    requires
        0 <= position,
        header.sweep_name is None,
        header.columns() >= 1,
        table_values_from(data, position, header.post_version) is Ok,
    ensures
        table_values_from(data, position, header.post_version)->Ok_0.0.len() > 0,
        tail_values(data, position, header, true, first_read, pending) == pending
            + table_values_from(data, position, header.post_version)->Ok_0.0.drop_last(),
    decreases data.len() - position,
{
    let cols = header.columns();
    lemma_block_extent(data, position, header.post_version);
    let block = block_at(data, position, header.post_version)->Ok_0;
    let all = joined_values(pending, stripped(block), false);
    lemma_whole_rows(all.len() as int, cols);
    let complete = (all.len() as int / cols) * cols;
    let rest = tail_values(data, block.end, header, !block.is_end, false, all.skip(complete));
    assert(tail_values(data, position, header, true, first_read, pending) == all.take(complete)
        + rest);
    assert(all.take(complete) + all.skip(complete) == all);
    if block.is_end {
        assert(rest == all.skip(complete));
    } else {
        lemma_tail_values(data, block.end, header, false, all.skip(complete));
        let later = table_values_from(data, block.end, header.post_version)->Ok_0.0;
        assert(all.take(complete) + (all.skip(complete) + later.drop_last()) == (all.take(complete)
            + all.skip(complete)) + later.drop_last());
        assert((pending + block.values) + later.drop_last() == pending + (block.values
            + later).drop_last());
    }
}

/// Without a sweep, the chunks of a whole stream hold together as many rows
/// as the table of a full decode of the same file. The stream may hand out
/// all signals or some.
pub proof fn lemma_stream_rows_match_decode(
    data: Seq<u8>,
    min_chunk_size: int,
    filter: Option<Seq<Seq<char>>>,
    n: nat,
)
    requires
        data.len() <= usize::MAX,
        decoded(data) is Ok,
        decoded(data)->Ok_0.sweep_param is None,
        opened(data, min_chunk_size) is Ok ==> outcome_of_call(
            StreamView { filter, ..opened(data, min_chunk_size)->Ok_0 },
            n,
        ) is End,
    ensures
        opened(data, min_chunk_size) is Ok,
        rows_handed_out(StreamView { filter, ..opened(data, min_chunk_size)->Ok_0 }, n) == decoded(
            data,
        )->Ok_0.len(),
{
    let (header, position) = header_only(data)->Ok_0;
    let s = StreamView { filter, ..opened(data, min_chunk_size)->Ok_0 };
    let cols = header.columns();
    lemma_opened_well_formed(data, min_chunk_size);
    assert(s.well_formed());
    crate::parser::lemma_header_blob_position(data, 0, Seq::empty());
    // The full decode: one table, made of the values up to the end marker.
    let raw = table_values_from(data, position, header.post_version)->Ok_0.0;
    let end = table_values_from(data, position, header.post_version)->Ok_0.1;
    assert(header.sweep_size == 1);
    assert(tables_from(data, end, header, 0) == Ok::<Seq<crate::types::TableView>, crate::types::Fault>(
        Seq::empty(),
    ));
    let table = table_of(raw, header.num_vectors, header.num_variables, header.var_type, false);
    assert(decoded(data)->Ok_0.tables[0] == table);
    lemma_table_is_rectangular(raw, header.num_vectors, header.num_variables, header.var_type, false);
    lemma_table_values(data, position, header.post_version);
    // The stream: what it has before it is what it hands out, up to less than a row.
    lemma_tail_values(data, position, header, true, Seq::empty());
    let all = values_ahead(s);
    assert(all.len() == raw.len() - 1);
    lemma_after_calls(s, n);
    lemma_stepped(after_calls(s, n));
    let given = handed_out(s, n).len() as int;
    let left = values_ahead(after_calls(s, n)).len() as int;
    assert(all.len() == given + left);
    lemma_whole_rows(given, cols);
    vstd::arithmetic::div_mod::lemma_div_multiples_vanish_fancy(given / cols, left, cols);
    assert(cols * (given / cols) + left == given + left) by (nonlinear_arith)
        requires
            given == (given / cols) * cols,
    ;
    assert((given + left) / cols == given / cols);
    if raw.len() - 1 == 0 {
        vstd::arithmetic::div_mod::lemma_basic_div(0, cols);
    }
}

// ----------------------------------------------------------------------------
// The samples of a stream next to those of a full decode
// ----------------------------------------------------------------------------

/// Vector `j` of the rows `rows`: the scale for 0, else signal `j - 1`.
pub open spec fn column_of(header: HeaderView, rows: Seq<u64>, j: int) -> VectorView {
    let cols = header.columns();
    let count = rows.len() as int / cols;
    if j == 0 {
        scale_column(rows, 0, count, cols)
    } else {
        signal_column(rows, 0, count, cols, j - 1, header.num_variables, header.var_type)
    }
}

/// The samples of two vectors of one kind, one after the other.
pub open spec fn joined_vectors(a: VectorView, b: VectorView) -> VectorView {
    match (a, b) {
        (VectorView::Real(x), VectorView::Real(y)) => VectorView::Real(x + y),
        (VectorView::Complex(x), VectorView::Complex(y)) => VectorView::Complex(x + y),
        _ => a,
    }
}

/// The samples of vector `j` over the chunks that the first `k` calls hand
/// out, one chunk after the other.
pub open spec fn streamed_column(s: StreamView, k: nat, j: int) -> VectorView
    decreases k,
{
    if k == 0 {
        column_of(s.header, Seq::empty(), j)
    } else {
        let before = streamed_column(s, (k - 1) as nat, j);
        match outcome_of_call(s, (k - 1) as nat) {
            Outcome::Chunk(chunk) => joined_vectors(before, chunk.data[j].1),
            _ => before,
        }
    }
}

/// The values at one position of the rows of two runs of whole rows are
/// those of the first run followed by those of the second.
proof fn lemma_real_values_joined(a: Seq<u64>, b: Seq<u64>, cols: int, off: int)
    requires
        cols >= 1,
        0 <= off < cols,
        a.len() % (cols as nat) == 0,
        b.len() % (cols as nat) == 0,
    ensures
        real_values(a + b, 0, (a + b).len() as int / cols, cols, off) == real_values(
            a,
            0,
            a.len() as int / cols,
            cols,
            off,
        ) + real_values(b, 0, b.len() as int / cols, cols, off),
{
    let na = a.len() as int / cols;
    let nb = b.len() as int / cols;
    lemma_whole_rows(a.len() as int, cols);
    lemma_whole_rows(b.len() as int, cols);
    lemma_rows_add(a.len() as int, b.len() as int, cols);
    let whole = real_values(a + b, 0, na + nb, cols, off);
    let parts = real_values(a, 0, na, cols, off) + real_values(b, 0, nb, cols, off);
    assert(whole.len() == parts.len());
    assert forall|r: int| 0 <= r < na + nb implies whole[r] == parts[r] by {
        if r < na {
            lemma_row_within(r, na, cols);
        } else {
            lemma_row_within(r - na, nb, cols);
            assert(r * cols == na * cols + (r - na) * cols) by (nonlinear_arith);
        }
    }
    assert(whole == parts);
}

/// As `lemma_real_values_joined`, for pairs.
proof fn lemma_complex_values_joined(a: Seq<u64>, b: Seq<u64>, cols: int, off: int)
    requires
        cols >= 1,
        0 <= off,
        off + 1 < cols,
        a.len() % (cols as nat) == 0,
        b.len() % (cols as nat) == 0,
    ensures
        complex_values(a + b, 0, (a + b).len() as int / cols, cols, off) == complex_values(
            a,
            0,
            a.len() as int / cols,
            cols,
            off,
        ) + complex_values(b, 0, b.len() as int / cols, cols, off),
{
    let na = a.len() as int / cols;
    let nb = b.len() as int / cols;
    lemma_whole_rows(a.len() as int, cols);
    lemma_whole_rows(b.len() as int, cols);
    lemma_rows_add(a.len() as int, b.len() as int, cols);
    let whole = complex_values(a + b, 0, na + nb, cols, off);
    let parts = complex_values(a, 0, na, cols, off) + complex_values(b, 0, nb, cols, off);
    assert(whole.len() == parts.len());
    assert forall|r: int| 0 <= r < na + nb implies whole[r] == parts[r] by {
        if r < na {
            lemma_row_within(r, na, cols);
        } else {
            lemma_row_within(r - na, nb, cols);
            assert(r * cols == na * cols + (r - na) * cols) by (nonlinear_arith);
        }
    }
    assert(whole == parts);
}

/// A vector of two runs of whole rows is the vector of the first run followed
/// by the vector of the second.
pub proof fn lemma_column_of_joined(header: HeaderView, first: Seq<u64>, second: Seq<u64>, j: int)
    requires
        header.well_formed(),
        0 <= j < header.num_vectors,
        first.len() % (header.columns() as nat) == 0,
        second.len() % (header.columns() as nat) == 0,
    ensures
        column_of(header, first + second, j) == joined_vectors(
            column_of(header, first, j),
            column_of(header, second, j),
        ),
{
    let cols = header.columns();
    if j == 0 {
        lemma_real_values_joined(first, second, cols, 0);
    } else {
        lemma_signal_within_row(j - 1, header.num_vectors, header.num_variables, header.var_type);
        let off = crate::layout::signal_offset(j - 1, header.num_variables, header.var_type);
        if crate::layout::is_complex_signal(j - 1, header.num_variables, header.var_type) {
            lemma_complex_values_joined(first, second, cols, off);
        } else {
            lemma_real_values_joined(first, second, cols, off);
        }
    }
}

/// A vector of whole rows reads only those rows: it is the same when more
/// values follow them.
pub proof fn lemma_column_of_prefix(header: HeaderView, rows: Seq<u64>, more: Seq<u64>, j: int)
    requires
        header.well_formed(),
        0 <= j < header.num_vectors,
        rows.len() % (header.columns() as nat) == 0,
    ensures
        column_of(header, rows, j) == (if j == 0 {
            scale_column(rows + more, 0, rows.len() as int / header.columns(), header.columns())
        } else {
            signal_column(
                rows + more,
                0,
                rows.len() as int / header.columns(),
                header.columns(),
                j - 1,
                header.num_variables,
                header.var_type,
            )
        }),
{
    let cols = header.columns();
    let count = rows.len() as int / cols;
    let all = rows + more;
    lemma_whole_rows(rows.len() as int, cols);
    if j == 0 {
        let x = real_values(rows, 0, count, cols, 0);
        let y = real_values(all, 0, count, cols, 0);
        assert forall|r: int| 0 <= r < count implies #[trigger] x[r] == y[r] by {
            lemma_row_within(r, count, cols);
        }
        assert(x == y);
    } else {
        lemma_signal_within_row(j - 1, header.num_vectors, header.num_variables, header.var_type);
        let off = crate::layout::signal_offset(j - 1, header.num_variables, header.var_type);
        if crate::layout::is_complex_signal(j - 1, header.num_variables, header.var_type) {
            let x = complex_values(rows, 0, count, cols, off);
            let y = complex_values(all, 0, count, cols, off);
            assert forall|r: int| 0 <= r < count implies #[trigger] x[r] == y[r] by {
                lemma_row_within(r, count, cols);
            }
            assert(x == y);
        } else {
            let x = real_values(rows, 0, count, cols, off);
            let y = real_values(all, 0, count, cols, off);
            assert forall|r: int| 0 <= r < count implies #[trigger] x[r] == y[r] by {
                lemma_row_within(r, count, cols);
            }
            assert(x == y);
        }
    }
}

/// Without a filter a chunk holds the scale and every signal, in order.
pub proof fn lemma_unfiltered_entries(header: HeaderView, rows: Seq<u64>, i: int)
    requires
        0 <= i <= header.names.len(),
    ensures
        selected_upto(header, None, rows, i).len() == i,
        forall|k: int|
            0 <= k < i ==> (#[trigger] selected_upto(header, None, rows, i)[k]).1 == column_of(
                header,
                rows,
                k + 1,
            ),
    decreases i,
{
    if i > 0 {
        lemma_unfiltered_entries(header, rows, i - 1);
    }
}

/// Without a filter, the vectors of the chunks handed out so far, one chunk
/// after the other, are the vectors of all rows handed out so far.
pub proof fn lemma_streamed_column(s: StreamView, k: nat, j: int)
    requires
        s.well_formed(),
        s.filter is None,
        0 <= j < s.header.num_vectors,
    ensures
        streamed_column(s, k, j) == column_of(s.header, handed_out(s, k), j),
    decreases k,
{
    if k > 0 {
        let before = (k - 1) as nat;
        lemma_streamed_column(s, before, j);
        lemma_after_calls(s, before);
        let state = after_calls(s, before);
        lemma_stepped(state);
        match outcome_of_call(s, before) {
            Outcome::Chunk(chunk) => {
                let rows = rows_of_call(s, before);
                lemma_unfiltered_entries(s.header, rows, s.header.names.len() as int);
                assert(chunk.data[j].1 == column_of(s.header, rows, j));
                lemma_column_of_joined(s.header, handed_out(s, before), rows, j);
            },
            _ => {
                assert(handed_out(s, k) == handed_out(s, before));
            },
        }
    }
}

/// Without a sweep and without a filter, the chunks of a whole stream, one
/// after the other, hold exactly the samples of the table of a full decode
/// of the same file, vector by vector.
pub proof fn lemma_stream_equals_decode(data: Seq<u8>, min_chunk_size: int, n: nat, j: int)
    requires
        data.len() <= usize::MAX,
        decoded(data) is Ok,
        decoded(data)->Ok_0.sweep_param is None,
        opened(data, min_chunk_size) is Ok ==> outcome_of_call(
            opened(data, min_chunk_size)->Ok_0,
            n,
        ) is End,
        0 <= j < decoded(data)->Ok_0.variables.len(),
    ensures
        opened(data, min_chunk_size) is Ok,
        streamed_column(opened(data, min_chunk_size)->Ok_0, n, j) == decoded(
            data,
        )->Ok_0.tables[0].vectors[j],
{
    let (header, position) = header_only(data)->Ok_0;
    let s = opened(data, min_chunk_size)->Ok_0;
    let cols = header.columns();
    lemma_opened_well_formed(data, min_chunk_size);
    crate::parser::lemma_header_blob_position(data, 0, Seq::empty());
    let raw = table_values_from(data, position, header.post_version)->Ok_0.0;
    let end = table_values_from(data, position, header.post_version)->Ok_0.1;
    assert(tables_from(data, end, header, 0) == Ok::<Seq<crate::types::TableView>, crate::types::Fault>(
        Seq::empty(),
    ));
    let table = table_of(raw, header.num_vectors, header.num_variables, header.var_type, false);
    assert(decoded(data)->Ok_0.tables[0] == table);
    lemma_tail_values(data, position, header, true, Seq::empty());
    let all = values_ahead(s);
    assert(all == raw.drop_last()) by {
        assert(Seq::<u64>::empty() + raw.drop_last() == raw.drop_last());
        assert(Seq::<u64>::empty() + (Seq::<u64>::empty() + raw.drop_last()) == raw.drop_last());
    }
    lemma_after_calls(s, n);
    lemma_stepped(after_calls(s, n));
    let given = handed_out(s, n);
    let left = values_ahead(after_calls(s, n));
    assert(all == given + left);
    lemma_whole_rows(given.len() as int, cols);
    vstd::arithmetic::div_mod::lemma_div_multiples_vanish_fancy(
        given.len() as int / cols,
        left.len() as int,
        cols,
    );
    assert(cols * (given.len() as int / cols) + left.len() == given.len() + left.len())
        by (nonlinear_arith)
        requires
            given.len() == (given.len() as int / cols) * cols,
    ;
    let rows = given.len() as int / cols;
    assert(rows == table_rows(raw.len() as int, false, cols)) by {
        if raw.len() - 1 == 0 {
            vstd::arithmetic::div_mod::lemma_basic_div(0, cols);
        }
    }
    lemma_streamed_column(s, n, j);
    lemma_column_of_prefix(header, given, left + seq![raw.last()], j);
    assert(given + (left + seq![raw.last()]) == raw) by {
        assert((given + left) + seq![raw.last()] == raw);
        assert(given + (left + seq![raw.last()]) == (given + left) + seq![raw.last()]);
    }
}

// ----------------------------------------------------------------------------
// Two files of one shape
// ----------------------------------------------------------------------------

/// Two header blobs with the same counts and the same description words give
/// the same names, whatever precision each declares.
pub proof fn lemma_names_from_description(a: Seq<u8>, b: Seq<u8>)
    requires
        header_of(a) is Ok,
        header_of(b) is Ok,
        field_int(a, 0, 4) == field_int(b, 0, 4),
        field_int(a, 4, 8) == field_int(b, 4, 8),
        description_tokens(a) == description_tokens(b),
    ensures
        header_of(a)->Ok_0.scale_name == header_of(b)->Ok_0.scale_name,
        header_of(a)->Ok_0.names == header_of(b)->Ok_0.names,
        header_of(a)->Ok_0.num_vectors == header_of(b)->Ok_0.num_vectors,
        header_of(a)->Ok_0.num_variables == header_of(b)->Ok_0.num_variables,
        header_of(a)->Ok_0.var_type == header_of(b)->Ok_0.var_type,
{
}

/// Two runs of values of the same length make tables of the same number of
/// rows under the same layout, whatever the values are.
pub proof fn lemma_rows_from_value_count(
    first: Seq<u64>,
    second: Seq<u64>,
    num_vectors: int,
    num_variables: int,
    var_type: int,
    has_sweep: bool,
)
    requires
        num_vectors >= 1,
        first.len() == second.len(),
    ensures
        table_of(first, num_vectors, num_variables, var_type, has_sweep).len() == table_of(
            second,
            num_vectors,
            num_variables,
            var_type,
            has_sweep,
        ).len(),
{
    lemma_table_is_rectangular(first, num_vectors, num_variables, var_type, has_sweep);
    lemma_table_is_rectangular(second, num_vectors, num_variables, var_type, has_sweep);
}

/// How many values each of the next `count` tables from `at` on holds, end
/// marker and sweep value included.
pub open spec fn value_counts_from(b: Seq<u8>, at: int, version: PostVersion, count: int) -> Seq<
    int,
>
    decreases count,
{
    if count <= 0 {
        Seq::empty()
    } else {
        match table_values_from(b, at, version) {
            Err(_) => Seq::empty(),
            Ok((raw, end)) => seq![raw.len() as int] + value_counts_from(
                b,
                end,
                version,
                count - 1,
            ),
        }
    }
}

/// The number of rows of every decoded table follows from the number of
/// values it was made of and the layout of a row.
pub proof fn lemma_rows_from_value_counts(b: Seq<u8>, at: int, header: HeaderView, count: int)
    requires
        header.num_vectors >= 1,
        tables_from(b, at, header, count) is Ok,
    ensures
        value_counts_from(b, at, header.post_version, count).len() == tables_from(
            b,
            at,
            header,
            count,
        )->Ok_0.len(),
        forall|t: int|
            0 <= t < tables_from(b, at, header, count)->Ok_0.len() ==> (#[trigger] tables_from(
                b,
                at,
                header,
                count,
            )->Ok_0[t]).len() == table_rows(
                value_counts_from(b, at, header.post_version, count)[t],
                header.sweep_name is Some,
                header.columns(),
            ),
    decreases count,
{
    if count > 0 {
        let (raw, end) = table_values_from(b, at, header.post_version)->Ok_0;
        lemma_rows_from_value_counts(b, end, header, count - 1);
        lemma_table_is_rectangular(
            raw,
            header.num_vectors,
            header.num_variables,
            header.var_type,
            header.sweep_name is Some,
        );
        let first = table_of(
            raw,
            header.num_vectors,
            header.num_variables,
            header.var_type,
            header.sweep_name is Some,
        );
        let rest = tables_from(b, end, header, count - 1)->Ok_0;
        let all = tables_from(b, at, header, count)->Ok_0;
        let counts = value_counts_from(b, at, header.post_version, count);
        let later = value_counts_from(b, end, header.post_version, count - 1);
        assert(all == seq![first] + rest);
        assert(counts == seq![raw.len() as int] + later);
        assert forall|t: int| 0 <= t < all.len() implies (#[trigger] all[t]).len() == table_rows(
            counts[t],
            header.sweep_name is Some,
            header.columns(),
        ) by {
            if t == 0 {
                assert(all[0] == first);
            } else {
                assert(all[t] == rest[t - 1]);
                assert(counts[t] == later[t - 1]);
            }
        }
    }
}

/// Two files that describe the same vectors and hold the same number of
/// values in each table decode to the same variables and to tables of the
/// same numbers of rows, whatever the precision of each and whatever the
/// values are.
pub proof fn lemma_same_shape(first: Seq<u8>, second: Seq<u8>)
    requires
        decoded(first) is Ok,
        decoded(second) is Ok,
        header_only(first)->Ok_0.0.scale_name == header_only(second)->Ok_0.0.scale_name,
        header_only(first)->Ok_0.0.names == header_only(second)->Ok_0.0.names,
        header_only(first)->Ok_0.0.num_vectors == header_only(second)->Ok_0.0.num_vectors,
        header_only(first)->Ok_0.0.num_variables == header_only(second)->Ok_0.0.num_variables,
        header_only(first)->Ok_0.0.var_type == header_only(second)->Ok_0.0.var_type,
        header_only(first)->Ok_0.0.sweep_name == header_only(second)->Ok_0.0.sweep_name,
        header_only(first)->Ok_0.0.sweep_size == header_only(second)->Ok_0.0.sweep_size,
        value_counts_from(
            first,
            header_only(first)->Ok_0.1,
            header_only(first)->Ok_0.0.post_version,
            header_only(first)->Ok_0.0.sweep_size,
        ) == value_counts_from(
            second,
            header_only(second)->Ok_0.1,
            header_only(second)->Ok_0.0.post_version,
            header_only(second)->Ok_0.0.sweep_size,
        ),
    ensures
        decoded(first)->Ok_0.variables == decoded(second)->Ok_0.variables,
        decoded(first)->Ok_0.tables.len() == decoded(second)->Ok_0.tables.len(),
        forall|t: int|
            0 <= t < decoded(first)->Ok_0.tables.len() ==> (#[trigger] decoded(
                first,
            )->Ok_0.tables[t]).len() == decoded(second)->Ok_0.tables[t].len(),
{
    let (h1, p1) = header_only(first)->Ok_0;
    let (h2, p2) = header_only(second)->Ok_0;
    crate::parser::lemma_header_well_formed(
        crate::parser::header_blob_from(first, 0, Seq::empty())->Ok_0.0,
    );
    crate::parser::lemma_header_well_formed(
        crate::parser::header_blob_from(second, 0, Seq::empty())->Ok_0.0,
    );
    lemma_rows_from_value_counts(first, p1, h1, h1.sweep_size);
    lemma_rows_from_value_counts(second, p2, h2, h2.sweep_size);
    assert(crate::parser::variables_of(h1) == crate::parser::variables_of(h2));
}

// ----------------------------------------------------------------------------
// Finite values stay finite
// ----------------------------------------------------------------------------

/// Whether each of the `count` items stored at `at` is a finite number in the
/// precision of the file.
pub open spec fn stored_items_finite(
    b: Seq<u8>,
    at: int,
    count: int,
    e: Endian,
    version: PostVersion,
) -> bool {
    match version {
        PostVersion::V9601 => forall|i: int|
            0 <= i < count ==> single_is_finite(#[trigger] unsigned_word(b, at + 4 * i, e) as u32),
        PostVersion::V2001 => forall|i: int|
            0 <= i < count ==> double_is_finite(#[trigger] long_word(b, at + 8 * i, e) as u64),
    }
}

/// Whether every sample of a vector is finite, in both parts where it is
/// complex.
pub open spec fn vector_is_finite(v: VectorView) -> bool {
    match v {
        VectorView::Real(samples) => forall|i: int|
            0 <= i < samples.len() ==> double_is_finite(#[trigger] samples[i]),
        VectorView::Complex(samples) => forall|i: int|
            0 <= i < samples.len() ==> double_is_finite((#[trigger] samples[i]).re)
                && double_is_finite(samples[i].im),
    }
}

/// A payload of finite items decodes to finite values: widening makes no
/// infinity and no NaN.
pub proof fn lemma_payload_finite(b: Seq<u8>, at: int, count: int, e: Endian, version: PostVersion)
    requires
        stored_items_finite(b, at, count, e, version),
    ensures
        forall|i: int|
            0 <= i < count ==> double_is_finite(#[trigger] payload_at(b, at, count, e, version)[i]),
{
    assert forall|i: int| 0 <= i < count implies double_is_finite(
        #[trigger] payload_at(b, at, count, e, version)[i],
    ) by {
        match version {
            PostVersion::V9601 => {
                let stored = unsigned_word(b, at + 4 * i, e) as u32;
                assert(single_is_finite(stored));
                lemma_widened_class(stored);
            },
            PostVersion::V2001 => {
                assert(double_is_finite(long_word(b, at + 8 * i, e) as u64));
            },
        }
    }
}

/// Whether every item stored in the block at `at` is a finite number. A block
/// whose frame cannot be read stores nothing.
pub open spec fn block_is_finite(b: Seq<u8>, at: int, version: PostVersion) -> bool {
    match frame_at(b, at, version.spec_item_size()) {
        Ok(frame) => stored_items_finite(b, at + 16, frame.count, frame.endian, version),
        Err(_) => true,
    }
}

/// Whether every item stored in the blocks of the table that starts at `at`
/// is a finite number, the end marker included.
pub open spec fn table_is_finite(b: Seq<u8>, at: int, version: PostVersion) -> bool
    decreases b.len() - at,
{
    match block_at(b, at, version) {
        Err(_) => true,
        Ok(block) => block_is_finite(b, at, version) && (block.is_end || !(at < block.end
            <= b.len()) || table_is_finite(b, block.end, version)),
    }
}

/// Whether every item stored in the next `count` tables from `at` on is a
/// finite number.
pub open spec fn tables_are_finite(b: Seq<u8>, at: int, version: PostVersion, count: int) -> bool
    decreases count,
{
    if count <= 0 {
        true
    } else {
        match table_values_from(b, at, version) {
            Err(_) => true,
            Ok((_, end)) => table_is_finite(b, at, version) && tables_are_finite(
                b,
                end,
                version,
                count - 1,
            ),
        }
    }
}

/// A block of finite items holds finite values.
pub proof fn lemma_block_finite(b: Seq<u8>, at: int, version: PostVersion)
    requires
        block_at(b, at, version) is Ok,
        block_is_finite(b, at, version),
    ensures
        forall|i: int|
            0 <= i < block_at(b, at, version)->Ok_0.values.len() ==> double_is_finite(
                #[trigger] block_at(b, at, version)->Ok_0.values[i],
            ),
{
    reveal(block_at);
    let frame = frame_at(b, at, version.spec_item_size())->Ok_0;
    lemma_payload_finite(b, at + 16, frame.count, frame.endian, version);
}

/// A table of finite items holds finite values.
pub proof fn lemma_table_values_finite(b: Seq<u8>, at: int, version: PostVersion)
    requires
        0 <= at,
        table_values_from(b, at, version) is Ok,
        table_is_finite(b, at, version),
    ensures
        forall|i: int|
            0 <= i < table_values_from(b, at, version)->Ok_0.0.len() ==> double_is_finite(
                #[trigger] table_values_from(b, at, version)->Ok_0.0[i],
            ),
    decreases b.len() - at,
{
    lemma_block_finite(b, at, version);
    lemma_block_extent(b, at, version);
    let block = block_at(b, at, version)->Ok_0;
    if !block.is_end {
        lemma_table_values_finite(b, block.end, version);
    }
}

/// Tables of finite items hold only finite samples.
pub proof fn lemma_tables_finite(b: Seq<u8>, at: int, header: HeaderView, count: int)
    requires
        0 <= at,
        header.well_formed(),
        tables_from(b, at, header, count) is Ok,
        tables_are_finite(b, at, header.post_version, count),
    ensures
        forall|t: int, j: int|
            0 <= t < tables_from(b, at, header, count)->Ok_0.len() && 0 <= j < header.num_vectors
                ==> vector_is_finite(#[trigger] tables_from(b, at, header, count)->Ok_0[t].vectors[j]),
    decreases count,
{
    if count > 0 {
        let (raw, end) = table_values_from(b, at, header.post_version)->Ok_0;
        lemma_table_values(b, at, header.post_version);
        lemma_table_values_finite(b, at, header.post_version);
        lemma_table_finite(
            raw,
            header.num_vectors,
            header.num_variables,
            header.var_type,
            header.sweep_name is Some,
        );
        lemma_tables_finite(b, end, header, count - 1);
        let first = table_of(
            raw,
            header.num_vectors,
            header.num_variables,
            header.var_type,
            header.sweep_name is Some,
        );
        let rest = tables_from(b, end, header, count - 1)->Ok_0;
        let all = tables_from(b, at, header, count)->Ok_0;
        assert(all == seq![first] + rest);
        assert forall|t: int, j: int|
            0 <= t < all.len() && 0 <= j < header.num_vectors implies vector_is_finite(
            #[trigger] all[t].vectors[j],
        ) by {
            if t == 0 {
                assert(all[0] == first);
            } else {
                assert(all[t] == rest[t - 1]);
            }
        }
    }
}

/// A file whose stored items are all finite numbers decodes to finite
/// samples: no vector of any table holds an infinity or a NaN.
pub proof fn lemma_decoded_finite(data: Seq<u8>)
    requires
        decoded(data) is Ok,
        tables_are_finite(
            data,
            header_only(data)->Ok_0.1,
            header_only(data)->Ok_0.0.post_version,
            header_only(data)->Ok_0.0.sweep_size,
        ),
    ensures
        forall|t: int, j: int|
            0 <= t < decoded(data)->Ok_0.tables.len() && 0 <= j < decoded(
                data,
            )->Ok_0.tables[t].vectors.len() ==> vector_is_finite(
                #[trigger] decoded(data)->Ok_0.tables[t].vectors[j],
            ),
{
    let (header, position) = header_only(data)->Ok_0;
    let blob = crate::parser::header_blob_from(data, 0, Seq::empty())->Ok_0.0;
    crate::parser::lemma_header_well_formed(blob);
    crate::parser::lemma_header_blob_position(data, 0, Seq::empty());
    lemma_tables_finite(data, position, header, header.sweep_size);
    crate::parser::lemma_tables_well_formed(data, position, header, header.sweep_size);
}

/// A table made of finite values holds only finite samples.
pub proof fn lemma_table_finite(
    raw: Seq<u64>,
    num_vectors: int,
    num_variables: int,
    var_type: int,
    has_sweep: bool,
)
    requires
        layout_fits(num_vectors, num_variables, var_type),
        forall|k: int| 0 <= k < raw.len() ==> double_is_finite(#[trigger] raw[k]),
    ensures
        forall|j: int|
            0 <= j < num_vectors ==> vector_is_finite(
                #[trigger] table_of(raw, num_vectors, num_variables, var_type, has_sweep).vectors[j],
            ),
{
    let cols = column_count(num_vectors, num_variables, var_type);
    let start = if has_sweep {
        1int
    } else {
        0int
    };
    let rows = table_rows(raw.len() as int, has_sweep, cols);
    let table = table_of(raw, num_vectors, num_variables, var_type, has_sweep);
    let spare = raw.len() - (if has_sweep {
        2int
    } else {
        1int
    });
    if spare > 0 {
        lemma_whole_rows(spare, cols);
    }
    assert forall|j: int| 0 <= j < num_vectors implies vector_is_finite(
        #[trigger] table.vectors[j],
    ) by {
        if j > 0 {
            lemma_signal_within_row(j - 1, num_vectors, num_variables, var_type);
        }
        match table.vectors[j] {
            VectorView::Real(samples) => {
                assert forall|r: int| 0 <= r < samples.len() implies double_is_finite(
                    #[trigger] samples[r],
                ) by {
                    lemma_row_within(r, rows, cols);
                }
            },
            VectorView::Complex(samples) => {
                assert forall|r: int| 0 <= r < samples.len() implies double_is_finite(
                    (#[trigger] samples[r]).re,
                ) && double_is_finite(samples[r].im) by {
                    lemma_row_within(r, rows, cols);
                }
            },
        }
    }
}

} // verus!
