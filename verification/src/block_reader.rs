//! Reading whole data blocks.
//!
//! A block is an opening frame, a payload of items in the file's precision and
//! a closing word. A block whose last item is at least the end marker is the
//! last block of its table. Both the full decoder and the streaming reader
//! take their blocks from here.

use crate::ieee::{double_le, is_end_marker_double, is_end_marker_single, single_le};
use crate::reader::{
    doubles_at, frame_at, long_word, singles_at, trailer_at, unsigned_word, MmapReader,
};
use crate::types::{
    fault_eof, Endian, Fault, PostVersion, WaveformError, END_MARKER_2001, END_MARKER_9601,
};
use vstd::prelude::*;
use vstd::string::*;

verus! {

// ----------------------------------------------------------------------------
// What a block holds
// ----------------------------------------------------------------------------

/// A block as it stands in a byte sequence.
pub struct Block {
    /// The payload's items as binary64 bit patterns, end marker included.
    pub values: Seq<u64>,
    /// Whether the last item is at least the end marker.
    pub is_end: bool,
    /// Offset of the first byte after the closing word.
    pub end: int,
}

/// The `count` payload items at `at`, as binary64 bit patterns.
pub open spec fn payload_at(b: Seq<u8>, at: int, count: int, e: Endian, version: PostVersion) -> Seq<
    u64,
> {
    match version {
        PostVersion::V9601 => singles_at(b, at, count, e),
        PostVersion::V2001 => doubles_at(b, at, count, e),
    }
}

/// Whether the last of the `count` payload items at `at` is at least the end
/// marker of its precision. The comparison is made on the stored item, before
/// any widening.
pub open spec fn payload_ends_data(
    b: Seq<u8>,
    at: int,
    count: int,
    e: Endian,
    version: PostVersion,
) -> bool {
    count > 0 && match version {
        PostVersion::V9601 => single_le(
            END_MARKER_9601,
            unsigned_word(b, at + 4 * (count - 1), e) as u32,
        ),
        PostVersion::V2001 => double_le(END_MARKER_2001, long_word(b, at + 8 * (count - 1), e) as u64),
    }
}

/// The block that starts at `at`, or why there is none: the frame is refused,
/// the input ends inside the block, or the closing word does not repeat the
/// declared length.
#[verifier::opaque]
pub open spec fn block_at(b: Seq<u8>, at: int, version: PostVersion) -> Result<Block, Fault> {
    match frame_at(b, at, version.spec_item_size()) {
        Err(fault) => Err(fault),
        Ok(frame) => {
            let start = at + 16;
            let size = version.spec_item_size() * frame.count;
            if size > b.len() - start {
                Err(fault_eof())
            } else {
                match trailer_at(b, start + size, frame.endian, frame.declared) {
                    Err(fault) => Err(fault),
                    Ok(_) => Ok(
                        Block {
                            values: payload_at(b, start, frame.count, frame.endian, version),
                            is_end: payload_ends_data(b, start, frame.count, frame.endian, version),
                            end: start + size + 4,
                        },
                    ),
                }
            }
        },
    }
}

/// A block ends at least 20 bytes after its start and within the input, and
/// holds as many values as its frame declares items.
pub proof fn lemma_block_extent(b: Seq<u8>, at: int, version: PostVersion)
    requires
        0 <= at,
        block_at(b, at, version) is Ok,
    ensures
        at + 20 <= block_at(b, at, version)->Ok_0.end <= b.len(),
        block_at(b, at, version)->Ok_0.end == at + 20 + version.spec_item_size() * block_at(
            b,
            at,
            version,
        )->Ok_0.values.len(),
        block_at(b, at, version)->Ok_0.is_end ==> block_at(b, at, version)->Ok_0.values.len() > 0,
{
    reveal(block_at);
}

/// Reads the payload of `count` items at the cursor and appends it to
/// `target`. Returns whether the payload ends the data.
fn read_payload(
    reader: &mut MmapReader<'_>,
    version: PostVersion,
    count: usize,
    target: &mut Vec<u64>,
) -> (r: Result<bool, WaveformError>)
    requires
        old(reader).well_formed(),
    ensures
        final(reader).well_formed(),
        version.spec_item_size() * count <= old(reader).bytes().len() - old(reader).offset() ==> {
            &&& r == Ok::<bool, WaveformError>(
                payload_ends_data(
                    old(reader).bytes(),
                    old(reader).offset(),
                    count as int,
                    old(reader).order(),
                    version,
                ),
            )
            &&& final(reader).moved_on_from(old(reader), version.spec_item_size() * count)
            &&& final(target)@ == old(target)@ + payload_at(
                old(reader).bytes(),
                old(reader).offset(),
                count as int,
                old(reader).order(),
                version,
            )
        },
        version.spec_item_size() * count > old(reader).bytes().len() - old(reader).offset() ==> {
            &&& r is Err
            &&& r->Err_0@ == fault_eof()
            &&& final(reader).moved_on_from(old(reader), 0)
            &&& final(target)@ == old(target)@
        },
{
    let start = reader.position();
    match version {
        PostVersion::V9601 => {
            match reader.read_floats_as_f64_into(count, target) {
                Ok(_) => {},
                Err(e) => {
                    return Err(e);
                },
            }
            Ok(count > 0 && is_end_marker_single(reader.single_at(start + 4 * (count - 1))))
        },
        PostVersion::V2001 => {
            match reader.read_doubles_into(count, target) {
                Ok(_) => {},
                Err(e) => {
                    return Err(e);
                },
            }
            Ok(count > 0 && is_end_marker_double(target[target.len() - 1]))
        },
    }
}

/// Reads the block at the cursor and appends its items to `target`. Returns
/// whether the block ends the data. On failure `target` is left as it was.
pub fn read_block(reader: &mut MmapReader<'_>, version: PostVersion, target: &mut Vec<u64>) -> (r:
    Result<bool, WaveformError>)
    requires
        old(reader).well_formed(),
    ensures
        final(reader).well_formed(),
        final(reader).bytes() == old(reader).bytes(),
        final(reader).offset() >= old(reader).offset(),
        match block_at(old(reader).bytes(), old(reader).offset(), version) {
            Ok(block) => {
                &&& r == Ok::<bool, WaveformError>(block.is_end)
                &&& final(reader).offset() == block.end
                &&& final(target)@ == old(target)@ + block.values
            },
            Err(fault) => {
                &&& r is Err
                &&& r->Err_0@ == fault
                &&& final(target)@ == old(target)@
            },
        },
{
    reveal(block_at);
    let (num_items, trailer) = match reader.read_block_header(version.item_size()) {
        Ok(found) => found,
        Err(e) => {
            return Err(e);
        },
    };
    let before = target.len();
    let is_end = match read_payload(reader, version, num_items, target) {
        Ok(is_end) => is_end,
        Err(e) => {
            return Err(e);
        },
    };
    match reader.read_block_trailer(trailer) {
        Ok(_) => {},
        Err(e) => {
            target.truncate(before);
            assert(target@ == old(target)@);
            return Err(e);
        },
    }
    Ok(is_end)
}

// ----------------------------------------------------------------------------
// Reading all blocks of a buffer
// ----------------------------------------------------------------------------

/// The values of the blocks from `at` up to and including the first one that
/// ends the data, or up to the end of the input, and the offset after them.
pub open spec fn blocks_from(b: Seq<u8>, at: int, version: PostVersion) -> Result<
    (Seq<u64>, int),
    Fault,
>
    decreases b.len() - at,
{
    if at < 0 || at >= b.len() {
        Ok((Seq::empty(), at))
    } else {
        match block_at(b, at, version) {
            Err(fault) => Err(fault),
            Ok(block) => {
                if block.is_end || !(at < block.end <= b.len()) {
                    Ok((block.values, block.end))
                } else {
                    match blocks_from(b, block.end, version) {
                        Err(fault) => Err(fault),
                        Ok((rest, end)) => Ok((block.values + rest, end)),
                    }
                }
            },
        }
    }
}

/// The values of one block and whether it ends the data.
#[derive(Debug)]
pub struct BlockData {
    /// Items of the block as binary64 bit patterns, end marker included.
    pub values: Vec<u64>,
    /// Whether the last item is at least the end marker.
    pub is_end: bool,
}

/// Reads the blocks of a byte buffer one after another.
pub struct BlockReader<'a> {
    reader: MmapReader<'a>,
    version: PostVersion,
    block_count: usize,
}

impl<'a> BlockReader<'a> {
    /// The bytes being read.
    pub closed spec fn bytes(&self) -> Seq<u8> {
        self.reader.bytes()
    }

    /// Offset of the next block.
    pub closed spec fn offset(&self) -> int {
        self.reader.offset()
    }

    /// Precision of the items.
    pub closed spec fn precision(&self) -> PostVersion {
        self.version
    }

    /// Number of blocks read so far.
    pub closed spec fn count(&self) -> int {
        self.block_count as int
    }

    /// The cursor is within its buffer and has read no more blocks than there
    /// are bytes.
    pub closed spec fn well_formed(&self) -> bool {
        self.reader.well_formed() && 20 * self.block_count <= self.reader.offset()
    }

    /// `self` reads the same buffer in the same precision as `other`.
    pub open spec fn same_input_as(&self, other: &Self) -> bool {
        self.bytes() == other.bytes() && self.precision() == other.precision()
    }

    /// A reader at the start of `data`.
    pub fn new(data: &'a [u8], version: PostVersion) -> (r: Self)
        ensures
            r.well_formed(),
            r.bytes() == data@,
            r.offset() == 0,
            r.precision() == version,
            r.count() == 0,
    {
        Self { reader: MmapReader::new(data), version, block_count: 0 }
    }

    /// A reader whose next block starts `offset` bytes into `data`.
    pub fn starting_at(data: &'a [u8], offset: usize, version: PostVersion) -> (r: Self)
        requires
            offset <= data@.len(),
        ensures
            r.well_formed(),
            r.bytes() == data@,
            r.offset() == offset,
            r.precision() == version,
            r.count() == 0,
    {
        Self { reader: MmapReader::starting_at(data, offset), version, block_count: 0 }
    }

    /// Reads the next block. Gives `None`, and changes nothing, once the whole
    /// buffer is consumed. A block that cannot be read is an error.
    pub fn next_block(&mut self) -> (r: Result<Option<BlockData>, WaveformError>)
        requires
            old(self).well_formed(),
        ensures
            final(self).well_formed(),
            final(self).same_input_as(old(self)),
            old(self).offset() >= old(self).bytes().len() ==> {
                &&& r is Ok
                &&& r->Ok_0 is None
                &&& final(self).offset() == old(self).offset()
                &&& final(self).count() == old(self).count()
            },
            old(self).offset() < old(self).bytes().len() ==> match block_at(
                old(self).bytes(),
                old(self).offset(),
                old(self).precision(),
            ) {
                Ok(block) => {
                    &&& r is Ok
                    &&& r->Ok_0 is Some
                    &&& r->Ok_0->Some_0.values@ == block.values
                    &&& r->Ok_0->Some_0.is_end == block.is_end
                    &&& final(self).offset() == block.end
                    &&& final(self).count() == old(self).count() + 1
                },
                Err(fault) => {
                    &&& r is Err
                    &&& r->Err_0@ == fault
                    &&& final(self).count() == old(self).count()
                },
            },
    {
        if self.reader.remaining() == 0 {
            return Ok(None);
        }
        let mut values: Vec<u64> = Vec::new();
        let ghost at = self.reader.offset();
        match read_block(&mut self.reader, self.version, &mut values) {
            Ok(is_end) => {
                proof {
                    lemma_block_extent(self.reader.bytes(), at, self.version);
                }
                self.block_count = self.block_count + 1;
                Ok(Some(BlockData { values, is_end }))
            },
            Err(e) => Err(e),
        }
    }

    /// Reads blocks up to and including the first one that ends the data, or
    /// up to the end of the buffer, and returns all their values.
    pub fn read_all(&mut self) -> (r: Result<Vec<u64>, WaveformError>)
        requires
            old(self).well_formed(),
        ensures
            final(self).well_formed(),
            final(self).same_input_as(old(self)),
            match blocks_from(old(self).bytes(), old(self).offset(), old(self).precision()) {
                Ok((values, end)) => {
                    &&& r is Ok
                    &&& r->Ok_0@ == values
                    &&& final(self).offset() == end
                },
                Err(fault) => r is Err && r->Err_0@ == fault,
            },
    {
        let mut all_data: Vec<u64> = Vec::new();
        loop
            invariant
                self.well_formed(),
                self.same_input_as(old(self)),
                match blocks_from(self.bytes(), self.offset(), self.precision()) {
                    Ok((rest, end)) => {
                        &&& blocks_from(
                            old(self).bytes(),
                            old(self).offset(),
                            old(self).precision(),
                        ) is Ok
                        &&& blocks_from(
                            old(self).bytes(),
                            old(self).offset(),
                            old(self).precision(),
                        )->Ok_0 == (all_data@ + rest, end)
                    },
                    Err(fault) => blocks_from(
                        old(self).bytes(),
                        old(self).offset(),
                        old(self).precision(),
                    ) == Err::<(Seq<u64>, int), Fault>(fault),
                },
            decreases self.bytes().len() - self.offset(),
        {
            let ghost at = self.offset();
            let ghost so_far = all_data@;
            proof {
                if 0 <= at < self.bytes().len() && block_at(self.bytes(), at, self.precision()) is Ok {
                    lemma_block_extent(self.bytes(), at, self.precision());
                }
            }
            match self.next_block() {
                Err(e) => {
                    return Err(e);
                },
                Ok(None) => {
                    assert(all_data@ + Seq::<u64>::empty() == all_data@);
                    return Ok(all_data);
                },
                Ok(Some(block)) => {
                    let is_end = block.is_end;
                    let mut values = block.values;
                    let ghost added = values@;
                    all_data.append(&mut values);
                    proof {
                        if !is_end {
                            let rest = blocks_from(self.bytes(), self.offset(), self.precision());
                            if rest is Ok {
                                assert(so_far + (added + rest->Ok_0.0) == (so_far + added)
                                    + rest->Ok_0.0);
                            }
                        }
                    }
                    if is_end {
                        return Ok(all_data);
                    }
                },
            }
        }
    }

    /// Number of blocks read so far.
    pub fn block_count(&self) -> (n: usize)
        ensures
            n == self.count(),
    {
        self.block_count
    }

    /// Short name of the item type.
    pub fn format_name(&self) -> (s: &'static str)
        ensures
            s@ == (match self.precision() {
                PostVersion::V9601 => "f32"@,
                PostVersion::V2001 => "f64"@,
            }),
    {
        match self.version {
            PostVersion::V9601 => "f32",
            PostVersion::V2001 => "f64",
        }
    }

    /// Number of bytes consumed.
    pub fn bytes_consumed(&self) -> (n: usize)
        ensures
            n == self.offset(),
    {
        self.reader.position()
    }
}

} // verus!
