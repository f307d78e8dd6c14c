//! Forward-only cursor over an immutable byte buffer.
//!
//! The cursor decodes fixed-width words in either byte order and knows the
//! frame that wraps every block: four 32-bit words before the payload, of
//! which the first and third are the literal 4 and the last is the payload's
//! length in bytes, and one word after it that repeats the length.

use crate::ieee::{widen, widened};
use crate::types::{
    error_corrupted_header, error_eof, error_trailer_mismatch, fault_corrupted_header, fault_eof,
    fault_trailer_mismatch, Endian, Fault, WaveformError,
};
use vstd::prelude::*;

verus! {

// ----------------------------------------------------------------------------
// Words in a byte sequence
// ----------------------------------------------------------------------------

/// The unsigned 32-bit word at `at`, least significant byte first.
pub open spec fn unsigned_le(b: Seq<u8>, at: int) -> int {
    b[at] as int + 0x100 * b[at + 1] as int + 0x1_0000 * b[at + 2] as int + 0x100_0000 * b[at
        + 3] as int
}

/// The unsigned 32-bit word at `at`, most significant byte first.
pub open spec fn unsigned_be(b: Seq<u8>, at: int) -> int {
    b[at + 3] as int + 0x100 * b[at + 2] as int + 0x1_0000 * b[at + 1] as int + 0x100_0000 * b[at] as int
}

/// The unsigned 32-bit word at `at` in the given byte order.
pub open spec fn unsigned_word(b: Seq<u8>, at: int, e: Endian) -> int {
    match e {
        Endian::Little => unsigned_le(b, at),
        Endian::Big => unsigned_be(b, at),
    }
}

/// The two's-complement reading of an unsigned 32-bit word.
pub open spec fn as_signed(w: int) -> int {
    if w >= 0x8000_0000 {
        w - 0x1_0000_0000
    } else {
        w
    }
}

/// The signed 32-bit word at `at` in the given byte order.
pub open spec fn signed_word(b: Seq<u8>, at: int, e: Endian) -> int {
    as_signed(unsigned_word(b, at, e))
}

/// The unsigned 64-bit word at `at` in the given byte order.
pub open spec fn long_word(b: Seq<u8>, at: int, e: Endian) -> int {
    match e {
        Endian::Little => unsigned_le(b, at) + 0x1_0000_0000 * unsigned_le(b, at + 4),
        Endian::Big => unsigned_be(b, at + 4) + 0x1_0000_0000 * unsigned_be(b, at),
    }
}

/// What a signed 32-bit length becomes when it is taken for a count: itself,
/// or for a negative length a count beyond any buffer.
pub open spec fn length_as_count(v: int) -> int {
    if v >= 0 {
        v
    } else {
        usize::MAX + 1 + v
    }
}

/// The byte order under which the frame at `at` holds the literal 4 in its
/// first and third word. Little-endian is tried first.
pub open spec fn frame_endian(b: Seq<u8>, at: int) -> Option<Endian> {
    if unsigned_le(b, at) == 4 && unsigned_le(b, at + 8) == 4 {
        Some(Endian::Little)
    } else if unsigned_be(b, at) == 4 && unsigned_be(b, at + 8) == 4 {
        Some(Endian::Big)
    } else {
        None
    }
}

/// `count` binary32 items starting at `at`, each widened to binary64.
pub open spec fn singles_at(b: Seq<u8>, at: int, count: int, e: Endian) -> Seq<u64> {
    Seq::new(count as nat, |i: int| widened(unsigned_word(b, at + 4 * i, e) as u32))
}

/// `count` binary64 items starting at `at`.
pub open spec fn doubles_at(b: Seq<u8>, at: int, count: int, e: Endian) -> Seq<u64> {
    Seq::new(count as nat, |i: int| long_word(b, at + 8 * i, e) as u64)
}

impl Endian {
    /// Decodes a signed 32-bit word.
    pub fn read_i32(&self, bytes: [u8; 4]) -> (v: i32)
        ensures
            v == signed_word(bytes@, 0, *self),
    {
        let w = self.read_f32(bytes);
        if w >= 0x8000_0000 {
            (w as i64 - 0x1_0000_0000) as i32
        } else {
            w as i32
        }
    }

    /// Decodes the bit pattern of a binary32 number, which is the unsigned
    /// 32-bit word.
    pub fn read_f32(&self, bytes: [u8; 4]) -> (v: u32)
        ensures
            v == unsigned_word(bytes@, 0, *self),
    {
        match self {
            Endian::Little => bytes[0] as u32 + 0x100 * (bytes[1] as u32) + 0x1_0000 * (
            bytes[2] as u32) + 0x100_0000 * (bytes[3] as u32),
            Endian::Big => bytes[3] as u32 + 0x100 * (bytes[2] as u32) + 0x1_0000 * (bytes[1] as u32)
                + 0x100_0000 * (bytes[0] as u32),
        }
    }

    /// Decodes the bit pattern of a binary64 number, which is the unsigned
    /// 64-bit word.
    pub fn read_f64(&self, bytes: [u8; 8]) -> (v: u64)
        ensures
            v == long_word(bytes@, 0, *self),
    {
        let first = self.read_f32([bytes[0], bytes[1], bytes[2], bytes[3]]);
        let second = self.read_f32([bytes[4], bytes[5], bytes[6], bytes[7]]);
        match self {
            Endian::Little => first as u64 + 0x1_0000_0000 * (second as u64),
            Endian::Big => second as u64 + 0x1_0000_0000 * (first as u64),
        }
    }
}

/// The signed word at `at`.
fn signed_at(data: &[u8], at: usize, e: Endian) -> (v: i32)
    requires
        at + 4 <= data@.len(),
    ensures
        v == signed_word(data@, at as int, e),
{
    e.read_i32([data[at], data[at + 1], data[at + 2], data[at + 3]])
}

/// The unsigned word at `at`.
fn unsigned_at(data: &[u8], at: usize, e: Endian) -> (v: u32)
    requires
        at + 4 <= data@.len(),
    ensures
        v == unsigned_word(data@, at as int, e),
{
    e.read_f32([data[at], data[at + 1], data[at + 2], data[at + 3]])
}

/// The 64-bit word at `at`.
fn long_at(data: &[u8], at: usize, e: Endian) -> (v: u64)
    requires
        at + 8 <= data@.len(),
    ensures
        v == long_word(data@, at as int, e),
{
    e.read_f64(
        [
            data[at],
            data[at + 1],
            data[at + 2],
            data[at + 3],
            data[at + 4],
            data[at + 5],
            data[at + 6],
            data[at + 7],
        ],
    )
}

// ----------------------------------------------------------------------------
// What reading a frame gives
// ----------------------------------------------------------------------------

/// A block's opening frame, as read at some offset.
pub struct Frame {
    /// Byte order found in the frame.
    pub endian: Endian,
    /// Declared payload length in bytes, as a signed word.
    pub declared: int,
    /// Number of whole items that the declared length holds.
    pub count: int,
}

/// What reading the opening frame at `at` gives for items of `item_size`
/// bytes: the frame, an end-of-input failure when fewer than 16 bytes are
/// left, or a format failure when neither byte order fits.
pub open spec fn frame_at(b: Seq<u8>, at: int, item_size: int) -> Result<Frame, Fault> {
    if at + 16 > b.len() {
        Err(fault_eof())
    } else {
        match frame_endian(b, at) {
            None => Err(fault_corrupted_header()),
            Some(e) => {
                let declared = signed_word(b, at + 12, e);
                Ok(Frame { endian: e, declared, count: length_as_count(declared) / item_size })
            },
        }
    }
}

/// What checking the closing word at `at` against `expected` gives.
pub open spec fn trailer_at(b: Seq<u8>, at: int, e: Endian, expected: int) -> Result<(), Fault> {
    if at + 4 > b.len() {
        Err(fault_eof())
    } else if signed_word(b, at, e) != expected {
        Err(fault_trailer_mismatch())
    } else {
        Ok(())
    }
}

// ----------------------------------------------------------------------------
// The cursor
// ----------------------------------------------------------------------------

/// A cursor over a byte buffer.
pub struct MmapReader<'a> {
    data: &'a [u8],
    pos: usize,
    endian: Option<Endian>,
}

impl<'a> MmapReader<'a> {
    /// The bytes under the cursor.
    pub closed spec fn bytes(&self) -> Seq<u8> {
        self.data@
    }

    /// How many bytes have been consumed.
    pub closed spec fn offset(&self) -> int {
        self.pos as int
    }

    /// Byte order found by the last frame read, if any.
    pub closed spec fn found_endian(&self) -> Option<Endian> {
        self.endian
    }

    /// The cursor never passes the end of its buffer.
    pub open spec fn well_formed(&self) -> bool {
        0 <= self.offset() <= self.bytes().len() <= usize::MAX
    }

    /// The byte order that payload and trailer are read in: the one found by
    /// the last frame, little-endian before any frame was read.
    pub open spec fn order(&self) -> Endian {
        match self.found_endian() {
            Some(e) => e,
            None => Endian::Little,
        }
    }

    /// The same buffer and byte order as `other`, `advance` bytes further on.
    pub open spec fn moved_on_from(&self, other: &Self, advance: int) -> bool {
        &&& self.bytes() == other.bytes()
        &&& self.found_endian() == other.found_endian()
        &&& self.offset() == other.offset() + advance
    }

    /// A cursor at the start of `data`.
    pub fn new(data: &'a [u8]) -> (r: Self)
        ensures
            r.bytes() == data@,
            r.offset() == 0,
            r.found_endian() is None,
            r.well_formed(),
    {
        proof {
            assert(vstd::slice::spec_slice_len(data) == data@.len());
        }
        Self { data, pos: 0, endian: None }
    }

    /// A cursor over `data` that stands `offset` bytes into it.
    pub fn starting_at(data: &'a [u8], offset: usize) -> (r: Self)
        requires
            offset <= data@.len(),
        ensures
            r.bytes() == data@,
            r.offset() == offset,
            r.found_endian() is None,
            r.well_formed(),
    {
        proof {
            assert(vstd::slice::spec_slice_len(data) == data@.len());
        }
        Self { data, pos: offset, endian: None }
    }

    /// Number of bytes not yet consumed.
    pub fn remaining(&self) -> (n: usize)
        requires
            self.well_formed(),
        ensures
            n == self.bytes().len() - self.offset(),
    {
        self.data.len() - self.pos
    }

    /// Number of bytes consumed.
    pub fn position(&self) -> (n: usize)
        ensures
            n == self.offset(),
    {
        self.pos
    }

    /// Byte order found by the last frame read, if any.
    pub fn endian(&self) -> (e: Option<Endian>)
        ensures
            e == self.found_endian(),
    {
        self.endian
    }

    fn order_now(&self) -> (e: Endian)
        ensures
            e == self.order(),
    {
        match self.endian {
            Some(e) => e,
            None => Endian::Little,
        }
    }

    /// Consumes the next `count` bytes and returns them. Fails with an
    /// end-of-input error, consuming nothing, when fewer are left.
    pub fn read_bytes(&mut self, count: usize) -> (r: Result<&'a [u8], WaveformError>)
        requires
            old(self).well_formed(),
        ensures
            final(self).well_formed(),
            old(self).offset() + count <= old(self).bytes().len() ==> r is Ok && r->Ok_0@
                == old(self).bytes().subrange(old(self).offset(), old(self).offset() + count)
                && final(self).moved_on_from(old(self), count as int),
            old(self).offset() + count > old(self).bytes().len() ==> r is Err && r->Err_0@
                == fault_eof() && final(self).moved_on_from(old(self), 0),
    {
        if count > self.data.len() - self.pos {
            return Err(error_eof());
        }
        let bytes = vstd::slice::slice_subrange(self.data, self.pos, self.pos + count);
        self.pos = self.pos + count;
        Ok(bytes)
    }

    /// Reads a block's opening frame for items of `item_size` bytes and
    /// returns the item count and the declared payload length. The byte order
    /// is found anew from each frame and remembered. The 16 bytes are consumed
    /// whenever they are there, also when the frame is refused.
    pub fn read_block_header(&mut self, item_size: usize) -> (r: Result<(usize, i32), WaveformError>)
        requires
            old(self).well_formed(),
            item_size > 0,
        ensures
            final(self).well_formed(),
            final(self).bytes() == old(self).bytes(),
            match frame_at(old(self).bytes(), old(self).offset(), item_size as int) {
                Ok(frame) => {
                    &&& r is Ok
                    &&& r->Ok_0.0 == frame.count
                    &&& r->Ok_0.1 == frame.declared
                    &&& final(self).found_endian() == Some(frame.endian)
                    &&& final(self).offset() == old(self).offset() + 16
                },
                Err(fault) => {
                    &&& r is Err
                    &&& r->Err_0@ == fault
                    &&& final(self).found_endian() == old(self).found_endian()
                    &&& final(self).offset() == old(self).offset() + if fault == fault_eof() {
                        0int
                    } else {
                        16int
                    }
                },
            },
    {
        if 16 > self.data.len() - self.pos {
            return Err(error_eof());
        }
        let at = self.pos;
        self.pos = self.pos + 16;
        let first_le = signed_at(self.data, at, Endian::Little);
        let first_be = signed_at(self.data, at, Endian::Big);
        let third_le = signed_at(self.data, at + 8, Endian::Little);
        let third_be = signed_at(self.data, at + 8, Endian::Big);
        let endian = if first_le == 4 && third_le == 4 {
            Endian::Little
        } else if first_be == 4 && third_be == 4 {
            Endian::Big
        } else {
            proof {
                reveal_strlit("Unexpected end of file");
                reveal_strlit("Corrupted block header");
            }
            return Err(error_corrupted_header());
        };
        self.endian = Some(endian);
        let trailer_value = signed_at(self.data, at + 12, endian);
        let as_count: usize = if trailer_value >= 0 {
            trailer_value as usize
        } else {
            usize::MAX - ((-(trailer_value + 1)) as usize)
        };
        Ok((as_count / item_size, trailer_value))
    }

    /// Reads a block's closing word in the current byte order and checks that
    /// it repeats `expected`. The 4 bytes are consumed whenever they are
    /// there.
    pub fn read_block_trailer(&mut self, expected: i32) -> (r: Result<(), WaveformError>)
        requires
            old(self).well_formed(),
        ensures
            final(self).well_formed(),
            final(self).bytes() == old(self).bytes(),
            final(self).found_endian() == old(self).found_endian(),
            match trailer_at(
                old(self).bytes(),
                old(self).offset(),
                old(self).order(),
                expected as int,
            ) {
                Ok(_) => r is Ok && final(self).offset() == old(self).offset() + 4,
                Err(fault) => {
                    &&& r is Err
                    &&& r->Err_0@ == fault
                    &&& final(self).offset() == old(self).offset() + if fault == fault_eof() {
                        0int
                    } else {
                        4int
                    }
                },
            },
    {
        if 4 > self.data.len() - self.pos {
            return Err(error_eof());
        }
        let trailer = signed_at(self.data, self.pos, self.order_now());
        self.pos = self.pos + 4;
        if trailer != expected {
            proof {
                reveal_strlit("Unexpected end of file");
                reveal_strlit("Block header and trailer mismatch");
            }
            return Err(error_trailer_mismatch());
        }
        Ok(())
    }

    /// The binary32 bit pattern stored at byte offset `at`, in the current
    /// byte order. Consumes nothing.
    pub fn single_at(&self, at: usize) -> (v: u32)
        requires
            at + 4 <= self.bytes().len(),
        ensures
            v == unsigned_word(self.bytes(), at as int, self.order()),
    {
        unsigned_at(self.data, at, self.order_now())
    }

    /// Consumes `count` binary32 items in the current byte order and appends
    /// each, widened to binary64, to `target`. Fails with an end-of-input
    /// error, consuming and appending nothing, when fewer bytes are left.
    pub fn read_floats_as_f64_into(&mut self, count: usize, target: &mut Vec<u64>) -> (r: Result<
        (),
        WaveformError,
    >)
        requires
            old(self).well_formed(),
        ensures
            final(self).well_formed(),
            4 * count <= old(self).bytes().len() - old(self).offset() ==> {
                &&& r is Ok
                &&& final(self).moved_on_from(old(self), 4 * count)
                &&& final(target)@ == old(target)@ + singles_at(
                    old(self).bytes(),
                    old(self).offset(),
                    count as int,
                    old(self).order(),
                )
            },
            4 * count > old(self).bytes().len() - old(self).offset() ==> {
                &&& r is Err
                &&& r->Err_0@ == fault_eof()
                &&& final(self).moved_on_from(old(self), 0)
                &&& final(target)@ == old(target)@
            },
    {
        if count > (self.data.len() - self.pos) / 4 {
            return Err(error_eof());
        }
        let e = self.order_now();
        let start = self.pos;
        let ghost before = target@;
        let mut i: usize = 0;
        while i < count
            invariant
                i <= count,
                start + 4 * count <= self.data@.len() <= usize::MAX,
                self.pos == start,
                target@ == before + singles_at(self.data@, start as int, i as int, e),
            decreases count - i,
        {
            let bits = unsigned_at(self.data, start + 4 * i, e);
            target.push(widen(bits));
            i = i + 1;
        }
        self.pos = start + 4 * count;
        Ok(())
    }

    /// Consumes `count` binary64 items in the current byte order and appends
    /// them to `target`. Fails with an end-of-input error, consuming and
    /// appending nothing, when fewer bytes are left.
    pub fn read_doubles_into(&mut self, count: usize, target: &mut Vec<u64>) -> (r: Result<
        (),
        WaveformError,
    >)
        requires
            old(self).well_formed(),
        ensures
            final(self).well_formed(),
            8 * count <= old(self).bytes().len() - old(self).offset() ==> {
                &&& r is Ok
                &&& final(self).moved_on_from(old(self), 8 * count)
                &&& final(target)@ == old(target)@ + doubles_at(
                    old(self).bytes(),
                    old(self).offset(),
                    count as int,
                    old(self).order(),
                )
            },
            8 * count > old(self).bytes().len() - old(self).offset() ==> {
                &&& r is Err
                &&& r->Err_0@ == fault_eof()
                &&& final(self).moved_on_from(old(self), 0)
                &&& final(target)@ == old(target)@
            },
    {
        if count > (self.data.len() - self.pos) / 8 {
            return Err(error_eof());
        }
        let e = self.order_now();
        let start = self.pos;
        let ghost before = target@;
        let mut i: usize = 0;
        while i < count
            invariant
                i <= count,
                start + 8 * count <= self.data@.len() <= usize::MAX,
                self.pos == start,
                target@ == before + doubles_at(self.data@, start as int, i as int, e),
            decreases count - i,
        {
            let bits = long_at(self.data, start + 8 * i, e);
            target.push(bits);
            i = i + 1;
        }
        self.pos = start + 8 * count;
        Ok(())
    }
}

} // verus!
