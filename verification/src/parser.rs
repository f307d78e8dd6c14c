//! Header parsing and full decoding.
//!
//! A file is a header and a data section. The header is a run of framed
//! blocks of bytes that ends with the marker `$&%#`; the bytes before the
//! marker are the header blob. The data section holds one table per sweep
//! point, each a run of blocks that ends with a block whose last item is the
//! end marker.

use crate::header::{
    extract_chars, extract_int, extract_string, field_int, field_text, find, find_subsequence,
    strip_voltage_wrapper, unwrapped,
};
use crate::block_reader::{block_at, lemma_block_extent, read_block};
use crate::layout::{
    column_count, extract_signal, layout_fits, real_column, real_values, row_width, scale_column,
    signal_column,
};
use crate::reader::{frame_at, trailer_at, MmapReader};
use crate::text::{
    chars_are, decode_lossy, from_chars, lossy_text, lowercase, lowercase_text, parse_i32,
    parsed_i32, split_whitespace, string_views, to_chars, tokens, uppercase_text, views,
};
use crate::types::{
    fault_eof, option_text, table_views, variable_views, vector_views, yields, AnalysisType,
    DataTable, Fault, PostVersion, TableView, VarType, Variable, VariableView, VectorData,
    WaveformError, WaveformResult, WaveformView, COMPLEX_VAR, DATE_END_POSITION,
    DATE_START_POSITION, FREQUENCY_TYPE, NUM_OF_PROBES_POSITION, NUM_OF_SWEEPS_END_POSITION,
    NUM_OF_SWEEPS_POSITION, NUM_OF_VARIABLES_POSITION, POST_START_POSITION1, POST_START_POSITION2,
    POST_STRING11, POST_STRING12, POST_STRING21, REAL_VAR, SWEEP_SIZE_POSITION1,
    SWEEP_SIZE_POSITION2, TITLE_START_POSITION, VECTOR_DESCRIPTION_START_POSITION,
};
use vstd::prelude::*;

verus! {

// ----------------------------------------------------------------------------
// Header metadata
// ----------------------------------------------------------------------------

/// What the header says of a file.
#[derive(Debug, Clone)]
pub struct HeaderMetadata {
    pub title: String,
    pub date: String,
    pub post_version: PostVersion,
    /// Number of variables, the scale included.
    pub num_variables: i32,
    /// Number of vectors: probes plus variables.
    pub num_vectors: usize,
    /// `COMPLEX_VAR` for frequency-domain data, else `REAL_VAR`.
    pub var_type: i32,
    pub scale_name: String,
    /// Names of the signals, one per vector after the scale.
    pub names: Vec<String>,
    pub sweep_name: Option<String>,
    /// Number of sweep points, 1 without a sweep.
    pub sweep_size: i32,
}

/// Header metadata as contracts speak of it.
pub struct HeaderView {
    pub title: Seq<char>,
    pub date: Seq<char>,
    pub post_version: PostVersion,
    pub num_variables: int,
    pub num_vectors: int,
    pub var_type: int,
    pub scale_name: Seq<char>,
    pub names: Seq<Seq<char>>,
    pub sweep_name: Option<Seq<char>>,
    pub sweep_size: int,
}

impl HeaderView {
    /// There is at least the scale, one name per signal, a row layout that
    /// fits and whose width a `usize` can hold, and at least one sweep point,
    /// exactly one without a sweep.
    pub open spec fn well_formed(self) -> bool {
        &&& self.names.len() == self.num_vectors - 1
        &&& (self.var_type == COMPLEX_VAR || self.var_type == REAL_VAR)
        &&& layout_fits(self.num_vectors, self.num_variables, self.var_type)
        &&& self.columns() <= usize::MAX
        &&& self.sweep_size >= 1
        &&& (self.sweep_name is None ==> self.sweep_size == 1)
    }

    /// Number of flat values in one row.
    pub open spec fn columns(self) -> int {
        column_count(self.num_vectors, self.num_variables, self.var_type)
    }
}

impl View for HeaderMetadata {
    type V = HeaderView;

    open spec fn view(&self) -> HeaderView {
        HeaderView {
            title: self.title@,
            date: self.date@,
            post_version: self.post_version,
            num_variables: self.num_variables as int,
            num_vectors: self.num_vectors as int,
            var_type: self.var_type as int,
            scale_name: self.scale_name@,
            names: string_views(self.names@),
            sweep_name: option_text(self.sweep_name),
            sweep_size: self.sweep_size as int,
        }
    }
}

// ----------------------------------------------------------------------------
// What a header blob says
// ----------------------------------------------------------------------------

pub open spec fn fault_unknown_post() -> Fault {
    Fault::Format("Unknown post format"@)
}

pub open spec fn fault_sweep_dimension() -> Fault {
    Fault::Format("Only one-dimensional sweep supported"@)
}

pub open spec fn fault_short_buffer() -> Fault {
    Fault::Parse("Buffer too short"@)
}

pub open spec fn fault_missing_names() -> Fault {
    Fault::Parse("Not enough vector names"@)
}

pub open spec fn fault_variable_count() -> Fault {
    Fault::Parse("Invalid variable count"@)
}

/// The precision that the two marker fields declare. The high-precision
/// marker wins where both are there.
pub open spec fn post_version_of(buf: Seq<u8>) -> Option<PostVersion> {
    let first = field_text(buf, 16, 20);
    let second = field_text(buf, 20, 24);
    if second == "2001"@ {
        Some(PostVersion::V2001)
    } else if first == "9007"@ || first == "9601"@ {
        Some(PostVersion::V9601)
    } else {
        None
    }
}

/// Where the title ends: the start of the date field, moved back over the
/// spaces before it, but not past the start of the title.
pub open spec fn title_end_from(buf: Seq<u8>, end: int) -> int
    decreases end,
{
    if 24 < end <= buf.len() && buf[end - 1] == 0x20 {
        title_end_from(buf, end - 1)
    } else {
        end
    }
}

/// The words of the vector description, which starts at offset 256.
pub open spec fn description_tokens(buf: Seq<u8>) -> Seq<Seq<char>> {
    tokens(lossy_text(buf.skip(256)))
}

/// The type flag that the first word of the description gives: complex where
/// it writes the frequency code, real otherwise.
pub open spec fn var_type_of(words: Seq<Seq<char>>) -> int {
    if words.len() > 0 && parsed_i32(words[0]) == Some(FREQUENCY_TYPE) {
        COMPLEX_VAR as int
    } else {
        REAL_VAR as int
    }
}

/// The name of a signal as the header word `word` gives it: in lowercase and
/// without a voltage wrapper.
pub open spec fn signal_name(word: Seq<char>) -> Seq<char> {
    unwrapped(lowercase_text(word))
}

/// The name of the scale and the names of the signals among the description
/// words: the word at index `num_vectors`, then the `num_vectors - 1` words
/// after it. All of them must be there.
pub open spec fn names_among(words: Seq<Seq<char>>, num_vectors: int) -> Result<
    (Seq<char>, Seq<Seq<char>>),
    Fault,
> {
    if words.len() < num_vectors + 1 || words.len() < 2 * num_vectors {
        Err(fault_missing_names())
    } else {
        Ok(
            (
                words[num_vectors],
                Seq::new(
                    if num_vectors >= 1 {
                        (num_vectors - 1) as nat
                    } else {
                        0
                    },
                    |k: int| signal_name(words[num_vectors + 1 + k]),
                ),
            ),
        )
    }
}

/// The name of the scale and the names of the signals in a header blob.
pub open spec fn vector_names(buf: Seq<u8>, num_vectors: int) -> Result<
    (Seq<char>, Seq<Seq<char>>),
    Fault,
> {
    if buf.len() < 256 {
        Err(fault_short_buffer())
    } else {
        names_among(description_tokens(buf), num_vectors)
    }
}

/// Name and size of the sweep: the word at index `2 * num_vectors`, and the
/// number in the size field of the file's precision.
pub open spec fn sweep_of(buf: Seq<u8>, words: Seq<Seq<char>>, num_vectors: int) -> Option<
    (Seq<char>, int),
> {
    if 0 <= 2 * num_vectors < words.len() {
        Some(
            (
                words[2 * num_vectors],
                if field_text(buf, 20, 24) == "2001"@ {
                    field_int(buf, 187, 197)
                } else {
                    field_int(buf, 176, 186)
                },
            ),
        )
    } else {
        None
    }
}

/// What a header blob says, or why it is refused.
pub open spec fn header_of(buf: Seq<u8>) -> Result<HeaderView, Fault> {
    let sweeps = field_int(buf, 8, 12);
    let variables = field_int(buf, 0, 4);
    let num_vectors = field_int(buf, 4, 8) + variables;
    let words = description_tokens(buf);
    let var_type = var_type_of(words);
    let sweep = if sweeps == 1 {
        sweep_of(buf, words, num_vectors)
    } else {
        None
    };
    if post_version_of(buf) is None {
        Err(fault_unknown_post())
    } else if sweeps < 0 || sweeps > 1 {
        Err(fault_sweep_dimension())
    } else if buf.len() < 256 {
        Err(fault_short_buffer())
    } else if num_vectors < 1 {
        Err(fault_missing_names())
    } else if var_type == COMPLEX_VAR && variables < 1 {
        Err(fault_variable_count())
    } else if column_count(num_vectors, variables, var_type) > usize::MAX {
        Err(fault_variable_count())
    } else {
        match names_among(words, num_vectors) {
            Err(fault) => Err(fault),
            Ok((scale_name, names)) => Ok(
                HeaderView {
                    title: field_text(buf, 24, title_end_from(buf, 88)),
                    date: field_text(buf, 88, 112),
                    post_version: post_version_of(buf)->Some_0,
                    num_variables: variables,
                    num_vectors,
                    var_type,
                    scale_name,
                    names,
                    sweep_name: match sweep {
                        Some((name, _)) => Some(name),
                        None => None,
                    },
                    sweep_size: match sweep {
                        Some((_, size)) => if size > 1 {
                            size
                        } else {
                            1
                        },
                        None => 1,
                    },
                },
            ),
        }
    }
}

/// A header that is accepted is well formed.
pub proof fn lemma_header_well_formed(buf: Seq<u8>)
    requires
        header_of(buf) is Ok,
    ensures
        header_of(buf)->Ok_0.well_formed(),
{
}

// ----------------------------------------------------------------------------
// Parsing the header blob
// ----------------------------------------------------------------------------

/// The description words of a header blob of at least 256 bytes.
fn description_words(buf: &[u8]) -> (words: Vec<Vec<char>>)
    requires
        buf@.len() >= 256,
    ensures
        views(words@) == description_tokens(buf@),
{
    let section = vstd::slice::slice_subrange(buf, VECTOR_DESCRIPTION_START_POSITION, buf.len());
    assert(section@ == buf@.skip(256));
    let text = decode_lossy(section);
    let chars = to_chars(text.as_str());
    split_whitespace(chars.as_slice())
}

/// The name that a header word gives to a signal.
fn signal_name_of(word: &[char]) -> (name: String)
    ensures
        name@ == signal_name(word@),
{
    let text = from_chars(word);
    let lower = lowercase(text.as_str());
    let chars = to_chars(lower.as_str());
    let stripped = strip_voltage_wrapper(chars.as_slice());
    from_chars(stripped.as_slice())
}

/// Picks the name of the scale and the names of the signals from the
/// description words.
pub fn names_from_words(words: &Vec<Vec<char>>, num_vectors: usize) -> (r: Result<
    (String, Vec<String>),
    WaveformError,
>)
    ensures
        match names_among(views(words@), num_vectors as int) {
            Ok((scale_name, names)) => {
                &&& r is Ok
                &&& r->Ok_0.0@ == scale_name
                &&& string_views(r->Ok_0.1@) == names
            },
            Err(fault) => r is Err && r->Err_0@ == fault,
        },
{
    let count = words.len();
    if num_vectors >= count || num_vectors > count / 2 {
        return Err(WaveformError::parse("Not enough vector names"));
    }
    let ghost all = views(words@);
    let scale_name = from_chars(words[num_vectors].as_slice());
    assert(all[num_vectors as int] == words@[num_vectors as int]@);
    let mut names: Vec<String> = Vec::new();
    while names.len() + 1 < num_vectors
        invariant
            num_vectors < count,
            2 * num_vectors <= count,
            count == words@.len(),
            all == views(words@),
            num_vectors >= 1 ==> names@.len() <= num_vectors - 1,
            num_vectors == 0 ==> names@.len() == 0,
            forall|j: int|
                0 <= j < names@.len() ==> (#[trigger] names@[j])@ == signal_name(
                    all[num_vectors + 1 + j],
                ),
        decreases num_vectors - names@.len(),
    {
        let k = num_vectors + 1 + names.len();
        let name = signal_name_of(words[k].as_slice());
        assert(all[k as int] == words@[k as int]@);
        names.push(name);
    }
    assert(string_views(names@) == names_among(all, num_vectors as int)->Ok_0.1);
    Ok((scale_name, names))
}

/// Reads the name of the scale and the names of the signals from a header
/// blob that describes `num_vectors` vectors.
pub fn parse_vector_names(buf: &[u8], num_vectors: usize) -> (r: Result<
    (String, Vec<String>),
    WaveformError,
>)
    ensures
        match vector_names(buf@, num_vectors as int) {
            Ok((scale_name, names)) => {
                &&& r is Ok
                &&& r->Ok_0.0@ == scale_name
                &&& string_views(r->Ok_0.1@) == names
            },
            Err(fault) => r is Err && r->Err_0@ == fault,
        },
{
    if buf.len() < VECTOR_DESCRIPTION_START_POSITION {
        return Err(WaveformError::parse("Buffer too short"));
    }
    let words = description_words(buf);
    names_from_words(&words, num_vectors)
}

/// Reads name and size of the sweep from a header blob and its description
/// words.
pub fn get_sweep_info(buf: &[u8], words: &Vec<Vec<char>>, num_vectors: usize) -> (r: Option<
    (String, i32),
>)
    ensures
        match sweep_of(buf@, views(words@), num_vectors as int) {
            Some((name, size)) => r is Some && r->Some_0.0@ == name && r->Some_0.1 == size,
            None => r is None,
        },
{
    let count = words.len();
    if num_vectors > count / 2 || 2 * num_vectors >= count {
        return None;
    }
    let sweep_name = from_chars(words[2 * num_vectors].as_slice());
    assert(views(words@)[2 * num_vectors] == words@[2 * num_vectors]@);
    let post = extract_chars(buf, POST_START_POSITION2, POST_START_POSITION2 + 4);
    let sweep_size = if chars_are(post.as_slice(), POST_STRING21) {
        extract_int(buf, SWEEP_SIZE_POSITION2, SWEEP_SIZE_POSITION2 + 10)
    } else {
        extract_int(buf, SWEEP_SIZE_POSITION1, SWEEP_SIZE_POSITION1 + 10)
    };
    Some((sweep_name, sweep_size))
}

/// Where the title ends.
fn title_end(buf: &[u8]) -> (end: usize)
    ensures
        end == title_end_from(buf@, 88),
        24 <= end <= 88,
{
    let mut end: usize = DATE_START_POSITION;
    while end > TITLE_START_POSITION && end <= buf.len() && buf[end - 1] == 0x20
        invariant
            24 <= end <= 88,
            title_end_from(buf@, 88) == title_end_from(buf@, end as int),
        decreases end,
    {
        end = end - 1;
    }
    end
}

/// Reads the metadata from a header blob.
pub fn parse_header_metadata(header_buf: &[u8]) -> (r: Result<HeaderMetadata, WaveformError>)
    ensures
        yields(r, header_of(header_buf@)),
        r is Ok ==> r->Ok_0@.well_formed(),
{
    let post1 = extract_chars(header_buf, POST_START_POSITION1, POST_START_POSITION1 + 4);
    let post2 = extract_chars(header_buf, POST_START_POSITION2, POST_START_POSITION2 + 4);
    let is_high = chars_are(post2.as_slice(), POST_STRING21);
    if !chars_are(post1.as_slice(), POST_STRING11) && !chars_are(post1.as_slice(), POST_STRING12)
        && !is_high {
        return Err(WaveformError::format("Unknown post format"));
    }
    let post_version = if is_high {
        PostVersion::V2001
    } else {
        PostVersion::V9601
    };
    let date = extract_string(header_buf, DATE_START_POSITION, DATE_END_POSITION);
    let title = extract_string(header_buf, TITLE_START_POSITION, title_end(header_buf));
    let num_sweeps = extract_int(header_buf, NUM_OF_SWEEPS_POSITION, NUM_OF_SWEEPS_END_POSITION);
    if num_sweeps < 0 || num_sweeps > 1 {
        return Err(WaveformError::format("Only one-dimensional sweep supported"));
    }
    if header_buf.len() < VECTOR_DESCRIPTION_START_POSITION {
        return Err(WaveformError::parse("Buffer too short"));
    }
    let num_probes = extract_int(header_buf, NUM_OF_PROBES_POSITION, NUM_OF_SWEEPS_POSITION);
    let num_variables = extract_int(header_buf, NUM_OF_VARIABLES_POSITION, NUM_OF_PROBES_POSITION);
    let total: i64 = num_probes as i64 + num_variables as i64;
    let words = description_words(header_buf);
    let var_type_num: i32 = if words.len() > 0 {
        assert(views(words@)[0] == words@[0]@);
        match parse_i32(words[0].as_slice()) {
            Some(v) => v,
            None => 0,
        }
    } else {
        0
    };
    let var_type = if var_type_num == FREQUENCY_TYPE {
        COMPLEX_VAR
    } else {
        REAL_VAR
    };
    if total < 1 {
        return Err(WaveformError::parse("Not enough vector names"));
    }
    if var_type == COMPLEX_VAR && num_variables < 1 {
        return Err(WaveformError::parse("Invalid variable count"));
    }
    let num_vectors: usize = total as usize;
    if row_width(num_vectors, num_variables, var_type).is_none() {
        return Err(WaveformError::parse("Invalid variable count"));
    }
    let (scale_name, names) = match names_from_words(&words, num_vectors) {
        Ok(found) => found,
        Err(e) => {
            return Err(e);
        },
    };
    let (sweep_name, sweep_size) = if num_sweeps == 1 {
        match get_sweep_info(header_buf, &words, num_vectors) {
            Some((name, size)) => (
                Some(name),
                if size > 1 {
                    size
                } else {
                    1
                },
            ),
            None => (None, 1),
        }
    } else {
        (None, 1)
    };
    Ok(
        HeaderMetadata {
            title,
            date,
            post_version,
            num_variables,
            num_vectors,
            var_type,
            scale_name,
            names,
            sweep_name,
            sweep_size,
        },
    )
}

// ----------------------------------------------------------------------------
// Finding the header blob
// ----------------------------------------------------------------------------

/// The four bytes `$&%#` that end the header.
pub open spec fn header_end_marker() -> Seq<u8> {
    seq![0x24u8, 0x26u8, 0x25u8, 0x23u8]
}

pub open spec fn fault_empty_file() -> Fault {
    Fault::Format("File is empty"@)
}

pub open spec fn fault_ascii_file() -> Fault {
    Fault::Format("File is ASCII format, only binary supported"@)
}

/// Whether a file can be a binary waveform file: it is not empty and does not
/// start with a printable character.
pub open spec fn validated(data: Seq<u8>) -> Result<(), Fault> {
    if data.len() == 0 {
        Err(fault_empty_file())
    } else if data[0] >= 0x20 {
        Err(fault_ascii_file())
    } else {
        Ok(())
    }
}

/// The framed block of bytes at `at`: its payload and the offset after its
/// closing word.
#[verifier::opaque]
pub open spec fn byte_block_at(b: Seq<u8>, at: int) -> Result<(Seq<u8>, int), Fault> {
    match frame_at(b, at, 1) {
        Err(fault) => Err(fault),
        Ok(frame) => {
            let start = at + 16;
            if frame.count > b.len() - start {
                Err(fault_eof())
            } else {
                match trailer_at(b, start + frame.count, frame.endian, frame.declared) {
                    Err(fault) => Err(fault),
                    Ok(_) => Ok((b.subrange(start, start + frame.count), start + frame.count + 4)),
                }
            }
        },
    }
}

/// The header blob and the offset of the data section, reading framed blocks
/// of bytes from `at` on and adding their payload to `acc` until the
/// accumulated bytes hold the end marker. The blob is what stands before the
/// marker.
pub open spec fn header_blob_from(b: Seq<u8>, at: int, acc: Seq<u8>) -> Result<
    (Seq<u8>, int),
    Fault,
>
    decreases b.len() - at,
{
    match byte_block_at(b, at) {
        Err(fault) => Err(fault),
        Ok((payload, end)) => {
            let grown = acc + payload;
            match find(grown, header_end_marker()) {
                Some(p) => Ok((grown.take(p), end)),
                None => if at < end <= b.len() {
                    header_blob_from(b, end, grown)
                } else {
                    Err(fault_eof())
                },
            }
        },
    }
}

/// A framed block of bytes ends at least 20 bytes after its start and within
/// the input.
pub proof fn lemma_byte_block_extent(b: Seq<u8>, at: int)
    requires
        0 <= at,
        byte_block_at(b, at) is Ok,
    ensures
        at + 20 <= byte_block_at(b, at)->Ok_0.1 <= b.len(),
{
    reveal(byte_block_at);
}

/// The metadata of a file and the offset of its data section.
pub open spec fn header_only(data: Seq<u8>) -> Result<(HeaderView, int), Fault> {
    match validated(data) {
        Err(fault) => Err(fault),
        Ok(_) => match header_blob_from(data, 0, Seq::empty()) {
            Err(fault) => Err(fault),
            Ok((blob, position)) => match header_of(blob) {
                Err(fault) => Err(fault),
                Ok(header) => Ok((header, position)),
            },
        },
    }
}

/// The data section starts within the file.
pub proof fn lemma_header_blob_position(b: Seq<u8>, at: int, acc: Seq<u8>)
    requires
        0 <= at,
        header_blob_from(b, at, acc) is Ok,
    ensures
        at + 20 <= header_blob_from(b, at, acc)->Ok_0.1 <= b.len(),
    decreases b.len() - at,
{
    lemma_byte_block_extent(b, at);
    let (payload, end) = byte_block_at(b, at)->Ok_0;
    let grown = acc + payload;
    if find(grown, header_end_marker()) is None {
        lemma_header_blob_position(b, end, grown);
    }
}

/// Checks that a file can be a binary waveform file.
pub fn validate_file_format(data: &[u8]) -> (r: Result<(), WaveformError>)
    ensures
        match validated(data@) {
            Ok(_) => r is Ok,
            Err(fault) => r is Err && r->Err_0@ == fault,
        },
{
    if data.len() == 0 {
        return Err(WaveformError::format("File is empty"));
    }
    if data[0] >= 0x20 {
        return Err(WaveformError::format("File is ASCII format, only binary supported"));
    }
    Ok(())
}

/// Reads the framed block of bytes at the cursor and appends its payload to
/// `buffer`.
fn read_byte_block(reader: &mut MmapReader<'_>, buffer: &mut Vec<u8>) -> (r: Result<
    (),
    WaveformError,
>)
    requires
        old(reader).well_formed(),
    ensures
        final(reader).well_formed(),
        final(reader).bytes() == old(reader).bytes(),
        match byte_block_at(old(reader).bytes(), old(reader).offset()) {
            Ok((payload, end)) => {
                &&& r is Ok
                &&& final(buffer)@ == old(buffer)@ + payload
                &&& final(reader).offset() == end
            },
            Err(fault) => r is Err && r->Err_0@ == fault,
        },
{
    reveal(byte_block_at);
    let (num_items, trailer) = match reader.read_block_header(1) {
        Ok(found) => found,
        Err(e) => {
            return Err(e);
        },
    };
    let block_data = match reader.read_bytes(num_items) {
        Ok(bytes) => bytes,
        Err(e) => {
            return Err(e);
        },
    };
    match reader.read_block_trailer(trailer) {
        Ok(_) => {},
        Err(e) => {
            return Err(e);
        },
    }
    buffer.extend_from_slice(block_data);
    Ok(())
}

/// Reads framed blocks of bytes until their payload holds the end marker,
/// and returns the bytes before the marker.
pub fn read_header_blocks(reader: &mut MmapReader<'_>) -> (r: Result<Vec<u8>, WaveformError>)
    requires
        old(reader).well_formed(),
    ensures
        final(reader).well_formed(),
        final(reader).bytes() == old(reader).bytes(),
        match header_blob_from(old(reader).bytes(), old(reader).offset(), Seq::empty()) {
            Ok((blob, position)) => {
                &&& r is Ok
                &&& r->Ok_0@ == blob
                &&& final(reader).offset() == position
            },
            Err(fault) => r is Err && r->Err_0@ == fault,
        },
{
    let mut buffer: Vec<u8> = Vec::new();
    let marker: Vec<u8> = vec![0x24u8, 0x26u8, 0x25u8, 0x23u8];
    assert(marker@ == header_end_marker());
    let ghost b = reader.bytes();
    let ghost want = header_blob_from(b, reader.offset(), Seq::empty());
    loop
        invariant_except_break
            want == header_blob_from(b, reader.offset(), buffer@),
        invariant
            reader.well_formed(),
            reader.bytes() == b,
            b == old(reader).bytes(),
            marker@ == header_end_marker(),
            want == header_blob_from(b, old(reader).offset(), Seq::empty()),
        ensures
            reader.well_formed(),
            reader.bytes() == b,
            want is Ok,
            buffer@ == want->Ok_0.0,
            reader.offset() == want->Ok_0.1,
        decreases b.len() - reader.offset(),
    {
        let ghost at = reader.offset();
        let ghost acc = buffer@;
        proof {
            if byte_block_at(b, at) is Ok {
                lemma_byte_block_extent(b, at);
            }
        }
        match read_byte_block(reader, &mut buffer) {
            Ok(_) => {},
            Err(e) => {
                return Err(e);
            },
        }
        let ghost grown = buffer@;
        assert(grown == acc + byte_block_at(b, at)->Ok_0.0);
        match find_subsequence(buffer.as_slice(), marker.as_slice()) {
            Some(position) => {
                proof {
                    crate::header::lemma_find_from(grown, marker@, 0);
                }
                buffer.truncate(position);
                assert(buffer@ == grown.take(position as int));
                break;
            },
            None => {},
        }
    }
    Ok(buffer)
}

/// Reads the header of a file: its metadata and the offset at which the data
/// section starts.
pub fn parse_header_only(data: &[u8]) -> (r: Result<(HeaderMetadata, usize), WaveformError>)
    ensures
        match header_only(data@) {
            Ok((header, position)) => {
                &&& r is Ok
                &&& r->Ok_0.0@ == header
                &&& r->Ok_0.1 == position
                &&& header.well_formed()
                &&& position <= data@.len()
            },
            Err(fault) => r is Err && r->Err_0@ == fault,
        },
{
    match validate_file_format(data) {
        Ok(_) => {},
        Err(e) => {
            return Err(e);
        },
    }
    let mut reader = MmapReader::new(data);
    let header_buf = match read_header_blocks(&mut reader) {
        Ok(buf) => buf,
        Err(e) => {
            return Err(e);
        },
    };
    let metadata = match parse_header_metadata(header_buf.as_slice()) {
        Ok(m) => m,
        Err(e) => {
            return Err(e);
        },
    };
    Ok((metadata, reader.position()))
}

// ----------------------------------------------------------------------------
// Data tables
// ----------------------------------------------------------------------------

/// The values of one table: those of the blocks from `at` up to and including
/// the first block that ends the data, end marker included, and the offset
/// after that block. The input ending before such a block is a failure.
pub open spec fn table_values_from(b: Seq<u8>, at: int, version: PostVersion) -> Result<
    (Seq<u64>, int),
    Fault,
>
    decreases b.len() - at,
{
    match block_at(b, at, version) {
        Err(fault) => Err(fault),
        Ok(block) => {
            if block.is_end {
                Ok((block.values, block.end))
            } else if at < block.end <= b.len() {
                match table_values_from(b, block.end, version) {
                    Err(fault) => Err(fault),
                    Ok((rest, end)) => Ok((block.values + rest, end)),
                }
            } else {
                Err(fault_eof())
            }
        },
    }
}

/// The values of a table end with the end marker, and the table ends within
/// the input.
pub proof fn lemma_table_values(b: Seq<u8>, at: int, version: PostVersion)
    requires
        0 <= at,
        table_values_from(b, at, version) is Ok,
    ensures
        table_values_from(b, at, version)->Ok_0.0.len() > 0,
        at < table_values_from(b, at, version)->Ok_0.1 <= b.len(),
    decreases b.len() - at,
{
    lemma_block_extent(b, at, version);
    let block = block_at(b, at, version)->Ok_0;
    if !block.is_end {
        lemma_table_values(b, block.end, version);
    }
}

/// Reads blocks up to and including the first one that ends the data and
/// returns all their values, end marker included.
pub fn read_data_blocks(reader: &mut MmapReader<'_>, version: PostVersion) -> (r: Result<
    Vec<u64>,
    WaveformError,
>)
    requires
        old(reader).well_formed(),
    ensures
        final(reader).well_formed(),
        final(reader).bytes() == old(reader).bytes(),
        match table_values_from(old(reader).bytes(), old(reader).offset(), version) {
            Ok((values, end)) => {
                &&& r is Ok
                &&& r->Ok_0@ == values
                &&& final(reader).offset() == end
            },
            Err(fault) => r is Err && r->Err_0@ == fault,
        },
{
    let mut raw_data: Vec<u64> = Vec::new();
    let ghost b = reader.bytes();
    let ghost want = table_values_from(b, reader.offset(), version);
    loop
        invariant_except_break
            match table_values_from(b, reader.offset(), version) {
                Ok((rest, end)) => want == Ok::<(Seq<u64>, int), Fault>((raw_data@ + rest, end)),
                Err(fault) => want == Err::<(Seq<u64>, int), Fault>(fault),
            },
        invariant
            reader.well_formed(),
            reader.bytes() == b,
            b == old(reader).bytes(),
            want == table_values_from(b, old(reader).offset(), version),
        ensures
            want is Ok,
            raw_data@ == want->Ok_0.0,
            reader.offset() == want->Ok_0.1,
        decreases b.len() - reader.offset(),
    {
        let ghost at = reader.offset();
        let ghost so_far = raw_data@;
        proof {
            if block_at(b, at, version) is Ok {
                lemma_block_extent(b, at, version);
            }
        }
        let is_end = match read_block(reader, version, &mut raw_data) {
            Ok(is_end) => is_end,
            Err(e) => {
                return Err(e);
            },
        };
        if is_end {
            break;
        }
        proof {
            let block = block_at(b, at, version)->Ok_0;
            let rest = table_values_from(b, block.end, version);
            if rest is Ok {
                assert(so_far + (block.values + rest->Ok_0.0) == (so_far + block.values)
                    + rest->Ok_0.0);
            }
        }
    }
    Ok(raw_data)
}

/// Number of complete rows among `len` values that end with the end marker
/// and, in a swept file, start with the sweep value.
pub open spec fn table_rows(len: int, has_sweep: bool, cols: int) -> int {
    let spare = len - (if has_sweep {
        2int
    } else {
        1int
    });
    if spare > 0 && cols > 0 {
        spare / cols
    } else {
        0
    }
}

/// The table that the values `raw` of one sweep point hold. In a swept file
/// the first value is the sweep value and the rows start after it. Values that
/// do not fill a row are dropped.
pub open spec fn table_of(
    raw: Seq<u64>,
    num_vectors: int,
    num_variables: int,
    var_type: int,
    has_sweep: bool,
) -> TableView {
    let cols = column_count(num_vectors, num_variables, var_type);
    let start = if has_sweep {
        1int
    } else {
        0int
    };
    let rows = table_rows(raw.len() as int, has_sweep, cols);
    TableView {
        sweep_value: if has_sweep {
            Some(raw[0])
        } else {
            None
        },
        vectors: Seq::new(
            num_vectors as nat,
            |j: int|
                if j == 0 {
                    scale_column(raw, start, rows, cols)
                } else {
                    signal_column(raw, start, rows, cols, j - 1, num_variables, var_type)
                },
        ),
    }
}

/// Every vector of a table has as many samples as the table has rows.
pub proof fn lemma_table_is_rectangular(
    raw: Seq<u64>,
    num_vectors: int,
    num_variables: int,
    var_type: int,
    has_sweep: bool,
)
    requires
        num_vectors >= 1,
    ensures
        table_of(raw, num_vectors, num_variables, var_type, has_sweep).is_rectangular(),
        table_of(raw, num_vectors, num_variables, var_type, has_sweep).vectors.len() == num_vectors,
        table_of(raw, num_vectors, num_variables, var_type, has_sweep).len() == table_rows(
            raw.len() as int,
            has_sweep,
            column_count(num_vectors, num_variables, var_type),
        ),
{
    let cols = column_count(num_vectors, num_variables, var_type);
    let spare = raw.len() - (if has_sweep {
        2int
    } else {
        1int
    });
    if spare > 0 && cols > 0 {
        assert(spare / cols >= 0) by (nonlinear_arith)
            requires
                spare > 0,
                cols > 0,
        ;
    }
}

/// Splits the values of one sweep point into vectors, the scale first.
pub fn process_raw_data(
    raw_data: &[u64],
    num_vectors: usize,
    num_variables: i32,
    var_type: i32,
    has_sweep: bool,
) -> (r: (Option<u64>, Vec<VectorData>))
    requires
        layout_fits(num_vectors as int, num_variables as int, var_type as int),
        has_sweep ==> raw_data@.len() > 0,
    ensures
        r.0 == table_of(
            raw_data@,
            num_vectors as int,
            num_variables as int,
            var_type as int,
            has_sweep,
        ).sweep_value,
        vector_views(r.1@) == table_of(
            raw_data@,
            num_vectors as int,
            num_variables as int,
            var_type as int,
            has_sweep,
        ).vectors,
{
    let data_offset: usize = if has_sweep {
        2
    } else {
        1
    };
    let start: usize = if has_sweep {
        1
    } else {
        0
    };
    let spare: usize = if raw_data.len() > data_offset {
        raw_data.len() - data_offset
    } else {
        0
    };
    let ghost wide = column_count(num_vectors as int, num_variables as int, var_type as int);
    let ghost want = table_of(
        raw_data@,
        num_vectors as int,
        num_variables as int,
        var_type as int,
        has_sweep,
    );
    let (rows, cols): (usize, usize) = match row_width(num_vectors, num_variables, var_type) {
        Some(c) => (spare / c, c),
        None => {
            assert(spare as int / wide == 0) by (nonlinear_arith)
                requires
                    0 <= spare < wide,
            ;
            (0, 1)
        },
    };
    assert(rows * cols <= spare) by (nonlinear_arith)
        requires
            cols > 0,
            rows == spare as int / cols as int || rows == 0,
            spare >= 0,
    ;
    assert(rows == table_rows(raw_data@.len() as int, has_sweep, wide));
    let sweep_value = if has_sweep {
        Some(raw_data[0])
    } else {
        None
    };
    let mut vectors: Vec<VectorData> = Vec::new();
    let scale = real_column(raw_data, start, rows, cols, 0);
    assert(scale@ == real_values(raw_data@, start as int, rows as int, wide, 0));
    vectors.push(VectorData::Real(scale));
    let mut i: usize = 0;
    while i + 1 < num_vectors
        invariant
            layout_fits(num_vectors as int, num_variables as int, var_type as int),
            rows > 0 ==> cols == wide,
            wide == column_count(num_vectors as int, num_variables as int, var_type as int),
            rows == table_rows(raw_data@.len() as int, has_sweep, wide),
            start == (if has_sweep {
                1int
            } else {
                0int
            }),
            start + rows * cols <= raw_data@.len(),
            vectors@.len() == i + 1,
            i + 1 <= num_vectors,
            want == table_of(
                raw_data@,
                num_vectors as int,
                num_variables as int,
                var_type as int,
                has_sweep,
            ),
            forall|j: int| 0 <= j < vectors@.len() ==> (#[trigger] vectors@[j])@ == want.vectors[j],
        decreases num_vectors - i,
    {
        let column = extract_signal(
            raw_data,
            start,
            rows,
            cols,
            i,
            num_vectors,
            num_variables,
            var_type,
        );
        proof {
            if rows == 0 {
                let off = crate::layout::signal_offset(i as int, num_variables as int, var_type as int);
                assert(crate::layout::real_values(raw_data@, start as int, 0, cols as int, off)
                    == crate::layout::real_values(raw_data@, start as int, 0, wide, off));
                assert(crate::layout::complex_values(raw_data@, start as int, 0, cols as int, off)
                    == crate::layout::complex_values(raw_data@, start as int, 0, wide, off));
            }
        }
        vectors.push(column);
        i = i + 1;
    }
    assert(vector_views(vectors@) == want.vectors);
    (sweep_value, vectors)
}

// ----------------------------------------------------------------------------
// Full decode
// ----------------------------------------------------------------------------

/// The analysis that a header stands for: AC for complex data, else what the
/// name of the scale gives.
pub open spec fn analysis_of(header: HeaderView) -> AnalysisType {
    if header.var_type == COMPLEX_VAR {
        AnalysisType::AC
    } else {
        AnalysisType::of_scale_name(uppercase_text(header.scale_name))
    }
}

/// The variable called `name`, its kind inferred from the name.
pub open spec fn variable_named(name: Seq<char>) -> VariableView {
    VariableView { name, var_type: VarType::of_name(lowercase_text(name)) }
}

/// The variables of a file: the scale, then the signals in header order.
pub open spec fn variables_of(header: HeaderView) -> Seq<VariableView> {
    Seq::new(
        header.names.len() + 1,
        |i: int|
            if i == 0 {
                variable_named(header.scale_name)
            } else {
                variable_named(header.names[i - 1])
            },
    )
}

/// The next `count` tables of the data section from `at` on.
pub open spec fn tables_from(b: Seq<u8>, at: int, header: HeaderView, count: int) -> Result<
    Seq<TableView>,
    Fault,
>
    decreases count,
{
    if count <= 0 {
        Ok(Seq::empty())
    } else {
        match table_values_from(b, at, header.post_version) {
            Err(fault) => Err(fault),
            Ok((raw, end)) => match tables_from(b, end, header, count - 1) {
                Err(fault) => Err(fault),
                Ok(rest) => Ok(
                    seq![
                        table_of(
                            raw,
                            header.num_vectors,
                            header.num_variables,
                            header.var_type,
                            header.sweep_name is Some,
                        ),
                    ] + rest,
                ),
            },
        }
    }
}

/// What decoding a whole file gives: the metadata of its header and one table
/// per sweep point, or the first failure met. No partial result is given.
pub open spec fn decoded(data: Seq<u8>) -> Result<WaveformView, Fault> {
    match header_only(data) {
        Err(fault) => Err(fault),
        Ok((header, position)) => match tables_from(data, position, header, header.sweep_size) {
            Err(fault) => Err(fault),
            Ok(tables) => Ok(
                WaveformView {
                    title: header.title,
                    date: header.date,
                    analysis: analysis_of(header),
                    variables: variables_of(header),
                    sweep_param: header.sweep_name,
                    tables,
                },
            ),
        },
    }
}

/// The variables of a file.
fn build_variables(meta: &HeaderMetadata) -> (variables: Vec<Variable>)
    ensures
        variable_views(variables@) == variables_of(meta@),
{
    let mut variables: Vec<Variable> = Vec::new();
    variables.push(Variable::new(meta.scale_name.as_str()));
    let mut i: usize = 0;
    while i < meta.names.len()
        invariant
            i <= meta.names@.len(),
            variables@.len() == i + 1,
            forall|j: int|
                0 <= j < variables@.len() ==> (#[trigger] variables@[j])@ == variables_of(meta@)[j],
        decreases meta.names@.len() - i,
    {
        variables.push(Variable::new(meta.names[i].as_str()));
        assert(meta@.names[i as int] == meta.names@[i as int]@);
        i = i + 1;
    }
    assert(variable_views(variables@) == variables_of(meta@));
    variables
}

/// Reads the `count` tables that start at the cursor.
fn read_tables(reader: &mut MmapReader<'_>, meta: &HeaderMetadata, count: i32) -> (r: Result<
    Vec<DataTable>,
    WaveformError,
>)
    requires
        old(reader).well_formed(),
        meta@.well_formed(),
    ensures
        match tables_from(old(reader).bytes(), old(reader).offset(), meta@, count as int) {
            Ok(tables) => r is Ok && table_views(r->Ok_0@) == tables,
            Err(fault) => r is Err && r->Err_0@ == fault,
        },
{
    let mut tables: Vec<DataTable> = Vec::new();
    let ghost b = reader.bytes();
    let ghost want = tables_from(b, reader.offset(), meta@, count as int);
    let has_sweep = meta.sweep_name.is_some();
    let mut done: i32 = 0;
    while done < count
        invariant
            reader.well_formed(),
            reader.bytes() == b,
            b == old(reader).bytes(),
            want == tables_from(b, old(reader).offset(), meta@, count as int),
            meta@.well_formed(),
            has_sweep == (meta@.sweep_name is Some),
            0 <= done,
            count > 0 ==> done <= count,
            match tables_from(b, reader.offset(), meta@, count - done) {
                Ok(rest) => want == Ok::<Seq<TableView>, Fault>(table_views(tables@) + rest),
                Err(fault) => want == Err::<Seq<TableView>, Fault>(fault),
            },
        decreases count - done,
    {
        let ghost at = reader.offset();
        let ghost so_far = table_views(tables@);
        let raw_data = match read_data_blocks(reader, meta.post_version) {
            Ok(values) => values,
            Err(e) => {
                return Err(e);
            },
        };
        proof {
            lemma_table_values(b, at, meta.post_version);
        }
        let (sweep_value, vectors) = process_raw_data(
            raw_data.as_slice(),
            meta.num_vectors,
            meta.num_variables,
            meta.var_type,
            has_sweep,
        );
        let table = DataTable { sweep_value, vectors };
        proof {
            let rest = tables_from(b, reader.offset(), meta@, count - done - 1);
            if rest is Ok {
                assert(so_far + (seq![table@] + rest->Ok_0) == (so_far + seq![table@])
                    + rest->Ok_0);
            }
        }
        tables.push(table);
        assert(table_views(tables@) == so_far + seq![table@]);
        done = done + 1;
    }
    assert(table_views(tables@) + Seq::<TableView>::empty() == table_views(tables@));
    Ok(tables)
}

/// Every decoded file is well formed: each table has one vector per
/// variable, and all vectors of a table have the same length.
pub proof fn lemma_decoded_well_formed(data: Seq<u8>)
    requires
        decoded(data) is Ok,
    ensures
        decoded(data)->Ok_0.well_formed(),
{
    let (header, position) = header_only(data)->Ok_0;
    lemma_header_well_formed(header_blob_from(data, 0, Seq::empty())->Ok_0.0);
    lemma_tables_well_formed(data, position, header, header.sweep_size);
}

/// Every decoded table has one vector per vector that the header counts, all
/// of the same length.
pub proof fn lemma_tables_well_formed(b: Seq<u8>, at: int, header: HeaderView, count: int)
    requires
        header.num_vectors >= 1,
        tables_from(b, at, header, count) is Ok,
    ensures
        forall|t: int|
            0 <= t < tables_from(b, at, header, count)->Ok_0.len() ==> (#[trigger] tables_from(
                b,
                at,
                header,
                count,
            )->Ok_0[t]).vectors.len() == header.num_vectors && tables_from(
                b,
                at,
                header,
                count,
            )->Ok_0[t].is_rectangular(),
    decreases count,
{
    if count > 0 {
        let (raw, end) = table_values_from(b, at, header.post_version)->Ok_0;
        lemma_tables_well_formed(b, end, header, count - 1);
        lemma_table_is_rectangular(
            raw,
            header.num_vectors,
            header.num_variables,
            header.var_type,
            header.sweep_name is Some,
        );
        let first = table_of(
            raw,
            header.num_vectors,
            header.num_variables,
            header.var_type,
            header.sweep_name is Some,
        );
        let rest = tables_from(b, end, header, count - 1)->Ok_0;
        let all = tables_from(b, at, header, count)->Ok_0;
        assert(all == seq![first] + rest);
        assert forall|t: int| 0 <= t < all.len() implies (#[trigger] all[t]).vectors.len()
            == header.num_vectors && all[t].is_rectangular() by {
            if t == 0 {
                assert(all[0] == first);
            } else {
                assert(all[t] == rest[t - 1]);
            }
        }
    }
}

/// Decodes a whole file held in memory.
pub fn hspice_read_impl(data: &[u8]) -> (r: Result<WaveformResult, WaveformError>)
    ensures
        yields(r, decoded(data@)),
        r is Ok ==> r->Ok_0@.well_formed(),
{
    proof {
        if decoded(data@) is Ok {
            lemma_decoded_well_formed(data@);
        }
    }
    let (meta, position) = match parse_header_only(data) {
        Ok(found) => found,
        Err(e) => {
            return Err(e);
        },
    };
    let analysis = if meta.var_type == COMPLEX_VAR {
        AnalysisType::AC
    } else {
        AnalysisType::from_scale_name(meta.scale_name.as_str())
    };
    let variables = build_variables(&meta);
    let mut reader = MmapReader::new(data);
    match reader.read_bytes(position) {
        Ok(_) => {},
        Err(e) => {
            return Err(e);
        },
    }
    let tables = match read_tables(&mut reader, &meta, meta.sweep_size) {
        Ok(tables) => tables,
        Err(e) => {
            return Err(e);
        },
    };
    Ok(
        WaveformResult {
            title: meta.title,
            date: meta.date,
            analysis,
            variables,
            sweep_param: meta.sweep_name,
            tables,
        },
    )
}

} // verus!
