//! Reader for SPICE3 raw files held in memory: the text header, and the data
//! of the binary variant.
//!
//! The header is a run of lines. A line that reads `Binary:` or `Values:`
//! ends it; the data follows. In the binary variant every sample is eight
//! bytes, least significant first, the points one after another and within a
//! point the variables one after another; a complex sample is two such
//! values.

use crate::layout::{complex_column, complex_values, real_column, real_values};
use crate::reader::{doubles_at, long_word};
use crate::text::{
    chars_are, decode_strict, from_chars, has_prefix, lowercase, lowercase_text, parse_usize,
    parsed_usize, split_whitespace, starts_with, string_views, to_chars, tokens, trim, trimmed,
    views,
};
use crate::types::{
    variable_views, AnalysisType, DataTable, Endian, Fault, TableView, VarType, Variable,
    VariableView, VectorData, VectorView, WaveformError, WaveformResult, WaveformView,
};
use byteorder::ByteOrder;
use vstd::prelude::*;
use vstd::string::*;
use vstd::utf8::{decode_utf8, valid_utf8};

verus! {

/// Whether one of `words` is exactly `word`.
pub open spec fn has_word(words: Seq<Seq<char>>, word: Seq<char>) -> bool {
    exists|i: int| 0 <= i < words.len() && words[i] == word
}

/// The analysis that a lowercase plot name stands for. The words of the name
/// are compared one by one, so that `transfer` does not count as `tran`, nor
/// `characteristic` as `ac`. Where several kinds are named the first of
/// transient, AC, DC, operating point and noise counts.
pub open spec fn analysis_of_plot(lower: Seq<char>) -> AnalysisType {
    let words = tokens(lower);
    if has_word(words, "transient"@) || has_word(words, "tran"@) {
        AnalysisType::Transient
    } else if has_word(words, "ac"@) {
        AnalysisType::AC
    } else if has_word(words, "dc"@) {
        AnalysisType::DC
    } else if has_word(words, "operating"@) || has_word(words, "op"@) {
        AnalysisType::Operating
    } else if has_word(words, "noise"@) {
        AnalysisType::Noise
    } else {
        AnalysisType::Unknown
    }
}

/// Whether one of the words is exactly the text of `lit`.
fn any_word_is(words: &Vec<Vec<char>>, lit: &str) -> (r: bool)
    ensures
        r == has_word(views(words@), lit@),
{
    let mut i: usize = 0;
    while i < words.len()
        invariant
            i <= words@.len(),
            forall|k: int| 0 <= k < i ==> views(words@)[k] != lit@,
        decreases words@.len() - i,
    {
        assert(views(words@)[i as int] == words@[i as int]@);
        if chars_are(words[i].as_slice(), lit) {
            return true;
        }
        i = i + 1;
    }
    false
}

/// Classifies a plot name that is already in lowercase.
pub fn analysis_from_lowercase_plot(lower: &str) -> (r: AnalysisType)
    ensures
        r == analysis_of_plot(lower@),
{
    let chars = to_chars(lower);
    let words = split_whitespace(chars.as_slice());
    if any_word_is(&words, "transient") || any_word_is(&words, "tran") {
        AnalysisType::Transient
    } else if any_word_is(&words, "ac") {
        AnalysisType::AC
    } else if any_word_is(&words, "dc") {
        AnalysisType::DC
    } else if any_word_is(&words, "operating") || any_word_is(&words, "op") {
        AnalysisType::Operating
    } else if any_word_is(&words, "noise") {
        AnalysisType::Noise
    } else {
        AnalysisType::Unknown
    }
}

/// Infers the analysis from a plot name, whatever its case.
pub fn infer_analysis_type(plotname: &str) -> (r: AnalysisType)
    ensures
        r == analysis_of_plot(lowercase_text(plotname@)),
{
    let lower = lowercase(plotname);
    analysis_from_lowercase_plot(lower.as_str())
}

/// Which variant of the raw format a file is in.
#[derive(Debug, Clone, Copy, PartialEq, Eq, Structural)]
pub enum RawFormat {
    Binary,
    Ascii,
}

/// The header of a raw file.
#[derive(Debug)]
pub struct RawHeader {
    pub title: String,
    pub date: String,
    pub plotname: String,
    pub flags: Vec<String>,
    pub num_variables: usize,
    pub num_points: usize,
    /// Name and type word of each variable.
    pub variables: Vec<(String, String)>,
    pub is_complex: bool,
}

/// The header of a raw file as contracts speak of it.
pub struct RawHeaderView {
    pub title: Seq<char>,
    pub date: Seq<char>,
    pub plotname: Seq<char>,
    pub flags: Seq<Seq<char>>,
    pub num_variables: int,
    pub num_points: int,
    pub variables: Seq<(Seq<char>, Seq<char>)>,
    pub is_complex: bool,
}

/// The views of a sequence of pairs of strings.
pub open spec fn pair_views(v: Seq<(String, String)>) -> Seq<(Seq<char>, Seq<char>)> {
    v.map_values(|p: (String, String)| (p.0@, p.1@))
}

impl View for RawHeader {
    type V = RawHeaderView;

    open spec fn view(&self) -> RawHeaderView {
        RawHeaderView {
            title: self.title@,
            date: self.date@,
            plotname: self.plotname@,
            flags: string_views(self.flags@),
            num_variables: self.num_variables as int,
            num_points: self.num_points as int,
            variables: pair_views(self.variables@),
            is_complex: self.is_complex,
        }
    }
}

/// The header before any line is read.
pub open spec fn blank_header() -> RawHeaderView {
    RawHeaderView {
        title: Seq::empty(),
        date: Seq::empty(),
        plotname: Seq::empty(),
        flags: Seq::empty(),
        num_variables: 0,
        num_points: 0,
        variables: Seq::empty(),
        is_complex: false,
    }
}

impl Default for RawHeader {
    fn default() -> (r: Self)
        ensures
            r@ == blank_header(),
    {
        let r = RawHeader {
            title: String::new(),
            date: String::new(),
            plotname: String::new(),
            flags: Vec::new(),
            num_variables: 0,
            num_points: 0,
            variables: Vec::new(),
            is_complex: false,
        };
        assert(r@.flags == blank_header().flags);
        assert(r@.variables == blank_header().variables);
        r
    }
}

/// The variable that a name and a type word describe.
pub open spec fn variable_of(name: Seq<char>, type_word: Seq<char>) -> VariableView {
    VariableView { name, var_type: VarType::of_label(lowercase_text(type_word)) }
}

/// The variables that a header lists, each with the kind that its type word
/// names.
pub open spec fn raw_variables(header: RawHeaderView) -> Seq<VariableView> {
    Seq::new(
        header.variables.len(),
        |i: int| variable_of(header.variables[i].0, header.variables[i].1),
    )
}

/// The variables that a header lists, each with the kind that its type word
/// names.
pub fn build_variables(header: &RawHeader) -> (r: Vec<Variable>)
    ensures
        variable_views(r@) == raw_variables(header@),
{
    let mut r: Vec<Variable> = Vec::new();
    let mut i: usize = 0;
    while i < header.variables.len()
        invariant
            i <= header.variables@.len(),
            r@.len() == i,
            forall|k: int| 0 <= k < i ==> (#[trigger] r@[k])@ == raw_variables(header@)[k],
        decreases header.variables@.len() - i,
    {
        let lower = lowercase(header.variables[i].1.as_str());
        let var_type = VarType::from_lowercase_label(lower.as_str());
        r.push(Variable::with_type(header.variables[i].0.as_str(), var_type));
        assert(header@.variables[i as int] == (
            header.variables@[i as int].0@,
            header.variables@[i as int].1@,
        ));
        i = i + 1;
    }
    assert(variable_views(r@) == raw_variables(header@));
    r
}

/// The result that a raw file with the given header and vectors makes: one
/// table without a sweep.
pub open spec fn raw_result(header: RawHeaderView, vectors: Seq<VectorView>) -> WaveformView {
    WaveformView {
        title: header.title,
        date: header.date,
        analysis: analysis_of_plot(lowercase_text(header.plotname)),
        variables: raw_variables(header),
        sweep_param: None,
        tables: seq![TableView { sweep_value: None, vectors }],
    }
}

/// Puts the header and the vectors of a raw file together.
pub fn build_result(header: RawHeader, vectors: Vec<VectorData>) -> (r: WaveformResult)
    ensures
        r@ == raw_result(header@, crate::types::vector_views(vectors@)),
{
    let analysis = infer_analysis_type(header.plotname.as_str());
    let variables = build_variables(&header);
    let table = DataTable { sweep_value: None, vectors };
    let mut tables: Vec<DataTable> = Vec::new();
    tables.push(table);
    assert(crate::types::table_views(tables@) == seq![
        TableView { sweep_value: None, vectors: crate::types::vector_views(vectors@) },
    ]);
    WaveformResult {
        title: header.title,
        date: header.date,
        analysis,
        variables,
        sweep_param: None,
        tables,
    }
}

// ----------------------------------------------------------------------------
// The header
// ----------------------------------------------------------------------------

/// The header read so far, whether the list of variables is being read, and
/// how many of its lines have been taken.
pub struct Scan {
    pub header: RawHeaderView,
    pub in_variables: bool,
    pub var_count: int,
}

/// The number that a header field gives, 0 where it gives none.
pub open spec fn count_of(value: Seq<char>) -> int {
    match parsed_usize(trimmed(value)) {
        Some(n) => n as int,
        None => 0,
    }
}

/// The scan after the line `line`, which is trimmed. A field line sets its
/// field and ends the list of variables. `Variables:` starts the list. Within
/// the list every line of at least three words adds a variable, named by the
/// second word and typed by the third, until as many are taken as the header
/// counts. Any other line changes nothing.
pub open spec fn scanned(scan: Scan, line: Seq<char>) -> Scan {
    let h = scan.header;
    if has_prefix(line, "Title:"@) {
        Scan { header: RawHeaderView { title: trimmed(line.skip(6)), ..h }, in_variables: false, ..scan }
    } else if has_prefix(line, "Date:"@) {
        Scan { header: RawHeaderView { date: trimmed(line.skip(5)), ..h }, in_variables: false, ..scan }
    } else if has_prefix(line, "Plotname:"@) {
        Scan {
            header: RawHeaderView { plotname: trimmed(line.skip(9)), ..h },
            in_variables: false,
            ..scan
        }
    } else if has_prefix(line, "Flags:"@) {
        Scan {
            header: RawHeaderView {
                flags: tokens(line.skip(6)),
                is_complex: has_word(tokens(line.skip(6)), "complex"@),
                ..h
            },
            in_variables: false,
            ..scan
        }
    } else if has_prefix(line, "No. Variables:"@) {
        Scan {
            header: RawHeaderView { num_variables: count_of(line.skip(14)), ..h },
            in_variables: false,
            ..scan
        }
    } else if has_prefix(line, "No. Points:"@) {
        Scan {
            header: RawHeaderView { num_points: count_of(line.skip(11)), ..h },
            in_variables: false,
            ..scan
        }
    } else if has_prefix(line, "Variables:"@) {
        Scan { in_variables: true, var_count: 0, ..scan }
    } else if scan.in_variables && line.len() > 0 && tokens(line).len() >= 3 {
        Scan {
            header: RawHeaderView {
                variables: h.variables.push((tokens(line)[1], tokens(line)[2])),
                ..h
            },
            in_variables: scan.var_count + 1 < h.num_variables,
            var_count: scan.var_count + 1,
        }
    } else {
        scan
    }
}

/// The offset after the line that starts at `at`: after the next line feed,
/// or the end of the input.
pub open spec fn line_end(data: Seq<u8>, at: int) -> int
    decreases data.len() - at,
{
    if at < 0 || at >= data.len() {
        at
    } else if data[at] == 0x0A {
        at + 1
    } else {
        line_end(data, at + 1)
    }
}

pub open spec fn fault_no_data_section() -> Fault {
    Fault::Parse("No data section found in raw file"@)
}

pub open spec fn fault_invalid_text() -> Fault {
    Fault::Io("stream did not contain valid UTF-8"@)
}

/// The header of a raw file read line by line from `at` on, the variant of
/// the data and the offset at which the data starts. Every line must be valid
/// UTF-8, and one of them must open the data.
pub open spec fn raw_header_from(data: Seq<u8>, at: int, scan: Scan) -> Result<
    (RawHeaderView, RawFormat, int),
    Fault,
>
    decreases data.len() - at,
{
    if at < 0 || at >= data.len() {
        Err(fault_no_data_section())
    } else {
        let end = line_end(data, at);
        let bytes = data.subrange(at, end);
        if !valid_utf8(bytes) {
            Err(fault_invalid_text())
        } else {
            let line = trimmed(decode_utf8(bytes));
            if line == "Binary:"@ {
                Ok((scan.header, RawFormat::Binary, end))
            } else if line == "Values:"@ {
                Ok((scan.header, RawFormat::Ascii, end))
            } else if at < end <= data.len() {
                raw_header_from(data, end, scanned(scan, line))
            } else {
                Err(fault_no_data_section())
            }
        }
    }
}

/// The header of a raw file, the variant of its data and the offset at which
/// the data starts.
pub open spec fn raw_header_of(data: Seq<u8>) -> Result<(RawHeaderView, RawFormat, int), Fault> {
    raw_header_from(data, 0, Scan { header: blank_header(), in_variables: false, var_count: 0 })
}

/// A line ends after its start and within the input.
pub proof fn lemma_line_end(data: Seq<u8>, at: int)
    requires
        0 <= at < data.len(),
    ensures
        at < line_end(data, at) <= data.len(),
    decreases data.len() - at,
{
    if data[at] != 0x0A {
        if at + 1 < data.len() {
            lemma_line_end(data, at + 1);
        } else {
            assert(line_end(data, at + 1) == at + 1);
        }
    }
}

/// The scan of a header as it runs.
struct HeaderScan {
    header: RawHeader,
    in_variables: bool,
    var_count: usize,
}

impl View for HeaderScan {
    type V = Scan;

    closed spec fn view(&self) -> Scan {
        Scan {
            header: self.header@,
            in_variables: self.in_variables,
            var_count: self.var_count as int,
        }
    }
}

/// The text after the first `n` characters of a line, trimmed.
fn value_after(line: &[char], n: usize) -> (r: String)
    requires
        n <= line@.len(),
    ensures
        r@ == trimmed(line@.skip(n as int)),
{
    let rest = vstd::slice::slice_subrange(line, n, line.len());
    assert(rest@ == line@.skip(n as int));
    let value = trim(rest);
    from_chars(value.as_slice())
}

/// The number after the first `n` characters of a line, 0 where there is
/// none.
fn count_after(line: &[char], n: usize) -> (r: usize)
    requires
        n <= line@.len(),
    ensures
        r == count_of(line@.skip(n as int)),
{
    let rest = vstd::slice::slice_subrange(line, n, line.len());
    assert(rest@ == line@.skip(n as int));
    let value = trim(rest);
    match parse_usize(value.as_slice()) {
        Some(v) => v,
        None => 0,
    }
}

/// The words of a text as strings.
fn words_of(text: &[char]) -> (r: Vec<String>)
    ensures
        string_views(r@) == tokens(text@),
{
    let words = split_whitespace(text);
    let mut r: Vec<String> = Vec::new();
    let mut i: usize = 0;
    while i < words.len()
        invariant
            i <= words@.len(),
            views(words@) == tokens(text@),
            r@.len() == i,
            forall|k: int| 0 <= k < i ==> (#[trigger] r@[k])@ == tokens(text@)[k],
        decreases words@.len() - i,
    {
        assert(views(words@)[i as int] == words@[i as int]@);
        r.push(from_chars(words[i].as_slice()));
        i = i + 1;
    }
    assert(string_views(r@) == tokens(text@));
    r
}

/// Whether one of the strings is exactly the text of `lit`.
fn any_string_is(list: &Vec<String>, lit: &str) -> (r: bool)
    ensures
        r == has_word(string_views(list@), lit@),
{
    let n = crate::text::find_name(list.as_slice(), lit);
    proof {
        crate::text::lemma_first_match_from(string_views(list@), lit@, 0);
    }
    n < list.len()
}

impl HeaderScan {
    /// Takes one trimmed line of the header.
    fn take_line(self, line: &[char]) -> (r: Self)
        requires
            self.var_count < usize::MAX,
        ensures
            r@ == scanned(self@, line@),
            r.var_count <= self.var_count + 1,
    {
        proof {
            reveal_strlit("Title:");
            reveal_strlit("Date:");
            reveal_strlit("Plotname:");
            reveal_strlit("Flags:");
            reveal_strlit("No. Variables:");
            reveal_strlit("No. Points:");
            reveal_strlit("Variables:");
        }
        let mut scan = self;
        if starts_with(line, "Title:") {
            scan.header.title = value_after(line, 6);
            scan.in_variables = false;
        } else if starts_with(line, "Date:") {
            scan.header.date = value_after(line, 5);
            scan.in_variables = false;
        } else if starts_with(line, "Plotname:") {
            scan.header.plotname = value_after(line, 9);
            scan.in_variables = false;
        } else if starts_with(line, "Flags:") {
            let rest = vstd::slice::slice_subrange(line, 6, line.len());
            assert(rest@ == line@.skip(6));
            let flags = words_of(rest);
            scan.header.is_complex = any_string_is(&flags, "complex");
            scan.header.flags = flags;
            scan.in_variables = false;
        } else if starts_with(line, "No. Variables:") {
            scan.header.num_variables = count_after(line, 14);
            scan.in_variables = false;
        } else if starts_with(line, "No. Points:") {
            scan.header.num_points = count_after(line, 11);
            scan.in_variables = false;
        } else if starts_with(line, "Variables:") {
            scan.in_variables = true;
            scan.var_count = 0;
        } else if scan.in_variables && line.len() > 0 {
            let parts = split_whitespace(line);
            if parts.len() >= 3 {
                assert(views(parts@)[1] == parts@[1]@);
                assert(views(parts@)[2] == parts@[2]@);
                let name = from_chars(parts[1].as_slice());
                let var_type = from_chars(parts[2].as_slice());
                let ghost before = pair_views(scan.header.variables@);
                scan.header.variables.push((name, var_type));
                assert(pair_views(scan.header.variables@) == before.push(
                    (tokens(line@)[1], tokens(line@)[2]),
                ));
                scan.var_count = scan.var_count + 1;
                if scan.var_count >= scan.header.num_variables {
                    scan.in_variables = false;
                }
            }
        }
        scan
    }
}

/// Reads the header of a raw file held in memory. Returns the header, the
/// variant of the data and the offset at which the data starts.
pub fn parse_header(data: &[u8]) -> (r: Result<(RawHeader, RawFormat, usize), WaveformError>)
    ensures
        match raw_header_of(data@) {
            Ok((header, format, start)) => {
                &&& r is Ok
                &&& r->Ok_0.0@ == header
                &&& r->Ok_0.1 == format
                &&& r->Ok_0.2 == start
                &&& start <= data@.len()
            },
            Err(fault) => r is Err && r->Err_0@ == fault,
        },
{
    let mut scan = HeaderScan { header: RawHeader::default(), in_variables: false, var_count: 0 };
    let mut at: usize = 0;
    let ghost want = raw_header_of(data@);
    while at < data.len()
        invariant
            at <= data@.len(),
            scan.var_count <= at,
            want == raw_header_of(data@),
            want == raw_header_from(data@, at as int, scan@),
        decreases data@.len() - at,
    {
        let mut end: usize = at;
        while end < data.len() && data[end] != 0x0A
            invariant
                at <= end <= data@.len(),
                line_end(data@, at as int) == line_end(data@, end as int),
            decreases data@.len() - end,
        {
            end = end + 1;
        }
        if end < data.len() {
            end = end + 1;
        }
        proof {
            lemma_line_end(data@, at as int);
        }
        let text = match decode_strict(vstd::slice::slice_subrange(data, at, end)) {
            Some(text) => text,
            None => {
                return Err(WaveformError::io("stream did not contain valid UTF-8"));
            },
        };
        let chars = to_chars(text.as_str());
        let line = trim(chars.as_slice());
        if chars_are(line.as_slice(), "Binary:") {
            return Ok((scan.header, RawFormat::Binary, end));
        }
        if chars_are(line.as_slice(), "Values:") {
            return Ok((scan.header, RawFormat::Ascii, end));
        }
        scan = scan.take_line(line.as_slice());
        at = end;
    }
    Err(WaveformError::parse("No data section found in raw file"))
}

// ----------------------------------------------------------------------------
// Binary data
// ----------------------------------------------------------------------------

/// Calls `byteorder::LittleEndian::read_u64`, which reads the first eight
/// bytes of a slice as an unsigned number, least significant byte first, and
/// panics on a shorter slice. Trusted: the result is that number.
#[verifier::external_body]
fn read_u64_le(buf: &[u8]) -> (v: u64)
    requires
        buf@.len() >= 8,
    ensures
        v == long_word(buf@, 0, Endian::Little),
{
    byteorder::LittleEndian::read_u64(buf)
}

pub open spec fn fault_short_data() -> Fault {
    Fault::Io("failed to fill whole buffer"@)
}

/// Number of eight-byte values that the data of a binary raw file holds.
pub open spec fn binary_value_count(num_vars: int, num_points: int, is_complex: bool) -> int {
    num_vars * num_points * (if is_complex {
        2int
    } else {
        1int
    })
}

/// The vectors of a binary raw file with `num_vars` variables and
/// `num_points` points, read from the start of `data`: variable `j` holds the
/// value of each point at position `j`, or in a complex file the pair at
/// positions `2 * j` and `2 * j + 1`. Data that ends too soon is a failure.
pub open spec fn binary_vectors(data: Seq<u8>, num_vars: int, num_points: int, is_complex: bool) -> Result<
    Seq<VectorView>,
    Fault,
> {
    let count = binary_value_count(num_vars, num_points, is_complex);
    let values = doubles_at(data, 0, count, Endian::Little);
    if 8 * count > data.len() {
        Err(fault_short_data())
    } else {
        Ok(
            Seq::new(
                num_vars as nat,
                |j: int|
                    if is_complex {
                        VectorView::Complex(
                            complex_values(values, 0, num_points, 2 * num_vars, 2 * j),
                        )
                    } else {
                        VectorView::Real(real_values(values, 0, num_points, num_vars, j))
                    },
            ),
        )
    }
}

/// Reads `count` eight-byte values from the start of `data`.
fn read_values(data: &[u8], count: usize) -> (values: Vec<u64>)
    requires
        8 * count <= data@.len(),
    ensures
        values@ == doubles_at(data@, 0, count as int, Endian::Little),
{
    let mut values: Vec<u64> = Vec::new();
    proof {
        assert(vstd::slice::spec_slice_len(data) == data@.len());
    }
    let mut i: usize = 0;
    while i < count
        invariant
            i <= count,
            8 * count <= data@.len() <= usize::MAX,
            values@ == doubles_at(data@, 0, i as int, Endian::Little),
        decreases count - i,
    {
        let item = vstd::slice::slice_subrange(data, 8 * i, 8 * i + 8);
        values.push(read_u64_le(item));
        i = i + 1;
    }
    values
}

/// Reads the vectors of a binary raw file from its data section.
pub fn parse_binary_data(data: &[u8], header: &RawHeader) -> (r: Result<
    Vec<VectorData>,
    WaveformError,
>)
    ensures
        match binary_vectors(
            data@,
            header.num_variables as int,
            header.num_points as int,
            header.is_complex,
        ) {
            Ok(vectors) => r is Ok && crate::types::vector_views(r->Ok_0@) == vectors,
            Err(fault) => r is Err && r->Err_0@ == fault,
        },
{
    let num_vars = header.num_variables;
    let num_points = header.num_points;
    let per_value: usize = if header.is_complex {
        2
    } else {
        1
    };
    let ghost wanted = binary_value_count(num_vars as int, num_points as int, header.is_complex);
    assert(wanted >= 0) by (nonlinear_arith)
        requires
            wanted == num_vars * num_points * per_value,
            num_vars >= 0,
            num_points >= 0,
            per_value >= 1,
    ;
    let available = data.len() / 8;
    let count: usize = match num_vars.checked_mul(num_points) {
        Some(n) => match n.checked_mul(per_value) {
            Some(count) => count,
            None => {
                return Err(WaveformError::io("failed to fill whole buffer"));
            },
        },
        None => {
            assert(wanted > usize::MAX) by (nonlinear_arith)
                requires
                    wanted == num_vars * num_points * per_value,
                    num_vars * num_points > usize::MAX,
                    per_value >= 1,
            ;
            return Err(WaveformError::io("failed to fill whole buffer"));
        },
    };
    if count > available {
        return Err(WaveformError::io("failed to fill whole buffer"));
    }
    let values = read_values(data, count);
    let ghost want = binary_vectors(
        data@,
        num_vars as int,
        num_points as int,
        header.is_complex,
    )->Ok_0;
    let ghost wide = num_vars * per_value;
    assert(num_points * wide == count) by (nonlinear_arith)
        requires
            count == num_vars * num_points * per_value,
            wide == num_vars * per_value,
    ;
    assert(num_points > 0 ==> wide <= count) by (nonlinear_arith)
        requires
            num_points * wide == count,
            wide >= 0,
    ;
    let mut vectors: Vec<VectorData> = Vec::new();
    let mut j: usize = 0;
    while j < num_vars
        invariant
            j <= num_vars,
            wide == num_vars * per_value,
            num_points > 0 ==> wide <= count,
            per_value == (if header.is_complex {
                2int
            } else {
                1int
            }),
            num_points * wide == count,
            count == values@.len(),
            values@ == doubles_at(data@, 0, wanted, Endian::Little),
            want == binary_vectors(
                data@,
                num_vars as int,
                num_points as int,
                header.is_complex,
            )->Ok_0,
            binary_vectors(data@, num_vars as int, num_points as int, header.is_complex) is Ok,
            wanted == binary_value_count(num_vars as int, num_points as int, header.is_complex),
            vectors@.len() == j,
            forall|k: int| 0 <= k < j ==> (#[trigger] vectors@[k])@ == want[k],
        decreases num_vars - j,
    {
        if num_points == 0 {
            if header.is_complex {
                let empty: Vec<crate::types::ComplexBits> = Vec::new();
                assert(empty@ == complex_values(values@, 0, 0, 2 * num_vars, 2 * j));
                vectors.push(VectorData::Complex(empty));
            } else {
                let empty: Vec<u64> = Vec::new();
                assert(empty@ == real_values(values@, 0, 0, num_vars as int, j as int));
                vectors.push(VectorData::Real(empty));
            }
        } else {
            let cols: usize = num_vars * per_value;
            if header.is_complex {
                vectors.push(
                    VectorData::Complex(
                        complex_column(values.as_slice(), 0, num_points, cols, 2 * j),
                    ),
                );
            } else {
                vectors.push(
                    VectorData::Real(real_column(values.as_slice(), 0, num_points, cols, j)),
                );
            }
        }
        j = j + 1;
    }
    assert(crate::types::vector_views(vectors@) == want);
    Ok(vectors)
}

} // verus!
