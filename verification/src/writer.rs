//! SPICE3 binary raw output.
//!
//! A raw file is a text header, one line per item, followed by the samples of
//! the first table point by point, each as eight bytes, least significant
//! first. The file is built in memory; writing it out is left to the caller.

use crate::parser::{decoded, hspice_read_impl};
use crate::types::{
    AnalysisType, DataTable, Fault, Variable, VariableView, VectorData, VectorView, WaveformError,
    WaveformResult, WaveformView,
};
use vstd::prelude::*;
use vstd::string::*;
use vstd::utf8::encode_utf8;

verus! {

// ----------------------------------------------------------------------------
// What is written
// ----------------------------------------------------------------------------

/// The digits of `n` in base ten, as ASCII bytes.
pub open spec fn decimal_bytes(n: nat) -> Seq<u8>
    decreases n,
{
    if n < 10 {
        seq![(0x30 + n) as u8]
    } else {
        decimal_bytes(n / 10).push((0x30 + n % 10) as u8)
    }
}

/// The eight bytes of `v`, least significant first.
pub open spec fn le_bytes(v: u64) -> Seq<u8> {
    seq![
        (v as int % 0x100) as u8,
        (v as int / 0x100 % 0x100) as u8,
        (v as int / 0x1_0000 % 0x100) as u8,
        (v as int / 0x100_0000 % 0x100) as u8,
        (v as int / 0x1_0000_0000 % 0x100) as u8,
        (v as int / 0x100_0000_0000 % 0x100) as u8,
        (v as int / 0x1_0000_0000_0000 % 0x100) as u8,
        (v as int / 0x100_0000_0000_0000 % 0x100) as u8,
    ]
}

/// The name of the plot of an analysis.
pub open spec fn plot_name_of(analysis: AnalysisType) -> Seq<char> {
    match analysis {
        AnalysisType::Transient => "Transient Analysis"@,
        AnalysisType::AC => "AC Analysis"@,
        AnalysisType::DC => "DC Analysis"@,
        AnalysisType::Operating => "Operating Point"@,
        AnalysisType::Noise => "Noise Analysis"@,
        AnalysisType::Unknown => "Analysis"@,
    }
}

/// The line of variable number `i`: a tab, the number, a tab, the name, a
/// tab, the kind.
pub open spec fn variable_line(i: nat, v: VariableView) -> Seq<u8> {
    encode_utf8("\t"@) + decimal_bytes(i) + encode_utf8("\t"@) + encode_utf8(v.name)
        + encode_utf8("\t"@) + encode_utf8(v.var_type.label()) + encode_utf8("\n"@)
}

/// The lines of the first `n` variables.
pub open spec fn variable_lines(variables: Seq<VariableView>, n: nat) -> Seq<u8>
    decreases n,
{
    if n == 0 {
        Seq::empty()
    } else {
        variable_lines(variables, (n - 1) as nat) + variable_line(
            (n - 1) as nat,
            variables[n - 1],
        )
    }
}

/// A line that gives a text: the label, the text, a line feed.
pub open spec fn text_line(label: Seq<char>, value: Seq<char>) -> Seq<u8> {
    encode_utf8(label) + encode_utf8(value) + encode_utf8("\n"@)
}

/// A line that gives a number: the label, the digits, a line feed.
pub open spec fn count_line(label: Seq<char>, n: nat) -> Seq<u8> {
    encode_utf8(label) + decimal_bytes(n) + encode_utf8("\n"@)
}

/// The lines of a raw header before the list of variables.
pub open spec fn raw_preamble(
    title: Seq<char>,
    date: Seq<char>,
    plot_name: Seq<char>,
    num_variables: nat,
    num_points: nat,
    is_complex: bool,
) -> Seq<u8> {
    text_line("Title: "@, title) + text_line("Date: "@, date) + text_line(
        "Plotname: "@,
        plot_name,
    ) + text_line(
        "Flags: "@,
        if is_complex {
            "complex"@
        } else {
            "real"@
        },
    ) + count_line("No. Variables: "@, num_variables) + count_line("No. Points: "@, num_points)
        + encode_utf8("Variables:\n"@)
}

/// The text header of a raw file: title, date, plot name, flags and counts,
/// one line per variable, and the line that opens the data.
pub open spec fn raw_header(
    title: Seq<char>,
    date: Seq<char>,
    plot_name: Seq<char>,
    variables: Seq<VariableView>,
    num_points: nat,
    is_complex: bool,
) -> Seq<u8> {
    raw_preamble(title, date, plot_name, variables.len(), num_points, is_complex)
        + variable_lines(variables, variables.len()) + encode_utf8("Binary:\n"@)
}

/// The bytes of sample `i` of a vector: eight for a real sample, sixteen for
/// a complex one, the real part first. A sample that the vector lacks is
/// written as zero.
pub open spec fn sample_bytes(v: VectorView, i: int) -> Seq<u8> {
    match v {
        VectorView::Real(samples) => le_bytes(
            if 0 <= i < samples.len() {
                samples[i]
            } else {
                0
            },
        ),
        VectorView::Complex(samples) => le_bytes(
            if 0 <= i < samples.len() {
                samples[i].re
            } else {
                0
            },
        ) + le_bytes(
            if 0 <= i < samples.len() {
                samples[i].im
            } else {
                0
            },
        ),
    }
}

/// The bytes of point `i` of the first `n` vectors.
pub open spec fn point_bytes(vectors: Seq<VectorView>, i: int, n: nat) -> Seq<u8>
    decreases n,
{
    if n == 0 {
        Seq::empty()
    } else {
        point_bytes(vectors, i, (n - 1) as nat) + sample_bytes(vectors[n - 1], i)
    }
}

/// The bytes of the first `points` points of all vectors.
pub open spec fn data_bytes(vectors: Seq<VectorView>, points: nat) -> Seq<u8>
    decreases points,
{
    if points == 0 {
        Seq::empty()
    } else {
        data_bytes(vectors, (points - 1) as nat) + point_bytes(
            vectors,
            points - 1,
            vectors.len(),
        )
    }
}

/// Whether one of the vectors is complex.
pub open spec fn any_complex(vectors: Seq<VectorView>) -> bool {
    exists|j: int| 0 <= j < vectors.len() && vectors[j] is Complex
}

pub open spec fn fault_no_tables() -> Fault {
    Fault::Parse("No data tables found"@)
}

/// The raw file of a result: the header, then the data of the first table.
/// A result without tables cannot be written.
pub open spec fn raw_file(result: WaveformView) -> Result<Seq<u8>, Fault> {
    if result.tables.len() == 0 {
        Err(fault_no_tables())
    } else {
        let table = result.tables[0];
        Ok(
            raw_header(
                result.title,
                result.date,
                plot_name_of(result.analysis),
                result.variables,
                table.len(),
                any_complex(table.vectors),
            ) + data_bytes(table.vectors, table.len()),
        )
    }
}

/// The raw file that a waveform file converts to.
pub open spec fn converted(data: Seq<u8>) -> Result<Seq<u8>, Fault> {
    match decoded(data) {
        Err(fault) => Err(fault),
        Ok(result) => raw_file(result),
    }
}

// ----------------------------------------------------------------------------
// Writing
// ----------------------------------------------------------------------------

/// Appends the bytes of a text.
fn put_str(out: &mut Vec<u8>, s: &str)
    ensures
        final(out)@ == old(out)@ + encode_utf8(s@),
{
    out.extend_from_slice(s.as_bytes());
}

/// Appends the decimal digits of a number.
fn put_decimal(out: &mut Vec<u8>, n: usize)
    ensures
        final(out)@ == old(out)@ + decimal_bytes(n as nat),
    decreases n,
{
    if n >= 10 {
        put_decimal(out, n / 10);
        out.push(0x30 + (n % 10) as u8);
        assert(out@ == old(out)@ + decimal_bytes(n as nat));
    } else {
        out.push(0x30 + n as u8);
        assert(out@ == old(out)@ + decimal_bytes(n as nat));
    }
}

/// Appends the eight bytes of a value, least significant first.
fn put_le(out: &mut Vec<u8>, v: u64)
    ensures
        final(out)@ == old(out)@ + le_bytes(v),
{
    out.push((v % 0x100) as u8);
    out.push((v / 0x100 % 0x100) as u8);
    out.push((v / 0x1_0000 % 0x100) as u8);
    out.push((v / 0x100_0000 % 0x100) as u8);
    out.push((v / 0x1_0000_0000 % 0x100) as u8);
    out.push((v / 0x100_0000_0000 % 0x100) as u8);
    out.push((v / 0x1_0000_0000_0000 % 0x100) as u8);
    out.push((v / 0x100_0000_0000_0000 % 0x100) as u8);
    assert(out@ == old(out)@ + le_bytes(v));
}

/// The name of the plot of an analysis.
fn plot_name(analysis: AnalysisType) -> (s: &'static str)
    ensures
        s@ == plot_name_of(analysis),
{
    match analysis {
        AnalysisType::Transient => "Transient Analysis",
        AnalysisType::AC => "AC Analysis",
        AnalysisType::DC => "DC Analysis",
        AnalysisType::Operating => "Operating Point",
        AnalysisType::Noise => "Noise Analysis",
        AnalysisType::Unknown => "Analysis",
    }
}

/// Appends a line that gives a text.
fn put_text_line(out: &mut Vec<u8>, label: &str, value: &str)
    ensures
        final(out)@ == old(out)@ + text_line(label@, value@),
{
    put_str(out, label);
    put_str(out, value);
    put_str(out, "\n");
    assert(out@ == old(out)@ + text_line(label@, value@));
}

/// Appends a line that gives a number.
fn put_count_line(out: &mut Vec<u8>, label: &str, n: usize)
    ensures
        final(out)@ == old(out)@ + count_line(label@, n as nat),
{
    put_str(out, label);
    put_decimal(out, n);
    put_str(out, "\n");
    assert(out@ == old(out)@ + count_line(label@, n as nat));
}

/// Appends the lines of a raw header before the list of variables.
fn write_preamble(
    out: &mut Vec<u8>,
    title: &str,
    date: &str,
    plot_name: &str,
    num_variables: usize,
    num_points: usize,
    is_complex: bool,
)
    ensures
        final(out)@ == old(out)@ + raw_preamble(
            title@,
            date@,
            plot_name@,
            num_variables as nat,
            num_points as nat,
            is_complex,
        ),
{
    put_text_line(out, "Title: ", title);
    put_text_line(out, "Date: ", date);
    put_text_line(out, "Plotname: ", plot_name);
    put_text_line(
        out,
        "Flags: ",
        if is_complex {
            "complex"
        } else {
            "real"
        },
    );
    put_count_line(out, "No. Variables: ", num_variables);
    put_count_line(out, "No. Points: ", num_points);
    put_str(out, "Variables:\n");
    assert(out@ == old(out)@ + raw_preamble(
        title@,
        date@,
        plot_name@,
        num_variables as nat,
        num_points as nat,
        is_complex,
    ));
}

/// Appends the line of variable number `i`.
fn write_variable_line(out: &mut Vec<u8>, i: usize, variable: &Variable)
    ensures
        final(out)@ == old(out)@ + variable_line(i as nat, variable@),
{
    let label = variable.var_type.to_string();
    put_str(out, "\t");
    put_decimal(out, i);
    put_str(out, "\t");
    put_str(out, variable.name.as_str());
    put_str(out, "\t");
    put_str(out, label.as_str());
    put_str(out, "\n");
    assert(out@ == old(out)@ + variable_line(i as nat, variable@));
}

/// Appends the text header of a raw file.
pub fn write_raw_header(
    out: &mut Vec<u8>,
    title: &str,
    date: &str,
    plot_name: &str,
    result: &WaveformResult,
    num_points: usize,
    is_complex: bool,
)
    ensures
        final(out)@ == old(out)@ + raw_header(
            title@,
            date@,
            plot_name@,
            result@.variables,
            num_points as nat,
            is_complex,
        ),
{
    let ghost variables = result@.variables;
    write_preamble(out, title, date, plot_name, result.variables.len(), num_points, is_complex);
    let ghost head = out@;
    let mut i: usize = 0;
    while i < result.variables.len()
        invariant
            i <= result.variables@.len(),
            variables == result@.variables,
            out@ == head + variable_lines(variables, i as nat),
        decreases result.variables@.len() - i,
    {
        write_variable_line(out, i, &result.variables[i]);
        assert(variables[i as int] == result.variables@[i as int]@);
        assert(head + variable_lines(variables, i as nat) + variable_line(
            i as nat,
            variables[i as int],
        ) == head + variable_lines(variables, (i + 1) as nat));
        i = i + 1;
    }
    put_str(out, "Binary:\n");
    assert(out@ == old(out)@ + raw_header(
        title@,
        date@,
        plot_name@,
        variables,
        num_points as nat,
        is_complex,
    ));
}

/// Appends sample `i` of a vector.
fn write_sample(out: &mut Vec<u8>, vector: &VectorData, i: usize)
    ensures
        final(out)@ == old(out)@ + sample_bytes(vector@, i as int),
{
    match vector {
        VectorData::Real(data) => {
            let val = if i < data.len() {
                data[i]
            } else {
                0
            };
            put_le(out, val);
        },
        VectorData::Complex(data) => {
            let (re, im) = if i < data.len() {
                (data[i].re, data[i].im)
            } else {
                (0, 0)
            };
            put_le(out, re);
            put_le(out, im);
            assert(out@ == old(out)@ + (le_bytes(re) + le_bytes(im)));
        },
    }
}

/// Appends the first `num_points` points of a table, point by point.
pub fn write_raw_data(out: &mut Vec<u8>, table: &DataTable, num_points: usize)
    ensures
        final(out)@ == old(out)@ + data_bytes(table@.vectors, num_points as nat),
{
    let ghost vectors = table@.vectors;
    let ghost start = out@;
    let mut i: usize = 0;
    while i < num_points
        invariant
            i <= num_points,
            vectors == table@.vectors,
            out@ == start + data_bytes(vectors, i as nat),
        decreases num_points - i,
    {
        let ghost row = out@;
        let mut j: usize = 0;
        while j < table.vectors.len()
            invariant
                j <= table.vectors@.len(),
                vectors == table@.vectors,
                out@ == row + point_bytes(vectors, i as int, j as nat),
            decreases table.vectors@.len() - j,
        {
            let ghost before = out@;
            write_sample(out, &table.vectors[j], i);
            assert(vectors[j as int] == table.vectors@[j as int]@);
            assert(row + point_bytes(vectors, i as int, j as nat) + sample_bytes(
                vectors[j as int],
                i as int,
            ) == row + point_bytes(vectors, i as int, (j + 1) as nat));
            j = j + 1;
        }
        assert(start + data_bytes(vectors, i as nat) + point_bytes(
            vectors,
            i as int,
            vectors.len(),
        ) == start + data_bytes(vectors, (i + 1) as nat));
        i = i + 1;
    }
}

/// Whether one of the vectors of a table is complex.
fn has_complex(table: &DataTable) -> (b: bool)
    ensures
        b == any_complex(table@.vectors),
{
    let mut j: usize = 0;
    while j < table.vectors.len()
        invariant
            j <= table.vectors@.len(),
            forall|k: int| 0 <= k < j ==> !(table@.vectors[k] is Complex),
        decreases table.vectors@.len() - j,
    {
        assert(table@.vectors[j as int] == table.vectors@[j as int]@);
        if table.vectors[j].is_complex() {
            return true;
        }
        j = j + 1;
    }
    false
}

/// Builds the raw file of a result.
pub fn write_spice3_raw(result: &WaveformResult) -> (r: Result<Vec<u8>, WaveformError>)
    ensures
        match raw_file(result@) {
            Ok(bytes) => r is Ok && r->Ok_0@ == bytes,
            Err(fault) => r is Err && r->Err_0@ == fault,
        },
{
    if result.tables.len() == 0 {
        return Err(WaveformError::parse("No data tables found"));
    }
    let table = &result.tables[0];
    assert(result@.tables[0] == table@);
    let num_points = table.len();
    let is_complex = has_complex(table);
    let mut out: Vec<u8> = Vec::new();
    write_raw_header(
        &mut out,
        result.title.as_str(),
        result.date.as_str(),
        plot_name(result.analysis),
        result,
        num_points,
        is_complex,
    );
    write_raw_data(&mut out, table, num_points);
    assert(out@ == raw_file(result@)->Ok_0);
    Ok(out)
}

/// Converts a waveform file held in memory to a raw file.
pub fn hspice_to_raw_impl(input: &[u8]) -> (r: Result<Vec<u8>, WaveformError>)
    ensures
        match converted(input@) {
            Ok(bytes) => r is Ok && r->Ok_0@ == bytes,
            Err(fault) => r is Err && r->Err_0@ == fault,
        },
{
    let result = match hspice_read_impl(input) {
        Ok(result) => result,
        Err(e) => {
            return Err(e);
        },
    };
    write_spice3_raw(&result)
}

} // verus!
