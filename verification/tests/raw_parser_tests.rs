//! Raw files: reading their header and binary data, and writing them.

use hspice_core::raw_parser::{
    analysis_from_lowercase_plot, build_result, build_variables, infer_analysis_type,
    parse_binary_data, parse_header, RawFormat, RawHeader,
};
use hspice_core::text::parse_usize;
use hspice_core::types::DataTable;
use hspice_core::writer::{hspice_to_raw_impl, write_raw_data, write_raw_header};
use hspice_core::{
    read_and_convert, read_and_convert_debug, write_spice3_raw, AnalysisType, ComplexBits,
    VarType, Variable, VectorData, WaveformError, WaveformResult,
};

#[test]
fn test_infer_analysis_type() {
    assert_eq!(
        infer_analysis_type("Transient Analysis"),
        AnalysisType::Transient
    );
    assert_eq!(infer_analysis_type("AC Analysis"), AnalysisType::AC);
    assert_eq!(
        infer_analysis_type("DC transfer characteristic"),
        AnalysisType::DC
    );
    assert_eq!(
        infer_analysis_type("Operating Point"),
        AnalysisType::Operating
    );
}

#[test]
fn plot_name_is_read_word_by_word() {
    assert_eq!(infer_analysis_type("tran"), AnalysisType::Transient);
    assert_eq!(infer_analysis_type("op"), AnalysisType::Operating);
    assert_eq!(infer_analysis_type("Integrated Noise"), AnalysisType::Noise);
    assert_eq!(infer_analysis_type("ac dc"), AnalysisType::AC);
    assert_eq!(infer_analysis_type("noise of the dc run"), AnalysisType::DC);
    assert_eq!(infer_analysis_type("transfer"), AnalysisType::Unknown);
    assert_eq!(infer_analysis_type("characteristic"), AnalysisType::Unknown);
    assert_eq!(infer_analysis_type(""), AnalysisType::Unknown);
    assert_eq!(
        analysis_from_lowercase_plot("AC Analysis"),
        AnalysisType::Unknown
    );
}

#[test]
fn parse_usize_agrees_with_the_standard_library() {
    for s in [
        "0",
        "7",
        "0012",
        "+5",
        "-5",
        "-0",
        "18446744073709551615",
        "18446744073709551616",
        "4294967295",
        "4294967296",
        "99999999999999999999999",
        "",
        "+",
        "1 ",
        "1a",
    ] {
        assert_eq!(
            parse_usize(&s.chars().collect::<Vec<char>>()),
            s.parse::<usize>().ok(),
            "{:?}",
            s
        );
    }
}

fn header_text() -> String {
    [
        "Title: * a small circuit",
        "Date: Wed Oct 28 12:00:00 2026",
        "Plotname: Transient Analysis",
        "Flags: real padded",
        "No. Variables: 3",
        "No. Points: 2",
        "Variables:",
        "\t0\ttime\ttime",
        "\t1\tv(out)\tVoltage",
        "\tshort line",
        "\t2\ti(vdd)\tcurrent extra",
        "\t3\tignored\tvoltage",
        "Binary:",
        "",
    ]
    .join("\n")
}

#[test]
fn raw_header_is_read_line_by_line() {
    let text = header_text();
    let mut file = text.clone().into_bytes();
    file.extend_from_slice(&[1, 2, 3]);
    let (header, format, start) = parse_header(&file).unwrap();
    assert_eq!(format, RawFormat::Binary);
    assert_eq!(start, text.len());
    assert_eq!(header.title, "* a small circuit");
    assert_eq!(header.date, "Wed Oct 28 12:00:00 2026");
    assert_eq!(header.plotname, "Transient Analysis");
    assert_eq!(header.flags, vec!["real", "padded"]);
    assert!(!header.is_complex);
    assert_eq!(header.num_variables, 3);
    assert_eq!(header.num_points, 2);
    assert_eq!(
        header.variables,
        vec![
            ("time".to_string(), "time".to_string()),
            ("v(out)".to_string(), "Voltage".to_string()),
            ("i(vdd)".to_string(), "current".to_string()),
        ]
    );
    let variables = build_variables(&header);
    assert_eq!(variables.len(), 3);
    assert_eq!(variables[0].var_type, VarType::Time);
    assert_eq!(variables[1].name, "v(out)");
    assert_eq!(variables[1].var_type, VarType::Voltage);
    assert_eq!(variables[2].var_type, VarType::Current);
}

#[test]
fn raw_header_knows_both_variants() {
    let file = b"Flags: complex\r\nNo. Points: x\nValues:\n 0\t1.0,2.0\n";
    let (header, format, start) = parse_header(file).unwrap();
    assert_eq!(format, RawFormat::Ascii);
    assert_eq!(start, 38);
    assert!(header.is_complex);
    assert_eq!(header.num_points, 0);
    assert!(header.variables.is_empty());

    let (_, format, start) = parse_header(b"Binary:").unwrap();
    assert_eq!(format, RawFormat::Binary);
    assert_eq!(start, 7);
}

#[test]
fn raw_header_failures() {
    let err = parse_header(b"Title: x\nDate: y\n").unwrap_err();
    assert!(
        matches!(err, WaveformError::ParseError(m) if m == "No data section found in raw file")
    );
    assert!(parse_header(b"").is_err());
    let err = parse_header(b"Title: \xFF\nBinary:\n").unwrap_err();
    assert!(
        matches!(err, WaveformError::IoError(m) if m == "stream did not contain valid UTF-8")
    );
    assert_eq!(RawHeader::default().num_variables, 0);
}

fn le(values: &[f64]) -> Vec<u8> {
    let mut out = Vec::new();
    for v in values {
        out.extend_from_slice(&v.to_le_bytes());
    }
    out
}

fn header_for(num_variables: usize, num_points: usize, is_complex: bool) -> RawHeader {
    RawHeader {
        title: "t".to_string(),
        date: "d".to_string(),
        plotname: "AC Analysis".to_string(),
        flags: Vec::new(),
        num_variables,
        num_points,
        variables: vec![
            ("frequency".to_string(), "frequency".to_string()),
            ("v(out)".to_string(), "voltage".to_string()),
        ],
        is_complex,
    }
}

#[test]
fn binary_data_is_read_point_by_point() {
    let data = le(&[0.0, 10.0, 20.0, 1.0, 11.0, 21.0, 99.0]);
    let vectors = parse_binary_data(&data, &header_for(3, 2, false)).unwrap();
    assert_eq!(vectors.len(), 3);
    let bits = |v: &[f64]| v.iter().map(|x| x.to_bits()).collect::<Vec<u64>>();
    assert_eq!(vectors[0].as_real().unwrap(), &bits(&[0.0, 1.0]));
    assert_eq!(vectors[1].as_real().unwrap(), &bits(&[10.0, 11.0]));
    assert_eq!(vectors[2].as_real().unwrap(), &bits(&[20.0, 21.0]));

    let err = parse_binary_data(&data[..47], &header_for(3, 2, false)).unwrap_err();
    assert!(matches!(err, WaveformError::IoError(m) if m == "failed to fill whole buffer"));
    assert!(parse_binary_data(&data, &header_for(usize::MAX, 2, false)).is_err());
    assert!(parse_binary_data(&data, &header_for(usize::MAX, usize::MAX, true)).is_err());

    let none = parse_binary_data(&data, &header_for(2, 0, false)).unwrap();
    assert_eq!(none.len(), 2);
    assert!(none[0].is_empty());
    let nothing = parse_binary_data(&[], &header_for(0, 5, true)).unwrap();
    assert!(nothing.is_empty());
}

#[test]
fn binary_complex_data_is_read_in_pairs() {
    let data = le(&[1.0, 0.0, 0.5, -0.5, 2.0, 0.0, 0.25, -0.25]);
    let vectors = parse_binary_data(&data, &header_for(2, 2, true)).unwrap();
    assert_eq!(vectors.len(), 2);
    let pair = |re: f64, im: f64| ComplexBits {
        re: re.to_bits(),
        im: im.to_bits(),
    };
    assert_eq!(
        vectors[0].as_complex().unwrap(),
        &vec![pair(1.0, 0.0), pair(2.0, 0.0)]
    );
    assert_eq!(
        vectors[1].as_complex().unwrap(),
        &vec![pair(0.5, -0.5), pair(0.25, -0.25)]
    );
    let result = build_result(header_for(2, 2, true), vectors);
    assert_eq!(result.analysis, AnalysisType::AC);
    assert_eq!(result.title, "t");
    assert_eq!(result.variables.len(), 2);
    assert_eq!(result.variables[0].var_type, VarType::Frequency);
    assert!(result.sweep_param.is_none());
    assert_eq!(result.tables.len(), 1);
    assert_eq!(result.len(), 2);
}

// =============================================================================
// Writing
// =============================================================================

fn small_result() -> WaveformResult {
    WaveformResult {
        title: "a title".to_string(),
        date: "a date".to_string(),
        analysis: AnalysisType::AC,
        variables: vec![
            Variable::new("HERTZ"),
            Variable::new("v(out)"),
            Variable::new("x"),
        ],
        sweep_param: None,
        tables: vec![DataTable {
            sweep_value: None,
            vectors: vec![
                VectorData::Real(vec![1.5f64.to_bits(), 2.5f64.to_bits()]),
                VectorData::Complex(vec![ComplexBits {
                    re: 3.0f64.to_bits(),
                    im: (-4.0f64).to_bits(),
                }]),
                VectorData::Real(vec![7.0f64.to_bits(), 8.0f64.to_bits()]),
            ],
        }],
    }
}

#[test]
fn raw_file_has_header_then_samples() {
    let result = small_result();
    let bytes = write_spice3_raw(&result).unwrap();
    let header = "Title: a title\nDate: a date\nPlotname: AC Analysis\nFlags: complex\n\
                  No. Variables: 3\nNo. Points: 2\nVariables:\n\
                  \t0\tHERTZ\tfrequency\n\t1\tv(out)\tvoltage\n\t2\tx\tunknown\nBinary:\n";
    let mut expected = header.as_bytes().to_vec();
    expected.extend_from_slice(&le(&[1.5, 3.0, -4.0, 7.0, 2.5, 0.0, 0.0, 8.0]));
    assert_eq!(bytes, expected);

    let (parsed, format, start) = parse_header(&bytes).unwrap();
    assert_eq!(format, RawFormat::Binary);
    assert_eq!(start, header.len());
    assert_eq!(parsed.num_variables, 3);
    assert!(parsed.is_complex);
}

#[test]
fn raw_header_counts_in_decimal() {
    let mut result = small_result();
    result.variables = (0..12).map(|i| Variable::new(&format!("s{}", i))).collect();
    let mut out = vec![b'#'];
    write_raw_header(&mut out, "t", "d", "p", &result, 1234567890, false);
    let text = String::from_utf8(out).unwrap();
    assert!(text.starts_with("#Title: t\nDate: d\nPlotname: p\nFlags: real\n"));
    assert!(text.contains("No. Variables: 12\nNo. Points: 1234567890\nVariables:\n"));
    assert!(text.contains("\t0\ts0\tunknown\n"));
    assert!(text.contains("\t9\ts9\tunknown\n\t10\ts10\tunknown\n\t11\ts11\tunknown\nBinary:\n"));
}

#[test]
fn raw_data_pads_missing_samples_with_zero() {
    let result = small_result();
    let mut out = Vec::new();
    write_raw_data(&mut out, &result.tables[0], 3);
    let mut expected = le(&[1.5, 3.0, -4.0, 7.0, 2.5, 0.0, 0.0, 8.0]);
    expected.extend_from_slice(&[0u8; 32]);
    assert_eq!(out, expected);
    let mut none = vec![1u8];
    write_raw_data(&mut none, &result.tables[0], 0);
    assert_eq!(none, vec![1u8]);
}

#[test]
fn result_without_tables_cannot_be_written() {
    let mut result = small_result();
    result.tables.clear();
    let err = write_spice3_raw(&result).unwrap_err();
    assert!(matches!(err, WaveformError::ParseError(m) if m == "No data tables found"));
}

#[test]
fn plot_names_follow_the_analysis() {
    for (analysis, plot) in [
        (AnalysisType::Transient, "Transient Analysis"),
        (AnalysisType::AC, "AC Analysis"),
        (AnalysisType::DC, "DC Analysis"),
        (AnalysisType::Operating, "Operating Point"),
        (AnalysisType::Noise, "Noise Analysis"),
        (AnalysisType::Unknown, "Analysis"),
    ] {
        let mut result = small_result();
        result.analysis = analysis;
        let bytes = write_spice3_raw(&result).unwrap();
        let text = String::from_utf8_lossy(&bytes).to_string();
        assert!(text.contains(&format!("\nPlotname: {}\n", plot)));
    }
}

fn framed(payload: &[u8]) -> Vec<u8> {
    let len = payload.len() as u32;
    let mut out = Vec::new();
    for w in [4u32, 0, 4, len] {
        out.extend_from_slice(&w.to_le_bytes());
    }
    out.extend_from_slice(payload);
    out.extend_from_slice(&len.to_le_bytes());
    out
}

fn waveform_file() -> Vec<u8> {
    let mut blob = vec![b' '; 256];
    blob[0..4].copy_from_slice(b"   1");
    blob[4..8].copy_from_slice(b"   1");
    blob[8..12].copy_from_slice(b"   0");
    blob[20..24].copy_from_slice(b"2001");
    blob[24..29].copy_from_slice(b"title");
    blob[88..92].copy_from_slice(b"date");
    blob.extend_from_slice(b"1 1 TIME v(out) $&%#");
    let mut file = framed(&blob);
    file.extend_from_slice(&framed(&le(&[0.0, 1.0, 0.5, 2.0, 1.0e30])));
    file
}

#[test]
fn waveform_file_converts_to_raw_file() {
    let file = waveform_file();
    let bytes = hspice_to_raw_impl(&file).unwrap();
    let header = "Title: title\nDate: date\nPlotname: Transient Analysis\nFlags: real\n\
                  No. Variables: 2\nNo. Points: 2\nVariables:\n\
                  \t0\tTIME\ttime\n\t1\tout\tunknown\nBinary:\n";
    let mut expected = header.as_bytes().to_vec();
    expected.extend_from_slice(&le(&[0.0, 1.0, 0.5, 2.0]));
    assert_eq!(bytes, expected);
    assert_eq!(read_and_convert(&file).unwrap(), expected);
    assert_eq!(read_and_convert_debug(&file, 2).unwrap(), expected);
    assert!(read_and_convert(&file[..file.len() - 1]).is_err());
    assert!(bytes.starts_with(b"Title"), "should start with Title header");
}
