//! Whole files, decoded and streamed. The files are built in memory.

use hspice_core::parser::{parse_header_metadata, process_raw_data, read_data_blocks};
use hspice_core::reader::MmapReader;
use hspice_core::stream::StreamState;
use hspice_core::{
    hspice_read_impl, parse_header_only, read, read_debug, read_stream, read_stream_chunked,
    read_stream_signals, AnalysisType, ComplexBits, DataChunk, HspiceStreamReader, PostVersion,
    VarType, VectorData, WaveformError, WaveformResult, COMPLEX_VAR, REAL_VAR,
};

// =============================================================================
// Test helpers
// =============================================================================

fn word(v: u32, big: bool) -> [u8; 4] {
    if big {
        v.to_be_bytes()
    } else {
        v.to_le_bytes()
    }
}

fn framed(payload: &[u8], big: bool) -> Vec<u8> {
    let len = payload.len() as u32;
    let mut out = Vec::new();
    out.extend_from_slice(&word(4, big));
    out.extend_from_slice(&word(0, big));
    out.extend_from_slice(&word(4, big));
    out.extend_from_slice(&word(len, big));
    out.extend_from_slice(payload);
    out.extend_from_slice(&word(len, big));
    out
}

fn put(blob: &mut Vec<u8>, at: usize, text: &str) {
    for (i, b) in text.bytes().enumerate() {
        blob[at + i] = b;
    }
}

struct Shape {
    variables: i32,
    probes: i32,
    sweeps: i32,
    high: bool,
    sweep_size: Option<i32>,
    description: &'static str,
}

fn blob(shape: &Shape) -> Vec<u8> {
    let mut blob = vec![b' '; 256];
    put(&mut blob, 0, &format!("{:4}", shape.variables));
    put(&mut blob, 4, &format!("{:4}", shape.probes));
    put(&mut blob, 8, &format!("{:4}", shape.sweeps));
    if shape.high {
        put(&mut blob, 20, "2001");
    } else {
        put(&mut blob, 16, "9601");
    }
    put(&mut blob, 24, "* pin to pin simulation");
    put(&mut blob, 88, "10/28/2026 12:00:00");
    if let Some(n) = shape.sweep_size {
        let at = if shape.high { 187 } else { 176 };
        put(&mut blob, at, &format!("{:10}", n));
    }
    blob.extend_from_slice(shape.description.as_bytes());
    blob
}

fn header(shape: &Shape, big: bool) -> Vec<u8> {
    let mut payload = blob(shape);
    payload.extend_from_slice(b"  $&%#    ");
    framed(&payload, big)
}

fn block(values: &[f64], high: bool, big: bool) -> Vec<u8> {
    let mut payload = Vec::new();
    for v in values {
        if high {
            let bytes = if big { v.to_be_bytes() } else { v.to_le_bytes() };
            payload.extend_from_slice(&bytes);
        } else {
            let s = *v as f32;
            let bytes = if big { s.to_be_bytes() } else { s.to_le_bytes() };
            payload.extend_from_slice(&bytes);
        }
    }
    framed(&payload, big)
}

const END: f64 = 1.0e30;

fn transient_shape(high: bool) -> Shape {
    Shape {
        variables: 2,
        probes: 1,
        sweeps: 0,
        high,
        sweep_size: None,
        description: "1 1 8 TIME v(out) I(vdd)",
    }
}

/// A transient file of 20 rows in 5 blocks of 4 rows: time, v(out), i(vdd).
fn example_tr0_with(high: bool, big: bool) -> Vec<u8> {
    let mut file = header(&transient_shape(high), big);
    for b in 0..5 {
        let mut values = Vec::new();
        for r in 0..4 {
            let row = (b * 4 + r) as f64;
            values.push(row * 0.5);
            values.push(1.0 + row);
            values.push(-0.25 * row);
        }
        if b == 4 {
            values.push(END);
        }
        file.extend_from_slice(&block(&values, high, big));
    }
    file
}

fn example_tr0() -> Vec<u8> {
    example_tr0_with(false, false)
}

/// An AC file: two complex signals, one real one, 3 rows.
fn example_ac0() -> Vec<u8> {
    let shape = Shape {
        variables: 3,
        probes: 1,
        sweeps: 0,
        high: false,
        sweep_size: None,
        description: "2 1 1 8 HERTZ v(out) v(in) i(vdd)",
    };
    let mut file = header(&shape, false);
    let mut values = Vec::new();
    for r in 0..3 {
        let f = 10.0 * (r + 1) as f64;
        values.extend_from_slice(&[f, 1.0, 2.0, 3.0, 4.0, 5.0]);
    }
    values.push(END);
    file.extend_from_slice(&block(&values, false, false));
    file
}

/// A swept DC file: 2 sweep points, 2 rows each of (param, v(out)).
fn example_sw0() -> Vec<u8> {
    let shape = Shape {
        variables: 1,
        probes: 1,
        sweeps: 1,
        high: false,
        sweep_size: Some(2),
        description: "1 1 vin v(out) temp",
    };
    let mut file = header(&shape, false);
    file.extend_from_slice(&block(&[25.0, 0.0, 0.5, 1.0, 1.5, END], false, false));
    file.extend_from_slice(&block(&[50.0, 0.0, 0.75, 1.0, 1.75, END], false, false));
    file
}

fn reals(v: &VectorData) -> Vec<f64> {
    match v {
        VectorData::Real(bits) => bits.iter().map(|b| f64::from_bits(*b)).collect(),
        VectorData::Complex(_) => panic!("expected a real vector"),
    }
}

fn pairs(v: &VectorData) -> Vec<(f64, f64)> {
    match v {
        VectorData::Complex(bits) => bits
            .iter()
            .map(|c| (f64::from_bits(c.re), f64::from_bits(c.im)))
            .collect(),
        VectorData::Real(_) => panic!("expected a complex vector"),
    }
}

fn names(result: &WaveformResult) -> Vec<String> {
    result.variables.iter().map(|v| v.name.clone()).collect()
}

fn collect(mut reader: HspiceStreamReader<'_>) -> Vec<Result<DataChunk, WaveformError>> {
    let mut chunks = Vec::new();
    while let Some(item) = reader.next() {
        let stop = item.is_err();
        chunks.push(item);
        if stop {
            break;
        }
    }
    chunks
}

fn format_error(e: &WaveformError) -> Option<&str> {
    match e {
        WaveformError::FormatError(m) => Some(m.as_str()),
        _ => None,
    }
}

fn parse_error(e: &WaveformError) -> Option<&str> {
    match e {
        WaveformError::ParseError(m) => Some(m.as_str()),
        _ => None,
    }
}

fn io_error(e: &WaveformError) -> Option<&str> {
    match e {
        WaveformError::IoError(m) => Some(m.as_str()),
        _ => None,
    }
}

// =============================================================================
// Test: Basic Reading
// =============================================================================

#[test]
fn test_read_returns_result() {
    let data = example_tr0();
    let result = read(&data);
    assert!(result.is_ok(), "read() should succeed for valid file");
}

#[test]
fn test_result_structure() {
    let data = example_tr0();
    let result = read(&data).unwrap();

    assert!(!result.title.is_empty(), "title should not be empty");
    assert!(
        !result.scale_name().is_empty(),
        "scale_name should not be empty"
    );
    assert!(
        !result.tables.is_empty(),
        "should have at least one data table"
    );
}

#[test]
fn test_data_dictionary_structure() {
    let data = example_tr0();
    let result = read(&data).unwrap();
    let table = &result.tables[0];

    assert!(!table.vectors.is_empty(), "data table should have signals");

    for (variable, values) in result.variables.iter().zip(table.vectors.iter()) {
        assert!(!variable.name.is_empty(), "signal name should not be empty");
        match values {
            VectorData::Real(v) => {
                assert!(!v.is_empty(), "signal {} should have data", variable.name)
            }
            VectorData::Complex(v) => {
                assert!(!v.is_empty(), "signal {} should have data", variable.name)
            }
        }
    }
}

#[test]
fn test_time_signal_exists() {
    let data = example_tr0();
    let result = read(&data).unwrap();

    assert_eq!(
        result.scale_name().to_uppercase(),
        "TIME",
        "scale should be TIME"
    );
    assert!(
        result.get("TIME").is_some() || result.get("time").is_some(),
        "TIME signal should exist"
    );
}

#[test]
fn test_data_consistency() {
    let data = example_tr0();
    let result = read(&data).unwrap();
    let table = &result.tables[0];

    let mut lengths: Vec<usize> = table.vectors.iter().map(|v| v.len()).collect();
    lengths.dedup();

    assert_eq!(lengths.len(), 1, "all signals should have same length");
}

#[test]
fn test_debug_modes() {
    let data = example_tr0();
    for debug_level in [0, 1, 2] {
        let result = read_debug(&data, debug_level);
        assert!(result.is_ok(), "should work with debug={}", debug_level);
    }
}

#[test]
fn test_multiple_reads() {
    let data = example_tr0();
    let result1 = read(&data).unwrap();
    let result2 = read(&data).unwrap();

    assert_eq!(
        names(&result1),
        names(&result2),
        "signal names should match across reads"
    );
}

#[test]
fn test_data_values_valid() {
    let data = example_tr0();
    let result = read(&data).unwrap();

    for (variable, values) in result.variables.iter().zip(result.tables[0].vectors.iter()) {
        if let VectorData::Real(_) = values {
            for v in reals(values) {
                assert!(!v.is_nan(), "signal {} contains NaN", variable.name);
                assert!(!v.is_infinite(), "signal {} contains Inf", variable.name);
            }
        }
    }
}

// =============================================================================
// Test: Format Variants
// =============================================================================

#[test]
fn test_read_9601_tr0() {
    let data = example_tr0_with(false, false);
    let result = read(&data);
    assert!(result.is_ok(), "9601 transient format should be readable");

    let data = result.unwrap();
    assert_eq!(data.scale_name().to_uppercase(), "TIME");
}

#[test]
fn test_read_2001_tr0() {
    let data = example_tr0_with(true, false);
    let result = read(&data);
    assert!(result.is_ok(), "2001 transient format should be readable");

    let data = result.unwrap();
    assert_eq!(data.scale_name().to_uppercase(), "TIME");
}

#[test]
fn test_read_9601_ac0() {
    let data = example_ac0();
    let result = read(&data);
    assert!(result.is_ok(), "AC format should be readable");

    let data = result.unwrap();
    assert_eq!(data.scale_name().to_uppercase(), "HERTZ");

    let has_complex = data.tables[0]
        .vectors
        .iter()
        .any(|v| matches!(v, VectorData::Complex(_)));
    assert!(has_complex, "AC analysis should have complex data");
}

#[test]
fn test_read_9601_sw0() {
    let data = example_sw0();
    let result = read(&data);
    assert!(result.is_ok(), "DC sweep format should be readable");

    let data = result.unwrap();
    assert!(!data.scale_name().is_empty(), "scale name should exist");
}

#[test]
fn test_format_comparison_same_signals() {
    let result_9601 = read(&example_tr0_with(false, false)).unwrap();
    let result_2001 = read(&example_tr0_with(true, false)).unwrap();

    assert_eq!(
        names(&result_9601),
        names(&result_2001),
        "both formats should have same signals"
    );
}

#[test]
fn test_format_comparison_same_length() {
    let result_9601 = read(&example_tr0_with(false, false)).unwrap();
    let result_2001 = read(&example_tr0_with(true, false)).unwrap();

    let len_9601 = result_9601.tables[0].vectors[0].len();
    let len_2001 = result_2001.tables[0].vectors[0].len();

    assert_eq!(
        len_9601, len_2001,
        "both formats should have same data length"
    );
    assert_eq!(len_9601, 20);
}

// =============================================================================
// Test: Streaming API
// =============================================================================

#[test]
fn test_stream_returns_iterator() {
    let data = example_tr0();
    let reader = read_stream(&data);
    assert!(reader.is_ok(), "read_stream should succeed");
}

#[test]
fn test_stream_yields_chunks() {
    let data = example_tr0();
    let reader = read_stream(&data).unwrap();
    let chunks = collect(reader);

    assert!(!chunks.is_empty(), "should yield at least one chunk");
}

#[test]
fn stream_test_stream_reader_basic() {
    let data = example_tr0();
    let reader = read_stream(&data).expect("Failed to open file");
    let metadata = reader.metadata();

    assert!(!metadata.scale_name.is_empty());
    assert!(!metadata.signal_names.is_empty());

    let mut chunk_count = 0;
    for chunk in collect(reader) {
        let chunk = chunk.expect("Failed to read chunk");
        assert!(!chunk.data.is_empty());
        chunk_count += 1;
    }
    assert!(chunk_count > 0);
}

#[test]
fn test_chunk_structure() {
    let data = example_tr0();
    let reader = read_stream(&data).unwrap();

    for chunk_result in collect(reader) {
        let chunk = chunk_result.unwrap();

        assert!(!chunk.data.is_empty(), "chunk should have data");
        assert!(
            f64::from_bits(chunk.time_range.0) <= f64::from_bits(chunk.time_range.1),
            "time range should be valid"
        );
    }
}

#[test]
fn test_custom_chunk_size() {
    let data = example_tr0();
    let chunks_small = collect(read_stream_chunked(&data, 10).unwrap());
    let chunks_large = collect(read_stream_chunked(&data, 100000).unwrap());

    assert!(
        chunks_small.len() >= chunks_large.len(),
        "smaller chunk size should produce more chunks"
    );
    assert_eq!(chunks_small.len(), 2);
    assert_eq!(chunks_large.len(), 1);
}

#[test]
fn test_chunk_index_sequential() {
    let data = example_tr0();
    let reader = read_stream_chunked(&data, 1).unwrap();

    let chunks = collect(reader);
    assert_eq!(chunks.len(), 5);
    for (i, chunk_result) in chunks.into_iter().enumerate() {
        let chunk = chunk_result.unwrap();
        assert_eq!(chunk.chunk_index, i, "chunk index should be sequential");
    }
}

#[test]
fn test_stream_total_points_match() {
    let data = example_tr0();

    let full_result = read(&data).unwrap();
    let total_points_full = full_result.tables[0].vectors[0].len();

    for chunk_size in [1usize, 3, 4, 5, 10, 100] {
        let reader = read_stream_chunked(&data, chunk_size).unwrap();
        let total_points_stream: usize = collect(reader)
            .into_iter()
            .filter_map(|r| r.ok())
            .map(|chunk| chunk.len())
            .sum();

        assert_eq!(
            total_points_stream, total_points_full,
            "streamed points should match full read"
        );
    }
}

#[test]
fn test_stream_time_range_continuous() {
    let data = example_tr0();
    let reader = read_stream_chunked(&data, 1).unwrap();
    let chunks: Vec<_> = collect(reader).into_iter().filter_map(|r| r.ok()).collect();

    assert!(chunks.len() > 1);
    for i in 0..chunks.len() - 1 {
        let current_end = f64::from_bits(chunks[i].time_range.1);
        let next_start = f64::from_bits(chunks[i + 1].time_range.0);

        assert!(
            next_start >= current_end,
            "chunk {} end ({}) should be <= chunk {} start ({})",
            i,
            current_end,
            i + 1,
            next_start
        );
    }
}

// =============================================================================
// Decoding: exact values
// =============================================================================

#[test]
fn decode_transient_gives_every_value() {
    for (high, big) in [(false, false), (false, true), (true, false), (true, true)] {
        let data = example_tr0_with(high, big);
        let result = hspice_read_impl(&data).unwrap();
        assert_eq!(result.title, "* pin to pin simulation");
        assert_eq!(result.date, "10/28/2026 12:00:00");
        assert_eq!(result.analysis, AnalysisType::Transient);
        assert_eq!(names(&result), vec!["TIME", "out", "i(vdd)"]);
        assert_eq!(result.variables[0].var_type, VarType::Time);
        assert_eq!(result.variables[1].var_type, VarType::Unknown);
        assert_eq!(result.variables[2].var_type, VarType::Current);
        assert!(result.sweep_param.is_none());
        assert_eq!(result.tables.len(), 1);
        let table = &result.tables[0];
        assert!(table.sweep_value.is_none());
        assert_eq!(table.vectors.len(), 3);
        let time: Vec<f64> = (0..20).map(|r| r as f64 * 0.5).collect();
        let out: Vec<f64> = (0..20).map(|r| 1.0 + r as f64).collect();
        let current: Vec<f64> = (0..20).map(|r| -0.25 * r as f64).collect();
        assert_eq!(reals(&table.vectors[0]), time);
        assert_eq!(reals(&table.vectors[1]), out);
        assert_eq!(reals(&table.vectors[2]), current);
        assert_eq!(result.len(), 20);
        assert_eq!(result.num_vars(), 3);
        assert_eq!(result.num_sweeps(), 1);
        assert!(!result.has_sweep());
    }
}

#[test]
fn decode_complex_pairs_leading_signals() {
    let data = example_ac0();
    let result = hspice_read_impl(&data).unwrap();
    assert_eq!(result.analysis, AnalysisType::AC);
    assert_eq!(names(&result), vec!["HERTZ", "out", "in", "i(vdd)"]);
    let table = &result.tables[0];
    assert_eq!(table.vectors.len(), 4);
    assert_eq!(reals(&table.vectors[0]), vec![10.0, 20.0, 30.0]);
    assert_eq!(pairs(&table.vectors[1]), vec![(1.0, 2.0); 3]);
    assert_eq!(pairs(&table.vectors[2]), vec![(3.0, 4.0); 3]);
    assert_eq!(reals(&table.vectors[3]), vec![5.0; 3]);
    assert!(table.vectors[1].is_complex());
    assert!(!table.vectors[3].is_complex());
    assert!(table.vectors[1].as_real().is_none());
    assert_eq!(
        table.vectors[1].as_complex().unwrap()[0],
        ComplexBits {
            re: 1.0f64.to_bits(),
            im: 2.0f64.to_bits()
        }
    );
}

#[test]
fn decode_sweep_gives_one_table_per_point() {
    let data = example_sw0();
    let result = hspice_read_impl(&data).unwrap();
    assert_eq!(result.analysis, AnalysisType::DC);
    assert_eq!(result.sweep_param.as_deref(), Some("temp"));
    assert_eq!(names(&result), vec!["vin", "out"]);
    assert_eq!(result.tables.len(), 2);
    assert!(result.has_sweep());
    assert_eq!(
        result.tables[0].sweep_value.map(f64::from_bits),
        Some(25.0)
    );
    assert_eq!(
        result.tables[1].sweep_value.map(f64::from_bits),
        Some(50.0)
    );
    assert_eq!(reals(&result.tables[0].vectors[0]), vec![0.0, 1.0]);
    assert_eq!(reals(&result.tables[0].vectors[1]), vec![0.5, 1.5]);
    assert_eq!(reals(&result.tables[1].vectors[0]), vec![0.0, 1.0]);
    assert_eq!(reals(&result.tables[1].vectors[1]), vec![0.75, 1.75]);
}

#[test]
fn decode_drops_values_that_fill_no_row() {
    let mut file = header(&transient_shape(true), false);
    file.extend_from_slice(&block(&[0.0, 1.0, 2.0, 0.5, 1.5], true, false));
    file.extend_from_slice(&block(&[2.5, 1.0, 7.0, END], true, false));
    let result = hspice_read_impl(&file).unwrap();
    let table = &result.tables[0];
    assert_eq!(reals(&table.vectors[0]), vec![0.0, 0.5]);
    assert_eq!(reals(&table.vectors[1]), vec![1.0, 1.5]);
    assert_eq!(reals(&table.vectors[2]), vec![2.0, 2.5]);
}

#[test]
fn decode_header_spread_over_blocks() {
    let shape = transient_shape(false);
    let mut payload = blob(&shape);
    payload.extend_from_slice(b" $&%#");
    let (first, second) = payload.split_at(100);
    let (second, third) = second.split_at(second.len() - 2);
    let mut file = framed(first, false);
    file.extend_from_slice(&framed(second, false));
    file.extend_from_slice(&framed(third, false));
    let position = file.len();
    file.extend_from_slice(&block(&[0.0, 1.0, 2.0, END], false, false));
    let (meta, at) = parse_header_only(&file).unwrap();
    assert_eq!(at, position);
    assert_eq!(meta.scale_name, "TIME");
    assert_eq!(meta.names, vec!["out", "i(vdd)"]);
    assert_eq!(meta.num_vectors, 3);
    assert_eq!(meta.num_variables, 2);
    assert_eq!(meta.var_type, REAL_VAR);
    assert_eq!(meta.post_version, PostVersion::V9601);
    assert_eq!(meta.sweep_size, 1);
    let result = hspice_read_impl(&file).unwrap();
    assert_eq!(result.len(), 1);
}

#[test]
fn process_raw_data_splits_rows() {
    let raw: Vec<u64> = [9.0, 0.0, 1.0, 2.0, 3.0, 4.0, 5.0, 6.0, END]
        .iter()
        .map(|v: &f64| v.to_bits())
        .collect();
    let (sweep, vectors) = process_raw_data(&raw, 3, 2, REAL_VAR, true);
    assert_eq!(sweep.map(f64::from_bits), Some(9.0));
    assert_eq!(vectors.len(), 3);
    assert_eq!(reals(&vectors[0]), vec![0.0, 3.0]);
    assert_eq!(reals(&vectors[1]), vec![1.0, 4.0]);
    assert_eq!(reals(&vectors[2]), vec![2.0, 5.0]);
    let (sweep, vectors) = process_raw_data(&raw[1..], 2, 2, COMPLEX_VAR, false);
    assert!(sweep.is_none());
    assert_eq!(reals(&vectors[0]), vec![0.0, 3.0]);
    assert_eq!(pairs(&vectors[1]), vec![(1.0, 2.0), (4.0, 5.0)]);
}

// =============================================================================
// Scenarios
// =============================================================================

#[test]
fn header_with_two_variables_and_one_probe() {
    let shape = Shape {
        variables: 2,
        probes: 1,
        sweeps: 0,
        high: false,
        sweep_size: None,
        description: "0 0 0 time v(out) v(in)",
    };
    let meta = parse_header_metadata(&blob(&shape)).unwrap();
    assert_eq!(meta.num_vectors, 3);
    assert_eq!(meta.scale_name, "time");
    assert_eq!(meta.names, vec!["out", "in"]);
    assert_eq!(meta.var_type, REAL_VAR);
    assert!(meta.sweep_name.is_none());
    assert_eq!(meta.sweep_size, 1);
}

#[test]
fn block_of_one_end_marker_holds_no_data() {
    let mut bytes = Vec::new();
    for w in [4u32, 0, 4, 8] {
        bytes.extend_from_slice(&w.to_le_bytes());
    }
    bytes.extend_from_slice(&1.0e30f64.to_le_bytes());
    bytes.extend_from_slice(&8u32.to_le_bytes());

    let mut reader = hspice_core::block_reader::BlockReader::new(&bytes, PostVersion::V2001);
    let found = reader.next_block().unwrap().unwrap();
    assert!(found.is_end);
    assert_eq!(found.values.len(), 1);
    assert_eq!(reader.block_count(), 1);
    assert_eq!(reader.bytes_consumed(), 28);

    let mut file = header(&transient_shape(true), false);
    file.extend_from_slice(&bytes);
    let mut stream = read_stream_chunked(&file, 1).unwrap();
    assert!(stream.next().is_none());
    let result = hspice_read_impl(&file).unwrap();
    assert_eq!(result.tables.len(), 1);
    assert_eq!(result.tables[0].vectors.len(), 3);
    assert_eq!(result.len(), 0);
    assert!(result.is_empty());
}

#[test]
fn chunk_holds_whole_blocks() {
    let data = example_tr0();
    let mut stream = read_stream_chunked(&data, 10).unwrap();
    let first = stream.next().unwrap().unwrap();
    assert_eq!(first.len(), 12);
    assert_eq!(first.chunk_index, 0);
    assert_eq!(f64::from_bits(first.time_range.0), 0.0);
    assert_eq!(f64::from_bits(first.time_range.1), 5.5);
    let second = stream.next().unwrap().unwrap();
    assert_eq!(second.len(), 8);
    assert_eq!(second.chunk_index, 1);
    assert_eq!(f64::from_bits(second.time_range.0), 6.0);
    assert_eq!(f64::from_bits(second.time_range.1), 9.5);
    assert!(stream.next().is_none());
    assert!(stream.next().is_none());
}

#[test]
fn malformed_trailer_is_a_format_error() {
    let mut file = example_tr0();
    let last = file.len() - 1;
    file[last] ^= 0x01;
    let err = hspice_read_impl(&file).unwrap_err();
    assert_eq!(format_error(&err), Some("Block header and trailer mismatch"));
    assert_eq!(
        err.to_string(),
        "Format error: Block header and trailer mismatch"
    );
}

// =============================================================================
// Streaming: exact values
// =============================================================================

#[test]
fn stream_reports_the_names_of_the_decode() {
    let data = example_ac0();
    let result = hspice_read_impl(&data).unwrap();
    let stream = read_stream(&data).unwrap();
    let meta = stream.metadata();
    assert_eq!(meta.scale_name, result.scale_name());
    let decoded: Vec<String> = names(&result)[1..].to_vec();
    assert_eq!(meta.signal_names, decoded);
    assert_eq!(meta.title, result.title);
    assert_eq!(meta.date, result.date);
    assert_eq!(meta.post_version, PostVersion::V9601);
    assert!(meta.is_complex);
}

#[test]
fn stream_carries_partial_rows_across_blocks() {
    let mut file = header(&transient_shape(true), false);
    file.extend_from_slice(&block(&[0.0, 1.0], true, false));
    file.extend_from_slice(&block(&[2.0, 0.5, 1.5, 2.5, 1.0], true, false));
    file.extend_from_slice(&block(&[], true, false));
    file.extend_from_slice(&block(&[3.0, 4.0, 1.5, 8.0, END], true, false));
    let mut stream = read_stream_chunked(&file, 1).unwrap();
    let first = stream.next().unwrap().unwrap();
    assert_eq!(first.len(), 2);
    assert_eq!(reals(first.get("TIME").unwrap()), vec![0.0, 0.5]);
    assert_eq!(reals(first.get("out").unwrap()), vec![1.0, 1.5]);
    assert_eq!(reals(first.get("i(vdd)").unwrap()), vec![2.0, 2.5]);
    let second = stream.next().unwrap().unwrap();
    assert_eq!(second.chunk_index, 1);
    assert_eq!(reals(second.get("TIME").unwrap()), vec![1.0]);
    assert_eq!(reals(second.get("out").unwrap()), vec![3.0]);
    assert_eq!(reals(second.get("i(vdd)").unwrap()), vec![4.0]);
    assert!(stream.next().is_none());
    let result = hspice_read_impl(&file).unwrap();
    assert_eq!(result.len(), 3);
}

#[test]
fn stream_hands_out_selected_signals_only() {
    let data = example_ac0();
    let mut stream = read_stream_signals(&data, &["in", "i(vdd)", "nothing"], 2).unwrap();
    let chunk = stream.next().unwrap().unwrap();
    let listed: Vec<&str> = chunk.data.iter().map(|e| e.0.as_str()).collect();
    assert_eq!(listed, vec!["HERTZ", "in", "i(vdd)"]);
    assert_eq!(reals(chunk.get("HERTZ").unwrap()), vec![10.0, 20.0, 30.0]);
    assert_eq!(pairs(chunk.get("in").unwrap()), vec![(3.0, 4.0); 3]);
    assert_eq!(reals(chunk.get("i(vdd)").unwrap()), vec![5.0; 3]);
    assert!(chunk.get("out").is_none());
    assert!(stream.next().is_none());
}

#[test]
fn stream_leaves_out_the_sweep_value() {
    let shape = Shape {
        variables: 1,
        probes: 1,
        sweeps: 1,
        high: true,
        sweep_size: Some(1),
        description: "1 1 vin v(out) temp",
    };
    let mut file = header(&shape, false);
    file.extend_from_slice(&block(&[25.0, 0.0, 0.5, 1.0], true, false));
    file.extend_from_slice(&block(&[1.5, END], true, false));
    let (meta, _) = parse_header_only(&file).unwrap();
    assert_eq!(meta.sweep_name.as_deref(), Some("temp"));
    assert_eq!(meta.sweep_size, 1);
    let mut stream = read_stream_chunked(&file, 5).unwrap();
    let chunk = stream.next().unwrap().unwrap();
    assert_eq!(reals(chunk.get("vin").unwrap()), vec![0.0, 1.0]);
    assert_eq!(reals(chunk.get("out").unwrap()), vec![0.5, 1.5]);
    assert!(stream.next().is_none());
}

#[test]
fn stream_ends_with_the_input() {
    let mut file = header(&transient_shape(true), false);
    file.extend_from_slice(&block(&[0.0, 1.0, 2.0, 0.5], true, false));
    let mut stream = read_stream_chunked(&file, 4).unwrap();
    let chunk = stream.next().unwrap().unwrap();
    assert_eq!(chunk.len(), 1);
    assert!(stream.next().is_none());
    let err = hspice_read_impl(&file).unwrap_err();
    assert_eq!(io_error(&err), Some("Unexpected end of file"));
}

#[test]
fn stream_surfaces_a_bad_block_at_its_call() {
    let mut file = example_tr0();
    let last = file.len() - 1;
    file[last] ^= 0x01;
    let mut stream = read_stream_chunked(&file, 16).unwrap();
    let first = stream.next().unwrap().unwrap();
    assert_eq!(first.len(), 16);
    let err = stream.next().unwrap().unwrap_err();
    assert_eq!(format_error(&err), Some("Block header and trailer mismatch"));
    let again = stream.next().unwrap().unwrap_err();
    assert_eq!(format_error(&again), Some("Block header and trailer mismatch"));
}

#[test]
fn stream_reset_starts_over() {
    let data = example_tr0();
    let mut stream = read_stream_signals(&data, &["out"], 10).unwrap();
    let first = stream.next().unwrap().unwrap();
    assert_eq!(first.len(), 12);
    stream.reset();
    let again = stream.next().unwrap().unwrap();
    assert_eq!(again.chunk_index, 0);
    assert_eq!(again.len(), 12);
    assert_eq!(again.data.len(), 2);
    assert_eq!(reals(again.get("out").unwrap()), reals(first.get("out").unwrap()));
    let rest = stream.next().unwrap().unwrap();
    assert_eq!(rest.chunk_index, 1);
    assert!(stream.next().is_none());
}

#[test]
fn stream_asks_for_at_least_one_row() {
    let data = example_tr0();
    let chunks = collect(HspiceStreamReader::open(&data, 0).unwrap());
    assert_eq!(chunks.len(), 5);
    let _ = StreamState::Reading;
}

// =============================================================================
// Failures
// =============================================================================

#[test]
fn empty_file_is_refused() {
    let err = hspice_read_impl(&[]).unwrap_err();
    assert_eq!(format_error(&err), Some("File is empty"));
    assert!(read_stream(&[]).is_err());
}

#[test]
fn ascii_file_is_refused() {
    let err = hspice_read_impl(b"Title: something").unwrap_err();
    assert_eq!(
        format_error(&err),
        Some("File is ASCII format, only binary supported")
    );
}

#[test]
fn corrupted_frame_is_refused() {
    let mut file = example_tr0();
    file[0] = 5;
    let err = hspice_read_impl(&file).unwrap_err();
    assert_eq!(format_error(&err), Some("Corrupted block header"));
}

#[test]
fn truncated_file_is_refused() {
    let file = example_tr0();
    let err = hspice_read_impl(&file[..file.len() - 7]).unwrap_err();
    assert_eq!(io_error(&err), Some("Unexpected end of file"));
    let err = hspice_read_impl(&file[..10]).unwrap_err();
    assert_eq!(io_error(&err), Some("Unexpected end of file"));
    assert_eq!(err.to_string(), "IO error: Unexpected end of file");
}

#[test]
fn unknown_post_format_is_refused() {
    let mut bytes = blob(&transient_shape(false));
    put(&mut bytes, 16, "1234");
    let err = parse_header_metadata(&bytes).unwrap_err();
    assert_eq!(format_error(&err), Some("Unknown post format"));
}

#[test]
fn two_sweep_dimensions_are_refused() {
    let mut shape = transient_shape(false);
    shape.sweeps = 2;
    let err = parse_header_metadata(&blob(&shape)).unwrap_err();
    assert_eq!(
        format_error(&err),
        Some("Only one-dimensional sweep supported")
    );
}

#[test]
fn short_header_is_refused() {
    let bytes = blob(&transient_shape(false));
    let err = parse_header_metadata(&bytes[..200]).unwrap_err();
    assert_eq!(parse_error(&err), Some("Buffer too short"));
    assert_eq!(err.to_string(), "Parse error: Buffer too short");
}

#[test]
fn missing_names_are_refused() {
    let mut shape = transient_shape(false);
    shape.description = "1 1 8 TIME v(out)";
    let err = parse_header_metadata(&blob(&shape)).unwrap_err();
    assert_eq!(parse_error(&err), Some("Not enough vector names"));
    shape.description = "1 1 8 TIME v(out) i(vdd)";
    shape.variables = 0;
    shape.probes = 0;
    let err = parse_header_metadata(&blob(&shape)).unwrap_err();
    assert_eq!(parse_error(&err), Some("Not enough vector names"));
}

#[test]
fn complex_file_without_variables_is_refused() {
    let shape = Shape {
        variables: 0,
        probes: 2,
        sweeps: 0,
        high: false,
        sweep_size: None,
        description: "2 1 HERTZ v(out)",
    };
    let err = parse_header_metadata(&blob(&shape)).unwrap_err();
    assert_eq!(parse_error(&err), Some("Invalid variable count"));
}

#[test]
fn read_data_blocks_keeps_the_end_marker() {
    let mut bytes = block(&[1.0, 2.0], false, true);
    bytes.extend_from_slice(&block(&[3.0, END], false, true));
    bytes.extend_from_slice(&block(&[4.0, END], false, true));
    let mut reader = MmapReader::new(&bytes);
    let values = read_data_blocks(&mut reader, PostVersion::V9601).unwrap();
    assert_eq!(values.len(), 4);
    assert_eq!(f64::from_bits(values[2]), 3.0);
    assert_eq!(f64::from_bits(values[3]), 1.0e30f32 as f64);
    assert_eq!(reader.position(), 2 * 28);
    assert_eq!(reader.remaining(), 28);
}

#[test]
fn byte_order_is_found_in_every_frame() {
    let mut file = header(&transient_shape(true), false);
    file.extend_from_slice(&block(&[0.0, 1.0, 2.0], true, true));
    file.extend_from_slice(&block(&[0.5, 1.5, 2.5, END], true, false));
    let result = hspice_read_impl(&file).unwrap();
    assert_eq!(reals(&result.tables[0].vectors[0]), vec![0.0, 0.5]);
    assert_eq!(reals(&result.tables[0].vectors[2]), vec![2.0, 2.5]);
    let chunks = collect(read_stream_chunked(&file, 1).unwrap());
    assert_eq!(chunks.len(), 2);
}

#[test]
fn length_that_is_no_multiple_of_the_item_width() {
    // Ten bytes of payload hold two whole four-byte items; the closing word
    // is then looked for after the eighth byte.
    let mut payload = Vec::new();
    payload.extend_from_slice(&1.0f32.to_le_bytes());
    payload.extend_from_slice(&2.0f32.to_le_bytes());
    payload.extend_from_slice(&[0xAA, 0xBB]);
    let mut file = header(&transient_shape(false), false);
    file.extend_from_slice(&framed(&payload, false));
    let err = hspice_read_impl(&file).unwrap_err();
    assert_eq!(format_error(&err), Some("Block header and trailer mismatch"));

    // Where the four bytes after the last whole item repeat the length, the
    // block is taken with its whole items.
    let mut block_bytes = Vec::new();
    for w in [4u32, 0, 4, 10] {
        block_bytes.extend_from_slice(&w.to_le_bytes());
    }
    block_bytes.extend_from_slice(&1.0f32.to_le_bytes());
    block_bytes.extend_from_slice(&2.0e30f32.to_le_bytes());
    block_bytes.extend_from_slice(&10u32.to_le_bytes());
    let mut reader = hspice_core::block_reader::BlockReader::new(&block_bytes, PostVersion::V9601);
    let found = reader.next_block().unwrap().unwrap();
    assert_eq!(found.values.len(), 2);
    assert!(found.is_end);
    assert_eq!(reader.bytes_consumed(), 28);
}

#[test]
fn chunk_clone_keeps_everything() {
    let data = example_ac0();
    let mut stream = read_stream(&data).unwrap();
    let chunk = stream.next().unwrap().unwrap();
    let copy = chunk.clone();
    assert_eq!(copy.chunk_index, chunk.chunk_index);
    assert_eq!(copy.time_range, chunk.time_range);
    assert_eq!(copy.data.len(), chunk.data.len());
    assert_eq!(pairs(copy.get("out").unwrap()), pairs(chunk.get("out").unwrap()));
    assert_eq!(copy.len(), 3);
}

#[test]
fn stream_and_decode_hold_the_same_samples() {
    for chunk_size in [1usize, 2, 7, 100] {
        for data in [example_tr0(), example_tr0_with(true, true), example_ac0()] {
            let result = hspice_read_impl(&data).unwrap();
            let chunks: Vec<DataChunk> = collect(read_stream_chunked(&data, chunk_size).unwrap())
                .into_iter()
                .map(|c| c.unwrap())
                .collect();
            for (j, variable) in result.variables.iter().enumerate() {
                match &result.tables[0].vectors[j] {
                    VectorData::Real(all) => {
                        let mut streamed: Vec<u64> = Vec::new();
                        for chunk in &chunks {
                            assert_eq!(chunk.data[j].0, variable.name);
                            streamed.extend_from_slice(chunk.data[j].1.as_real().unwrap());
                        }
                        assert_eq!(&streamed, all);
                    }
                    VectorData::Complex(all) => {
                        let mut streamed: Vec<ComplexBits> = Vec::new();
                        for chunk in &chunks {
                            streamed.extend_from_slice(chunk.data[j].1.as_complex().unwrap());
                        }
                        assert_eq!(&streamed, all);
                    }
                }
            }
        }
    }
}
