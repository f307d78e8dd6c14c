//! The parts on their own: types, text, bit patterns, the cursor, the fields
//! of the header.

use hspice_core::block_reader::{read_block, BlockReader};
use hspice_core::header::{
    extract_int, extract_string, find_subsequence, strip_voltage_wrapper,
};
use hspice_core::ieee::{is_end_marker_double, is_end_marker_single, le_double, widen};
use hspice_core::layout::{
    complex_column, extract_signal, real_column, row_width, signal_is_complex,
};
use hspice_core::parser::{
    get_sweep_info, names_from_words, parse_vector_names, validate_file_format,
};
use hspice_core::reader::MmapReader;
use hspice_core::text::{
    char_is_space, chars_are, chars_eq, find_name, from_chars, parse_i32,
    split_whitespace, starts_with, str_eq, to_chars, trim,
};
use hspice_core::types::{DataTable, WaveformResult};
use hspice_core::{
    AnalysisType, ComplexBits, Endian, PostVersion, VarType, Variable, VectorData, WaveformError,
    COMPLEX_VAR, END_MARKER_2001, END_MARKER_9601, REAL_VAR,
};

fn chars(s: &str) -> Vec<char> {
    s.chars().collect()
}

fn text(v: &[char]) -> String {
    v.iter().collect()
}

// =============================================================================
// Types
// =============================================================================

#[test]
fn analysis_from_extension_ignores_case() {
    assert_eq!(AnalysisType::from_extension("tr0"), AnalysisType::Transient);
    assert_eq!(AnalysisType::from_extension("TR0"), AnalysisType::Transient);
    assert_eq!(AnalysisType::from_extension("Ac0"), AnalysisType::AC);
    assert_eq!(AnalysisType::from_extension("sw0"), AnalysisType::DC);
    assert_eq!(AnalysisType::from_extension("raw"), AnalysisType::Unknown);
    assert_eq!(AnalysisType::from_extension(""), AnalysisType::Unknown);
    assert_eq!(
        AnalysisType::from_lowercase_extension("TR0"),
        AnalysisType::Unknown
    );
}

#[test]
fn analysis_from_scale_name_ignores_case() {
    assert_eq!(AnalysisType::from_scale_name("TIME"), AnalysisType::Transient);
    assert_eq!(AnalysisType::from_scale_name("time"), AnalysisType::Transient);
    assert_eq!(AnalysisType::from_scale_name("Hertz"), AnalysisType::AC);
    assert_eq!(AnalysisType::from_scale_name("freq"), AnalysisType::AC);
    assert_eq!(AnalysisType::from_scale_name("FREQUENCY"), AnalysisType::AC);
    assert_eq!(AnalysisType::from_scale_name("vin"), AnalysisType::DC);
    assert_eq!(AnalysisType::from_scale_name(""), AnalysisType::DC);
    assert_eq!(
        AnalysisType::from_uppercase_scale_name("time"),
        AnalysisType::DC
    );
}

#[test]
fn analysis_labels_round_trip() {
    for (kind, label) in [
        (AnalysisType::Transient, "transient"),
        (AnalysisType::AC, "ac"),
        (AnalysisType::DC, "dc"),
        (AnalysisType::Operating, "operating"),
        (AnalysisType::Noise, "noise"),
        (AnalysisType::Unknown, "unknown"),
    ] {
        assert_eq!(kind.to_string(), label);
        assert_eq!(AnalysisType::from_str(label), Ok(kind));
        assert_eq!(AnalysisType::from_str(&label.to_uppercase()), Ok(kind));
    }
    assert_eq!(AnalysisType::from_str("tran"), Ok(AnalysisType::Transient));
    assert_eq!(AnalysisType::from_str("OP"), Ok(AnalysisType::Operating));
    assert_eq!(AnalysisType::from_str("other"), Ok(AnalysisType::Unknown));
    assert_eq!(AnalysisType::default(), AnalysisType::Unknown);
}

#[test]
fn var_type_from_name() {
    assert_eq!(VarType::from_name("time"), VarType::Time);
    assert_eq!(VarType::from_name("TIME"), VarType::Time);
    assert_eq!(VarType::from_name("HERTZ"), VarType::Frequency);
    assert_eq!(VarType::from_name("Freq"), VarType::Frequency);
    assert_eq!(VarType::from_name("frequency"), VarType::Frequency);
    assert_eq!(VarType::from_name("v(out)"), VarType::Voltage);
    assert_eq!(VarType::from_name("V_out"), VarType::Voltage);
    assert_eq!(VarType::from_name("I(vdd)"), VarType::Current);
    assert_eq!(VarType::from_name("i_load"), VarType::Current);
    assert_eq!(VarType::from_name("out"), VarType::Unknown);
    assert_eq!(VarType::from_name("v"), VarType::Unknown);
    assert_eq!(VarType::from_name(""), VarType::Unknown);
    assert_eq!(VarType::from_lowercase_name("TIME"), VarType::Unknown);
    assert_eq!(VarType::from_str("i(x)"), Ok(VarType::Current));
    assert_eq!(VarType::default(), VarType::Unknown);
}

#[test]
fn var_type_labels() {
    for (kind, label) in [
        (VarType::Time, "time"),
        (VarType::Frequency, "frequency"),
        (VarType::Voltage, "voltage"),
        (VarType::Current, "current"),
        (VarType::Unknown, "unknown"),
    ] {
        assert_eq!(kind.to_string(), label);
        assert_eq!(VarType::from_lowercase_label(label), kind);
    }
    assert_eq!(VarType::from_lowercase_label("v(out)"), VarType::Unknown);
}

#[test]
fn variable_new_infers_the_kind() {
    let v = Variable::new("v(out)");
    assert_eq!(v.name, "v(out)");
    assert_eq!(v.var_type, VarType::Voltage);
    let t = Variable::new("TIME");
    assert_eq!(t.name, "TIME");
    assert_eq!(t.var_type, VarType::Time);
    let w = Variable::with_type("x", VarType::Current);
    assert_eq!(w.name, "x");
    assert_eq!(w.var_type, VarType::Current);
}

#[test]
fn vector_data_accessors() {
    let r = VectorData::Real(vec![1.0f64.to_bits(), 2.0f64.to_bits()]);
    assert_eq!(r.len(), 2);
    assert!(!r.is_empty());
    assert!(!r.is_complex());
    assert_eq!(r.as_real().unwrap().len(), 2);
    assert!(r.as_complex().is_none());
    let c = VectorData::Complex(vec![ComplexBits { re: 1, im: 2 }]);
    assert_eq!(c.len(), 1);
    assert!(c.is_complex());
    assert!(c.as_real().is_none());
    assert_eq!(c.as_complex().unwrap()[0].im, 2);
    let e = VectorData::Real(Vec::new());
    assert!(e.is_empty());
    let copy = c.clone();
    assert_eq!(copy.as_complex().unwrap()[0], ComplexBits { re: 1, im: 2 });
}

fn small_result() -> WaveformResult {
    WaveformResult {
        title: "t".to_string(),
        date: "d".to_string(),
        analysis: AnalysisType::Transient,
        variables: vec![
            Variable::new("TIME"),
            Variable::new("a"),
            Variable::new("b"),
            Variable::new("a"),
        ],
        sweep_param: None,
        tables: vec![DataTable {
            sweep_value: None,
            vectors: vec![
                VectorData::Real(vec![0, 1]),
                VectorData::Real(vec![10, 11]),
                VectorData::Real(vec![20, 21]),
                VectorData::Real(vec![30, 31]),
            ],
        }],
    }
}

#[test]
fn waveform_result_accessors() {
    let r = small_result();
    assert_eq!(r.scale_name(), "TIME");
    assert_eq!(r.var_index("TIME"), Some(0));
    assert_eq!(r.var_index("a"), Some(1));
    assert_eq!(r.var_index("b"), Some(2));
    assert_eq!(r.var_index("c"), None);
    assert_eq!(r.get("a").unwrap().as_real().unwrap(), &vec![10, 11]);
    assert!(r.get("c").is_none());
    assert_eq!(r.scale().unwrap().as_real().unwrap(), &vec![0, 1]);
    assert_eq!(r.len(), 2);
    assert!(!r.is_empty());
    assert_eq!(r.num_vars(), 4);
    assert_eq!(r.num_sweeps(), 1);
    assert_eq!(r.var_names(), vec!["TIME", "a", "b", "a"]);
    assert!(!r.has_sweep());
    assert_eq!(r.tables[0].len(), 2);
    assert!(!r.tables[0].is_empty());
}

#[test]
fn waveform_result_without_tables() {
    let mut r = small_result();
    r.tables.clear();
    r.variables.clear();
    assert_eq!(r.scale_name(), "");
    assert!(r.scale().is_none());
    assert!(r.get("a").is_none());
    assert_eq!(r.len(), 0);
    assert!(r.is_empty());
    assert!(r.var_names().is_empty());
    let empty = DataTable {
        sweep_value: None,
        vectors: Vec::new(),
    };
    assert_eq!(empty.len(), 0);
    assert!(empty.is_empty());
}

#[test]
fn error_text_names_the_class() {
    assert_eq!(WaveformError::io("a").to_string(), "IO error: a");
    assert_eq!(WaveformError::parse("b").to_string(), "Parse error: b");
    assert_eq!(WaveformError::format("c").to_string(), "Format error: c");
}

// =============================================================================
// Text
// =============================================================================

#[test]
fn chars_and_strings_convert_both_ways() {
    assert_eq!(to_chars("héllo"), chars("héllo"));
    assert_eq!(from_chars(&chars("héllo")), "héllo");
    assert_eq!(to_chars(""), Vec::<char>::new());
    assert_eq!(from_chars(&[]), "");
}

#[test]
fn text_comparisons() {
    assert!(chars_eq(&chars("abc"), &chars("abc")));
    assert!(!chars_eq(&chars("abc"), &chars("abd")));
    assert!(!chars_eq(&chars("abc"), &chars("ab")));
    assert!(chars_are(&chars("2001"), "2001"));
    assert!(!chars_are(&chars("2001"), "9601"));
    assert!(str_eq("x", "x"));
    assert!(!str_eq("x", "y"));
    assert!(starts_with(&chars("v(out)"), "v("));
    assert!(!starts_with(&chars("v"), "v("));
    assert!(starts_with(&chars("abc"), ""));
    let list = vec!["a".to_string(), "b".to_string(), "a".to_string()];
    assert_eq!(find_name(&list, "a"), 0);
    assert_eq!(find_name(&list, "b"), 1);
    assert_eq!(find_name(&list, "c"), 3);
}

#[test]
fn whitespace_is_what_the_standard_library_says() {
    for u in 0..0x11_0000u32 {
        if let Some(c) = char::from_u32(u) {
            assert_eq!(char_is_space(c), c.is_whitespace(), "U+{:04X}", u);
        }
    }
}

#[test]
fn trim_and_split_agree_with_the_standard_library() {
    for s in [
        "",
        " ",
        "a",
        "  a b  ",
        "\t1 1 8\nTIME v(out)\r\n",
        "x\u{00A0}y\u{3000}z",
        "\u{2003}lead",
        "trail\u{0085}",
        "a  \t  b",
    ] {
        assert_eq!(text(&trim(&chars(s))), s.trim(), "{:?}", s);
        let words: Vec<String> = split_whitespace(&chars(s)).iter().map(|w| text(w)).collect();
        let expected: Vec<String> = s.split_whitespace().map(|w| w.to_string()).collect();
        assert_eq!(words, expected, "{:?}", s);
    }
}

#[test]
fn parse_i32_agrees_with_the_standard_library() {
    for s in [
        "0",
        "7",
        "0012",
        "+5",
        "-5",
        "-0",
        "2147483647",
        "2147483648",
        "-2147483648",
        "-2147483649",
        "99999999999999999999",
        "-99999999999999999999",
        "000000000000000000000001",
        "",
        "+",
        "-",
        "--1",
        "+-1",
        "1 ",
        " 1",
        "1a",
        "a",
        "1.0",
        "١٢",
    ] {
        assert_eq!(parse_i32(&chars(s)), s.parse::<i32>().ok(), "{:?}", s);
    }
    assert_eq!(parse_i32(&chars("123")), Some(123));
    assert_eq!(parse_i32(&chars("-2147483648")), Some(i32::MIN));
}

// =============================================================================
// Bit patterns
// =============================================================================

#[test]
fn end_markers_are_the_bits_of_the_constants() {
    assert_eq!(END_MARKER_9601, 1.0000000150474662e+30_f32.to_bits());
    assert_eq!(END_MARKER_2001, 1.0e+30_f64.to_bits());
}

fn single_samples() -> Vec<u32> {
    let mut v = vec![
        0,
        1,
        2,
        0x007F_FFFF,
        0x0040_0000,
        0x0080_0000,
        0x0080_0001,
        0x3F80_0000,
        0x7149_F2C9,
        0x7149_F2CA,
        0x7149_F2CB,
        0x7F7F_FFFF,
        0x7F80_0000,
    ];
    let mut x: u32 = 0x1234_5678;
    for _ in 0..20_000 {
        x = x.wrapping_mul(1_664_525).wrapping_add(1_013_904_223);
        v.push(x & 0x7FFF_FFFF);
        v.push(x >> 9);
    }
    let signed: Vec<u32> = v.iter().map(|b| b | 0x8000_0000).collect();
    v.extend(signed);
    v
}

#[test]
fn widen_gives_the_same_number() {
    for b in single_samples() {
        let s = f32::from_bits(b);
        let w = f64::from_bits(widen(b));
        if s.is_nan() {
            assert!(w.is_nan(), "{:08X}", b);
            assert_eq!(w.is_sign_negative(), s.is_sign_negative(), "{:08X}", b);
        } else {
            assert_eq!(widen(b), (s as f64).to_bits(), "{:08X}", b);
        }
    }
    assert_eq!(f64::from_bits(widen(1.5f32.to_bits())), 1.5);
    assert_eq!(f64::from_bits(widen(1)), 1.401298464324817e-45);
}

#[test]
fn end_marker_tests_compare_numbers() {
    for b in single_samples() {
        assert_eq!(
            is_end_marker_single(b),
            f32::from_bits(b) >= 1.0000000150474662e+30_f32,
            "{:08X}",
            b
        );
        let w = widen(b);
        assert_eq!(
            is_end_marker_double(w),
            f64::from_bits(w) >= 1.0e+30_f64,
            "{:016X}",
            w
        );
    }
    assert!(is_end_marker_double(1.0e30f64.to_bits()));
    assert!(is_end_marker_double(f64::INFINITY.to_bits()));
    assert!(!is_end_marker_double(9.99e29f64.to_bits()));
    assert!(!is_end_marker_double((-1.0e30f64).to_bits()));
    assert!(!is_end_marker_double(f64::NAN.to_bits()));
    assert!(is_end_marker_single(f32::INFINITY.to_bits()));
    assert!(!is_end_marker_single(f32::NAN.to_bits()));
}

#[test]
fn le_double_compares_numbers() {
    let values = [
        0.0f64,
        -0.0,
        1.0,
        -1.0,
        5e-324,
        -5e-324,
        1.0e30,
        -1.0e30,
        f64::MAX,
        f64::MIN,
        f64::INFINITY,
        f64::NEG_INFINITY,
        f64::NAN,
        -f64::NAN,
        2.5,
        2.5000000000000004,
    ];
    for a in values {
        for b in values {
            assert_eq!(le_double(a.to_bits(), b.to_bits()), a <= b, "{} <= {}", a, b);
        }
    }
}

// =============================================================================
// The cursor
// =============================================================================

#[test]
fn endian_reads_words() {
    assert_eq!(Endian::Little.read_i32([4, 0, 0, 0]), 4);
    assert_eq!(Endian::Big.read_i32([0, 0, 0, 4]), 4);
    assert_eq!(Endian::Little.read_i32([0xFF, 0xFF, 0xFF, 0xFF]), -1);
    assert_eq!(Endian::Big.read_i32([0x80, 0, 0, 0]), i32::MIN);
    assert_eq!(Endian::Little.read_f32([0x78, 0x56, 0x34, 0x12]), 0x1234_5678);
    assert_eq!(Endian::Big.read_f32([0x12, 0x34, 0x56, 0x78]), 0x1234_5678);
    let bytes = 1.5f64.to_le_bytes();
    assert_eq!(f64::from_bits(Endian::Little.read_f64(bytes)), 1.5);
    let bytes = (-2.25f64).to_be_bytes();
    assert_eq!(f64::from_bits(Endian::Big.read_f64(bytes)), -2.25);
    for b in [[1u8, 2, 3, 4], [0xFF, 0, 0x80, 0x7F]] {
        assert_eq!(Endian::Little.read_i32(b), i32::from_le_bytes(b));
        assert_eq!(Endian::Big.read_i32(b), i32::from_be_bytes(b));
    }
}

#[test]
fn reader_reads_bytes_in_order() {
    let data = [1u8, 2, 3, 4, 5];
    let mut r = MmapReader::new(&data);
    assert_eq!(r.remaining(), 5);
    assert_eq!(r.position(), 0);
    assert!(r.endian().is_none());
    assert_eq!(r.read_bytes(2).unwrap(), &[1, 2]);
    assert_eq!(r.read_bytes(0).unwrap(), &[] as &[u8]);
    assert_eq!(r.remaining(), 3);
    assert!(r.read_bytes(4).is_err());
    assert_eq!(r.position(), 2);
    assert_eq!(r.read_bytes(3).unwrap(), &[3, 4, 5]);
    assert_eq!(r.remaining(), 0);
    assert!(r.read_bytes(usize::MAX).is_err());
    let s = MmapReader::starting_at(&data, 4);
    assert_eq!(s.remaining(), 1);
}

fn frame_words(words: [u32; 4], big: bool) -> Vec<u8> {
    let mut out = Vec::new();
    for w in words {
        out.extend_from_slice(&if big { w.to_be_bytes() } else { w.to_le_bytes() });
    }
    out
}

#[test]
fn reader_finds_the_byte_order_in_the_frame() {
    let little = frame_words([4, 0, 4, 24], false);
    let mut r = MmapReader::new(&little);
    assert_eq!(r.read_block_header(4).unwrap(), (6, 24));
    assert_eq!(r.endian(), Some(Endian::Little));
    assert_eq!(r.position(), 16);

    let big = frame_words([4, 0, 4, 26], true);
    let mut r = MmapReader::new(&big);
    assert_eq!(r.read_block_header(8).unwrap(), (3, 26));
    assert_eq!(r.endian(), Some(Endian::Big));

    let bad = frame_words([4, 0, 5, 24], false);
    let mut r = MmapReader::new(&bad);
    let err = r.read_block_header(4).unwrap_err();
    assert!(matches!(err, WaveformError::FormatError(m) if m == "Corrupted block header"));
    assert_eq!(r.position(), 16);
    assert!(r.endian().is_none());

    let mut r = MmapReader::new(&little[..15]);
    let err = r.read_block_header(4).unwrap_err();
    assert!(matches!(err, WaveformError::IoError(m) if m == "Unexpected end of file"));
    assert_eq!(r.position(), 0);
}

#[test]
fn reader_takes_a_negative_length_for_a_huge_count() {
    let frame = frame_words([4, 0, 4, 0xFFFF_FFFC], false);
    let mut r = MmapReader::new(&frame);
    let (count, declared) = r.read_block_header(4).unwrap();
    assert_eq!(declared, -4);
    assert_eq!(count, (-4i32 as usize) / 4);
    let mut values = Vec::new();
    assert!(r.read_floats_as_f64_into(count, &mut values).is_err());
    assert!(values.is_empty());
}

#[test]
fn reader_checks_the_trailer() {
    let mut bytes = frame_words([4, 0, 4, 8], true);
    bytes.extend_from_slice(&[0u8; 8]);
    bytes.extend_from_slice(&8u32.to_be_bytes());
    bytes.extend_from_slice(&9u32.to_be_bytes());
    let mut r = MmapReader::new(&bytes);
    let (count, declared) = r.read_block_header(8).unwrap();
    assert_eq!((count, declared), (1, 8));
    let mut values = Vec::new();
    r.read_doubles_into(1, &mut values).unwrap();
    assert_eq!(values, vec![0]);
    assert!(r.read_block_trailer(declared).is_ok());
    let err = r.read_block_trailer(declared).unwrap_err();
    assert!(
        matches!(err, WaveformError::FormatError(m) if m == "Block header and trailer mismatch")
    );
    assert_eq!(r.remaining(), 0);
    let err = r.read_block_trailer(declared).unwrap_err();
    assert!(matches!(err, WaveformError::IoError(_)));
}

#[test]
fn reader_decodes_items_in_both_orders() {
    let mut little = Vec::new();
    let mut big = Vec::new();
    for v in [1.5f32, -2.0, 1.0e-40, 3.0e38] {
        little.extend_from_slice(&v.to_le_bytes());
        big.extend_from_slice(&v.to_be_bytes());
    }
    let mut frame = frame_words([4, 0, 4, 16], true);
    frame.extend_from_slice(&big);
    let mut r = MmapReader::new(&frame);
    r.read_block_header(4).unwrap();
    assert_eq!(r.single_at(16), 1.5f32.to_bits());
    let mut values = vec![7u64];
    r.read_floats_as_f64_into(4, &mut values).unwrap();
    let expected: Vec<u64> = [1.5f32, -2.0, 1.0e-40, 3.0e38]
        .iter()
        .map(|v| (*v as f64).to_bits())
        .collect();
    assert_eq!(&values[1..], &expected[..]);
    assert_eq!(values[0], 7);

    let mut r = MmapReader::new(&little);
    let mut values = Vec::new();
    r.read_floats_as_f64_into(3, &mut values).unwrap();
    assert_eq!(&values[..], &expected[..3]);
    assert_eq!(r.position(), 12);
    assert!(r.read_floats_as_f64_into(2, &mut values).is_err());
    assert_eq!(values.len(), 3);

    let mut doubles = Vec::new();
    for v in [0.1f64, -1.0e300] {
        doubles.extend_from_slice(&v.to_le_bytes());
    }
    let mut r = MmapReader::new(&doubles);
    let mut values = Vec::new();
    r.read_doubles_into(2, &mut values).unwrap();
    assert_eq!(values, vec![0.1f64.to_bits(), (-1.0e300f64).to_bits()]);
    assert!(r.read_doubles_into(1, &mut values).is_err());
}

#[test]
fn test_block_reader_format_name() {
    let empty: &[u8] = &[];
    let reader_9601 = BlockReader::new(empty, PostVersion::V9601);
    assert_eq!(reader_9601.format_name(), "f32");

    let reader_2001 = BlockReader::new(empty, PostVersion::V2001);
    assert_eq!(reader_2001.format_name(), "f64");
}

#[test]
fn block_reader_reads_all_blocks() {
    let mut bytes = Vec::new();
    for (values, last) in [(vec![1.0f32, 2.0], false), (vec![], false), (vec![3.0, 1.0e30], true)]
    {
        let len = 4 * values.len() as u32;
        bytes.extend_from_slice(&frame_words([4, 0, 4, len], false));
        for v in &values {
            bytes.extend_from_slice(&v.to_le_bytes());
        }
        bytes.extend_from_slice(&len.to_le_bytes());
        let _ = last;
    }
    bytes.extend_from_slice(&frame_words([4, 0, 4, 0], false));
    bytes.extend_from_slice(&0u32.to_le_bytes());

    let mut reader = BlockReader::new(&bytes, PostVersion::V9601);
    let all = reader.read_all().unwrap();
    assert_eq!(all.len(), 4);
    assert_eq!(f64::from_bits(all[0]), 1.0);
    assert_eq!(f64::from_bits(all[2]), 3.0);
    assert_eq!(reader.block_count(), 3);
    assert_eq!(reader.bytes_consumed(), 3 * 20 + 16);

    let rest = reader.read_all().unwrap();
    assert!(rest.is_empty());
    assert_eq!(reader.block_count(), 4);
    assert!(reader.next_block().unwrap().is_none());
    assert_eq!(reader.block_count(), 4);

    let mut reader = BlockReader::starting_at(&bytes, 28, PostVersion::V9601);
    let block = reader.next_block().unwrap().unwrap();
    assert!(block.values.is_empty());
    assert!(!block.is_end);

    let mut reader = BlockReader::new(&bytes[..30], PostVersion::V9601);
    assert!(reader.next_block().unwrap().is_some());
    assert!(reader.next_block().is_err());

    let mut cursor = MmapReader::new(&bytes);
    let mut target = vec![5u64];
    assert_eq!(read_block(&mut cursor, PostVersion::V9601, &mut target).unwrap(), false);
    assert_eq!(target.len(), 3);
}

// =============================================================================
// Header fields
// =============================================================================

#[test]
fn find_subsequence_gives_the_first_occurrence() {
    assert_eq!(find_subsequence(b"ab$&%#cd$&%#", b"$&%#"), Some(2));
    assert_eq!(find_subsequence(b"$&%#", b"$&%#"), Some(0));
    assert_eq!(find_subsequence(b"$&%", b"$&%#"), None);
    assert_eq!(find_subsequence(b"", b"x"), None);
    assert_eq!(find_subsequence(b"aaab", b"ab"), Some(2));
}

#[test]
fn extract_string_trims_and_stops_at_nul() {
    let buf = b"  12  ab\0cd  \xFFz ";
    assert_eq!(extract_string(buf, 0, 6), "12");
    assert_eq!(extract_string(buf, 6, 13), "ab");
    assert_eq!(extract_string(buf, 9, 13), "cd");
    assert_eq!(extract_string(buf, 13, 16), "\u{FFFD}z");
    assert_eq!(extract_string(buf, 3, 3), "");
    assert_eq!(extract_string(buf, 0, 17), "");
    assert_eq!(extract_string(buf, 16, 17), "");
    assert_eq!(extract_string(buf, 5, 2), "");
    assert_eq!(extract_int(buf, 0, 6), 12);
    assert_eq!(extract_int(buf, 6, 13), 0);
    assert_eq!(extract_int(b"-007", 0, 4), -7);
    assert_eq!(extract_int(b"1 2 ", 0, 4), 0);
}

#[test]
fn voltage_wrapper_is_stripped() {
    assert_eq!(text(&strip_voltage_wrapper(&chars("v(out)"))), "out");
    assert_eq!(text(&strip_voltage_wrapper(&chars("v(a))))"))), "a");
    assert_eq!(text(&strip_voltage_wrapper(&chars("v(a)b"))), "a)b");
    assert_eq!(text(&strip_voltage_wrapper(&chars("v("))), "");
    assert_eq!(text(&strip_voltage_wrapper(&chars("v()"))), "");
    assert_eq!(text(&strip_voltage_wrapper(&chars("i(vdd)"))), "i(vdd)");
    assert_eq!(text(&strip_voltage_wrapper(&chars("vout"))), "vout");
    assert_eq!(text(&strip_voltage_wrapper(&chars(""))), "");
}

fn described(words: &str) -> Vec<u8> {
    let mut buf = vec![b' '; 256];
    buf[20..24].copy_from_slice(b"2001");
    buf[187..197].copy_from_slice(b"        12");
    buf[176..186].copy_from_slice(b"         7");
    buf.extend_from_slice(words.as_bytes());
    buf
}

#[test]
fn vector_names_come_after_the_type_codes() {
    let buf = described("1 1 1 TIME V(Out) I(VDD) temp");
    let (scale, names) = parse_vector_names(&buf, 3).unwrap();
    assert_eq!(scale, "TIME");
    assert_eq!(names, vec!["out", "i(vdd)"]);
    let (scale, names) = parse_vector_names(&buf, 1).unwrap();
    assert_eq!(scale, "1");
    assert!(names.is_empty());
    assert!(parse_vector_names(&buf, 4).is_err());
    assert!(parse_vector_names(&buf, 7).is_err());
    assert!(parse_vector_names(&buf, usize::MAX).is_err());
    let err = parse_vector_names(&buf[..255], 3).unwrap_err();
    assert!(matches!(err, WaveformError::ParseError(m) if m == "Buffer too short"));
}

#[test]
fn names_are_picked_from_words() {
    let words: Vec<Vec<char>> = ["1", "2", "Scale", "V(A)", "b)", "x"]
        .iter()
        .map(|w| w.chars().collect())
        .collect();
    let (scale, names) = names_from_words(&words, 2).unwrap();
    assert_eq!(scale, "Scale");
    assert_eq!(names, vec!["a"]);
    let (scale, names) = names_from_words(&words, 3).unwrap();
    assert_eq!(scale, "V(A)");
    assert_eq!(names, vec!["b)", "x"]);
    assert!(names_from_words(&words, 0).is_ok());
    assert!(names_from_words(&words, 4).is_err());
    assert!(names_from_words(&Vec::new(), 0).is_err());
}

#[test]
fn sweep_info_reads_the_size_of_the_precision() {
    let buf = described("1 1 1 TIME v(out) i(vdd) temp");
    let words: Vec<Vec<char>> = "1 1 1 TIME v(out) i(vdd) temp"
        .split_whitespace()
        .map(|w| w.chars().collect())
        .collect();
    assert_eq!(get_sweep_info(&buf, &words, 3), Some(("temp".to_string(), 12)));
    assert_eq!(get_sweep_info(&buf, &words, 4), None);
    assert_eq!(get_sweep_info(&buf, &words, usize::MAX), None);
    let mut low = buf.clone();
    low[20..24].copy_from_slice(b"    ");
    assert_eq!(get_sweep_info(&low, &words, 3), Some(("temp".to_string(), 7)));
}

#[test]
fn file_format_is_validated() {
    assert!(validate_file_format(&[0, 0, 0, 4]).is_ok());
    assert!(validate_file_format(&[0x1F]).is_ok());
    assert!(validate_file_format(&[]).is_err());
    assert!(validate_file_format(b" ").is_err());
    assert!(validate_file_format(b"T").is_err());
}

// =============================================================================
// Row layout
// =============================================================================

#[test]
fn row_width_counts_pairs_twice() {
    assert_eq!(row_width(3, 2, REAL_VAR), Some(3));
    assert_eq!(row_width(3, 2, COMPLEX_VAR), Some(4));
    assert_eq!(row_width(4, 3, COMPLEX_VAR), Some(6));
    assert_eq!(row_width(1, 1, COMPLEX_VAR), Some(1));
    assert_eq!(row_width(usize::MAX, 2, COMPLEX_VAR), None);
    assert!(signal_is_complex(0, 3, COMPLEX_VAR));
    assert!(signal_is_complex(1, 3, COMPLEX_VAR));
    assert!(!signal_is_complex(2, 3, COMPLEX_VAR));
    assert!(!signal_is_complex(0, 3, REAL_VAR));
    assert!(!signal_is_complex(0, 0, COMPLEX_VAR));
}

#[test]
fn columns_are_picked_from_rows() {
    let flat: Vec<u64> = (0..13).collect();
    assert_eq!(real_column(&flat, 1, 2, 6, 0), vec![1, 7]);
    assert_eq!(real_column(&flat, 1, 2, 6, 5), vec![6, 12]);
    assert_eq!(real_column(&flat, 1, 0, 6, 5), Vec::<u64>::new());
    assert_eq!(
        complex_column(&flat, 1, 2, 6, 3),
        vec![ComplexBits { re: 4, im: 5 }, ComplexBits { re: 10, im: 11 }]
    );
    let third = extract_signal(&flat, 1, 2, 6, 2, 4, 3, COMPLEX_VAR);
    assert_eq!(third.as_real().unwrap(), &vec![6, 12]);
    let first = extract_signal(&flat, 1, 2, 6, 0, 4, 3, COMPLEX_VAR);
    assert_eq!(
        first.as_complex().unwrap(),
        &vec![ComplexBits { re: 2, im: 3 }, ComplexBits { re: 8, im: 9 }]
    );
    let plain = extract_signal(&flat, 0, 3, 4, 1, 4, 3, REAL_VAR);
    assert_eq!(plain.as_real().unwrap(), &vec![2, 6, 10]);
}
