//! Shared data types, errors and format constants.
//!
//! Every sample is held as the bit pattern of an IEEE 754 binary64 number in a
//! `u64`: decoding moves and widens bit patterns and never computes with them.

use crate::text::{
    chars_are, first_match, first_match_from, has_prefix, lemma_first_match_from, lowercase,
    lowercase_text, starts_with, str_eq, to_chars, uppercase, uppercase_text,
};
use vstd::prelude::*;
use vstd::string::*;

verus! {

// ----------------------------------------------------------------------------
// Header layout
// ----------------------------------------------------------------------------

pub const NUM_OF_VARIABLES_POSITION: usize = 0;

pub const NUM_OF_PROBES_POSITION: usize = 4;

pub const NUM_OF_SWEEPS_POSITION: usize = 8;

pub const NUM_OF_SWEEPS_END_POSITION: usize = 12;

pub const POST_START_POSITION1: usize = 16;

pub const POST_START_POSITION2: usize = 20;

pub const DATE_START_POSITION: usize = 88;

pub const DATE_END_POSITION: usize = 112;

pub const TITLE_START_POSITION: usize = 24;

pub const SWEEP_SIZE_POSITION1: usize = 176;

pub const SWEEP_SIZE_POSITION2: usize = 187;

pub const VECTOR_DESCRIPTION_START_POSITION: usize = 256;

pub const POST_STRING11: &'static str = "9007";

pub const POST_STRING12: &'static str = "9601";

pub const POST_STRING21: &'static str = "2001";

/// Type code in the header that marks frequency-domain data.
pub const FREQUENCY_TYPE: i32 = 2;

pub const COMPLEX_VAR: i32 = 1;

pub const REAL_VAR: i32 = 0;

/// Bit pattern of the binary32 end-of-data marker, 1.0000000150474662e30.
pub const END_MARKER_9601: u32 = 0x7149_F2CA;

/// Bit pattern of the binary64 end-of-data marker, 1.0e30.
pub const END_MARKER_2001: u64 = 0x4629_3E59_39A0_8CEA;

// ----------------------------------------------------------------------------
// Small enums
// ----------------------------------------------------------------------------

/// Byte order of the words in a file.
#[derive(Debug, Clone, Copy, PartialEq, Eq, Structural)]
pub enum Endian {
    Little,
    Big,
}

/// Storage precision of the data section.
#[derive(Debug, Clone, Copy, PartialEq, Eq, Structural)]
pub enum PostVersion {
    /// Four-byte binary32 items.
    V9601,
    /// Eight-byte binary64 items.
    V2001,
}

impl PostVersion {
    /// Width in bytes of one payload item.
    pub open spec fn spec_item_size(self) -> int {
        match self {
            PostVersion::V9601 => 4,
            PostVersion::V2001 => 8,
        }
    }

    /// Width in bytes of one payload item.
    pub fn item_size(self) -> (w: usize)
        ensures
            w == self.spec_item_size(),
    {
        match self {
            PostVersion::V9601 => 4,
            PostVersion::V2001 => 8,
        }
    }
}

/// Kind of simulation that produced a waveform.
#[derive(Debug, Clone, Copy, PartialEq, Eq, Structural)]
pub enum AnalysisType {
    Transient,
    AC,
    DC,
    Operating,
    Noise,
    Unknown,
}

impl Default for AnalysisType {
    fn default() -> (r: Self)
        ensures
            r == AnalysisType::Unknown,
    {
        AnalysisType::Unknown
    }
}

impl AnalysisType {
    /// The analysis that a lowercase file extension stands for.
    pub open spec fn of_extension(lower: Seq<char>) -> AnalysisType {
        if lower == "tr0"@ {
            AnalysisType::Transient
        } else if lower == "ac0"@ {
            AnalysisType::AC
        } else if lower == "sw0"@ {
            AnalysisType::DC
        } else {
            AnalysisType::Unknown
        }
    }

    /// The analysis that an uppercase scale name stands for. A scale that is
    /// neither time nor frequency belongs to a DC sweep.
    pub open spec fn of_scale_name(upper: Seq<char>) -> AnalysisType {
        if upper == "TIME"@ {
            AnalysisType::Transient
        } else if upper == "HERTZ"@ || upper == "FREQ"@ || upper == "FREQUENCY"@ {
            AnalysisType::AC
        } else {
            AnalysisType::DC
        }
    }

    /// The analysis that a lowercase label names.
    pub open spec fn of_label(lower: Seq<char>) -> AnalysisType {
        if lower == "transient"@ || lower == "tran"@ {
            AnalysisType::Transient
        } else if lower == "ac"@ {
            AnalysisType::AC
        } else if lower == "dc"@ {
            AnalysisType::DC
        } else if lower == "operating"@ || lower == "op"@ {
            AnalysisType::Operating
        } else if lower == "noise"@ {
            AnalysisType::Noise
        } else {
            AnalysisType::Unknown
        }
    }

    /// The label of an analysis.
    pub open spec fn label(self) -> Seq<char> {
        match self {
            AnalysisType::Transient => "transient"@,
            AnalysisType::AC => "ac"@,
            AnalysisType::DC => "dc"@,
            AnalysisType::Operating => "operating"@,
            AnalysisType::Noise => "noise"@,
            AnalysisType::Unknown => "unknown"@,
        }
    }

    /// Classifies a file extension that is already in lowercase.
    pub fn from_lowercase_extension(lower: &str) -> (r: Self)
        ensures
            r == Self::of_extension(lower@),
    {
        let l = to_chars(lower);
        if chars_are(l.as_slice(), "tr0") {
            AnalysisType::Transient
        } else if chars_are(l.as_slice(), "ac0") {
            AnalysisType::AC
        } else if chars_are(l.as_slice(), "sw0") {
            AnalysisType::DC
        } else {
            AnalysisType::Unknown
        }
    }

    /// Infers the analysis from a file extension, whatever its case.
    pub fn from_extension(ext: &str) -> (r: Self)
        ensures
            r == Self::of_extension(lowercase_text(ext@)),
    {
        let lower = lowercase(ext);
        Self::from_lowercase_extension(lower.as_str())
    }

    /// Classifies a scale name that is already in uppercase.
    pub fn from_uppercase_scale_name(upper: &str) -> (r: Self)
        ensures
            r == Self::of_scale_name(upper@),
            r != AnalysisType::Unknown,
    {
        let u = to_chars(upper);
        if chars_are(u.as_slice(), "TIME") {
            AnalysisType::Transient
        } else if chars_are(u.as_slice(), "HERTZ") || chars_are(u.as_slice(), "FREQ") || chars_are(
            u.as_slice(),
            "FREQUENCY",
        ) {
            AnalysisType::AC
        } else {
            AnalysisType::DC
        }
    }

    /// Infers the analysis from the name of the scale, whatever its case.
    pub fn from_scale_name(name: &str) -> (r: Self)
        ensures
            r == Self::of_scale_name(uppercase_text(name@)),
            r != AnalysisType::Unknown,
    {
        let upper = uppercase(name);
        Self::from_uppercase_scale_name(upper.as_str())
    }

    /// The label of this analysis.
    pub fn to_string(&self) -> (s: String)
        ensures
            s@ == self.label(),
    {
        match self {
            AnalysisType::Transient => String::from_str("transient"),
            AnalysisType::AC => String::from_str("ac"),
            AnalysisType::DC => String::from_str("dc"),
            AnalysisType::Operating => String::from_str("operating"),
            AnalysisType::Noise => String::from_str("noise"),
            AnalysisType::Unknown => String::from_str("unknown"),
        }
    }

    /// Reads a label that is already in lowercase.
    pub fn from_lowercase_label(lower: &str) -> (r: Self)
        ensures
            r == Self::of_label(lower@),
    {
        let l = to_chars(lower);
        if chars_are(l.as_slice(), "transient") || chars_are(l.as_slice(), "tran") {
            AnalysisType::Transient
        } else if chars_are(l.as_slice(), "ac") {
            AnalysisType::AC
        } else if chars_are(l.as_slice(), "dc") {
            AnalysisType::DC
        } else if chars_are(l.as_slice(), "operating") || chars_are(l.as_slice(), "op") {
            AnalysisType::Operating
        } else if chars_are(l.as_slice(), "noise") {
            AnalysisType::Noise
        } else {
            AnalysisType::Unknown
        }
    }

    /// Reads an analysis label, whatever its case. Never fails: an unknown
    /// label gives `Unknown`.
    pub fn from_str(s: &str) -> (r: Result<Self, ()>)
        ensures
            r == Ok::<Self, ()>(Self::of_label(lowercase_text(s@))),
    {
        let lower = lowercase(s);
        Ok(Self::from_lowercase_label(lower.as_str()))
    }
}

/// Physical meaning of a variable.
#[derive(Debug, Clone, Copy, PartialEq, Eq, Structural)]
pub enum VarType {
    Time,
    Frequency,
    Voltage,
    Current,
    Unknown,
}

impl Default for VarType {
    fn default() -> (r: Self)
        ensures
            r == VarType::Unknown,
    {
        VarType::Unknown
    }
}

impl VarType {
    /// The kind of variable that a lowercase name stands for.
    pub open spec fn of_name(lower: Seq<char>) -> VarType {
        if lower == "time"@ {
            VarType::Time
        } else if lower == "hertz"@ || lower == "freq"@ || lower == "frequency"@ {
            VarType::Frequency
        } else if has_prefix(lower, "v("@) || has_prefix(lower, "v_"@) {
            VarType::Voltage
        } else if has_prefix(lower, "i("@) || has_prefix(lower, "i_"@) {
            VarType::Current
        } else {
            VarType::Unknown
        }
    }

    /// The kind of variable that a lowercase type word names.
    pub open spec fn of_label(lower: Seq<char>) -> VarType {
        if lower == "time"@ {
            VarType::Time
        } else if lower == "frequency"@ {
            VarType::Frequency
        } else if lower == "voltage"@ {
            VarType::Voltage
        } else if lower == "current"@ {
            VarType::Current
        } else {
            VarType::Unknown
        }
    }

    /// The label of a kind of variable.
    pub open spec fn label(self) -> Seq<char> {
        match self {
            VarType::Time => "time"@,
            VarType::Frequency => "frequency"@,
            VarType::Voltage => "voltage"@,
            VarType::Current => "current"@,
            VarType::Unknown => "unknown"@,
        }
    }

    /// Classifies a signal name that is already in lowercase.
    pub fn from_lowercase_name(lower: &str) -> (r: Self)
        ensures
            r == Self::of_name(lower@),
    {
        let l = to_chars(lower);
        if chars_are(l.as_slice(), "time") {
            VarType::Time
        } else if chars_are(l.as_slice(), "hertz") || chars_are(l.as_slice(), "freq") || chars_are(
            l.as_slice(),
            "frequency",
        ) {
            VarType::Frequency
        } else if starts_with(l.as_slice(), "v(") || starts_with(l.as_slice(), "v_") {
            VarType::Voltage
        } else if starts_with(l.as_slice(), "i(") || starts_with(l.as_slice(), "i_") {
            VarType::Current
        } else {
            VarType::Unknown
        }
    }

    /// Infers the kind of a variable from its name, whatever its case.
    pub fn from_name(name: &str) -> (r: Self)
        ensures
            r == Self::of_name(lowercase_text(name@)),
    {
        let lower = lowercase(name);
        Self::from_lowercase_name(lower.as_str())
    }

    /// Classifies a type word that is already in lowercase.
    pub fn from_lowercase_label(lower: &str) -> (r: Self)
        ensures
            r == Self::of_label(lower@),
    {
        let l = to_chars(lower);
        if chars_are(l.as_slice(), "time") {
            VarType::Time
        } else if chars_are(l.as_slice(), "frequency") {
            VarType::Frequency
        } else if chars_are(l.as_slice(), "voltage") {
            VarType::Voltage
        } else if chars_are(l.as_slice(), "current") {
            VarType::Current
        } else {
            VarType::Unknown
        }
    }

    /// The label of this kind of variable.
    pub fn to_string(&self) -> (s: String)
        ensures
            s@ == self.label(),
    {
        match self {
            VarType::Time => String::from_str("time"),
            VarType::Frequency => String::from_str("frequency"),
            VarType::Voltage => String::from_str("voltage"),
            VarType::Current => String::from_str("current"),
            VarType::Unknown => String::from_str("unknown"),
        }
    }

    /// Infers the kind of a variable from its name. Never fails.
    pub fn from_str(s: &str) -> (r: Result<Self, ()>)
        ensures
            r == Ok::<Self, ()>(Self::of_name(lowercase_text(s@))),
    {
        Ok(Self::from_name(s))
    }
}

// ----------------------------------------------------------------------------
// Samples and vectors
// ----------------------------------------------------------------------------

/// A complex sample: the bit patterns of its real and imaginary part.
#[derive(Debug, Clone, Copy, PartialEq, Eq, Structural)]
pub struct ComplexBits {
    pub re: u64,
    pub im: u64,
}

/// The samples of one variable, all real or all complex.
#[derive(Debug)]
pub enum VectorData {
    Real(Vec<u64>),
    Complex(Vec<ComplexBits>),
}

/// A vector as contracts speak of it.
pub enum VectorView {
    Real(Seq<u64>),
    Complex(Seq<ComplexBits>),
}

impl VectorView {
    /// Number of samples.
    pub open spec fn len(self) -> nat {
        match self {
            VectorView::Real(v) => v.len(),
            VectorView::Complex(v) => v.len(),
        }
    }
}

impl View for VectorData {
    type V = VectorView;

    open spec fn view(&self) -> VectorView {
        match self {
            VectorData::Real(v) => VectorView::Real(v@),
            VectorData::Complex(v) => VectorView::Complex(v@),
        }
    }
}

impl Clone for VectorData {
    fn clone(&self) -> (r: Self)
        ensures
            r@ == self@,
    {
        match self {
            VectorData::Real(v) => {
                let mut copy: Vec<u64> = Vec::new();
                let mut i: usize = 0;
                while i < v.len()
                    invariant
                        i <= v@.len(),
                        copy@ == v@.take(i as int),
                    decreases v@.len() - i,
                {
                    copy.push(v[i]);
                    i = i + 1;
                }
                assert(v@.take(v@.len() as int) == v@);
                VectorData::Real(copy)
            },
            VectorData::Complex(v) => {
                let mut copy: Vec<ComplexBits> = Vec::new();
                let mut i: usize = 0;
                while i < v.len()
                    invariant
                        i <= v@.len(),
                        copy@ == v@.take(i as int),
                    decreases v@.len() - i,
                {
                    copy.push(v[i]);
                    i = i + 1;
                }
                assert(v@.take(v@.len() as int) == v@);
                VectorData::Complex(copy)
            },
        }
    }
}

/// The views of a sequence of vectors.
pub open spec fn vector_views(v: Seq<VectorData>) -> Seq<VectorView> {
    v.map_values(|d: VectorData| d@)
}

impl VectorData {
    /// Number of samples.
    pub fn len(&self) -> (n: usize)
        ensures
            n == self@.len(),
    {
        match self {
            VectorData::Real(v) => v.len(),
            VectorData::Complex(v) => v.len(),
        }
    }

    /// Whether there are no samples.
    pub fn is_empty(&self) -> (b: bool)
        ensures
            b == (self@.len() == 0),
    {
        self.len() == 0
    }

    /// Whether the samples are complex.
    pub fn is_complex(&self) -> (b: bool)
        ensures
            b == (self@ is Complex),
    {
        match self {
            VectorData::Real(_) => false,
            VectorData::Complex(_) => true,
        }
    }

    /// The samples, if they are real.
    pub fn as_real(&self) -> (r: Option<&Vec<u64>>)
        ensures
            match *self {
                VectorData::Real(v) => r == Some(&v),
                VectorData::Complex(_) => r is None,
            },
    {
        match self {
            VectorData::Real(v) => Some(v),
            VectorData::Complex(_) => None,
        }
    }

    /// The samples, if they are complex.
    pub fn as_complex(&self) -> (r: Option<&Vec<ComplexBits>>)
        ensures
            match *self {
                VectorData::Real(_) => r is None,
                VectorData::Complex(v) => r == Some(&v),
            },
    {
        match self {
            VectorData::Real(_) => None,
            VectorData::Complex(v) => Some(v),
        }
    }
}

// ----------------------------------------------------------------------------
// Variables, tables and results
// ----------------------------------------------------------------------------

/// Name and kind of one variable.
#[derive(Debug, Clone)]
pub struct Variable {
    pub name: String,
    pub var_type: VarType,
}

/// A variable as contracts speak of it.
pub struct VariableView {
    pub name: Seq<char>,
    pub var_type: VarType,
}

impl View for Variable {
    type V = VariableView;

    open spec fn view(&self) -> VariableView {
        VariableView { name: self.name@, var_type: self.var_type }
    }
}

/// The views of a sequence of variables.
pub open spec fn variable_views(v: Seq<Variable>) -> Seq<VariableView> {
    v.map_values(|x: Variable| x@)
}

impl Variable {
    /// A variable whose kind is inferred from its name.
    pub fn new(name: &str) -> (v: Self)
        ensures
            v@ == (VariableView {
                name: name@,
                var_type: VarType::of_name(lowercase_text(name@)),
            }),
    {
        let var_type = VarType::from_name(name);
        Self { name: String::from_str(name), var_type }
    }

    /// A variable of the given kind.
    pub fn with_type(name: &str, var_type: VarType) -> (v: Self)
        ensures
            v@ == (VariableView { name: name@, var_type }),
    {
        Self { name: String::from_str(name), var_type }
    }
}

/// The data of one sweep point: one vector per variable, the scale first.
#[derive(Debug, Clone)]
pub struct DataTable {
    /// Value of the sweep parameter, in a swept file.
    pub sweep_value: Option<u64>,
    pub vectors: Vec<VectorData>,
}

/// A table as contracts speak of it.
pub struct TableView {
    pub sweep_value: Option<u64>,
    pub vectors: Seq<VectorView>,
}

impl TableView {
    /// Number of rows: the length of the scale vector, 0 without vectors.
    pub open spec fn len(self) -> nat {
        if self.vectors.len() > 0 {
            self.vectors[0].len()
        } else {
            0
        }
    }

    /// All vectors have the same length.
    pub open spec fn is_rectangular(self) -> bool {
        forall|i: int| 0 <= i < self.vectors.len() ==> (#[trigger] self.vectors[i]).len() == self.len()
    }
}

impl View for DataTable {
    type V = TableView;

    open spec fn view(&self) -> TableView {
        TableView { sweep_value: self.sweep_value, vectors: vector_views(self.vectors@) }
    }
}

/// The views of a sequence of tables.
pub open spec fn table_views(v: Seq<DataTable>) -> Seq<TableView> {
    v.map_values(|t: DataTable| t@)
}

impl DataTable {
    /// Number of rows.
    pub fn len(&self) -> (n: usize)
        ensures
            n == self@.len(),
    {
        if self.vectors.len() > 0 {
            self.vectors[0].len()
        } else {
            0
        }
    }

    /// Whether the table has no rows.
    pub fn is_empty(&self) -> (b: bool)
        ensures
            b == (self@.len() == 0),
    {
        self.vectors.len() == 0 || self.len() == 0
    }
}

/// A decoded waveform file.
#[derive(Debug)]
pub struct WaveformResult {
    pub title: String,
    pub date: String,
    pub analysis: AnalysisType,
    /// The variables in file order; the first is the scale.
    pub variables: Vec<Variable>,
    /// Name of the sweep parameter, in a swept file.
    pub sweep_param: Option<String>,
    /// One table per sweep point.
    pub tables: Vec<DataTable>,
}

/// The earlier name of `WaveformResult`.
pub type HspiceResult = WaveformResult;

/// A decoded waveform file as contracts speak of it.
pub struct WaveformView {
    pub title: Seq<char>,
    pub date: Seq<char>,
    pub analysis: AnalysisType,
    pub variables: Seq<VariableView>,
    pub sweep_param: Option<Seq<char>>,
    pub tables: Seq<TableView>,
}

/// The view of an optional string.
pub open spec fn option_text(s: Option<String>) -> Option<Seq<char>> {
    match s {
        Some(t) => Some(t@),
        None => None,
    }
}

impl WaveformView {
    /// Every table has one vector per variable, all of one length.
    pub open spec fn well_formed(self) -> bool {
        forall|t: int|
            0 <= t < self.tables.len() ==> (#[trigger] self.tables[t]).vectors.len()
                == self.variables.len() && self.tables[t].is_rectangular()
    }

    /// The names of the variables, in order.
    pub open spec fn names(self) -> Seq<Seq<char>> {
        self.variables.map_values(|v: VariableView| v.name)
    }

    /// Index of the first variable called `name`, or the number of variables
    /// when there is none.
    pub open spec fn index_of(self, name: Seq<char>) -> int {
        first_match(self.names(), name)
    }

    /// Number of rows of the first table, 0 without tables.
    pub open spec fn len(self) -> nat {
        if self.tables.len() > 0 {
            self.tables[0].len()
        } else {
            0
        }
    }
}

impl View for WaveformResult {
    type V = WaveformView;

    open spec fn view(&self) -> WaveformView {
        WaveformView {
            title: self.title@,
            date: self.date@,
            analysis: self.analysis,
            variables: variable_views(self.variables@),
            sweep_param: option_text(self.sweep_param),
            tables: table_views(self.tables@),
        }
    }
}

impl WaveformResult {
    /// Name of the scale, the first variable; empty without variables.
    pub fn scale_name(&self) -> (s: &str)
        ensures
            s@ == (if self@.variables.len() > 0 {
                self@.variables[0].name
            } else {
                Seq::<char>::empty()
            }),
    {
        if self.variables.len() > 0 {
            self.variables[0].name.as_str()
        } else {
            proof {
                reveal_strlit("");
            }
            ""
        }
    }

    /// Index of the first variable called `name`.
    pub fn var_index(&self, name: &str) -> (r: Option<usize>)
        ensures
            match r {
                Some(i) => i == self@.index_of(name@) && i < self@.variables.len(),
                None => self@.index_of(name@) >= self@.variables.len(),
            },
    {
        let ghost names = self@.names();
        proof {
            lemma_first_match_from(names, name@, 0);
        }
        let mut i: usize = 0;
        while i < self.variables.len()
            invariant
                i <= self.variables@.len(),
                names == self@.names(),
                first_match(names, name@) == first_match_from(names, name@, i as int),
            decreases self.variables@.len() - i,
        {
            if str_eq(self.variables[i].name.as_str(), name) {
                return Some(i);
            }
            i = i + 1;
        }
        None
    }

    /// The vector of the first variable called `name`, from the first table.
    pub fn get(&self, name: &str) -> (r: Option<&VectorData>)
        requires
            self@.well_formed(),
        ensures
            match r {
                Some(v) => {
                    &&& self@.tables.len() > 0
                    &&& self@.index_of(name@) < self@.variables.len()
                    &&& v@ == self@.tables[0].vectors[self@.index_of(name@)]
                },
                None => self@.tables.len() == 0 || self@.index_of(name@) >= self@.variables.len(),
            },
    {
        match self.var_index(name) {
            Some(i) => {
                if self.tables.len() > 0 {
                    assert(self@.tables[0].vectors.len() == self@.variables.len());
                    assert(self@.tables[0] == self.tables@[0]@);
                    assert(self@.tables[0].vectors.len() == self.tables@[0].vectors@.len());
                    assert(self@.tables[0].vectors[i as int] == self.tables@[0].vectors@[i as int]@);
                    Some(&self.tables[0].vectors[i])
                } else {
                    None
                }
            },
            None => None,
        }
    }

    /// The scale vector of the first table.
    pub fn scale(&self) -> (r: Option<&VectorData>)
        ensures
            match r {
                Some(v) => self@.tables.len() > 0 && self@.tables[0].vectors.len() > 0 && v@
                    == self@.tables[0].vectors[0],
                None => self@.tables.len() == 0 || self@.tables[0].vectors.len() == 0,
            },
    {
        if self.tables.len() > 0 && self.tables[0].vectors.len() > 0 {
            Some(&self.tables[0].vectors[0])
        } else {
            None
        }
    }

    /// Number of rows of the first table.
    pub fn len(&self) -> (n: usize)
        ensures
            n == self@.len(),
    {
        if self.tables.len() > 0 {
            self.tables[0].len()
        } else {
            0
        }
    }

    /// Whether there is no row to show.
    pub fn is_empty(&self) -> (b: bool)
        ensures
            b == (self@.len() == 0),
    {
        self.tables.len() == 0 || self.len() == 0
    }

    /// Number of variables.
    pub fn num_vars(&self) -> (n: usize)
        ensures
            n == self@.variables.len(),
    {
        self.variables.len()
    }

    /// Number of sweep points.
    pub fn num_sweeps(&self) -> (n: usize)
        ensures
            n == self@.tables.len(),
    {
        self.tables.len()
    }

    /// The names of all variables, in order.
    pub fn var_names(&self) -> (names: Vec<&str>)
        ensures
            names@.len() == self@.variables.len(),
            forall|i: int| 0 <= i < names@.len() ==> (#[trigger] names@[i])@ == self@.variables[i].name,
    {
        let mut names: Vec<&str> = Vec::new();
        let mut i: usize = 0;
        while i < self.variables.len()
            invariant
                i <= self.variables@.len(),
                names@.len() == i,
                forall|k: int| 0 <= k < i ==> (#[trigger] names@[k])@ == self@.variables[k].name,
            decreases self.variables@.len() - i,
        {
            names.push(self.variables[i].name.as_str());
            i = i + 1;
        }
        names
    }

    /// Whether the file was swept over more than one point.
    pub fn has_sweep(&self) -> (b: bool)
        ensures
            b == (self@.sweep_param is Some && self@.tables.len() > 1),
    {
        self.sweep_param.is_some() && self.tables.len() > 1
    }
}

// ----------------------------------------------------------------------------
// Errors
// ----------------------------------------------------------------------------

/// Why a read failed.
#[derive(Debug)]
pub enum WaveformError {
    /// The input ended before the bytes that were asked for.
    IoError(String),
    /// The header could not be understood.
    ParseError(String),
    /// The file is not in the supported format.
    FormatError(String),
}

/// A failure as contracts speak of it: its class and its message.
pub enum Fault {
    Io(Seq<char>),
    Parse(Seq<char>),
    Format(Seq<char>),
}

/// The earlier name of `WaveformError`.
pub type HspiceError = WaveformError;

impl View for WaveformError {
    type V = Fault;

    open spec fn view(&self) -> Fault {
        match self {
            WaveformError::IoError(m) => Fault::Io(m@),
            WaveformError::ParseError(m) => Fault::Parse(m@),
            WaveformError::FormatError(m) => Fault::Format(m@),
        }
    }
}

impl WaveformError {
    /// An end-of-input failure with the given message.
    pub fn io(msg: &str) -> (e: Self)
        ensures
            e@ == Fault::Io(msg@),
    {
        WaveformError::IoError(String::from_str(msg))
    }

    /// A header failure with the given message.
    pub fn parse(msg: &str) -> (e: Self)
        ensures
            e@ == Fault::Parse(msg@),
    {
        WaveformError::ParseError(String::from_str(msg))
    }

    /// A format failure with the given message.
    pub fn format(msg: &str) -> (e: Self)
        ensures
            e@ == Fault::Format(msg@),
    {
        WaveformError::FormatError(String::from_str(msg))
    }

    /// The text of this error, as the class followed by the message.
    pub open spec fn rendered(self) -> Seq<char> {
        match self {
            WaveformError::IoError(m) => "IO error: "@ + m@,
            WaveformError::ParseError(m) => "Parse error: "@ + m@,
            WaveformError::FormatError(m) => "Format error: "@ + m@,
        }
    }

    /// The text of this error.
    pub fn to_string(&self) -> (s: String)
        ensures
            s@ == self.rendered(),
    {
        match self {
            WaveformError::IoError(m) => String::from_str("IO error: ").concat(m.as_str()),
            WaveformError::ParseError(m) => String::from_str("Parse error: ").concat(m.as_str()),
            WaveformError::FormatError(m) => String::from_str("Format error: ").concat(m.as_str()),
        }
    }
}

/// Whether a result is the success or the failure that `want` names.
pub open spec fn yields<T: View>(r: Result<T, WaveformError>, want: Result<T::V, Fault>) -> bool {
    match want {
        Ok(v) => r is Ok && r->Ok_0@ == v,
        Err(fault) => r is Err && r->Err_0@ == fault,
    }
}

pub open spec fn fault_eof() -> Fault {
    Fault::Io("Unexpected end of file"@)
}

pub open spec fn fault_corrupted_header() -> Fault {
    Fault::Format("Corrupted block header"@)
}

pub open spec fn fault_trailer_mismatch() -> Fault {
    Fault::Format("Block header and trailer mismatch"@)
}

pub(crate) fn error_eof() -> (e: WaveformError)
    ensures
        e@ == fault_eof(),
{
    WaveformError::IoError(String::from_str("Unexpected end of file"))
}

pub(crate) fn error_corrupted_header() -> (e: WaveformError)
    ensures
        e@ == fault_corrupted_header(),
{
    WaveformError::FormatError(String::from_str("Corrupted block header"))
}

pub(crate) fn error_trailer_mismatch() -> (e: WaveformError)
    ensures
        e@ == fault_trailer_mismatch(),
{
    WaveformError::FormatError(String::from_str("Block header and trailer mismatch"))
}

} // verus!
