//! The entry points for callers that hold a whole file in memory.

use crate::parser::{decoded, hspice_read_impl};
use crate::types::{yields, WaveformError, WaveformResult};
use crate::writer::{converted, hspice_to_raw_impl};
use vstd::prelude::*;

verus! {

/// Decodes a waveform file held in memory.
pub fn read(data: &[u8]) -> (r: Result<WaveformResult, WaveformError>)
    ensures
        yields(r, decoded(data@)),
        r is Ok ==> r->Ok_0@.well_formed(),
{
    hspice_read_impl(data)
}

/// Decodes a waveform file held in memory. The debug level is not used.
pub fn read_debug(data: &[u8], _debug: i32) -> (r: Result<WaveformResult, WaveformError>)
    ensures
        yields(r, decoded(data@)),
        r is Ok ==> r->Ok_0@.well_formed(),
{
    hspice_read_impl(data)
}

/// Converts a waveform file held in memory to a SPICE3 binary raw file.
pub fn read_and_convert(input: &[u8]) -> (r: Result<Vec<u8>, WaveformError>)
    ensures
        match converted(input@) {
            Ok(bytes) => r is Ok && r->Ok_0@ == bytes,
            Err(fault) => r is Err && r->Err_0@ == fault,
        },
{
    hspice_to_raw_impl(input)
}

/// Converts a waveform file held in memory to a SPICE3 binary raw file. The
/// debug level is not used.
pub fn read_and_convert_debug(input: &[u8], _debug: i32) -> (r: Result<Vec<u8>, WaveformError>)
    ensures
        match converted(input@) {
            Ok(bytes) => r is Ok && r->Ok_0@ == bytes,
            Err(fault) => r is Err && r->Err_0@ == fault,
        },
{
    hspice_to_raw_impl(input)
}

} // verus!
