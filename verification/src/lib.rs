use vstd::prelude::*;

pub mod columns;
pub mod epoch;
pub mod laws;
pub mod pipeline;
pub mod prune;

pub use epoch::calc_epoch_time;

verus! {

/// One record per surviving input row: where and when a specimen was sighted.
///
/// Latitude and longitude are decimal degrees carried as the raw IEEE-754 bit
/// patterns of the source file's 64-bit floating-point cells. The pipeline
/// never interprets the numeric value of a coordinate, so the bits travel
/// through it unchanged; the rendering layer turns them back into degrees.
#[derive(Clone, Copy, Debug, PartialEq, Eq, Structural)]
pub struct Occurrence {
    /// Bit pattern of the decimal latitude in degrees.
    pub latitude_bits: u64,
    /// Bit pattern of the decimal longitude in degrees.
    pub longitude_bits: u64,
    /// Calendar year; 0 when the input has no year column at all.
    pub year: i64,
    /// Calendar month; 0 when the input has no month column at all.
    pub month: i64,
    /// Calendar day of month; 0 when the input has no day column at all.
    pub day: i64,
    /// Seconds since the Unix epoch at midnight UTC, or -1 when the
    /// (year, month, day) triple is not a valid calendar date.
    pub epoch_time: i64,
}

impl Default for Occurrence {
    /// The all-zero record a row starts from before any column writes into it.
    fn default() -> (r: Occurrence)
        ensures
            r == crate::columns::default_occurrence(),
    {
        Occurrence {
            latitude_bits: 0,
            longitude_bits: 0,
            year: 0,
            month: 0,
            day: 0,
            epoch_time: 0,
        }
    }
}

} // verus!
