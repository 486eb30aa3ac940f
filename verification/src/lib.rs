//! Summary statistics over rainfall measurements.
//!
//! Measurements are double-precision numbers, carried here by their bit
//! patterns (see [`binary64::Binary64`]). The crate decides which input lines
//! count as measurements, counts the measurements in the two bands around the
//! mean, and lays out the report. Turning text into a number, adding and
//! dividing numbers, and printing one are left to the caller, who hands over
//! the bit patterns and texts that come out.

pub mod binary64;
pub mod reader;
pub mod calculator;
pub mod report;
