//! Quality-control statistics over FASTQ sequencing reads.
//!
//! The library frames FASTQ records out of a byte stream and feeds them to a
//! set of accumulators (mean base quality, per-position base proportions,
//! per-read and per-position GC content, read lengths). Every summary is an
//! exact rational value; turning it into floating point or JSON text is left
//! to the caller.
use vstd::prelude::*;

pub mod ratio;
pub mod phred;
pub mod parser;
pub mod record;
pub mod runner;
pub mod statistics;
pub mod explain;

verus! {

} // verus!
