//! Sampling, smoothing and rendering of host utilisation (CPU, memory,
//! network throughput, GPU) into a one-line status text for a terminal
//! status bar. Inputs come from the kernel's text files and a GPU query tool;
//! reading them and writing the line is left to the caller.
use vstd::prelude::*;

pub mod decimal;
pub mod format;
pub mod monitor;
pub mod number;
pub mod parse;
pub mod probe;
pub mod rate;
pub mod sample;
pub mod status;
pub mod text;

verus! {

} // verus!
