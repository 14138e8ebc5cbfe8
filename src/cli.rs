//! The command line of the distance tool, as plain values.

use vstd::prelude::*;

verus! {

/// A parsed command line.
pub struct Cli {
    pub command: Commands,
}

/// What the tool is asked to do.
pub enum Commands {
    /// Compute the distances between words.
    Compute {
        /// The words to compare.
        words: Vec<String>,
        /// A file of whitespace-separated words, read instead of `words`.
        file: Option<String>,
        /// Run the batch on the compute device.
        gpu: bool,
        /// Report the time taken.
        verbose: bool,
        /// Export the pairs as records instead of printing the matrix.
        csv: bool,
    },
    /// Compare the sequential engine with the device on a named word list.
    Bench {
        /// Which list: "small", "medium" or "large".
        size: String,
    },
}

} // verus!
