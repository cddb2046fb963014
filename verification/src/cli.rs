//! Command-line surface of the benchmark-execution tool: the parsed argument
//! shapes. Argument parsing itself lives outside the verified library.

use vstd::prelude::*;

verus! {

/// The benchmark tool's subcommands.
#[derive(Debug)]
pub enum Args {
    /// Benchmark every benchmark of the suite and print the results.
    Benchmark(BenchmarkArgs),
}

/// Options of the benchmark subcommand.
#[derive(Clone, Copy, Debug, PartialEq, Eq, Structural)]
pub struct BenchmarkArgs {
    /// How many times each benchmark is repeated.
    pub iterations: u32,
}

impl BenchmarkArgs {
    /// The default repetition count of the benchmark subcommand.
    pub fn default_iterations() -> (r: u32)
        ensures
            r == 5,
    {
        5
    }
}

} // verus!
