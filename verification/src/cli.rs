//! The commands of the command line, as plain data.

use std::path::PathBuf;
use vstd::prelude::*;

verus! {

/// `std::path::PathBuf`, a path as the command line gives it.
#[verifier::external_type_specification]
#[verifier::external_body]
pub struct ExPathBuf(PathBuf);

/// One invocation of the tool.
#[derive(Debug)]
pub enum Commands {
    /// Pack `src` into the archive `dst`.
    Zip {
        src: PathBuf,
        dst: PathBuf,
        method: u16,
        mode: Option<u32>,
        chunk: usize,
        password: Option<String>,
    },
    /// Unpack `archive` under `output_dir`, or under the current directory.
    Unzip { archive: PathBuf, output_dir: Option<PathBuf> },
}

/// The parsed command line.
#[derive(Debug)]
pub struct Args {
    pub commands: Commands,
}

} // verus!
