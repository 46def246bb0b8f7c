//! The command-line arguments as plain values. Parsing them from the
//! process's arguments is the application's part.
use vstd::prelude::*;
use crate::path::FsPath;

verus! {

/// The parsed command line.
pub struct Cli {
    pub command: Commands,
}

/// The subcommands.
pub enum Commands {
    /// Convert audio files to the target format.
    Convert(ConvertArgs),
    /// Check whether the system is ready to run conversions.
    Doctor(DoctorArgs),
}

/// Arguments of `convert`.
pub struct ConvertArgs {
    /// Input file or directory to convert.
    pub input_path: FsPath,
    /// Directory that receives the converted files.
    pub output_dir: Option<FsPath>,
    /// Plan without running the converter.
    pub dry_run: bool,
    /// Recurse into subdirectories of a directory input.
    pub recursive: bool,
    /// Write all outputs directly into the output root.
    pub flatten: bool,
    /// Limit on parallel conversion jobs (the command line accepts only
    /// positive values).
    pub jobs: Option<usize>,
}

/// Arguments of `doctor`.
pub struct DoctorArgs {
    /// Optional input path to diagnose.
    pub input_path: Option<FsPath>,
    /// Output directory to diagnose, without creating it.
    pub output_dir: Option<FsPath>,
    /// Parallel job limit to diagnose (positive on the command line).
    pub jobs: Option<usize>,
}

} // verus!
