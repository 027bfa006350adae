//! The command-line surface's data: which command was asked for and with
//! what input. The surrounding program parses the actual arguments and
//! hands these values over.

use crate::settings::{FlashInput, MeasureInput};
use vstd::prelude::*;

verus! {

/// Input of the generate command.
#[derive(Debug)]
pub struct Generation {
    /// Generate tests for a binary target.
    pub bin: Option<String>,
    /// Generate tests for an example.
    pub example: Option<String>,
    /// Generate tests in release mode.
    pub release: bool,
    /// Emit all generator errors.
    pub emit_all_errors: bool,
}

/// Input of the flash command.
#[derive(Debug)]
pub struct Flashing {
    /// Name of the binary target to flash.
    pub bin: Option<String>,
    /// Name of the example to flash.
    pub example: Option<String>,
    /// Build the executable in release mode.
    pub release: bool,
    /// The target architecture to build the executable for.
    pub target: Option<String>,
    /// The name of the chip to flash to.
    pub chip: String,
}

/// Input of the analyze command.
#[derive(Debug)]
pub struct Analysis {
    /// Path to the binary with debug information.
    pub dwarf: String,
    /// Path to the generated test vectors.
    pub ktests: String,
    /// The name of the chip to attach to.
    pub chip: String,
}

/// The commands the tool offers.
#[derive(Debug)]
pub enum Command {
    Generate(Generation),
    Flash(Flashing),
    Analyze(Analysis),
}

/// Everything given on the command line.
#[derive(Debug)]
pub struct CliOptions {
    /// Path to the project directory; the current directory if missing.
    pub path: Option<String>,
    /// Path to a configuration file.
    pub config: Option<String>,
    /// Do not patch the project's manifest.
    pub no_patch: bool,
    /// The chosen command.
    pub cmd: Command,
}

/// A configuration file's contents: defaults for each command's input.
#[derive(Debug)]
pub struct RaukConfig {
    /// Defaults for the analyze command.
    pub analysis: Option<Analysis>,
    /// Defaults for the flash command.
    pub flashing: Option<Flashing>,
    /// Defaults for the generate command.
    pub generation: Option<Generation>,
}

/// Why the measure command's inputs are incomplete.
#[derive(Debug, Clone, Copy, PartialEq, Eq, Structural)]
pub enum CliError {
    /// No path to a binary with debug information was given or recorded.
    MissingDwarfPath,
    /// No path to the test vectors was given or recorded.
    MissingKtestPath,
}

/// The paths the measure command works from: the given input paths, or the
/// recorded metadata paths where the input has none.
pub fn get_analysis_paths(
    input: &MeasureInput,
    metadata_dwarf: Option<&String>,
    metadata_ktest: Option<&String>,
) -> (r: Result<(String, String), CliError>)
    ensures
        match r {
            Ok((d, k)) => {
                &&& d@ == (match input.dwarf {
                    Some(p) => p@,
                    None => metadata_dwarf.unwrap()@,
                })
                &&& (input.dwarf is Some || metadata_dwarf is Some)
                &&& k@ == (match input.ktests {
                    Some(p) => p@,
                    None => metadata_ktest.unwrap()@,
                })
                &&& (input.ktests is Some || metadata_ktest is Some)
            },
            Err(e) => {
                if e == CliError::MissingDwarfPath {
                    input.dwarf is None && metadata_dwarf is None
                } else {
                    input.ktests is None && metadata_ktest is None
                }
            },
        },
{
    let dwarf_path = match &input.dwarf {
        Some(p) => p.clone(),
        None => match metadata_dwarf {
            Some(p) => p.clone(),
            None => {
                return Err(CliError::MissingDwarfPath);
            },
        },
    };
    let ktests_path = match &input.ktests {
        Some(p) => p.clone(),
        None => match metadata_ktest {
            Some(p) => p.clone(),
            None => {
                return Err(CliError::MissingKtestPath);
            },
        },
    };
    Ok((dwarf_path, ktests_path))
}

} // verus!
