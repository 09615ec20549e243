//! The data the command surface hands the library: which subcommand was
//! chosen and with which values.  Argument parsing itself is a thin adapter
//! around these types and stays outside the library.

use vstd::prelude::*;

verus! {

/// The tool's top-level options: the chosen subcommand.
#[derive(Debug, Clone)]
pub struct CLIOpts {
    /// Export
    pub command: Command,
}

/// The tool's subcommands.
#[derive(Debug, Clone)]
pub enum Command {
    /// List the modules and their in-crate dependencies.
    ListDependencies(ListDependenciesOpts),
    /// Extract a module to a separate crate.
    Extract(ExtractOpts),
}

/// Options of the dependency-listing subcommand.
#[derive(Debug, Clone)]
pub struct ListDependenciesOpts {
    /// Module to list dependencies for.  Defaults to all the modules.
    pub module: Option<String>,
}

/// Options of the extraction subcommand.
#[derive(Debug, Clone)]
pub struct ExtractOpts {
    /// Module to extract from a crate.
    pub module: String,
    /// Target crate to create.
    pub crate_name: String,
}

} // verus!
