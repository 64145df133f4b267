//! The command surface as plain data. Argument parsing and the dispatch of
//! each subcommand live outside the library; these types carry what was
//! asked for.

use vstd::prelude::*;

verus! {

/// The `init` subcommand: scaffold a new project.
pub struct InitOpts {}

/// The `build` subcommand: build the current project.
pub struct BuildOpts {}

/// The `run` subcommand: build, then run the project's worker.
pub struct RunOpts {}

/// One parsed subcommand.
pub enum SubCommand {
    Init(InitOpts),
    Build(BuildOpts),
    Run(RunOpts),
}

/// The whole parsed command line.
pub struct Opts {
    pub cmd: SubCommand,
}

} // verus!
