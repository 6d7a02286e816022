//! Command-line arguments, as plain data.
use std::path::PathBuf;
use vstd::prelude::*;

verus! {

/// Project selection shared by commands.
#[derive(Debug)]
pub struct EscCliArgsProject {
    /// Use the given project or `tsconfig.json` path instead of the cwd.
    pub project_path: Option<PathBuf>,
}

/// Arguments of the `build` command.
#[derive(Debug)]
pub struct EscCliCmdBuild {
    pub project_args: EscCliArgsProject,
}

/// The available commands.
#[derive(Debug)]
pub enum EscCliCmd {
    /// Builds project
    Build(EscCliCmdBuild),
}

/// The parsed command line.
#[derive(Debug)]
pub struct EscCli {
    pub command: EscCliCmd,
}

} // verus!
