//! What the command line asks for.

use crate::text::{owned, strings_view};
use vstd::prelude::*;
use vstd::string::*;

verus! {

/// The shell to write completions for, `clap_complete::Shell`. The library
/// carries the value from the arguments to the mode and never looks
/// inside; nothing is claimed of it.
#[verifier::external_type_specification]
#[verifier::external_body]
pub struct ExShell(clap_complete::Shell);

/// The subcommands.
#[derive(Debug)]
pub enum Commands {
    /// Compare refs, files or directories.
    Diff { target1: String, target2: Option<String>, cached: bool },
    /// Show the working tree's state with diffs.
    Status,
    /// Write shell completions.
    Completions { shell: clap_complete::Shell },
}

/// The arguments of the command line.
#[derive(Debug)]
pub struct Cli {
    pub command: Option<Commands>,
    /// Refs, files or directories to compare.
    pub targets: Vec<String>,
    /// Show staged changes.
    pub cached: bool,
    /// Show changes in the working directory.
    pub worktree: bool,
    /// Path of the configuration file.
    pub config: Option<String>,
    pub verbose: bool,
}

/// What the program was asked to do.
#[derive(Debug)]
pub enum OperationMode {
    /// Compare the working directory with the index.
    GitWorkingDirectory,
    /// Compare the staged changes with the last commit.
    GitCached,
    /// Compare one target with the working directory.
    GitDiff { target: String },
    /// Show the working tree's state with diffs.
    GitStatus,
    /// Compare two targets: refs, files or directories.
    Compare { target1: String, target2: String },
    /// Write shell completions.
    Completions { shell: clap_complete::Shell },
    /// The arguments make no sense.
    Invalid { reason: String },
}

/// What an [`OperationMode`] holds, as mathematical values.
pub enum OperationModeView {
    GitWorkingDirectory,
    GitCached,
    GitDiff { target: Seq<char> },
    GitStatus,
    Compare { target1: Seq<char>, target2: Seq<char> },
    Completions { shell: clap_complete::Shell },
    Invalid { reason: Seq<char> },
}

impl View for OperationMode {
    type V = OperationModeView;

    open spec fn view(&self) -> OperationModeView {
        match self {
            OperationMode::GitWorkingDirectory => OperationModeView::GitWorkingDirectory,
            OperationMode::GitCached => OperationModeView::GitCached,
            OperationMode::GitDiff { target } => OperationModeView::GitDiff { target: target@ },
            OperationMode::GitStatus => OperationModeView::GitStatus,
            OperationMode::Compare { target1, target2 } => OperationModeView::Compare {
                target1: target1@,
                target2: target2@,
            },
            OperationMode::Completions { shell } => OperationModeView::Completions {
                shell: *shell,
            },
            OperationMode::Invalid { reason } => OperationModeView::Invalid { reason: reason@ },
        }
    }
}

impl Clone for OperationMode {
    fn clone(&self) -> (out: Self)
        ensures
            out == *self,
    {
        match self {
            OperationMode::GitWorkingDirectory => OperationMode::GitWorkingDirectory,
            OperationMode::GitCached => OperationMode::GitCached,
            OperationMode::GitDiff { target } => OperationMode::GitDiff { target: target.clone() },
            OperationMode::GitStatus => OperationMode::GitStatus,
            OperationMode::Compare { target1, target2 } => OperationMode::Compare {
                target1: target1.clone(),
                target2: target2.clone(),
            },
            OperationMode::Completions { shell } => OperationMode::Completions { shell: *shell },
            OperationMode::Invalid { reason } => OperationMode::Invalid {
                reason: reason.clone(),
            },
        }
    }
}

/// The mode that a list of targets without a subcommand asks for.
pub open spec fn mode_of_targets(cached: bool, targets: Seq<Seq<char>>) -> OperationModeView {
    if cached {
        OperationModeView::GitCached
    } else if targets.len() == 0 {
        OperationModeView::GitWorkingDirectory
    } else if targets.len() == 1 {
        OperationModeView::GitDiff { target: targets[0] }
    } else if targets.len() == 2 {
        OperationModeView::Compare { target1: targets[0], target2: targets[1] }
    } else {
        OperationModeView::Invalid { reason: "Too many arguments provided"@ }
    }
}

impl Cli {
    /// The mode that the arguments ask for. A subcommand decides alone;
    /// without one the flag `cached` and the number of targets decide.
    pub open spec fn operation_mode(&self) -> OperationModeView {
        match self.command {
            Some(Commands::Diff { target1, target2, cached }) => if cached {
                OperationModeView::GitCached
            } else {
                match target2 {
                    Some(target2) => OperationModeView::Compare {
                        target1: target1@,
                        target2: target2@,
                    },
                    None => OperationModeView::GitDiff { target: target1@ },
                }
            },
            Some(Commands::Status) => OperationModeView::GitStatus,
            Some(Commands::Completions { shell }) => OperationModeView::Completions { shell },
            None => mode_of_targets(
                self.cached,
                strings_view(self.targets@),
            ),
        }
    }

    /// Determines the mode of operation from the arguments.
    pub fn get_operation_mode(&self) -> (mode: OperationMode)
        ensures
            mode@ == self.operation_mode(),
    {
        match &self.command {
            Some(Commands::Diff { target1, target2, cached }) => {
                if *cached {
                    OperationMode::GitCached
                } else {
                    match target2 {
                        Some(target2) => OperationMode::Compare {
                            target1: target1.clone(),
                            target2: target2.clone(),
                        },
                        None => OperationMode::GitDiff { target: target1.clone() },
                    }
                }
            },
            Some(Commands::Status) => OperationMode::GitStatus,
            Some(Commands::Completions { shell }) => OperationMode::Completions { shell: *shell },
            None => {
                if self.cached {
                    OperationMode::GitCached
                } else if self.targets.len() == 0 {
                    OperationMode::GitWorkingDirectory
                } else if self.targets.len() == 1 {
                    OperationMode::GitDiff { target: self.targets[0].clone() }
                } else if self.targets.len() == 2 {
                    OperationMode::Compare {
                        target1: self.targets[0].clone(),
                        target2: self.targets[1].clone(),
                    }
                } else {
                    OperationMode::Invalid { reason: owned("Too many arguments provided") }
                }
            },
        }
    }
}

/// Whether a mode reads from a repository.
pub open spec fn needs_repository(mode: OperationModeView) -> bool {
    match mode {
        OperationModeView::GitWorkingDirectory => true,
        OperationModeView::GitCached => true,
        OperationModeView::GitDiff { .. } => true,
        OperationModeView::GitStatus => true,
        OperationModeView::Compare { .. } => false,
        OperationModeView::Completions { .. } => false,
        OperationModeView::Invalid { .. } => false,
    }
}

/// The words that describe a mode.
pub open spec fn description_of(mode: OperationModeView) -> Seq<char> {
    match mode {
        OperationModeView::GitWorkingDirectory => "Working directory changes"@,
        OperationModeView::GitCached => "Staged changes"@,
        OperationModeView::GitDiff { target } => "Changes from "@ + target,
        OperationModeView::GitStatus => "Git status with diffs"@,
        OperationModeView::Compare { target1, target2 } => "Comparing "@ + target1 + " with "@
            + target2,
        OperationModeView::Completions { .. } => "Generating completions"@,
        OperationModeView::Invalid { reason } => "Invalid: "@ + reason,
    }
}

impl OperationMode {
    /// Whether the mode needs a repository to read from.
    pub fn requires_git_repo(&self) -> (r: bool)
        ensures
            r == needs_repository(self@),
    {
        match self {
            OperationMode::GitWorkingDirectory => true,
            OperationMode::GitCached => true,
            OperationMode::GitDiff { .. } => true,
            OperationMode::GitStatus => true,
            OperationMode::Compare { .. } => false,
            OperationMode::Completions { .. } => false,
            OperationMode::Invalid { .. } => false,
        }
    }

    /// A description of the mode for the user.
    pub fn description(&self) -> (text: String)
        ensures
            text@ == description_of(self@),
    {
        match self {
            OperationMode::GitWorkingDirectory => owned("Working directory changes"),
            OperationMode::GitCached => owned("Staged changes"),
            OperationMode::GitDiff { target } => {
                let mut text = owned("Changes from ");
                text.append(target.as_str());
                text
            },
            OperationMode::GitStatus => owned("Git status with diffs"),
            OperationMode::Compare { target1, target2 } => {
                let mut text = owned("Comparing ");
                text.append(target1.as_str());
                text.append(" with ");
                text.append(target2.as_str());
                text
            },
            OperationMode::Completions { .. } => owned("Generating completions"),
            OperationMode::Invalid { reason } => {
                let mut text = owned("Invalid: ");
                text.append(reason.as_str());
                text
            },
        }
    }
}

} // verus!
