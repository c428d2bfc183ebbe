//! The commands of the command-line program, as plain values.
use vstd::prelude::*;

verus! {

/// What the command line asks for, with an optional path to the
/// configuration file.
#[derive(Clone, Debug, PartialEq, Eq)]
pub struct Cli {
    pub command: Option<Commands>,
    pub config: Option<String>,
}

#[derive(Clone, Debug, PartialEq, Eq)]
pub enum Commands {
    Log,
    Categories { subcommand: CategoryCommands },
    Schedule { subcommand: ScheduleCommands },
    /// Import categories and schedule from a TOML manifest.
    Import { path: String },
    /// Print the categories and schedule as a TOML manifest.
    Export,
    /// Run today's timeline.
    Start,
    /// Configure settings, categories and slots interactively.
    Setup,
    /// Override a time of today with a category, or `rest`.
    Today { time: String, category: String },
    /// Override a time of tonight with a category, or `rest`.
    Tonight { time: String, category: String },
}

#[derive(Clone, Debug, PartialEq, Eq)]
pub enum CategoryCommands {
    /// Add a new category.
    Add { name: String, default_minutes: u32, color: String },
    /// List all categories.
    List,
    /// Remove a category.
    Remove { name: String },
}

#[derive(Clone, Debug, PartialEq, Eq)]
pub enum ScheduleCommands {
    /// List all weekly scheduled slots.
    List,
    /// Add a weekly scheduled slot.
    Add { category: String, time: String, days: String },
    /// Remove a weekly scheduled slot.
    Remove { id: u32 },
}

} // verus!
