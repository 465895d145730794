//! The `/condense` and `/usage` chat commands.

use vstd::prelude::*;

verus! {

/// Subcommands of `/condense`.
#[derive(Clone, Copy, Debug, PartialEq, Eq, Structural)]
pub enum CondenseSubcommand {
    /// Enable automatic prompt compression to reduce token usage and energy consumption
    Enable,
    /// Disable automatic prompt compression
    Disable,
}

impl CondenseSubcommand {
    /// The subcommand's name.
    pub fn name(&self) -> (n: &'static str)
        ensures
            n@ == match self {
                CondenseSubcommand::Enable => "enable"@,
                CondenseSubcommand::Disable => "disable"@,
            },
    {
        match self {
            Self::Enable => "enable",
            Self::Disable => "disable",
        }
    }

    /// Whether prompt compression is on after the subcommand runs.
    pub fn enables_compression(&self) -> (on: bool)
        ensures
            on == (*self == CondenseSubcommand::Enable),
    {
        match self {
            Self::Enable => true,
            Self::Disable => false,
        }
    }
}

/// Subcommands of `/usage`.
#[derive(Clone, Copy, Debug, PartialEq, Eq, Structural)]
pub enum UsageSubcommand {
    /// Display usage data for the past month as an aesthetically pleasing graph
    Graph,
    /// Ask the AI model to provide a funny equivalent for one of your usage statistics
    Summarize,
}

/// Arguments of `/usage`.
#[derive(Clone, Copy, Debug, PartialEq, Eq, Structural)]
pub struct UsageArgs {
    pub command: Option<UsageSubcommand>,
}

impl UsageArgs {
    /// The name of the subcommand given, if any.
    pub fn subcommand_name(&self) -> (n: Option<&'static str>)
        ensures
            match self.command {
                Some(UsageSubcommand::Graph) => n matches Some(s) && s@ == "graph"@,
                Some(UsageSubcommand::Summarize) => n matches Some(s) && s@ == "summarize"@,
                None => n is None,
            },
    {
        match &self.command {
            Some(UsageSubcommand::Graph) => Some("graph"),
            Some(UsageSubcommand::Summarize) => Some("summarize"),
            None => None,
        }
    }
}

} // verus!
