//! How the progress of a build is reported.

use vstd::prelude::*;

verus! {

/// The form in which progress is reported.
#[derive(Debug, Clone, Copy, PartialEq, Eq, Structural)]
pub enum ReportMode {
    /// Whatever suits the terminal.
    Auto,
    /// A full-screen display.
    Tui,
    /// Plain lines of text.
    Text,
    /// One JSON document per update.
    Json,
}

impl ReportMode {
    /// The name under which the mode is chosen on the command line.
    pub open spec fn name_text(self) -> Seq<char> {
        match self {
            ReportMode::Auto => "auto"@,
            ReportMode::Tui => "tui"@,
            ReportMode::Text => "text"@,
            ReportMode::Json => "json"@,
        }
    }

    /// The name under which the mode is chosen on the command line.
    pub fn name(&self) -> (r: &'static str)
        ensures
            r@ == self.name_text(),
    {
        match self {
            ReportMode::Auto => "auto",
            ReportMode::Tui => "tui",
            ReportMode::Text => "text",
            ReportMode::Json => "json",
        }
    }
}

impl Default for ReportMode {
    fn default() -> (r: Self)
        ensures
            r == ReportMode::Auto,
    {
        ReportMode::Auto
    }
}

/// One update on the progress of a build.
#[derive(Debug, Clone, Copy, PartialEq, Eq, Structural)]
pub struct StatusUpdate {}

} // verus!
