//! What the command line asks for.

use crate::paths::anchor;
use crate::paths::anchored;
use crate::reporter::ReportMode;
use vstd::prelude::*;

verus! {

/// What the program is asked to do.
#[derive(Debug, Clone, PartialEq, Eq)]
pub enum BuildActions {
    /// Build the image that a manifest describes.
    Build {
        /// The path of the manifest.
        config: String,
        /// Whether working directories are wiped first.
        clean: bool,
        /// The directory to build in, if not the default.
        build_dir: Option<String>,
    },
    /// Extract the source of a recipe.
    Checkout {
        recipe: String,
        /// Where to extract to.
        destination: Option<String>,
    },
}

/// The arguments of one run of the program.
#[derive(Debug, Clone, PartialEq, Eq)]
pub struct Args {
    pub report_mode: ReportMode,
    pub action: BuildActions,
}

/// Finds the manifest that the command line names: at the path given, as
/// seen from the working directory.
pub fn locate_manifest(config: &str, working_dir: &str) -> (r: String)
    ensures
        r@ == anchored(config@, working_dir@),
{
    anchor(config, working_dir)
}

} // verus!
