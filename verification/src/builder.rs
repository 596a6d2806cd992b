//! What a component's build produces, and the command that produces it.

use crate::config::BuildMode;
use crate::config::BuildModeView;
use crate::config::CacheMode;
use vstd::prelude::*;

verus! {

/// The artifacts that one component's build produced.
#[derive(Debug, Clone, PartialEq, Eq)]
pub struct ArtifactList {
    /// The name of the component.
    pub component: String,
    /// The paths of the produced files, in the order in which the component
    /// yields them.
    pub artifacts: Vec<String>,
}

pub struct ArtifactListView {
    pub component: Seq<char>,
    pub artifacts: Seq<Seq<char>>,
}

impl View for ArtifactList {
    type V = ArtifactListView;

    open spec fn view(&self) -> ArtifactListView {
        ArtifactListView { component: self.component@, artifacts: self.artifacts.deep_view() }
    }
}

impl ArtifactList {
    /// A copy of this list.
    pub fn duplicate(&self) -> (r: ArtifactList)
        ensures
            r@ == self@,
    {
        ArtifactList {
            component: self.component.clone(),
            artifacts: crate::config::copy_strings(&self.artifacts),
        }
    }
}

/// The program that a recipe runs.
pub open spec fn command_program(mode: BuildModeView) -> Seq<char> {
    match mode {
        BuildModeView::Cargo(_) => "cargo"@,
        BuildModeView::Shell(_) => "nu"@,
    }
}

/// The arguments with which a recipe runs its program: `build` and the
/// recipe's own arguments for cargo, `-c` and the script for the shell.
pub open spec fn command_args(mode: BuildModeView) -> Seq<Seq<char>> {
    match mode {
        BuildModeView::Cargo(args) => seq!["build"@] + args,
        BuildModeView::Shell(script) => seq!["-c"@, script],
    }
}

/// A command line: a program and its arguments.
#[derive(Debug, Clone, PartialEq, Eq)]
pub struct BuildCommand {
    pub program: String,
    pub args: Vec<String>,
}

pub struct BuildCommandView {
    pub program: Seq<char>,
    pub args: Seq<Seq<char>>,
}

impl View for BuildCommand {
    type V = BuildCommandView;

    open spec fn view(&self) -> BuildCommandView {
        BuildCommandView { program: self.program@, args: self.args.deep_view() }
    }
}

/// The command line that builds a component with the given recipe.
pub fn build_command(mode: &BuildMode) -> (r: BuildCommand)
    ensures
        r@.program == command_program(mode@),
        r@.args == command_args(mode@),
{
    match mode {
        BuildMode::Cargo(extra) => {
            let mut args: Vec<String> = Vec::new();
            args.push("build".to_owned());
            let mut i: usize = 0;
            while i < extra.len()
                invariant
                    i <= extra.len(),
                    args.len() == i + 1,
                    args@[0]@ == "build"@,
                    forall|j: int| 0 <= j < i ==> args@[j + 1]@ == extra@[j]@,
                decreases extra.len() - i,
            {
                args.push(extra[i].clone());
                i += 1;
            }
            assert(args.deep_view() =~= seq!["build"@] + extra.deep_view());
            BuildCommand { program: "cargo".to_owned(), args }
        },
        BuildMode::Shell(script) => {
            let mut args: Vec<String> = Vec::new();
            args.push("-c".to_owned());
            args.push(script.clone());
            assert(args.deep_view() =~= seq!["-c"@, script@]);
            BuildCommand { program: "nu".to_owned(), args }
        },
    }
}

/// Whether a component's working directories are wiped before its command
/// runs. A transient component is always built clean, a normal one when a
/// clean build was asked for, and an aggressively cached one never.
pub fn clean_before_build(mode: CacheMode, clean_requested: bool) -> (r: bool)
    ensures
        r == match mode {
            CacheMode::Transient => true,
            CacheMode::Normal => clean_requested,
            CacheMode::Aggressive => false,
        },
{
    match mode {
        CacheMode::Transient => true,
        CacheMode::Normal => clean_requested,
        CacheMode::Aggressive => false,
    }
}

} // verus!
