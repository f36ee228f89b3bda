//! Build metadata for the GUI part of the IDE: the laid-out artifact, the
//! build information record, and the handle of the desktop IDE builder.

use vstd::prelude::*;

verus! {

/// The laid-out GUI distribution directory.
#[derive(Clone, Debug, PartialEq, Eq)]
pub struct Artifact {
    path: String,
}

impl Artifact {
    /// The distribution root, for specification purposes.
    pub closed spec fn spec_path(self) -> Seq<char> {
        self.path@
    }

    /// Lay out the GUI distribution under the given root.
    pub fn new(gui_path: String) -> (r: Self)
        ensures
            r.spec_path() == gui_path@,
    {
        Artifact { path: gui_path }
    }

    /// The distribution root.
    pub fn path(&self) -> (r: &str)
        ensures
            r@ == self.spec_path(),
    {
        self.path.as_str()
    }
}

/// Marker for the GUI build target.
#[derive(Clone, Copy, Debug, PartialEq, Eq, Structural)]
pub struct Gui;

/// A semantic version.
#[derive(Clone, Copy, Debug, PartialEq, Eq, Structural, Hash)]
pub struct Version {
    /// The major version.
    pub major: u64,
    /// The minor version.
    pub minor: u64,
    /// The patch version.
    pub patch: u64,
}

/// The metadata baked into a GUI build.
#[derive(Clone, Debug)]
pub struct BuildInfo {
    /// The commit the build was made from.
    pub commit: String,
    /// The IDE version.
    pub version: Version,
    /// The engine version the IDE expects.
    pub engine_version: Version,
    /// The product name.
    pub name: String,
}

/// What the build carries around between steps: the repository root is all
/// the desktop builder reads from it here.
#[derive(Clone, Debug)]
pub struct Context {
    /// The repository root.
    pub repo_root: String,
}

/// The desktop IDE builder, rooted at the repository.
#[derive(Clone, Debug)]
pub struct IdeDesktop {
    /// The repository root the builder works under.
    pub repo_root: String,
}

/// The desktop IDE builder for a build context.
pub fn ide_desktop_from_context(context: &Context) -> (r: IdeDesktop)
    ensures
        r.repo_root@ == context.repo_root@,
{
    IdeDesktop { repo_root: context.repo_root.clone() }
}

} // verus!
