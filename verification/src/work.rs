//! Where things are put while they are built.

use crate::command::{join_path, path_below};
use crate::config::{version_string, version_text, Package};
use vstd::prelude::*;

verus! {

/// The name of the directory in which a package is staged: its name, a
/// hyphen, and its version.
pub open spec fn staging_name(name: Seq<char>, version: Seq<char>) -> Seq<char> {
    name + seq!['-'] + version
}

/// The directory tree under which packages are staged.
pub struct Workspace {
    root: String,
}

impl View for Workspace {
    type V = Seq<char>;

    /// The path of the root of the workspace.
    closed spec fn view(&self) -> Seq<char> {
        self.root@
    }
}

impl Workspace {
    /// The workspace under the directory `root`.
    pub fn new(root: String) -> (workspace: Self)
        ensures
            workspace@ == root@,
    {
        Workspace { root }
    }

    /// The directory in which `package` is staged: the one named after the
    /// package and its version, seen from the root of the workspace.
    pub fn staging_dir(&self, package: &Package) -> (dir: String)
        ensures
            dir@ == join_path(self@, staging_name(package.name@, version_text(package.version))),
    {
        let mut name = package.name.clone();
        name.append("-");
        let version = version_string(&package.version);
        name.append(version.as_str());
        proof {
            reveal_strlit("-");
            assert(name@ =~= staging_name(package.name@, version_text(package.version)));
        }
        path_below(self.root.as_str(), name.as_str())
    }
}

} // verus!
