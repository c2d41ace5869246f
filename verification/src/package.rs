//! Workspace and package descriptions, as the build pipeline reads them
//! from the workspace manifests.  Paths are carried as plain text.

use vstd::prelude::*;

verus! {

/// What role a package plays in a workspace.
#[derive(Clone, Copy, PartialEq, Eq, Structural, Debug)]
pub enum PackageType {
    Workspace,
    Module,
    Adapter,
    Resource,
}

/// One package: its name and version.
#[derive(Debug)]
pub struct Package {
    pub name: String,
    pub version: String,
}

/// A package together with where its manifest lives.
#[derive(Debug)]
pub struct PackageFile {
    pub package: Package,
    pub path: String,
}

/// A workspace: its root path and its member packages.
#[derive(Debug)]
pub struct Workspace {
    pub path: String,
    pub packages: Vec<PackageFile>,
}

impl Workspace {
    /// A workspace with no members yet.
    pub fn new(path: String) -> (r: Workspace)
        ensures
            r.path@ == path@,
            r.packages@.len() == 0,
    {
        Workspace { path, packages: Vec::new() }
    }

    /// Adds one member package.
    pub fn add_package(&mut self, member: PackageFile)
        ensures
            final(self).path@ == old(self).path@,
            final(self).packages@ == old(self).packages@.push(member),
    {
        self.packages.push(member);
    }
}

} // verus!
