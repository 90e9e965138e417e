//! Where a vault lies.

use vstd::prelude::*;

verus! {

/// The options a vault is opened with: the location of its root directory.
#[derive(Debug, PartialEq, Eq, Clone)]
pub struct VaultOptions {
    /// The root directory.
    path: String,
}

impl VaultOptions {
    /// The location of the root directory.
    pub closed spec fn root(&self) -> Seq<char> {
        self.path@
    }

    /// The options for the vault at `path`.
    pub fn new(path: &str) -> (options: Self)
        ensures
            options.root() == path@,
    {
        VaultOptions { path: path.to_owned() }
    }

    /// The location of the root directory.
    #[must_use]
    pub fn path(&self) -> (r: &str)
        ensures
            r@ == self.root(),
    {
        self.path.as_str()
    }

    /// Gives up the options for the location of the root directory.
    #[must_use]
    pub fn into_path(self) -> (r: String)
        ensures
            r@ == self.root(),
    {
        self.path
    }
}

} // verus!
