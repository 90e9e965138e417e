//! A vault: the notes below one root directory.

pub mod vault_duplicates;
pub mod vault_open;
pub mod vault_petgraph;

use crate::note::Note;
use crate::vault::vault_open::options::VaultOptions;
use vstd::prelude::*;

verus! {

/// Why a vault cannot be opened.
#[derive(Debug, PartialEq, Eq, Clone)]
pub enum VaultError {
    /// The root is no directory.
    IsNotDir(String),
}

/// The notes of a vault, in the order in which they were found, and the
/// location of its root directory.
#[derive(Debug, PartialEq, Eq, Clone)]
pub struct Vault<N> where N: Note {
    /// All notes of the vault.
    notes: Vec<N>,
    /// The root directory.
    path: String,
}

impl<N: Note> View for Vault<N> {
    type V = Seq<N>;

    /// The notes of the vault.
    closed spec fn view(&self) -> Seq<N> {
        self.notes@
    }
}

impl<N: Note> Vault<N> {
    /// The location of the root directory.
    pub closed spec fn root(&self) -> Seq<char> {
        self.path@
    }

    /// The notes of the vault.
    #[must_use]
    pub fn notes(&self) -> (r: &Vec<N>)
        ensures
            r@ == self@,
    {
        &self.notes
    }

    /// The notes of the vault, to change them.
    #[must_use]
    pub fn mut_notes(&mut self) -> (r: &mut Vec<N>)
        ensures
            r@ == old(self)@,
            final(self)@ == final(r)@,
            final(self).root() == old(self).root(),
    {
        &mut self.notes
    }

    /// The number of notes in the vault.
    #[must_use]
    pub fn count_notes(&self) -> (n: usize)
        ensures
            n == self@.len(),
    {
        self.notes.len()
    }

    /// The location of the root directory.
    #[must_use]
    pub fn path(&self) -> (r: &str)
        ensures
            r@ == self.root(),
    {
        self.path.as_str()
    }

    /// The vault of the given notes below the root of `options`, where the
    /// root was found to be a directory, as `root_is_dir` says. Where it was
    /// not, no vault is built, and the notes are given up.
    pub fn build_vault(notes: Vec<N>, options: &VaultOptions, root_is_dir: bool) -> (r: Result<
        Self,
        VaultError,
    >)
        ensures
            match r {
                Ok(vault) => root_is_dir && vault@ == notes@ && vault.root() == options.root(),
                Err(VaultError::IsNotDir(path)) => !root_is_dir && path@ == options.root(),
            },
    {
        if !root_is_dir {
            return Err(VaultError::IsNotDir(options.path().to_owned()));
        }
        Ok(Self::impl_build_vault(notes, options))
    }

    /// The vault of the given notes below the root of `options`.
    fn impl_build_vault(notes: Vec<N>, options: &VaultOptions) -> (vault: Self)
        ensures
            vault@ == notes@,
            vault.root() == options.root(),
    {
        Vault { notes, path: options.path().to_owned() }
    }
}

} // verus!
