//! The graph of a vault: a node for each note, an edge for each link whose
//! target is a note of the vault.
//!
//! A link names a note by its location below the root, where the target
//! holds a separator, or by its name, where it holds none. A link that names
//! no note of the vault gives no edge, and is no error.

pub mod graph;
pub mod graph_builder;
pub mod index;

use crate::note::note_in_memory::NoteInMemory;
use crate::note::{cow_str, Note};
use crate::parser::links;
use crate::path::full_key_of;
use crate::vault::vault_petgraph::graph::{
    digraph_edges, digraph_nodes, NoteDiGraph, NoteUnGraph, ungraph_edges, ungraph_nodes,
};
use crate::vault::vault_petgraph::graph_builder::{
    GraphBuilder, lemma_index_has_full_keys, positions, read_as, resolved, stops_at,
};
use crate::vault::vault_petgraph::index::IndexView;
use crate::vault::Vault;
use vstd::prelude::*;

verus! {

/// How many of the targets of `targets` name a node.
pub open spec fn resolving(index: IndexView, targets: Seq<Seq<char>>) -> nat
    decreases targets.len(),
{
    if targets.len() == 0 {
        0
    } else {
        resolving(index, targets.drop_last()) + if index.get(targets.last()) is Some {
            1nat
        } else {
            0nat
        }
    }
}

/// How many links in the notes with the contents `contents` name a node.
pub open spec fn links_resolving(index: IndexView, contents: Seq<Seq<char>>) -> nat
    decreases contents.len(),
{
    if contents.len() == 0 {
        0
    } else {
        links_resolving(index, contents.drop_last()) + resolving(index, links(contents.last()))
    }
}

/// As many nodes are resolved from targets as there are targets that name one.
pub proof fn lemma_resolved_len(index: IndexView, targets: Seq<Seq<char>>)
    ensures
        resolved(index, targets).len() == resolving(index, targets),
    decreases targets.len(),
{
    if targets.len() > 0 {
        lemma_resolved_len(index, targets.drop_last());
    }
}

/// The graph of a vault has as many edges as the notes have links that name
/// a note of the vault. A link that names none does not count.
pub proof fn lemma_edge_count<N: Note>(vault: Vault<N>, contents: Seq<Seq<char>>)
    requires
        contents.len() <= vault@.len(),
    ensures
        vault.edges(contents).len() == links_resolving(vault.index(), contents),
    decreases contents.len(),
{
    if contents.len() > 0 {
        let last = contents.len() - 1;
        lemma_edge_count(vault, contents.drop_last());
        lemma_index_has_full_keys(vault.full_keys(), vault.short_keys(), vault@.len() as int);
        lemma_resolved_len(vault.index(), links(contents[last]));
    }
}

/// Notes held in memory answer with the contents they hold: the graph of a
/// vault of such notes is the graph of those contents.
pub proof fn lemma_contents_in_memory<T: Clone>(
    vault: Vault<NoteInMemory<T>>,
    contents: Seq<Seq<char>>,
)
    requires
        read_as(vault@, contents),
    ensures
        contents == vault@.map_values(|note: NoteInMemory<T>| note.body()),
{
}

impl<N: Note> Vault<N> {
    /// Whether every note of the vault has a location below the root.
    pub fn is_located(&self) -> (b: bool)
        ensures
            b == self.located(),
    {
        let notes = self.notes();
        let root = self.path();
        let mut i: usize = 0;
        while i < notes.len()
            invariant
                i <= notes.len(),
                notes@ == self@,
                root@ == self.root(),
                forall|j: int|
                    0 <= j < i ==> ((#[trigger] self@[j]).location() matches Some(p)
                        && crate::path::is_under(self.root(), p)),
            decreases notes.len() - i,
        {
            match notes[i].path() {
                Some(p) => {
                    if full_key_of(root, cow_str(&p)).is_none() {
                        return false;
                    }
                },
                None => {
                    return false;
                },
            }
            i += 1;
        }
        true
    }

    /// The directed graph of the vault. Its nodes carry the positions of the
    /// notes, in their order; an edge leads from a note to each note that
    /// one of its links names. Fails with the error of the first note whose
    /// content cannot be read.
    pub fn get_digraph(&self) -> (r: Result<NoteDiGraph, N::Error>)
        requires
            self.located(),
        ensures
            match r {
                Ok(g) => digraph_nodes(g) == positions(self@.len()) && exists|
                    contents: Seq<Seq<char>>,
                | #[trigger] read_as(self@, contents) && digraph_edges(g) == self.edges(contents),
                Err(e) => exists|i: int| #[trigger] stops_at(self@, 0, i, Err(e)),
            },
    {
        let r = GraphBuilder::new(self).build();
        proof {
            if r is Err {
                assert(exists|k: int| #[trigger] stops_at(self@, 0, k, Err(r->Err_0)));
            }
        }
        r
    }

    /// The undirected graph of the vault. Its nodes carry the positions of
    /// the notes, in their order; an edge joins a note and each note that one
    /// of its links names. Fails with the error of the first note whose
    /// content cannot be read.
    pub fn get_ungraph(&self) -> (r: Result<NoteUnGraph, N::Error>)
        requires
            self.located(),
        ensures
            match r {
                Ok(g) => ungraph_nodes(g) == positions(self@.len()) && exists|
                    contents: Seq<Seq<char>>,
                | #[trigger] read_as(self@, contents) && ungraph_edges(g) == self.edges(contents),
                Err(e) => exists|i: int| #[trigger] stops_at(self@, 0, i, Err(e)),
            },
    {
        let r = GraphBuilder::new(self).build_undirected();
        proof {
            if r is Err {
                assert(exists|k: int| #[trigger] stops_at(self@, 0, k, Err(r->Err_0)));
            }
        }
        r
    }
}

} // verus!
