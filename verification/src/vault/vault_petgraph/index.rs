//! The index that resolves the target of a link to a node of the graph.

use crate::text::contains_char;
use vstd::hash_map::StringHashMap;
use vstd::prelude::*;

verus! {

/// What an index holds: for each key of either kind, the node it stands for.
pub struct IndexView {
    /// By full key: the location below the root, without the extension.
    pub full: Map<Seq<char>, usize>,
    /// By short key: the name of the note.
    pub short: Map<Seq<char>, usize>,
}

impl IndexView {
    /// The index that holds nothing.
    pub open spec fn empty() -> IndexView {
        IndexView { full: Map::empty(), short: Map::empty() }
    }

    /// The index after `node` is entered under both of its keys. The full key
    /// is written anew; the short key stays with the node that had it first.
    pub open spec fn insert(self, full: Seq<char>, short: Seq<char>, node: usize) -> IndexView {
        IndexView {
            full: self.full.insert(full, node),
            short: if self.short.contains_key(short) {
                self.short
            } else {
                self.short.insert(short, node)
            },
        }
    }

    /// The node that has the full key `key`.
    pub open spec fn full_of(self, key: Seq<char>) -> Option<usize> {
        if self.full.contains_key(key) {
            Some(self.full[key])
        } else {
            None
        }
    }

    /// The node that the target `key` of a link names: by full key where the
    /// target holds a separator, by short key where it holds none.
    pub open spec fn get(self, key: Seq<char>) -> Option<usize> {
        if key.contains('/') {
            self.full_of(key)
        } else if self.short.contains_key(key) {
            Some(self.short[key])
        } else {
            None
        }
    }

    /// Whether every node that the index names is one of the first `n`.
    pub open spec fn below(self, n: nat) -> bool {
        &&& forall|k: Seq<char>| #[trigger] self.full.contains_key(k) ==> self.full[k] < n
        &&& forall|k: Seq<char>| #[trigger] self.short.contains_key(k) ==> self.short[k] < n
    }
}

/// The index from the targets of links to the nodes of the graph.
pub struct Index {
    full: StringHashMap<usize>,
    short: StringHashMap<usize>,
}

impl View for Index {
    type V = IndexView;

    closed spec fn view(&self) -> IndexView {
        IndexView { full: self.full@, short: self.short@ }
    }
}

impl Default for Index {
    /// The index that holds nothing.
    fn default() -> (index: Self)
        ensures
            index@ == IndexView::empty(),
    {
        Index { full: StringHashMap::new(), short: StringHashMap::new() }
    }
}

impl Index {
    /// Enters `value` under the full key `full_path` and, unless another
    /// node has it, under the short key `short_path`.
    pub fn insert(&mut self, full_path: String, short_path: String, value: usize)
        ensures
            final(self)@ == old(self)@.insert(full_path@, short_path@, value),
    {
        self.full.insert(full_path, value);
        if !self.short.contains_key(short_path.as_str()) {
            self.short.insert(short_path, value);
        }
    }

    /// The node that has the full key `full_path`.
    pub fn full(&self, full_path: &str) -> (r: Option<&usize>)
        ensures
            match r {
                Some(node) => self@.full_of(full_path@) == Some(*node),
                None => self@.full_of(full_path@) is None,
            },
    {
        self.full.get(full_path)
    }

    /// The node that the target `key` of a link names.
    pub fn get(&self, key: &str) -> (r: Option<&usize>)
        ensures
            match r {
                Some(node) => self@.get(key@) == Some(*node),
                None => self@.get(key@) is None,
            },
    {
        if contains_char(key, '/') {
            self.full(key)
        } else {
            self.short.get(key)
        }
    }
}

} // verus!
