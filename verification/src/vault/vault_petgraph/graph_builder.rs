//! Building the graph of a vault: the index of its notes first, then the
//! edges that the links of each note resolve to.

use crate::note::{cow_str, Note};
use crate::parser::{links, parse_links, texts_of};
use crate::path::{full_key, full_key_of, is_under, note_name, note_name_of};
use crate::vault::vault_petgraph::graph::{
    digraph_add_edge, digraph_add_node, digraph_edges, digraph_new, digraph_nodes, NoteDiGraph,
    NoteUnGraph, ungraph_add_edge, ungraph_add_node, ungraph_edges, ungraph_new, ungraph_nodes,
};
use crate::vault::vault_petgraph::index::{Index, IndexView};
use crate::vault::Vault;
use vstd::pervasive::unreached;
use vstd::prelude::*;
use vstd::seq_lib::lemma_multiset_commutative;

verus! {

/// What each text of `v` holds.
pub open spec fn strings_of(v: Seq<String>) -> Seq<Seq<char>> {
    v.map_values(|s: String| s@)
}

/// The nodes of a graph of `n` notes: each carries the position of its note.
pub open spec fn positions(n: nat) -> Seq<usize> {
    Seq::new(n, |i: int| i as usize)
}

/// The index of the first `n` notes, given the two keys of each: the notes
/// are entered in their order, each as the node of its position.
pub open spec fn index_upto(fulls: Seq<Seq<char>>, shorts: Seq<Seq<char>>, n: int) -> IndexView
    decreases n,
{
    if n <= 0 {
        IndexView::empty()
    } else {
        index_upto(fulls, shorts, n - 1).insert(fulls[n - 1], shorts[n - 1], (n - 1) as usize)
    }
}

/// The nodes that the targets of `targets` name, in their order. A target
/// that names no node is left out.
pub open spec fn resolved(index: IndexView, targets: Seq<Seq<char>>) -> Seq<usize>
    decreases targets.len(),
{
    if targets.len() == 0 {
        Seq::empty()
    } else {
        let rest = resolved(index, targets.drop_last());
        match index.get(targets.last()) {
            Some(node) => rest.push(node),
            None => rest,
        }
    }
}

/// The edges that the links in `content` give to the node `from`.
pub open spec fn edges_of_note(index: IndexView, from: usize, content: Seq<char>) -> Seq<
    (usize, usize),
> {
    resolved(index, links(content)).map_values(|to: usize| (from, to))
}

/// The edges of the notes whose contents are `contents` and whose full keys
/// `fulls` starts with, note by note. The edges of a note start at the node
/// that has the note's full key.
pub open spec fn edges_of_notes(
    index: IndexView,
    fulls: Seq<Seq<char>>,
    contents: Seq<Seq<char>>,
) -> Seq<(usize, usize)>
    decreases contents.len(),
{
    if contents.len() == 0 {
        Seq::empty()
    } else {
        let last = contents.len() - 1;
        edges_of_notes(index, fulls, contents.drop_last()) + match index.full_of(fulls[last]) {
            Some(from) => edges_of_note(index, from, contents[last]),
            None => Seq::empty(),
        }
    }
}

/// Whether reading the contents of `notes`, one after the other, may come
/// back with `contents`.
pub open spec fn read_as<N: Note>(notes: Seq<N>, contents: Seq<Seq<char>>) -> bool {
    &&& contents.len() == notes.len()
    &&& forall|i: int| 0 <= i < notes.len() ==> (#[trigger] notes[i]).body_may_be(Ok(contents[i]))
}

/// Whether reading the notes from position `lo` on, one after the other, may
/// stop at the note at position `i` with the failure `failure`: every note
/// before it may give its content, and the note at `i` may fail so.
pub open spec fn stops_at<N: Note>(
    notes: Seq<N>,
    lo: int,
    i: int,
    failure: Result<Seq<char>, N::Error>,
) -> bool {
    &&& lo <= i < notes.len()
    &&& failure is Err
    &&& notes[i].body_may_be(failure)
    &&& exists|contents: Seq<Seq<char>>| #[trigger] read_as(notes.subrange(lo, i), contents)
}

/// Whether every edge of `edges` joins two of the first `n` nodes.
pub open spec fn edges_below(edges: Seq<(usize, usize)>, n: nat) -> bool {
    forall|k: int| 0 <= k < edges.len() ==> (#[trigger] edges[k]).0 < n && edges[k].1 < n
}

impl<N: Note> Vault<N> {
    /// Whether every note of the vault has a location, and that below the root.
    pub open spec fn located(&self) -> bool {
        forall|i: int|
            0 <= i < self@.len() ==> ((#[trigger] self@[i]).location() matches Some(p)
                && is_under(self.root(), p))
    }

    /// The full key of each note: its location below the root, without the
    /// extension.
    pub open spec fn full_keys(&self) -> Seq<Seq<char>> {
        Seq::new(self@.len(), |i: int| full_key(self.root(), self@[i].location().unwrap()))
    }

    /// The short key of each note: its name.
    pub open spec fn short_keys(&self) -> Seq<Seq<char>> {
        Seq::new(self@.len(), |i: int| note_name(self@[i].location().unwrap()))
    }

    /// The index of the vault.
    pub open spec fn index(&self) -> IndexView {
        index_upto(self.full_keys(), self.short_keys(), self@.len() as int)
    }

    /// The edges of the graph of the vault, where its notes have the
    /// contents `contents`.
    pub open spec fn edges(&self, contents: Seq<Seq<char>>) -> Seq<(usize, usize)> {
        edges_of_notes(self.index(), self.full_keys(), contents)
    }
}

/// Every node that the index of the first `n` notes names is one of them.
pub proof fn lemma_index_below(fulls: Seq<Seq<char>>, shorts: Seq<Seq<char>>, n: int)
    requires
        0 <= n <= usize::MAX,
    ensures
        index_upto(fulls, shorts, n).below(n as nat),
    decreases n,
{
    if n > 0 {
        lemma_index_below(fulls, shorts, n - 1);
    }
}

/// Every note among the first `n` is found by its full key.
pub proof fn lemma_index_has_full_keys(fulls: Seq<Seq<char>>, shorts: Seq<Seq<char>>, n: int)
    requires
        0 <= n <= fulls.len(),
    ensures
        forall|i: int|
            0 <= i < n ==> index_upto(fulls, shorts, n).full.contains_key(#[trigger] fulls[i]),
    decreases n,
{
    if n > 0 {
        lemma_index_has_full_keys(fulls, shorts, n - 1);
    }
}

/// A full key finds the last note that has it.
pub proof fn lemma_full_key_finds_last(
    fulls: Seq<Seq<char>>,
    shorts: Seq<Seq<char>>,
    n: int,
    i: int,
)
    requires
        0 <= i < n <= fulls.len(),
        n <= usize::MAX,
        forall|j: int| i < j < n ==> #[trigger] fulls[j] != fulls[i],
    ensures
        index_upto(fulls, shorts, n).full_of(fulls[i]) == Some(i as usize),
    decreases n,
{
    if i < n - 1 {
        lemma_full_key_finds_last(fulls, shorts, n - 1, i);
    }
}

/// A short key finds the first note that has it.
pub proof fn lemma_short_key_finds_first(
    fulls: Seq<Seq<char>>,
    shorts: Seq<Seq<char>>,
    n: int,
    i: int,
)
    requires
        0 <= i < n <= shorts.len(),
        n <= usize::MAX,
        forall|j: int| 0 <= j < i ==> #[trigger] shorts[j] != shorts[i],
    ensures
        index_upto(fulls, shorts, n).short.contains_key(shorts[i]),
        index_upto(fulls, shorts, n).short[shorts[i]] == i,
    decreases n,
{
    if i < n - 1 {
        lemma_short_key_finds_first(fulls, shorts, n - 1, i);
    } else {
        lemma_short_key_unknown(fulls, shorts, i, shorts[i]);
    }
}

/// A short key that none of the first `n` notes has is not in their index.
proof fn lemma_short_key_unknown(
    fulls: Seq<Seq<char>>,
    shorts: Seq<Seq<char>>,
    n: int,
    key: Seq<char>,
)
    requires
        0 <= n <= shorts.len(),
        forall|j: int| 0 <= j < n ==> #[trigger] shorts[j] != key,
    ensures
        !index_upto(fulls, shorts, n).short.contains_key(key),
    decreases n,
{
    if n > 0 {
        lemma_short_key_unknown(fulls, shorts, n - 1, key);
    }
}

/// What the nodes resolved from `targets` are, when one more target is added.
proof fn lemma_resolved_push(index: IndexView, targets: Seq<Seq<char>>, target: Seq<char>)
    ensures
        resolved(index, targets.push(target)) == match index.get(target) {
            Some(node) => resolved(index, targets).push(node),
            None => resolved(index, targets),
        },
{
    assert(targets.push(target).drop_last() =~= targets);
}

/// The nodes that targets resolve to are nodes that the index names.
pub proof fn lemma_resolved_below(index: IndexView, targets: Seq<Seq<char>>, n: nat)
    requires
        index.below(n),
    ensures
        resolved(index, targets).len() <= targets.len(),
        forall|k: int|
            0 <= k < resolved(index, targets).len() ==> #[trigger] resolved(index, targets)[k] < n,
    decreases targets.len(),
{
    if targets.len() > 0 {
        lemma_resolved_below(index, targets.drop_last(), n);
    }
}

/// The edges of notes join nodes that the index names.
pub proof fn lemma_edges_below(
    index: IndexView,
    fulls: Seq<Seq<char>>,
    contents: Seq<Seq<char>>,
    n: nat,
)
    requires
        index.below(n),
    ensures
        edges_below(edges_of_notes(index, fulls, contents), n),
    decreases contents.len(),
{
    if contents.len() > 0 {
        let last = contents.len() - 1;
        lemma_edges_below(index, fulls, contents.drop_last(), n);
        lemma_resolved_below(index, links(contents[last]), n);
    }
}

/// The edges of one batch of notes after another are those of both together.
pub proof fn lemma_edges_of_batches(
    index: IndexView,
    fulls: Seq<Seq<char>>,
    first: Seq<Seq<char>>,
    second: Seq<Seq<char>>,
)
    requires
        first.len() + second.len() <= fulls.len(),
    ensures
        edges_of_notes(index, fulls, first + second) == edges_of_notes(index, fulls, first)
            + edges_of_notes(index, fulls.skip(first.len() as int), second),
    decreases second.len(),
{
    if second.len() > 0 {
        let both = first + second;
        lemma_edges_of_batches(index, fulls, first, second.drop_last());
        assert(both.drop_last() =~= first + second.drop_last());
    }
}

/// The number of notes that are worked on together, where the work is shared out.
pub const CHUNK_SIZE: usize = 10;

/// Whether `batches` cuts the positions below `count` into batches of
/// `size`, in their order: each batch goes from its first position up to its
/// second, starts where the one before it stops, and holds `size` positions,
/// but for the last, which holds what is left.
pub open spec fn is_batches(count: nat, size: nat, batches: Seq<(usize, usize)>) -> bool {
    &&& batches.len() == 0 <==> count == 0
    &&& batches.len() > 0 ==> batches[0].0 == 0 && batches.last().1 == count
    &&& forall|k: int|
        0 <= k < batches.len() ==> (#[trigger] batches[k]).0 < batches[k].1 <= batches[k].0 + size
    &&& forall|k: int|
        0 <= k < batches.len() - 1 ==> (#[trigger] batches[k]).1 == batches[k].0 + size
            && batches[k + 1].0 == batches[k].1
}

/// The edges of the first `n` batches, one batch after the other.
pub open spec fn edges_of_batches(
    index: IndexView,
    fulls: Seq<Seq<char>>,
    contents: Seq<Seq<char>>,
    batches: Seq<(usize, usize)>,
    n: int,
) -> Seq<(usize, usize)>
    decreases n,
{
    if n <= 0 {
        Seq::empty()
    } else {
        let (lo, hi) = batches[n - 1];
        edges_of_batches(index, fulls, contents, batches, n - 1) + edges_of_notes(
            index,
            fulls.skip(lo as int),
            contents.subrange(lo as int, hi as int),
        )
    }
}

/// The edges of the batches of a vault, one batch after the other, are the
/// edges of the vault: sharing the work out does not change the graph.
pub proof fn lemma_batches_give_all_edges(
    index: IndexView,
    fulls: Seq<Seq<char>>,
    contents: Seq<Seq<char>>,
    size: nat,
    batches: Seq<(usize, usize)>,
)
    requires
        contents.len() <= fulls.len(),
        is_batches(contents.len(), size, batches),
    ensures
        edges_of_batches(index, fulls, contents, batches, batches.len() as int) == edges_of_notes(
            index,
            fulls,
            contents,
        ),
{
    if batches.len() > 0 {
        lemma_batches_upto(index, fulls, contents, size, batches, batches.len() as int);
        assert(contents.take(contents.len() as int) =~= contents);
    }
}

/// The edges of the first `n` batches are the edges of the notes before the
/// end of the last of them.
proof fn lemma_batches_upto(
    index: IndexView,
    fulls: Seq<Seq<char>>,
    contents: Seq<Seq<char>>,
    size: nat,
    batches: Seq<(usize, usize)>,
    n: int,
)
    requires
        contents.len() <= fulls.len(),
        is_batches(contents.len(), size, batches),
        0 < n <= batches.len(),
    ensures
        batches[n - 1].1 <= contents.len(),
        edges_of_batches(index, fulls, contents, batches, n) == edges_of_notes(
            index,
            fulls,
            contents.take(batches[n - 1].1 as int),
        ),
    decreases n,
{
    lemma_batch_ends(contents.len(), size, batches, n - 1);
    let (lo, hi) = batches[n - 1];
    let first = contents.take(lo as int);
    let second = contents.subrange(lo as int, hi as int);
    if n > 1 {
        lemma_batches_upto(index, fulls, contents, size, batches, n - 1);
    } else {
        assert(edges_of_batches(index, fulls, contents, batches, 0) =~= edges_of_notes(
            index,
            fulls,
            first,
        ));
    }
    lemma_edges_of_batches(index, fulls, first, second);
    assert(first + second =~= contents.take(hi as int));
}

/// No batch ends behind the last one.
proof fn lemma_batch_ends(count: nat, size: nat, batches: Seq<(usize, usize)>, k: int)
    requires
        is_batches(count, size, batches),
        0 <= k < batches.len(),
    ensures
        batches[k].1 <= count,
    decreases batches.len() - k,
{
    if k < batches.len() - 1 {
        lemma_batch_ends(count, size, batches, k + 1);
    }
}

/// The batches of `size` that `count` notes are cut into.
pub fn batches_of(count: usize, size: usize) -> (r: Vec<(usize, usize)>)
    requires
        size > 0,
    ensures
        is_batches(count as nat, size as nat, r@),
{
    let mut r: Vec<(usize, usize)> = Vec::new();
    let mut lo: usize = 0;
    while lo < count
        invariant
            size > 0,
            lo <= count,
            r@.len() == 0 <==> lo == 0,
            r@.len() > 0 ==> r@[0].0 == 0 && r@.last().1 == lo,
            forall|k: int| 0 <= k < r@.len() ==> (#[trigger] r@[k]).0 < r@[k].1 == r@[k].0 + size,
            forall|k: int| 0 <= k < r@.len() - 1 ==> (#[trigger] r@[k + 1]).0 == r@[k].1,
        decreases count - lo,
    {
        let left = count - lo;
        if left <= size {
            r.push((lo, count));
            return r;
        }
        let hi = lo + size;
        r.push((lo, hi));
        lo = hi;
    }
    r
}

/// The builder of the graph of one vault.
pub struct GraphBuilder<'a, N> where N: Note {
    vault: &'a Vault<N>,
}

impl<'a, N: Note> GraphBuilder<'a, N> {
    /// The vault whose graph is built.
    pub closed spec fn vault(&self) -> Vault<N> {
        *self.vault
    }

    /// The builder of the graph of `vault`.
    pub fn new(vault: &'a Vault<N>) -> (builder: Self)
        ensures
            builder.vault() == *vault,
    {
        GraphBuilder { vault }
    }

    /// The index of the vault, and the full key of each note.
    pub fn create_index(&self) -> (r: (Index, Vec<String>))
        requires
            self.vault().located(),
        ensures
            r.0@ == self.vault().index(),
            strings_of(r.1@) == self.vault().full_keys(),
    {
        let notes = self.vault.notes();
        let root = self.vault.path();
        let ghost fulls = self.vault().full_keys();
        let ghost shorts = self.vault().short_keys();
        let mut index = Index::default();
        let mut keys: Vec<String> = Vec::new();
        let mut i: usize = 0;
        while i < notes.len()
            invariant
                i <= notes.len(),
                notes@ == self.vault()@,
                root@ == self.vault().root(),
                self.vault().located(),
                fulls == self.vault().full_keys(),
                shorts == self.vault().short_keys(),
                index@ == index_upto(fulls, shorts, i as int),
                strings_of(keys@) == fulls.take(i as int),
            decreases notes.len() - i,
        {
            let note = &notes[i];
            let location = match note.path() {
                Some(p) => p,
                None => {
                    unreached()
                },
            };
            let path = cow_str(&location);
            let full = match full_key_of(root, path) {
                Some(full) => full,
                None => {
                    unreached()
                },
            };
            let short = note_name_of(path);
            let ghost before = keys@;
            keys.push(full.clone());
            index.insert(full, short, i);
            proof {
                assert(strings_of(keys@) =~= strings_of(before).push(full@));
            }
            i += 1;
        }
        (index, keys)
    }

    /// The edges that the links in `content` give to the node `from`, added
    /// behind `edges`.
    fn note_edges(index: &Index, from: usize, content: &str, edges: &mut Vec<(usize, usize)>)
        ensures
            final(edges)@ == old(edges)@ + edges_of_note(index@, from, content@),
    {
        let targets = parse_links(content);
        let ghost all = links(content@);
        let ghost start = edges@;
        let mut k: usize = 0;
        while k < targets.len()
            invariant
                k <= targets.len(),
                texts_of(targets@) == all,
                edges@ == start + resolved(index@, all.take(k as int)).map_values(
                    |to: usize| (from, to),
                ),
            decreases targets.len() - k,
        {
            let target = targets[k];
            proof {
                assert(all.take(k + 1) =~= all.take(k as int).push(target@));
                lemma_resolved_push(index@, all.take(k as int), target@);
            }
            match index.get(target) {
                Some(to) => {
                    edges.push((from, *to));
                },
                None => {},
            }
            k += 1;
        }
        assert(all.take(k as int) =~= all);
    }

    /// The edges of the notes from position `lo` up to position `hi`: the
    /// work on one batch of notes. It stops at the first note whose content
    /// cannot be read, with the error of that note.
    pub fn batch_edges(&self, index: &Index, fulls: &Vec<String>, lo: usize, hi: usize) -> (r:
        Result<Vec<(usize, usize)>, N::Error>)
        requires
            lo <= hi <= self.vault()@.len(),
            index@ == self.vault().index(),
            strings_of(fulls@) == self.vault().full_keys(),
        ensures
            match r {
                Ok(edges) => exists|contents: Seq<Seq<char>>| #[trigger]
                    read_as(self.vault()@.subrange(lo as int, hi as int), contents) && edges@
                        == edges_of_notes(
                        self.vault().index(),
                        self.vault().full_keys().skip(lo as int),
                        contents,
                    ),
                Err(e) => exists|i: int|
                    i < hi && #[trigger] stops_at(self.vault()@, lo as int, i, Err(e)),
            },
            r matches Ok(edges) ==> edges_below(edges@, self.vault()@.len()),
    {
        let notes = self.vault.notes();
        let ghost keys = strings_of(fulls@).skip(lo as int);
        let ghost mut contents: Seq<Seq<char>> = Seq::empty();
        let mut edges: Vec<(usize, usize)> = Vec::new();
        let mut i: usize = lo;
        proof {
            lemma_index_has_full_keys(
                self.vault().full_keys(),
                self.vault().short_keys(),
                notes.len() as int,
            );
        }
        while i < hi
            invariant
                lo <= i <= hi <= notes.len(),
                notes@ == self.vault()@,
                fulls@.len() == notes.len(),
                keys == strings_of(fulls@).skip(lo as int),
                forall|j: int| 0 <= j < notes.len() ==> index@.full.contains_key(#[trigger] strings_of(fulls@)[j]),
                read_as(notes@.subrange(lo as int, i as int), contents),
                edges@ == edges_of_notes(index@, keys, contents),
            decreases hi - i,
        {
            let note = &notes[i];
            let ghost before = contents;
            match index.full(fulls[i].as_str()) {
                Some(from) => {
                    match note.content() {
                        Ok(content) => {
                            let text = cow_str(&content);
                            Self::note_edges(index, *from, text, &mut edges);
                            proof {
                                contents = before.push(text@);
                            }
                        },
                        Err(e) => {
                            assert(stops_at(notes@, lo as int, i as int, Err(e)));
                            let r = Err(e);
                            assert(r->Err_0 == e);
                            return r;
                        },
                    }
                },
                None => {
                    assert(index@.full.contains_key(strings_of(fulls@)[i as int]));
                    assert(false);
                },
            }
            proof {
                assert(contents.drop_last() =~= before);
            }
            i += 1;
        }
        proof {
            lemma_index_below(
                self.vault().full_keys(),
                self.vault().short_keys(),
                notes.len() as int,
            );
            lemma_edges_below(index@, keys, contents, notes.len() as nat);
        }
        Ok(edges)
    }

    /// The edges of all notes of the vault, note by note. It stops at the
    /// first note whose content cannot be read, with the error of that note.
    pub fn create_edges(&self, index: &Index, fulls: &Vec<String>) -> (r: Result<
        Vec<(usize, usize)>,
        N::Error,
    >)
        requires
            index@ == self.vault().index(),
            strings_of(fulls@) == self.vault().full_keys(),
        ensures
            match r {
                Ok(edges) => exists|contents: Seq<Seq<char>>| #[trigger]
                    read_as(self.vault()@, contents) && edges@ == self.vault().edges(contents),
                Err(e) => exists|i: int| #[trigger] stops_at(self.vault()@, 0, i, Err(e)),
            },
            r matches Ok(edges) ==> edges_below(edges@, self.vault()@.len()),
    {
        let n = self.vault.count_notes();
        proof {
            assert(self.vault()@.subrange(0, n as int) =~= self.vault()@);
            assert(self.vault().full_keys().skip(0) =~= self.vault().full_keys());
        }
        let r = self.batch_edges(index, fulls, 0, n);
        proof {
            if r is Err {
                assert(exists|k: int| #[trigger] stops_at(self.vault()@, 0, k, Err(r->Err_0)));
            }
        }
        r
    }

    /// The directed graph of the vault: a node for each note, in the order of
    /// the notes, and an edge from a note to each note that one of its links
    /// names, in the order of the notes and of their links.
    pub fn build(self) -> (r: Result<NoteDiGraph, N::Error>)
        requires
            self.vault().located(),
        ensures
            match r {
                Ok(g) => digraph_nodes(g) == positions(self.vault()@.len()) && exists|
                    contents: Seq<Seq<char>>,
                | #[trigger]
                    read_as(self.vault()@, contents) && digraph_edges(g) == self.vault().edges(
                        contents,
                    ),
                Err(e) => exists|i: int| #[trigger] stops_at(self.vault()@, 0, i, Err(e)),
            },
    {
        let (index, fulls) = self.create_index();
        match self.create_edges(&index, &fulls) {
            Ok(edges) => {
                let mut graph = digraph_with_nodes(self.vault.count_notes());
                digraph_absorb(&mut graph, &edges);
                Ok(graph)
            },
            Err(e) => {
                assert(exists|k: int| #[trigger] stops_at(self.vault()@, 0, k, Err(e)));
                let r = Err(e);
                assert(r->Err_0 == e);
                r
            },
        }
    }

    /// The undirected graph of the vault: a node for each note, in the order
    /// of the notes, and an edge between a note and each note that one of its
    /// links names, in the order of the notes and of their links.
    pub fn build_undirected(self) -> (r: Result<NoteUnGraph, N::Error>)
        requires
            self.vault().located(),
        ensures
            match r {
                Ok(g) => ungraph_nodes(g) == positions(self.vault()@.len()) && exists|
                    contents: Seq<Seq<char>>,
                | #[trigger]
                    read_as(self.vault()@, contents) && ungraph_edges(g) == self.vault().edges(
                        contents,
                    ),
                Err(e) => exists|i: int| #[trigger] stops_at(self.vault()@, 0, i, Err(e)),
            },
    {
        let (index, fulls) = self.create_index();
        match self.create_edges(&index, &fulls) {
            Ok(edges) => {
                let mut graph = ungraph_with_nodes(self.vault.count_notes());
                ungraph_absorb(&mut graph, &edges);
                Ok(graph)
            },
            Err(e) => {
                assert(exists|k: int| #[trigger] stops_at(self.vault()@, 0, k, Err(e)));
                let r = Err(e);
                assert(r->Err_0 == e);
                r
            },
        }
    }
}

/// A directed graph of `n` nodes without edges: a node for each of `n` notes.
pub fn digraph_with_nodes(n: usize) -> (graph: NoteDiGraph)
    ensures
        digraph_nodes(graph) == positions(n as nat),
        digraph_edges(graph) == Seq::<(usize, usize)>::empty(),
{
    let mut graph = digraph_new();
    let mut i: usize = 0;
    while i < n
        invariant
            i <= n,
            digraph_nodes(graph) == positions(i as nat),
            digraph_edges(graph) == Seq::<(usize, usize)>::empty(),
        decreases n - i,
    {
        let _ = digraph_add_node(&mut graph, i);
        i += 1;
    }
    graph
}

/// Adds the edges of a batch to a directed graph, in their order.
pub fn digraph_absorb(graph: &mut NoteDiGraph, edges: &Vec<(usize, usize)>)
    requires
        edges_below(edges@, digraph_nodes(*old(graph)).len()),
    ensures
        digraph_nodes(*final(graph)) == digraph_nodes(*old(graph)),
        digraph_edges(*final(graph)) == digraph_edges(*old(graph)) + edges@,
{
    let mut k: usize = 0;
    while k < edges.len()
        invariant
            k <= edges.len(),
            edges_below(edges@, digraph_nodes(*old(graph)).len()),
            digraph_nodes(*graph) == digraph_nodes(*old(graph)),
            digraph_edges(*graph) == digraph_edges(*old(graph)) + edges@.take(k as int),
        decreases edges.len() - k,
    {
        let (a, b) = edges[k];
        digraph_add_edge(graph, a, b);
        k += 1;
    }
}

/// What the one who gathers the batches does with a batch that arrives:
/// its edges are added to the graph, as long as no error has arrived; an
/// error that arrives is kept, unless one was kept before; and once an error
/// is kept, the graph stays as it is.
pub fn digraph_receive<E>(
    graph: &mut NoteDiGraph,
    so_far: Result<(), E>,
    received: Result<Vec<(usize, usize)>, E>,
) -> (r: Result<(), E>)
    requires
        received matches Ok(edges) ==> edges_below(edges@, digraph_nodes(*old(graph)).len()),
    ensures
        digraph_nodes(*final(graph)) == digraph_nodes(*old(graph)),
        match (so_far, received) {
            (Ok(_), Ok(edges)) => r is Ok && digraph_edges(*final(graph)) == digraph_edges(
                *old(graph),
            ) + edges@,
            (Ok(_), Err(e)) => r == Err::<(), E>(e) && digraph_edges(*final(graph))
                == digraph_edges(*old(graph)),
            (Err(e), _) => r == Err::<(), E>(e) && digraph_edges(*final(graph)) == digraph_edges(
                *old(graph),
            ),
        },
{
    match so_far {
        Err(e) => Err(e),
        Ok(done) => match received {
            Ok(edges) => {
                digraph_absorb(graph, &edges);
                Ok(done)
            },
            Err(e) => Err(e),
        },
    }
}

/// What the one who gathers the batches does with a batch that arrives, for
/// an undirected graph.
pub fn ungraph_receive<E>(
    graph: &mut NoteUnGraph,
    so_far: Result<(), E>,
    received: Result<Vec<(usize, usize)>, E>,
) -> (r: Result<(), E>)
    requires
        received matches Ok(edges) ==> edges_below(edges@, ungraph_nodes(*old(graph)).len()),
    ensures
        ungraph_nodes(*final(graph)) == ungraph_nodes(*old(graph)),
        match (so_far, received) {
            (Ok(_), Ok(edges)) => r is Ok && ungraph_edges(*final(graph)) == ungraph_edges(
                *old(graph),
            ) + edges@,
            (Ok(_), Err(e)) => r == Err::<(), E>(e) && ungraph_edges(*final(graph))
                == ungraph_edges(*old(graph)),
            (Err(e), _) => r == Err::<(), E>(e) && ungraph_edges(*final(graph)) == ungraph_edges(
                *old(graph),
            ),
        },
{
    match so_far {
        Err(e) => Err(e),
        Ok(done) => match received {
            Ok(edges) => {
                ungraph_absorb(graph, &edges);
                Ok(done)
            },
            Err(e) => Err(e),
        },
    }
}

/// Two batches that arrive one after the other give the same edges in
/// either order, but for the order of the edges: the graph does not depend
/// on which batch is done first.
pub proof fn lemma_batches_in_any_order(
    before: Seq<(usize, usize)>,
    first: Seq<(usize, usize)>,
    second: Seq<(usize, usize)>,
)
    ensures
        (before + first + second).to_multiset() == (before + second + first).to_multiset(),
{
    lemma_multiset_commutative(before + first, second);
    lemma_multiset_commutative(before, first);
    lemma_multiset_commutative(before + second, first);
    lemma_multiset_commutative(before, second);
    assert((before + first + second).to_multiset() =~= (before + second + first).to_multiset());
}

/// An undirected graph of `n` nodes without edges: a node for each of `n` notes.
pub fn ungraph_with_nodes(n: usize) -> (graph: NoteUnGraph)
    ensures
        ungraph_nodes(graph) == positions(n as nat),
        ungraph_edges(graph) == Seq::<(usize, usize)>::empty(),
{
    let mut graph = ungraph_new();
    let mut i: usize = 0;
    while i < n
        invariant
            i <= n,
            ungraph_nodes(graph) == positions(i as nat),
            ungraph_edges(graph) == Seq::<(usize, usize)>::empty(),
        decreases n - i,
    {
        let _ = ungraph_add_node(&mut graph, i);
        i += 1;
    }
    graph
}

/// Adds the edges of a batch to an undirected graph, in their order.
pub fn ungraph_absorb(graph: &mut NoteUnGraph, edges: &Vec<(usize, usize)>)
    requires
        edges_below(edges@, ungraph_nodes(*old(graph)).len()),
    ensures
        ungraph_nodes(*final(graph)) == ungraph_nodes(*old(graph)),
        ungraph_edges(*final(graph)) == ungraph_edges(*old(graph)) + edges@,
{
    let mut k: usize = 0;
    while k < edges.len()
        invariant
            k <= edges.len(),
            edges_below(edges@, ungraph_nodes(*old(graph)).len()),
            ungraph_nodes(*graph) == ungraph_nodes(*old(graph)),
            ungraph_edges(*graph) == ungraph_edges(*old(graph)) + edges@.take(k as int),
        decreases edges.len() - k,
    {
        let (a, b) = edges[k];
        ungraph_add_edge(graph, a, b);
        k += 1;
    }
}

} // verus!
