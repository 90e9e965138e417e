//! The notes of a vault that have the name, or the content, of another note.
//!
//! Every note of a group with the same name is reported, the first of them
//! too. The notes come out ordered by what they share, and in the order of
//! the vault where they share the same.

use crate::note::{cow_str, Note};
use crate::order::{duplicates_by_key, is_duplicates, key_views, shares_key};
use crate::path::note_name;
use crate::vault::vault_petgraph::graph_builder::{read_as, stops_at};
use crate::vault::Vault;
use vstd::prelude::*;
use vstd::string::StrSliceExecFns;
use vstd::utf8::{encode_utf8, encode_utf8_decode_utf8};

verus! {

/// Whether `r` holds the notes at the positions `at`, in that order.
pub open spec fn picked<N>(notes: Seq<N>, at: Seq<usize>, r: Seq<&N>) -> bool {
    &&& r.len() == at.len()
    &&& forall|k: int| 0 <= k < at.len() ==> *(#[trigger] r[k]) == notes[at[k] as int]
}

/// Whether `key` is a digest that `digest` may give for the text `content`.
pub open spec fn digest_of<F: Fn(&[u8]) -> Vec<u8>>(
    digest: F,
    content: Seq<char>,
    key: Seq<u8>,
) -> bool {
    exists|bytes: &[u8], out: Vec<u8>| #[trigger]
        call_ensures(digest, (bytes,), out) && bytes@ == encode_utf8(content) && out@ == key
}

/// Whether `keys` holds, for each note, a digest of a content that the note
/// may give.
pub open spec fn digested<N: Note, F: Fn(&[u8]) -> Vec<u8>>(
    notes: Seq<N>,
    digest: F,
    keys: Seq<Option<Seq<u8>>>,
) -> bool {
    &&& keys.len() == notes.len()
    &&& forall|i: int|
        0 <= i < notes.len() ==> (#[trigger] keys[i]) is Some && exists|content: Seq<char>|
            #[trigger] notes[i].body_may_be(Ok(content)) && digest_of(
                digest,
                content,
                keys[i].unwrap(),
            )
}

impl<N: Note> Vault<N> {
    /// The key of each note by its name: the bytes of the name, and none for
    /// a note without a location.
    pub open spec fn name_keys(&self) -> Seq<Option<Seq<u8>>> {
        Seq::new(
            self@.len(),
            |i: int|
                match self@[i].location() {
                    Some(p) => Some(encode_utf8(note_name(p))),
                    None => None,
                },
        )
    }

    /// The notes at the positions `at`.
    fn pick(&self, at: &Vec<usize>) -> (r: Vec<&N>)
        requires
            forall|k: int| 0 <= k < at@.len() ==> (#[trigger] at@[k]) < self@.len(),
        ensures
            picked(self@, at@, r@),
    {
        let notes = self.notes();
        let mut out: Vec<&N> = Vec::new();
        let mut k: usize = 0;
        while k < at.len()
            invariant
                k <= at.len(),
                notes@ == self@,
                forall|j: int| 0 <= j < at@.len() ==> (#[trigger] at@[j]) < self@.len(),
                out@.len() == k,
                forall|j: int| 0 <= j < k ==> *(#[trigger] out@[j]) == notes@[at@[j] as int],
            decreases at.len() - k,
        {
            out.push(&notes[at[k]]);
            k += 1;
        }
        out
    }

    /// The positions of the notes whose name another note has too, ordered
    /// by name, and by position where the names are the same.
    pub fn duplicate_positions_by_name(&self) -> (r: Vec<usize>)
        ensures
            is_duplicates(self.name_keys(), r@),
    {
        let notes = self.notes();
        let mut keys: Vec<Option<Vec<u8>>> = Vec::new();
        let mut i: usize = 0;
        while i < notes.len()
            invariant
                i <= notes.len(),
                notes@ == self@,
                keys@.len() == i,
                forall|j: int| 0 <= j < i ==> key_views(keys@)[j] == self.name_keys()[j],
            decreases notes.len() - i,
        {
            let key = match notes[i].note_name() {
                Some(name) => Some(name.as_str().as_bytes_vec()),
                None => None,
            };
            keys.push(key);
            i += 1;
        }
        duplicates_by_key(&keys)
    }

    /// The notes whose name another note has too: every note of each group of
    /// notes with the same name, ordered by name, and in the order of the
    /// vault where the names are the same. Notes without a location have no
    /// name and are left out.
    #[must_use]
    pub fn get_duplicates_notes_by_name(&self) -> (r: Vec<&N>)
        ensures
            exists|at: Seq<usize>| #[trigger]
                is_duplicates(self.name_keys(), at) && picked(self@, at, r@),
    {
        let at = self.duplicate_positions_by_name();
        self.pick(&at)
    }

    /// Whether any two notes of the vault have the same name.
    #[must_use]
    pub fn have_duplicates_notes_by_name(&self) -> (b: bool)
        ensures
            b == exists|x: int| shares_key(self.name_keys(), x),
    {
        let at = self.duplicate_positions_by_name();
        let n = self.count_notes();
        proof {
            assert(self.name_keys().len() == n);
            if at@.len() > 0 {
                assert(at@.contains(at@[0]));
            }
        }
        at.len() > 0
    }

    /// The positions of the notes whose content has the digest of the
    /// content of another note, ordered by digest, and by position where the
    /// digests are the same. Fails with the error of the first note whose
    /// content cannot be read.
    pub fn duplicate_positions_by_content<F: Fn(&[u8]) -> Vec<u8>>(&self, digest: F) -> (r: Result<
        Vec<usize>,
        N::Error,
    >)
        requires
            forall|bytes: &[u8]| call_requires(digest, (bytes,)),
        ensures
            match r {
                Ok(at) => exists|keys: Seq<Option<Seq<u8>>>| #[trigger]
                    digested(self@, digest, keys) && is_duplicates(keys, at@),
                Err(e) => exists|i: int| #[trigger] stops_at(self@, 0, i, Err(e)),
            },
            r matches Ok(at) ==> forall|k: int|
                0 <= k < at@.len() ==> (#[trigger] at@[k]) < self@.len(),
    {
        let notes = self.notes();
        let mut keys: Vec<Option<Vec<u8>>> = Vec::new();
        let ghost mut contents: Seq<Seq<char>> = Seq::empty();
        let mut i: usize = 0;
        while i < notes.len()
            invariant
                i <= notes.len(),
                notes@ == self@,
                forall|bytes: &[u8]| call_requires(digest, (bytes,)),
                digested(self@.take(i as int), digest, key_views(keys@)),
                read_as(self@.subrange(0, i as int), contents),
            decreases notes.len() - i,
        {
            let ghost before = keys@;
            let ghost read = contents;
            match notes[i].content() {
                Ok(content) => {
                    let text = cow_str(&content);
                    let bytes = text.as_bytes();
                    let key = digest(bytes);
                    keys.push(Some(key));
                    proof {
                        contents = read.push(text@);
                        assert forall|j: int| 0 <= j < i + 1 implies (#[trigger] self@.subrange(
                            0,
                            i + 1,
                        )[j]).body_may_be(Ok(contents[j])) by {
                            if j < i {
                                assert(self@.subrange(0, i as int)[j].body_may_be(Ok(read[j])));
                            }
                        }
                        let now = self@.take(i + 1);
                        let views = key_views(keys@);
                        assert forall|j: int| 0 <= j < now.len() implies (#[trigger] views[j])
                            is Some && exists|content: Seq<char>| #[trigger]
                            now[j].body_may_be(Ok(content)) && digest_of(
                                digest,
                                content,
                                views[j].unwrap(),
                            ) by {
                            if j < i {
                                let c = choose|content: Seq<char>| #[trigger]
                                    self@.take(i as int)[j].body_may_be(Ok(content)) && digest_of(
                                        digest,
                                        content,
                                        key_views(before)[j].unwrap(),
                                    );
                                assert(now[j].body_may_be(Ok(c)));
                            } else {
                                assert(now[j].body_may_be(Ok(text@)));
                            }
                        }
                    }
                },
                Err(e) => {
                    assert(stops_at(self@, 0, i as int, Err(e)));
                    let r = Err(e);
                    assert(r->Err_0 == e);
                    return r;
                },
            }
            i += 1;
        }
        assert(self@.take(i as int) =~= self@);
        let at = duplicates_by_key(&keys);
        Ok(at)
    }

    /// The notes whose content has the digest of the content of another
    /// note: every note of each group of notes with the same digest. Fails
    /// with the error of the first note whose content cannot be read.
    pub fn get_duplicates_notes_by_content<F: Fn(&[u8]) -> Vec<u8>>(&self, digest: F) -> (r: Result<
        Vec<&N>,
        N::Error,
    >)
        requires
            forall|bytes: &[u8]| call_requires(digest, (bytes,)),
        ensures
            match r {
                Ok(found) => exists|keys: Seq<Option<Seq<u8>>>, at: Seq<usize>| #[trigger]
                    digested(self@, digest, keys) && #[trigger] is_duplicates(keys, at) && picked(
                        self@,
                        at,
                        found@,
                    ),
                Err(e) => exists|i: int| #[trigger] stops_at(self@, 0, i, Err(e)),
            },
    {
        match self.duplicate_positions_by_content(digest) {
            Ok(at) => {
                let found = self.pick(&at);
                Ok(found)
            },
            Err(e) => {
                assert(exists|k: int| #[trigger] stops_at(self@, 0, k, Err(e)));
                let r = Err(e);
                assert(r->Err_0 == e);
                r
            },
        }
    }

    /// Whether the contents of any two notes of the vault have the same
    /// digest. Fails with the error of the first note whose content cannot
    /// be read.
    pub fn have_duplicates_notes_by_content<F: Fn(&[u8]) -> Vec<u8>>(&self, digest: F) -> (r: Result<
        bool,
        N::Error,
    >)
        requires
            forall|bytes: &[u8]| call_requires(digest, (bytes,)),
        ensures
            match r {
                Ok(b) => exists|keys: Seq<Option<Seq<u8>>>| #[trigger]
                    digested(self@, digest, keys) && b == exists|x: int| shares_key(keys, x),
                Err(e) => exists|i: int| #[trigger] stops_at(self@, 0, i, Err(e)),
            },
    {
        let n = self.count_notes();
        match self.duplicate_positions_by_content(digest) {
            Ok(at) => {
                proof {
                    assert(self@.len() == n);
                    if at@.len() > 0 {
                        assert(at@.contains(at@[0]));
                    }
                }
                Ok(at.len() > 0)
            },
            Err(e) => {
                assert(exists|k: int| #[trigger] stops_at(self@, 0, k, Err(e)));
                let r = Err(e);
                assert(r->Err_0 == e);
                r
            },
        }
    }
}

/// Two names have the same bytes only where they are the same name.
pub proof fn lemma_name_key_injective(a: Seq<char>, b: Seq<char>)
    requires
        encode_utf8(a) == encode_utf8(b),
    ensures
        a == b,
{
    encode_utf8_decode_utf8(a);
    encode_utf8_decode_utf8(b);
}

/// Two notes with the same name are both among the notes that share their
/// name: neither is left out for being the first.
pub proof fn lemma_same_name_is_found<N: Note>(vault: Vault<N>, i: int, j: int, found: Seq<usize>)
    requires
        0 <= i < vault@.len() <= usize::MAX,
        0 <= j < vault@.len(),
        i != j,
        vault@[i].location() is Some,
        vault@[j].location() is Some,
        note_name(vault@[i].location().unwrap()) == note_name(vault@[j].location().unwrap()),
        is_duplicates(vault.name_keys(), found),
    ensures
        found.contains(i as usize),
        found.contains(j as usize),
{
    let keys = vault.name_keys();
    assert(keys[j] == keys[i]);
}

/// In a vault where no two notes have the same name, no note shares its name.
pub proof fn lemma_distinct_names_none_found<N: Note>(vault: Vault<N>, found: Seq<usize>)
    requires
        forall|i: int, j: int|
            0 <= i < j < vault@.len() && (#[trigger] vault@[i]).location() is Some && (
            #[trigger] vault@[j]).location() is Some ==> note_name(vault@[i].location().unwrap())
                != note_name(vault@[j].location().unwrap()),
        is_duplicates(vault.name_keys(), found),
    ensures
        found.len() == 0,
        !exists|x: int| shares_key(vault.name_keys(), x),
{
    let keys = vault.name_keys();
    assert forall|x: int| !shares_key(keys, x) by {
        if shares_key(keys, x) {
            let y = choose|y: int| 0 <= y < keys.len() && y != x && #[trigger] keys[y] == keys[x];
            lemma_name_key_injective(
                note_name(vault@[x].location().unwrap()),
                note_name(vault@[y].location().unwrap()),
            );
        }
    }
    if found.len() > 0 {
        assert(found.contains(found[0]));
    }
}

/// Two notes with the same content are both among the notes that share
/// their digest, whatever the digest, as long as it gives one text one key.
pub proof fn lemma_same_content_is_found<N: Note, F: Fn(&[u8]) -> Vec<u8>>(
    vault: Vault<N>,
    digest: F,
    keys: Seq<Option<Seq<u8>>>,
    i: int,
    j: int,
    content: Seq<char>,
    found: Seq<usize>,
)
    requires
        0 <= i < vault@.len() <= usize::MAX,
        0 <= j < vault@.len(),
        i != j,
        forall|c: Seq<char>| #[trigger] vault@[i].body_may_be(Ok(c)) ==> c == content,
        forall|c: Seq<char>| #[trigger] vault@[j].body_may_be(Ok(c)) ==> c == content,
        forall|bytes: &[u8], other: &[u8], a: Vec<u8>, b: Vec<u8>|
            #![trigger call_ensures(digest, (bytes,), a), call_ensures(digest, (other,), b)]
            call_ensures(digest, (bytes,), a) && call_ensures(digest, (other,), b) && bytes@
                == other@ ==> a@ == b@,
        digested(vault@, digest, keys),
        is_duplicates(keys, found),
    ensures
        found.contains(i as usize),
        found.contains(j as usize),
{
    let ci = choose|c: Seq<char>| #[trigger]
        vault@[i].body_may_be(Ok(c)) && digest_of(digest, c, keys[i].unwrap());
    let cj = choose|c: Seq<char>| #[trigger]
        vault@[j].body_may_be(Ok(c)) && digest_of(digest, c, keys[j].unwrap());
    let (bi, oi) = choose|bytes: &[u8], out: Vec<u8>| #[trigger]
        call_ensures(digest, (bytes,), out) && bytes@ == encode_utf8(ci) && out@ == keys[i].unwrap();
    let (bj, oj) = choose|bytes: &[u8], out: Vec<u8>| #[trigger]
        call_ensures(digest, (bytes,), out) && bytes@ == encode_utf8(cj) && out@ == keys[j].unwrap();
}

} // verus!
