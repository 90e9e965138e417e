//! The aliases of a note: the other names that its metadata lists for it
//! under `aliases`.

use crate::note::note_tags::{list_answer, listed_may_be, listed_of, NoteFromYaml};
use vstd::prelude::*;

verus! {

/// A note that has aliases.
pub trait NoteAliases: NoteFromYaml {
    /// The aliases of the note: the texts that its metadata lists under
    /// `aliases`, and none where it lists none or the note has no metadata.
    /// Fails where the metadata cannot be read, or lists no texts there.
    fn aliases(&self) -> (r: Result<Vec<String>, Self::Error>)
        ensures
            listed_may_be(self, "aliases", list_answer(r)),
    {
        listed_of(self, "aliases")
    }

    /// The number of aliases of the note. Fails where the aliases cannot be
    /// had.
    fn count_aliases(&self) -> (r: Result<usize, Self::Error>)
        ensures
            match r {
                Ok(count) => exists|aliases: Seq<Seq<char>>| #[trigger]
                    listed_may_be(self, "aliases", Ok(aliases)) && count == aliases.len(),
                Err(e) => listed_may_be(self, "aliases", Err(e)),
            },
    {
        match self.aliases() {
            Ok(aliases) => {
                assert(listed_may_be(self, "aliases", Ok(list_answer::<Self::Error>(Ok(aliases))->Ok_0)));
                Ok(aliases.len())
            },
            Err(e) => Err(e),
        }
    }

    /// Whether the note has any alias. Fails where the aliases cannot be had.
    fn have_aliases(&self) -> (r: Result<bool, Self::Error>)
        ensures
            match r {
                Ok(any) => exists|aliases: Seq<Seq<char>>| #[trigger]
                    listed_may_be(self, "aliases", Ok(aliases)) && any == (aliases.len() != 0),
                Err(e) => listed_may_be(self, "aliases", Err(e)),
            },
    {
        match self.count_aliases() {
            Ok(count) => Ok(count != 0),
            Err(e) => Err(e),
        }
    }
}

impl<N: NoteFromYaml> NoteAliases for N {

}

} // verus!
