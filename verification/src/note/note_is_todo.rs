//! Whether a note is marked as something to do.

use crate::note::note_tags::{tags_may_be, todo, NoteTags};
use crate::text::str_equal;
use crate::vault::vault_petgraph::graph_builder::strings_of;
use vstd::prelude::*;

verus! {

/// A note that may be marked as something to do.
pub trait NoteIsTodo: NoteTags {
    /// Whether `todo` is among the tags of the note. Fails where the tags
    /// cannot be had.
    fn is_todo(&self) -> (r: Result<bool, Self::Error>)
        ensures
            match r {
                Ok(marked) => exists|tags: Seq<Seq<char>>| #[trigger]
                    tags_may_be(self, Ok(tags)) && marked == tags.contains(todo()),
                Err(e) => tags_may_be(self, Err(e)),
            },
    {
        let tags = match self.tags() {
            Ok(tags) => tags,
            Err(e) => {
                return Err(e);
            },
        };
        let ghost all = strings_of(tags@);
        assert(tags_may_be(self, Ok(all)));
        let mut i: usize = 0;
        while i < tags.len()
            invariant
                i <= tags.len(),
                all == strings_of(tags@),
                tags_may_be(self, Ok(all)),
                forall|j: int| 0 <= j < i ==> all[j] != todo(),
            decreases tags.len() - i,
        {
            proof {
                reveal_strlit("todo");
                assert("todo"@ =~= todo());
            }
            if str_equal(tags[i].as_str(), "todo") {
                assert(all[i as int] == tags@[i as int]@);
                assert(all.contains(todo()));
                return Ok(true);
            }
            assert(all[i as int] == tags@[i as int]@);
            i += 1;
        }
        Ok(false)
    }
}

impl<N: NoteTags> NoteIsTodo for N {

}

} // verus!
