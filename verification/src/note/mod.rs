//! A note: a text with an optional metadata block, and where it came from.
//!
//! The ways of keeping a note differ in when its text is read. What they
//! share is the trait [`Note`].

pub mod note_aliases;
pub mod note_in_memory;
pub mod note_is_todo;
pub mod note_on_disk;
pub mod note_once_lock;
pub mod note_tags;

use crate::parser::{parse, Parsed};
use crate::path::{note_name, note_name_of};
use crate::text::{count_words, word_count};
use std::borrow::Cow;
use std::collections::HashMap;
use vstd::prelude::*;
use vstd::utf8::encode_utf8;

verus! {

/// The metadata of a note whose keys are not known in advance.
pub type DefaultProperties = HashMap<String, serde_yml::Value>;

/// The content of a note with the text `t`: what follows the metadata block,
/// or all of `t` where it has none.
pub open spec fn body_of(t: Seq<char>) -> Seq<char> {
    match parse(t) {
        Parsed::Split { properties, content } => content,
        _ => t,
    }
}

/// The value that `c` holds, borrowed or owned.
pub open spec fn cow_value<T: Clone>(c: Cow<'_, T>) -> T {
    match c {
        Cow::Borrowed(b) => *b,
        Cow::Owned(o) => o,
    }
}

/// What an answer to the question for the content holds.
pub open spec fn body_answered<E>(r: Result<Cow<'_, str>, E>) -> Result<Seq<char>, E> {
    match r {
        Ok(c) => Ok(c@),
        Err(e) => Err(e),
    }
}

/// An answer to the question for the metadata, with the metadata by value.
pub open spec fn metadata_answered<T: Clone, E>(r: Result<Option<Cow<'_, T>>, E>) -> Result<
    Option<T>,
    E,
> {
    match r {
        Ok(Some(p)) => Ok(Some(cow_value(p))),
        Ok(None) => Ok(None),
        Err(e) => Err(e),
    }
}

/// The text that `c` holds.
pub fn cow_str<'a>(c: &'a Cow<'_, str>) -> (r: &'a str)
    ensures
        r@ == c@,
{
    match c {
        Cow::Borrowed(b) => b,
        Cow::Owned(o) => o.as_str(),
    }
}

/// A note: its metadata, its content and where it came from.
///
/// A note that reads its source when asked may answer differently each
/// time. So the contracts speak of the answers that a note may give:
/// `body_may_be` and `metadata_may_be` say which those are.
///
/// A kind of note of its own implements the three methods without a body.
/// What is proved of a vault is proved of its notes by what they say of
/// themselves in `location`, `body_may_be` and `metadata_may_be`; a kind of
/// note that leaves those as they are says that it came from nowhere and may
/// answer anything.
pub trait Note: Sized {
    /// The decoded metadata.
    type Properties: Clone;

    /// What reading the note can fail with.
    type Error;

    /// Where the note came from. A note made from a text alone came from nowhere.
    open spec fn location(&self) -> Option<Seq<char>> {
        None
    }

    /// Whether asking for the content may come back with `outcome`. A note
    /// that says nothing else may answer anything.
    open spec fn body_may_be(&self, outcome: Result<Seq<char>, Self::Error>) -> bool {
        true
    }

    /// Whether asking for the metadata may come back with `outcome`. A note
    /// that says nothing else may answer anything.
    open spec fn metadata_may_be(
        &self,
        outcome: Result<Option<Self::Properties>, Self::Error>,
    ) -> bool {
        true
    }

    /// The metadata of the note, or `None` where it has no metadata block.
    fn properties(&self) -> (r: Result<Option<Cow<'_, Self::Properties>>, Self::Error>)
        ensures
            match r {
                Ok(Some(p)) => self.metadata_may_be(Ok(Some(cow_value(p)))),
                Ok(None) => self.metadata_may_be(Ok(None)),
                Err(e) => self.metadata_may_be(Err(e)),
            },
    ;

    /// The content of the note: its text without the metadata block.
    fn content(&self) -> (r: Result<Cow<'_, str>, Self::Error>)
        ensures
            match r {
                Ok(c) => self.body_may_be(Ok(c@)),
                Err(e) => self.body_may_be(Err(e)),
            },
    ;

    /// Where the note came from.
    fn path(&self) -> (r: Option<Cow<'_, str>>)
        ensures
            match r {
                Some(p) => self.location() == Some(p@),
                None => self.location() is None,
            },
    ;

    /// The name of the note: the file name of its location, without the
    /// extension.
    fn note_name(&self) -> (r: Option<String>)
        ensures
            match r {
                Some(name) => self.location() matches Some(p) && name@ == note_name(p),
                None => self.location() is None,
            },
    {
        match self.path() {
            Some(p) => Some(note_name_of(cow_str(&p))),
            None => None,
        }
    }

    /// The number of words in the content.
    fn count_words_from_content(&self) -> (r: Result<usize, Self::Error>)
        ensures
            match r {
                Ok(n) => exists|c: Seq<char>| self.body_may_be(Ok(c)) && n == word_count(c),
                Err(e) => self.body_may_be(Err(e)),
            },
    {
        match self.content() {
            Ok(c) => Ok(count_words(cow_str(&c))),
            Err(e) => Err(e),
        }
    }

    /// The length of the content, in bytes of UTF-8.
    fn count_symbols_from_content(&self) -> (r: Result<usize, Self::Error>)
        ensures
            match r {
                Ok(n) => exists|c: Seq<char>|
                    self.body_may_be(Ok(c)) && n == encode_utf8(c).len() as usize,
                Err(e) => self.body_may_be(Err(e)),
            },
    {
        match self.content() {
            Ok(c) => Ok(cow_str(&c).len()),
            Err(e) => Err(e),
        }
    }
}

/// A note that can be made from its text.
pub trait NoteFromString: Note {
    /// Makes the note from `raw_text`. It fails where the text opens a
    /// metadata block and does not close it, and it does not fail where the
    /// text has no metadata block.
    fn from_string(raw_text: &str) -> (r: Result<Self, Self::Error>)
        ensures
            parse(raw_text@) is Malformed ==> r is Err,
            parse(raw_text@) is Plain ==> r is Ok,
            r matches Ok(note) ==> note.location() is None && note.body_may_be(
                Ok(body_of(raw_text@)),
            ),
    ;
}

} // verus!
