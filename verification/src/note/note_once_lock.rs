//! A note that reads its source when it is first asked and keeps what it
//! found.
//!
//! Content and metadata are kept apart, each in a cell that is filled once
//! and never emptied: an answer that was kept is given again, and an error
//! is not kept, so that the next question reads the source again.
//!
//! The cells are `std::sync::OnceLock`s, so one note can be asked from many
//! places at once. Where two of them find a cell empty, both read the
//! source; the cell keeps what the first to finish found, and both answer
//! with what the cell keeps.
//!
//! What a cell keeps carries the reading that it came from, so every answer
//! of the note is what some reading of a source gave. That two answers are
//! the same answer is what the cells do; it is not among what is proved.

use crate::note::note_on_disk::{
    body_answer, content_of_source, may_read, properties_of_source_with, read_body,
    read_metadata, typed_answer, SourceError,
};
use crate::note::{body_answered, body_of, metadata_answered, Note};
use crate::parser::{parse, ParseError};
use std::borrow::Cow;
use std::sync::OnceLock;
use vstd::prelude::*;

verus! {

/// `std::sync::OnceLock`: a cell that is filled at most once and, while it is
/// shared, never emptied.
#[verifier::external_type_specification]
#[verifier::external_body]
#[verifier::reject_recursive_types(T)]
pub struct ExOnceLock<T>(OnceLock<T>);

/// Calls `OnceLock::new`, which makes an empty cell. Nothing is claimed of
/// the cell.
#[verifier::external_body]
fn empty_cell<T>() -> OnceLock<T> {
    OnceLock::new()
}

/// Calls `OnceLock::get`, which gives what the cell is filled with, if it is
/// filled. Nothing is claimed of what comes back.
#[verifier::external_body]
fn cell_value<T>(cell: &OnceLock<T>) -> Option<&T> {
    cell.get()
}

/// Calls `OnceLock::get_or_init`, which fills an empty cell with `value` and
/// gives what the cell is filled with then: `value`, or what was there
/// before. The function handed over gives `value` and does nothing else, so
/// it cannot fail and does not ask the cell again. Nothing is claimed of
/// what comes back.
#[verifier::external_body]
fn cell_value_or<T>(cell: &OnceLock<T>, value: T) -> &T {
    cell.get_or_init(move || value)
}

/// A reading: who read, where, and what came of it.
pub type Reading<E, R> = (R, Seq<char>, Result<String, E>);

/// A content that a note keeps, with the reading that it came from.
#[verifier::reject_recursive_types(E)]
#[verifier::reject_recursive_types(R)]
pub struct KeptText<E, R: Fn(&str) -> Result<String, E>> {
    /// The content.
    text: String,
    /// The reading that gave the content.
    reading: Ghost<Reading<E, R>>,
}

impl<E, R: Fn(&str) -> Result<String, E>> KeptText<E, R> {
    /// The content is what the reading gave.
    #[verifier::type_invariant]
    spec fn came_of_reading(&self) -> bool {
        gave_body(self.reading@, Ok(self.text@))
    }

    /// The reading that gave the content.
    pub closed spec fn reading(&self) -> Reading<E, R> {
        self.reading@
    }
}

impl<E, R: Fn(&str) -> Result<String, E>> View for KeptText<E, R> {
    type V = Seq<char>;

    /// The content.
    closed spec fn view(&self) -> Seq<char> {
        self.text@
    }
}

/// The metadata that a note keeps, or the finding that it has none, with the
/// reading that it came from and the decoder that made it.
#[verifier::reject_recursive_types(E)]
#[verifier::reject_recursive_types(R)]
#[verifier::reject_recursive_types(T)]
#[verifier::reject_recursive_types(D)]
pub struct KeptMetadata<
    E,
    R: Fn(&str) -> Result<String, E>,
    T,
    D: Fn(&str) -> Result<T, serde_yml::Error>,
> {
    /// The metadata; `None` says that the note has none.
    found: Option<T>,
    /// The reading that gave the metadata.
    reading: Ghost<Reading<E, R>>,
    /// The decoder that made the metadata.
    decoder: Ghost<D>,
}

impl<
    E,
    R: Fn(&str) -> Result<String, E>,
    T,
    D: Fn(&str) -> Result<T, serde_yml::Error>,
> KeptMetadata<E, R, T, D> {
    /// The metadata is what the decoder made of what the reading gave.
    #[verifier::type_invariant]
    spec fn came_of_reading(&self) -> bool {
        gave_metadata(self.reading@, self.decoder@, Ok(self.found))
    }

    /// The reading that gave the metadata.
    pub closed spec fn reading(&self) -> Reading<E, R> {
        self.reading@
    }

    /// The decoder that made the metadata.
    pub closed spec fn decoder(&self) -> D {
        self.decoder@
    }
}

impl<
    E,
    R: Fn(&str) -> Result<String, E>,
    T,
    D: Fn(&str) -> Result<T, serde_yml::Error>,
> View for KeptMetadata<E, R, T, D> {
    type V = Option<T>;

    /// The metadata; `None` says that the note has none.
    closed spec fn view(&self) -> Option<T> {
        self.found
    }
}

/// Whether `reading` is a reading that may take place and to which `answer`
/// is the answer to the question for the content.
pub open spec fn gave_body<E, R: Fn(&str) -> Result<String, E>>(
    reading: Reading<E, R>,
    answer: Result<Seq<char>, SourceError<E>>,
) -> bool {
    may_read(reading.0, reading.1, reading.2) && body_answer(reading.2) == answer
}

/// Whether `reading` is a reading that may take place and to which `answer`
/// is an answer to the question for the metadata, with the decoder `decode`.
pub open spec fn gave_metadata<
    E,
    R: Fn(&str) -> Result<String, E>,
    T,
    D: Fn(&str) -> Result<T, serde_yml::Error>,
>(reading: Reading<E, R>, decode: D, answer: Result<Option<T>, SourceError<E>>) -> bool {
    may_read(reading.0, reading.1, reading.2) && typed_answer(decode, reading.2, answer)
}

/// Whether `outcome` is an answer to the question for the content that a
/// note may give that keeps what it found: a content is what some reading
/// gave, now or when it was kept; an error is what reading at `location`
/// with `read` gives now.
pub open spec fn kept_or_read_body<E, R: Fn(&str) -> Result<String, E>>(
    read: R,
    location: Seq<char>,
    outcome: Result<Seq<char>, SourceError<E>>,
) -> bool {
    if outcome is Ok {
        exists|reading: Reading<E, R>| #[trigger] gave_body(reading, outcome)
    } else {
        read_body(read, location, outcome)
    }
}

/// Whether `outcome` is an answer to the question for the metadata that a
/// note may give that keeps what it found: metadata, or the finding that
/// there is none, is what some decoder made of what some reading gave, now or
/// when it was kept; an error is what reading at `location` with `read` and
/// decoding with `decode` give now.
pub open spec fn kept_or_read_metadata<
    E,
    R: Fn(&str) -> Result<String, E>,
    T,
    D: Fn(&str) -> Result<T, serde_yml::Error>,
>(read: R, decode: D, location: Seq<char>, outcome: Result<Option<T>, SourceError<E>>) -> bool {
    if outcome is Ok {
        exists|reading: Reading<E, R>, decoder: D| #[trigger]
            gave_metadata(reading, decoder, outcome)
    } else {
        read_metadata(read, decode, location, outcome)
    }
}

/// What a note found when it was asked: what its cell keeps, or what it has
/// read just now and has to keep.
pub enum Found<'a, K> {
    /// What the cell keeps.
    Kept(&'a K),
    /// What was read just now.
    Fresh(K),
}

/// A note that is read when first asked, and keeps the answer. Its metadata
/// is of the type `T`, made by the decoder the note is made with.
#[verifier::reject_recursive_types(E)]
#[verifier::reject_recursive_types(R)]
#[verifier::reject_recursive_types(T)]
#[verifier::reject_recursive_types(D)]
pub struct NoteOnceLock<
    E,
    R: Fn(&str) -> Result<String, E>,
    T,
    D: Fn(&str) -> Result<T, serde_yml::Error>,
> {
    /// The location of the source.
    path: String,
    /// The function that reads the source.
    read: R,
    /// The function that makes the metadata of the text of a metadata block.
    decode: D,
    /// The content, once it was found.
    content: OnceLock<KeptText<E, R>>,
    /// The metadata, once it was found.
    properties: OnceLock<KeptMetadata<E, R, T, D>>,
}

impl<
    E,
    R: Fn(&str) -> Result<String, E>,
    T,
    D: Fn(&str) -> Result<T, serde_yml::Error>,
> NoteOnceLock<E, R, T, D> {
    /// Every location can be read and every block can be decoded.
    #[verifier::type_invariant]
    spec fn asks_anything(&self) -> bool {
        &&& forall|path: &str| call_requires(self.read, (path,))
        &&& forall|block: &str| call_requires(self.decode, (block,))
    }

    /// The location of the source.
    pub closed spec fn source(&self) -> Seq<char> {
        self.path@
    }

    /// The function that reads the source.
    pub closed spec fn reader(&self) -> R {
        self.read
    }

    /// The function that makes the metadata.
    pub closed spec fn decoder(&self) -> D {
        self.decode
    }

    /// The note at `path`, read with `read`, its metadata made by `decode`.
    /// Fails where the location was found to be no file, as `is_file` says.
    pub fn from_file(path: &str, is_file: bool, read: R, decode: D) -> (r: Result<
        Self,
        SourceError<E>,
    >)
        requires
            forall|path: &str| call_requires(read, (path,)),
            forall|block: &str| call_requires(decode, (block,)),
        ensures
            match r {
                Ok(note) => is_file && note.source() == path@ && note.reader() == read
                    && note.decoder() == decode,
                Err(SourceError::IsNotFile(at)) => !is_file && at@ == path@,
                Err(_) => false,
            },
    {
        if !is_file {
            return Err(SourceError::IsNotFile(path.to_owned()));
        }
        Ok(
            NoteOnceLock {
                path: path.to_owned(),
                read,
                decode,
                content: empty_cell(),
                properties: empty_cell(),
            },
        )
    }

    /// Moves the note to `path`. What is kept stays.
    pub fn set_path(&mut self, path: String)
        ensures
            final(self).source() == path@,
            final(self).reader() == old(self).reader(),
            final(self).decoder() == old(self).decoder(),
    {
        proof {
            use_type_invariant(&*self);
        }
        self.path = path;
    }

    /// What the note finds when it is asked for its content, given what the
    /// cell for the content gave. What the cell keeps is found, and the
    /// source is not read. Else the source is read: the content that the
    /// reading gave is found, to be kept, or the error of the reading.
    pub fn content_after<'a>(&self, kept: Option<&'a KeptText<E, R>>) -> (r: Result<
        Found<'a, KeptText<E, R>>,
        SourceError<E>,
    >)
        ensures
            match kept {
                Some(known) => r matches Ok(Found::Kept(same)) && same == known,
                None => exists|read: Result<String, E>| #[trigger]
                    may_read(self.reader(), self.source(), read) && match r {
                        Ok(Found::Fresh(fresh)) => fresh.reading() == (
                            self.reader(),
                            self.source(),
                            read,
                        ) && body_answer(read) == Ok::<Seq<char>, SourceError<E>>(fresh@),
                        Ok(Found::Kept(_)) => false,
                        Err(e) => body_answer(read) == Err::<Seq<char>, SourceError<E>>(e),
                    },
            },
    {
        proof {
            use_type_invariant(self);
        }
        match kept {
            Some(known) => {
                return Ok(Found::Kept(known));
            },
            None => {},
        }
        let read = (self.read)(self.path.as_str());
        let ghost reading = (self.read, self.path@, read);
        assert(may_read(self.reader(), self.source(), read));
        match content_of_source(read) {
            Ok(text) => Ok(Found::Fresh(KeptText { text, reading: Ghost(reading) })),
            Err(e) => Err(e),
        }
    }

    /// What the note finds when it is asked for its metadata, given what the
    /// cell for the metadata gave. What the cell keeps is found, and the
    /// source is not read. Else the source is read: the metadata that the
    /// decoder made of what the reading gave is found, to be kept, or the
    /// error of the reading or of the decoder.
    pub fn properties_after<'a>(&self, kept: Option<&'a KeptMetadata<E, R, T, D>>) -> (r: Result<
        Found<'a, KeptMetadata<E, R, T, D>>,
        SourceError<E>,
    >)
        ensures
            match kept {
                Some(known) => r matches Ok(Found::Kept(same)) && same == known,
                None => exists|read: Result<String, E>| #[trigger]
                    may_read(self.reader(), self.source(), read) && match r {
                        Ok(Found::Fresh(fresh)) => fresh.reading() == (
                            self.reader(),
                            self.source(),
                            read,
                        ) && fresh.decoder() == self.decoder() && typed_answer(
                            self.decoder(),
                            read,
                            Ok::<Option<T>, SourceError<E>>(fresh@),
                        ),
                        Ok(Found::Kept(_)) => false,
                        Err(e) => typed_answer(
                            self.decoder(),
                            read,
                            Err::<Option<T>, SourceError<E>>(e),
                        ),
                    },
            },
    {
        proof {
            use_type_invariant(self);
        }
        match kept {
            Some(known) => {
                return Ok(Found::Kept(known));
            },
            None => {},
        }
        let read = (self.read)(self.path.as_str());
        let ghost reading = (self.read, self.path@, read);
        assert(may_read(self.reader(), self.source(), read));
        match properties_of_source_with(read, &self.decode) {
            Ok(found) => Ok(
                Found::Fresh(
                    KeptMetadata { found, reading: Ghost(reading), decoder: Ghost(self.decode) },
                ),
            ),
            Err(e) => Err(e),
        }
    }
}

impl<
    E,
    R: Fn(&str) -> Result<String, E>,
    T: Clone,
    D: Fn(&str) -> Result<T, serde_yml::Error>,
> Note for NoteOnceLock<E, R, T, D> {
    type Properties = T;

    type Error = SourceError<E>;

    open spec fn location(&self) -> Option<Seq<char>> {
        Some(self.source())
    }

    open spec fn body_may_be(&self, outcome: Result<Seq<char>, SourceError<E>>) -> bool {
        kept_or_read_body(self.reader(), self.source(), outcome)
    }

    open spec fn metadata_may_be(&self, outcome: Result<Option<T>, SourceError<E>>) -> bool {
        kept_or_read_metadata(self.reader(), self.decoder(), self.source(), outcome)
    }

    /// The metadata of the note, or `None` where it has no metadata block.
    /// The metadata that is kept is given again; else the source is read,
    /// the metadata found is handed to the cell, and the answer is what the
    /// cell keeps then. An error is not kept.
    fn properties(&self) -> (r: Result<Option<Cow<'_, T>>, SourceError<E>>)
        ensures
            kept_or_read_metadata(
                self.reader(),
                self.decoder(),
                self.source(),
                metadata_answered(r),
            ),
    {
        let kept = match self.properties_after(cell_value(&self.properties)) {
            Ok(Found::Kept(known)) => known,
            Ok(Found::Fresh(fresh)) => cell_value_or(&self.properties, fresh),
            Err(e) => {
                return Err(e);
            },
        };
        proof {
            use_type_invariant(kept);
            assert(gave_metadata(kept.reading(), kept.decoder(), Ok(kept@)));
        }
        match &kept.found {
            Some(value) => Ok(Some(Cow::Borrowed(value))),
            None => Ok(None),
        }
    }

    /// The content of the note. The content that is kept is given again;
    /// else the source is read, the content found is handed to the cell, and
    /// the answer is what the cell keeps then. An error is not kept.
    fn content(&self) -> (r: Result<Cow<'_, str>, SourceError<E>>)
        ensures
            kept_or_read_body(self.reader(), self.source(), body_answered(r)),
    {
        let kept = match self.content_after(cell_value(&self.content)) {
            Ok(Found::Kept(known)) => known,
            Ok(Found::Fresh(fresh)) => cell_value_or(&self.content, fresh),
            Err(e) => {
                return Err(e);
            },
        };
        proof {
            use_type_invariant(kept);
            assert(gave_body(kept.reading(), Ok(kept@)));
        }
        let c: Cow<'_, str> = Cow::Borrowed(kept.text.as_str());
        Ok(c)
    }

    fn path(&self) -> (r: Option<Cow<'_, str>>) {
        let c: Cow<'_, str> = Cow::Borrowed(self.path.as_str());
        Some(c)
    }
}

/// Every caller is given the same answer. Of a source that gives the text
/// `text` whenever it is read, wherever and by whichever reader of its kind,
/// any two answers to the question for the content are the same: the
/// content of `text`, or the error for a block that is not closed.
pub proof fn lemma_one_content<
    E,
    R: Fn(&str) -> Result<String, E>,
    T: Clone,
    D: Fn(&str) -> Result<T, serde_yml::Error>,
>(
    note: NoteOnceLock<E, R, T, D>,
    text: Seq<char>,
    first: Result<Seq<char>, SourceError<E>>,
    second: Result<Seq<char>, SourceError<E>>,
)
    requires
        forall|reader: R, at: Seq<char>, read: Result<String, E>| #[trigger]
            may_read(reader, at, read) ==> (read matches Ok(raw) && raw@ == text),
        note.body_may_be(first),
        note.body_may_be(second),
    ensures
        first == second,
        first == if parse(text) is Malformed {
            Err::<Seq<char>, SourceError<E>>(
                SourceError::InvalidFormat(ParseError::NotFoundCloser),
            )
        } else {
            Ok::<Seq<char>, SourceError<E>>(body_of(text))
        },
{
}

} // verus!
