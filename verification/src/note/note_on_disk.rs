//! A note that holds its location only and reads its source whenever it is
//! asked for its content or its metadata.
//!
//! Reading is left to the function the note is made with: it takes the
//! location and gives the text found there, or the error of the attempt.
//! Making the metadata is left to a second function: it takes the text of
//! the metadata block and gives the metadata, of a type of the caller's
//! choice, or the error of the decoder.

use crate::note::note_in_memory::may_decode;
use crate::note::{body_answered, body_of, metadata_answered, Note};
use crate::parser::{parse, parse_obfile, Parsed, ParseError, ResultParse};
use std::borrow::Cow;
use std::marker::PhantomData;
use vstd::prelude::*;

verus! {

/// Why a note that reads its source cannot answer.
#[derive(Debug)]
pub enum SourceError<E> {
    /// The source could not be read.
    IO(E),
    /// The metadata block is opened and not closed.
    InvalidFormat(ParseError),
    /// The metadata block is not what the decoder accepts.
    Yaml(serde_yml::Error),
    /// The location is no file.
    IsNotFile(String),
}

/// What a note answers when asked for its content, given what reading its
/// source came to: the error of the reading; else the content of the text,
/// or `InvalidFormat` where the text opens a block without closing it.
pub open spec fn body_answer<E>(read: Result<String, E>) -> Result<Seq<char>, SourceError<E>> {
    match read {
        Err(e) => Err(SourceError::IO(e)),
        Ok(raw) => if parse(raw@) is Malformed {
            Err(SourceError::InvalidFormat(ParseError::NotFoundCloser))
        } else {
            Ok(body_of(raw@))
        },
    }
}

/// The answer to the question for the content, given what reading the
/// source came to.
pub fn content_of_source<E>(read: Result<String, E>) -> (r: Result<String, SourceError<E>>)
    ensures
        match r {
            Ok(c) => body_answer(read) == Ok::<Seq<char>, SourceError<E>>(c@),
            Err(e) => body_answer(read) == Err::<Seq<char>, SourceError<E>>(e),
        },
{
    match read {
        Err(e) => Err(SourceError::IO(e)),
        Ok(raw) => {
            let found = match parse_obfile(raw.as_str()) {
                Err(e) => {
                    return Err(SourceError::InvalidFormat(e));
                },
                Ok(ResultParse::WithoutProperties) => None,
                Ok(ResultParse::WithProperties { content, properties }) => Some(content.to_owned()),
            };
            match found {
                Some(content) => Ok(content),
                None => Ok(raw),
            }
        },
    }
}

/// Whether `r` is an answer to the question for the metadata, given what
/// reading the source came to and the decoder `decode`: the error of the
/// reading; else `InvalidFormat` for a block that is not closed, nothing for
/// a text without a block, and for a text with one what the decoder makes of
/// the block, or `Yaml` with the decoder's error.
pub open spec fn typed_answer<T, E, D: Fn(&str) -> Result<T, serde_yml::Error>>(
    decode: D,
    read: Result<String, E>,
    r: Result<Option<T>, SourceError<E>>,
) -> bool {
    match read {
        Err(e) => r == Err::<Option<T>, SourceError<E>>(SourceError::IO(e)),
        Ok(raw) => match parse(raw@) {
            Parsed::Malformed => r matches Err(SourceError::InvalidFormat(_)),
            Parsed::Plain => r matches Ok(None),
            Parsed::Split { properties, content } => exists|decoded: Result<T, serde_yml::Error>|
                #[trigger] may_decode(decode, properties, decoded) && match decoded {
                    Ok(value) => r == Ok::<Option<T>, SourceError<E>>(Some(value)),
                    Err(e) => r == Err::<Option<T>, SourceError<E>>(SourceError::Yaml(e)),
                },
        },
    }
}

/// The answer to the question for the metadata, given what reading the
/// source came to: `decode` makes the metadata of the text of the block.
pub fn properties_of_source_with<T, E, D: Fn(&str) -> Result<T, serde_yml::Error>>(
    read: Result<String, E>,
    decode: &D,
) -> (r: Result<Option<T>, SourceError<E>>)
    requires
        forall|block: &str| call_requires(*decode, (block,)),
    ensures
        typed_answer(*decode, read, r),
{
    match read {
        Err(e) => Err(SourceError::IO(e)),
        Ok(raw) => match parse_obfile(raw.as_str()) {
            Err(e) => Err(SourceError::InvalidFormat(e)),
            Ok(ResultParse::WithoutProperties) => Ok(None),
            Ok(ResultParse::WithProperties { content, properties }) => {
                let decoded = decode(properties);
                let ghost outcome = decoded;
                assert(may_decode(*decode, properties@, outcome));
                let r = match decoded {
                    Ok(value) => Ok(Some(value)),
                    Err(e) => Err(SourceError::Yaml(e)),
                };
                assert(parse(raw@)->properties == properties@);
                r
            },
        },
    }
}

/// Whether reading at `location` with `read` may come to `outcome`.
pub open spec fn may_read<E, R: Fn(&str) -> Result<String, E>>(
    read: R,
    location: Seq<char>,
    outcome: Result<String, E>,
) -> bool {
    exists|path: &str| path@ == location && #[trigger] call_ensures(read, (path,), outcome)
}

/// Whether reading at `location` with `read` may come to the answer
/// `outcome` to the question for the content.
pub open spec fn read_body<E, R: Fn(&str) -> Result<String, E>>(
    read: R,
    location: Seq<char>,
    outcome: Result<Seq<char>, SourceError<E>>,
) -> bool {
    exists|found: Result<String, E>| #[trigger]
        may_read(read, location, found) && outcome == body_answer(found)
}

/// Whether reading at `location` with `read`, and decoding with `decode`, may
/// come to the answer `outcome` to the question for the metadata.
pub open spec fn read_metadata<
    E,
    R: Fn(&str) -> Result<String, E>,
    T,
    D: Fn(&str) -> Result<T, serde_yml::Error>,
>(read: R, decode: D, location: Seq<char>, outcome: Result<Option<T>, SourceError<E>>) -> bool {
    exists|found: Result<String, E>| #[trigger]
        may_read(read, location, found) && typed_answer(decode, found, outcome)
}

/// A note that is read anew whenever it is asked. Its metadata is of the
/// type `T`, made by the decoder the note is made with.
#[verifier::reject_recursive_types(E)]
#[verifier::reject_recursive_types(R)]
#[verifier::reject_recursive_types(T)]
#[verifier::reject_recursive_types(D)]
pub struct NoteOnDisk<
    E,
    R: Fn(&str) -> Result<String, E>,
    T,
    D: Fn(&str) -> Result<T, serde_yml::Error>,
> {
    /// The location of the source.
    path: String,
    /// The function that reads the source.
    read: R,
    /// The function that makes the metadata of the text of a metadata block.
    decode: D,
    /// The errors of reading are of the type `E`, the metadata of the type `T`.
    kinds: PhantomData<(E, T)>,
}

impl<
    E,
    R: Fn(&str) -> Result<String, E>,
    T,
    D: Fn(&str) -> Result<T, serde_yml::Error>,
> NoteOnDisk<E, R, T, D> {
    /// Every location can be read and every block can be decoded.
    #[verifier::type_invariant]
    spec fn asks_anything(&self) -> bool {
        &&& forall|path: &str| call_requires(self.read, (path,))
        &&& forall|block: &str| call_requires(self.decode, (block,))
    }

    /// The location of the source.
    pub closed spec fn source(&self) -> Seq<char> {
        self.path@
    }

    /// The function that reads the source.
    pub closed spec fn reader(&self) -> R {
        self.read
    }

    /// The function that makes the metadata.
    pub closed spec fn decoder(&self) -> D {
        self.decode
    }

    /// The note at `path`, read with `read`, its metadata made by `decode`.
    /// Fails where the location was found to be no file, as `is_file` says.
    pub fn from_file(path: &str, is_file: bool, read: R, decode: D) -> (r: Result<
        Self,
        SourceError<E>,
    >)
        requires
            forall|path: &str| call_requires(read, (path,)),
            forall|block: &str| call_requires(decode, (block,)),
        ensures
            match r {
                Ok(note) => is_file && note.source() == path@ && note.reader() == read
                    && note.decoder() == decode,
                Err(SourceError::IsNotFile(at)) => !is_file && at@ == path@,
                Err(_) => false,
            },
    {
        if !is_file {
            return Err(SourceError::IsNotFile(path.to_owned()));
        }
        Ok(NoteOnDisk { path: path.to_owned(), read, decode, kinds: PhantomData })
    }

    /// Moves the note to `path`.
    pub fn set_path(&mut self, path: String)
        ensures
            final(self).source() == path@,
            final(self).reader() == old(self).reader(),
            final(self).decoder() == old(self).decoder(),
    {
        proof {
            use_type_invariant(&*self);
        }
        self.path = path;
    }
}

impl<
    E,
    R: Fn(&str) -> Result<String, E>,
    T: Clone,
    D: Fn(&str) -> Result<T, serde_yml::Error>,
> Note for NoteOnDisk<E, R, T, D> {
    type Properties = T;

    type Error = SourceError<E>;

    open spec fn location(&self) -> Option<Seq<char>> {
        Some(self.source())
    }

    open spec fn body_may_be(&self, outcome: Result<Seq<char>, SourceError<E>>) -> bool {
        read_body(self.reader(), self.source(), outcome)
    }

    open spec fn metadata_may_be(&self, outcome: Result<Option<T>, SourceError<E>>) -> bool {
        read_metadata(self.reader(), self.decoder(), self.source(), outcome)
    }

    fn properties(&self) -> (r: Result<Option<Cow<'_, T>>, SourceError<E>>)
        ensures
            read_metadata(self.reader(), self.decoder(), self.source(), metadata_answered(r)),
    {
        proof {
            use_type_invariant(self);
        }
        let path = self.path.as_str();
        let read = (self.read)(path);
        assert(may_read(self.reader(), self.source(), read));
        match properties_of_source_with(read, &self.decode) {
            Ok(Some(p)) => Ok(Some(Cow::Owned(p))),
            Ok(None) => Ok(None),
            Err(e) => Err(e),
        }
    }

    fn content(&self) -> (r: Result<Cow<'_, str>, SourceError<E>>)
        ensures
            read_body(self.reader(), self.source(), body_answered(r)),
    {
        proof {
            use_type_invariant(self);
        }
        let path = self.path.as_str();
        let read = (self.read)(path);
        assert(may_read(self.reader(), self.source(), read));
        match content_of_source(read) {
            Ok(c) => {
                let out: Cow<'_, str> = Cow::Owned(c);
                Ok(out)
            },
            Err(e) => Err(e),
        }
    }

    fn path(&self) -> (r: Option<Cow<'_, str>>) {
        let c: Cow<'_, str> = Cow::Borrowed(self.path.as_str());
        Some(c)
    }
}

} // verus!
