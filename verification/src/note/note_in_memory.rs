//! A note that holds its content and its metadata by value.

use crate::note::{DefaultProperties, Note, NoteFromString};
use crate::parser::{parse, parse_obfile, Parsed, ResultParse};
use crate::yaml::{decode_mapping, decoded_mapping};
use std::borrow::Cow;
use vstd::prelude::*;

verus! {

/// A note read once: content, metadata and location are kept by value, and
/// asking for them cannot fail.
#[derive(Debug, PartialEq, Eq, Clone)]
pub struct NoteInMemory<T = DefaultProperties> where T: Clone {
    /// The text without the metadata block.
    content: String,
    /// Where the text was read from.
    path: Option<String>,
    /// The decoded metadata block.
    properties: Option<T>,
}

/// Why a note cannot be made from a text.
#[derive(Debug)]
pub enum NoteError {
    /// The metadata block is opened and not closed.
    InvalidFormat(crate::parser::ParseError),
    /// The metadata block is not what the decoder accepts.
    Yaml(serde_yml::Error),
}

impl<T: Clone> NoteInMemory<T> {
    /// The content that the note holds.
    pub closed spec fn body(&self) -> Seq<char> {
        self.content@
    }

    /// The metadata that the note holds.
    pub closed spec fn metadata(&self) -> Option<T> {
        self.properties
    }

    /// The location that the note holds.
    pub closed spec fn source(&self) -> Option<Seq<char>> {
        match self.path {
            Some(p) => Some(p@),
            None => None,
        }
    }

    /// A note with the given content, metadata and location.
    pub fn new(content: String, properties: Option<T>, path: Option<String>) -> (note: Self)
        ensures
            note.body() == content@,
            note.metadata() == properties,
            note.source() == match path {
                Some(p) => Some(p@),
                None => None,
            },
    {
        NoteInMemory { content, path, properties }
    }
}

/// Whether decoding the metadata block `block` with `decode` may come to
/// `decoded`.
pub open spec fn may_decode<T, D: Fn(&str) -> Result<T, serde_yml::Error>>(
    decode: D,
    block: Seq<char>,
    decoded: Result<T, serde_yml::Error>,
) -> bool {
    exists|text: &str| text@ == block && #[trigger] call_ensures(decode, (text,), decoded)
}

impl<T: Clone> NoteInMemory<T> {
    /// What making a note from the text `t` with the decoder `decode` must
    /// come to.
    ///
    /// A text that opens a block without closing it gives `InvalidFormat`.
    /// A text without a block gives a note whose content is the whole text,
    /// and the decoder is not asked. A text with a block gives a note with
    /// the content after the block and the metadata that the decoder makes
    /// of the block, and `Yaml` with the decoder's error where it makes none.
    pub open spec fn made_with<D: Fn(&str) -> Result<T, serde_yml::Error>>(
        decode: D,
        t: Seq<char>,
        location: Option<Seq<char>>,
        r: Result<Self, NoteError>,
    ) -> bool {
        match parse(t) {
            Parsed::Malformed => r matches Err(NoteError::InvalidFormat(_)),
            Parsed::Plain => r matches Ok(note) && note.body() == t && note.metadata() is None
                && note.source() == location,
            Parsed::Split { properties, content } => exists|decoded: Result<T, serde_yml::Error>|
                #[trigger] may_decode(decode, properties, decoded) && match decoded {
                    Ok(value) => r matches Ok(note) && note.body() == content && note.metadata()
                        == Some(value) && note.source() == location,
                    Err(e) => r == Err::<Self, NoteError>(NoteError::Yaml(e)),
                },
        }
    }

    /// Makes the note from its text and the location the text was read from,
    /// with metadata of the caller's own type: `decode` makes the metadata
    /// of the text of the block.
    pub fn from_text_with<D: Fn(&str) -> Result<T, serde_yml::Error>>(
        raw_text: &str,
        path: Option<String>,
        decode: D,
    ) -> (r: Result<Self, NoteError>)
        requires
            forall|block: &str| call_requires(decode, (block,)),
        ensures
            Self::made_with(
                decode,
                raw_text@,
                match path {
                    Some(p) => Some(p@),
                    None => None,
                },
                r,
            ),
    {
        match parse_obfile(raw_text) {
            Err(e) => Err(NoteError::InvalidFormat(e)),
            Ok(ResultParse::WithoutProperties) => Ok(
                NoteInMemory { content: raw_text.to_owned(), path, properties: None },
            ),
            Ok(ResultParse::WithProperties { content, properties }) => {
                let decoded = decode(properties);
                let ghost outcome = decoded;
                assert(may_decode(decode, properties@, outcome));
                let r = match decoded {
                    Ok(value) => Ok(
                        NoteInMemory { content: content.to_owned(), path, properties: Some(value) },
                    ),
                    Err(e) => Err(NoteError::Yaml(e)),
                };
                assert(parse(raw_text@)->properties == properties@);
                r
            },
        }
    }
}

impl<T: Clone> Default for NoteInMemory<T> {
    /// The empty note: no content, no metadata, no location.
    fn default() -> (note: Self)
        ensures
            note.body() == Seq::<char>::empty(),
            note.metadata() is None,
            note.source() is None,
    {
        NoteInMemory { content: String::new(), path: None, properties: None }
    }
}

impl<T: Clone> Note for NoteInMemory<T> {
    type Properties = T;

    type Error = NoteError;

    open spec fn location(&self) -> Option<Seq<char>> {
        self.source()
    }

    open spec fn body_may_be(&self, outcome: Result<Seq<char>, NoteError>) -> bool {
        outcome matches Ok(c) && c == self.body()
    }

    open spec fn metadata_may_be(&self, outcome: Result<Option<T>, NoteError>) -> bool {
        outcome matches Ok(p) && p == self.metadata()
    }

    fn properties(&self) -> (r: Result<Option<Cow<'_, T>>, NoteError>)
        ensures
            r is Ok,
    {
        match &self.properties {
            Some(p) => Ok(Some(Cow::Borrowed(p))),
            None => Ok(None),
        }
    }

    fn content(&self) -> (r: Result<Cow<'_, str>, NoteError>)
        ensures
            r is Ok,
    {
        let c: Cow<'_, str> = Cow::Borrowed(self.content.as_str());
        Ok(c)
    }

    fn path(&self) -> (r: Option<Cow<'_, str>>) {
        match &self.path {
            Some(p) => {
                let c: Cow<'_, str> = Cow::Borrowed(p.as_str());
                Some(c)
            },
            None => None,
        }
    }
}

impl NoteInMemory<DefaultProperties> {
    /// What making a note from the text `t` must come to.
    ///
    /// A text that opens a block without closing it gives `InvalidFormat`.
    /// A text without a block gives a note whose content is the whole text.
    /// A text with a block gives a note with the content after the block and
    /// the map that the block decodes to, and `Yaml` where it decodes to none.
    pub open spec fn made_from(
        t: Seq<char>,
        location: Option<Seq<char>>,
        r: Result<Self, NoteError>,
    ) -> bool {
        match parse(t) {
            Parsed::Malformed => r matches Err(NoteError::InvalidFormat(_)),
            Parsed::Plain => r matches Ok(note) && note.body() == t && note.metadata() is None
                && note.source() == location,
            Parsed::Split { properties, content } => match decoded_mapping(properties) {
                Some(map) => r matches Ok(note) && note.body() == content && note.source()
                    == location && (note.metadata() matches Some(decoded) && decoded@ == map),
                None => r matches Err(NoteError::Yaml(_)),
            },
        }
    }

    /// Makes the note from its text and the location the text was read from.
    pub fn from_text(raw_text: &str, path: Option<String>) -> (r: Result<Self, NoteError>)
        ensures
            Self::made_from(
                raw_text@,
                match path {
                    Some(p) => Some(p@),
                    None => None,
                },
                r,
            ),
    {
        match parse_obfile(raw_text) {
            Err(e) => Err(NoteError::InvalidFormat(e)),
            Ok(ResultParse::WithoutProperties) => Ok(
                NoteInMemory { content: raw_text.to_owned(), path, properties: None },
            ),
            Ok(ResultParse::WithProperties { content, properties }) => {
                match decode_mapping(properties) {
                    Ok(decoded) => Ok(
                        NoteInMemory { content: content.to_owned(), path, properties: Some(decoded) },
                    ),
                    Err(e) => Err(NoteError::Yaml(e)),
                }
            },
        }
    }
}

impl NoteFromString for NoteInMemory<DefaultProperties> {
    fn from_string(raw_text: &str) -> (r: Result<Self, NoteError>)
        ensures
            Self::made_from(raw_text@, None, r),
    {
        Self::from_text(raw_text, None)
    }
}

} // verus!
