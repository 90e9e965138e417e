//! Notes with an optional metadata block, the vault that holds them, and the
//! graph of the links between them.
//!
//! A note is a text: an optional block of metadata between two fences at its
//! top, and the content behind it. [`parser`] takes a text apart and finds
//! the links in a content. [`note`] has the trait that every kind of note
//! implements and three kinds that differ in when the text is read: at once,
//! whenever the note is asked, or when it is first asked. [`vault`] holds the
//! notes of one directory, finds the notes that share a name or a content,
//! and builds the graph that has a node for each note and an edge for each
//! link from one note to another.
//!
//! The library reads no file and starts no thread. A text comes in as a
//! value or through a function that the caller hands in; a location is a
//! text with `/` between its components.
//!
//! Every function is verified against its contract, but for the few that
//! call the YAML decoder, the graph library, a table of characters or a
//! cell that is filled once: those say in their comment what is believed of
//! the call. The contracts speak of
//! texts as sequences of characters; the functions of [`text`], [`path`] and
//! [`order`] say what trimming, a file name and the order of keys are.

pub mod note;
pub mod order;
pub mod parser;
pub mod path;
pub mod text;
pub mod vault;
pub mod yaml;
