//! The tags of a note: those that its metadata lists under `tags`, and those
//! that stand in its content, each behind a `#`.

use crate::note::note_in_memory::{NoteError, NoteInMemory};
use crate::note::note_on_disk::{NoteOnDisk, SourceError};
use crate::note::note_once_lock::NoteOnceLock;
use crate::note::{cow_str, cow_value, DefaultProperties, Note};
use crate::text::{char_is_whitespace, chars_of, is_whitespace, starts_word};
use crate::vault::vault_petgraph::graph_builder::strings_of;
use crate::yaml::{decode_strings, value_strings};
use std::borrow::Cow;
use std::collections::hash_map::RandomState;
use vstd::prelude::*;
use vstd::std_specs::hash::{
    builds_valid_hashers, contains_borrowed_key, maps_borrowed_key_to_value, obeys_key_model,
};
use vstd::string::StrSliceExecFns;

verus! {

/// Whether `c` is a letter or a number, as `char::is_alphanumeric` of the
/// standard library says.
pub uninterp spec fn alphanumeric(c: char) -> bool;

/// Whether `c` has the Unicode property `Emoji`, as `unic_emoji_char::is_emoji`
/// says.
pub uninterp spec fn emoji(c: char) -> bool;

/// Asks `char::is_alphanumeric`. Believed, not proved: the answer depends on
/// the character alone.
#[verifier::external_body]
fn char_is_alphanumeric(c: char) -> (b: bool)
    ensures
        b == alphanumeric(c),
{
    c.is_alphanumeric()
}

/// Asks `unic_emoji_char::is_emoji`. Believed, not proved: the answer
/// depends on the character alone.
#[verifier::external_body]
fn char_is_emoji(c: char) -> (b: bool)
    ensures
        b == emoji(c),
{
    unic_emoji_char::is_emoji(c)
}

/// Whether `c` can stand in a tag: a letter, a number, an emoji but `#`, an
/// underscore or a dash.
pub open spec fn tag_char(c: char) -> bool {
    alphanumeric(c) || (emoji(c) && c != '#') || c == '_' || c == '-'
}

/// The length of the run of tag characters that `s` starts with.
pub open spec fn tag_run(s: Seq<char>) -> nat
    decreases s.len(),
{
    if s.len() > 0 && tag_char(s[0]) {
        1 + tag_run(s.drop_first())
    } else {
        0
    }
}

/// Where the word that holds position `from` of `s` ends: at the next white
/// space, or at the end of `s`.
pub open spec fn word_end(s: Seq<char>, from: int) -> int
    decreases s.len() - from,
{
    if from < 0 || from >= s.len() || is_whitespace(s[from]) {
        from
    } else {
        word_end(s, from + 1)
    }
}

/// The tag that the word starting at position `i` of `s` gives: where the
/// word starts with one `#` and not with two, the run of tag characters
/// behind it, unless there is none.
pub open spec fn tag_at(s: Seq<char>, i: int) -> Option<Seq<char>> {
    let word = s.subrange(i, word_end(s, i));
    let rest = word.skip(1);
    if starts_word(s, i) && word[0] == '#' && !(word.len() > 1 && word[1] == '#') && tag_run(rest)
        > 0 {
        Some(rest.take(tag_run(rest) as int))
    } else {
        None
    }
}

/// The tags that the words starting before position `n` of `s` give.
pub open spec fn content_tags_upto(s: Seq<char>, n: int) -> Seq<Seq<char>>
    decreases n,
{
    if n <= 0 {
        Seq::empty()
    } else {
        let rest = content_tags_upto(s, n - 1);
        match tag_at(s, n - 1) {
            Some(tag) => rest.push(tag),
            None => rest,
        }
    }
}

/// The tags that stand in the content `s`, in their order.
pub open spec fn content_tags(s: Seq<char>) -> Seq<Seq<char>> {
    content_tags_upto(s, s.len() as int)
}

/// The tag `todo`.
pub open spec fn todo() -> Seq<char> {
    seq!['t', 'o', 'd', 'o']
}

/// `tag_run(s)` is the one `k` with tag characters before it and none at it.
proof fn lemma_tag_run(s: Seq<char>, k: int)
    requires
        0 <= k <= s.len(),
        forall|i: int| 0 <= i < k ==> tag_char(#[trigger] s[i]),
        k < s.len() ==> !tag_char(s[k]),
    ensures
        tag_run(s) == k,
    decreases k,
{
    if k > 0 {
        let t = s.drop_first();
        lemma_tag_run(t, k - 1);
    }
}

/// A word ends where white space follows characters that are none.
proof fn lemma_word_end(s: Seq<char>, from: int, end: int)
    requires
        0 <= from <= end <= s.len(),
        forall|i: int| from <= i < end ==> !is_whitespace(#[trigger] s[i]),
        end < s.len() ==> is_whitespace(s[end]),
    ensures
        word_end(s, from) == end,
    decreases end - from,
{
    if from < end {
        lemma_word_end(s, from + 1, end);
    }
}

/// A word does not end before white space or the end of the text.
proof fn lemma_word_goes_on(s: Seq<char>, from: int, upto: int)
    requires
        0 <= from <= upto <= s.len(),
        forall|i: int| from <= i < upto ==> !is_whitespace(#[trigger] s[i]),
    ensures
        upto <= word_end(s, from) <= s.len(),
    decreases s.len() - from,
{
    if from < upto {
        lemma_word_goes_on(s, from + 1, upto);
    } else if from < s.len() && !is_whitespace(s[from]) {
        lemma_word_goes_on(s, from + 1, from + 1);
    }
}

/// Whether `c` can stand in a tag.
fn is_tag_char(c: char) -> (b: bool)
    ensures
        b == tag_char(c),
{
    char_is_alphanumeric(c) || (char_is_emoji(c) && c != '#') || c == '_' || c == '-'
}

/// The tags that stand in `content`, in their order: of each word that
/// starts with one `#`, the letters, numbers, emoji, underscores and dashes
/// that follow it.
pub fn tags_of_content(content: &str) -> (tags: Vec<String>)
    ensures
        strings_of(tags@) == content_tags(content@),
{
    let text = chars_of(content);
    let mut tags: Vec<String> = Vec::new();
    let mut i: usize = 0;
    let mut after_space: bool = true;
    while i < text.len()
        invariant
            i <= text.len(),
            text@ == content@,
            after_space == (i == 0 || is_whitespace(text@[i - 1])),
            strings_of(tags@) == content_tags_upto(text@, i as int),
        decreases text.len() - i,
    {
        let c = text[i];
        let space = char_is_whitespace(c);
        let ghost end = word_end(text@, i as int);
        let ghost word = text@.subrange(i as int, end);
        if after_space && c == '#' && !(i + 1 < text.len() && text[i + 1] == '#') {
            let mut j: usize = i + 1;
            while j < text.len() && !char_is_whitespace(text[j]) && is_tag_char(text[j])
                invariant
                    i < j <= text.len(),
                    forall|k: int| i < k < j ==> tag_char(#[trigger] text@[k]),
                    forall|k: int| i <= k < j ==> !is_whitespace(#[trigger] text@[k]),
                decreases text.len() - j,
            {
                j += 1;
            }
            proof {
                lemma_word_goes_on(text@, i as int, j as int);
                let rest = word.skip(1);
                if j == text.len() || is_whitespace(text@[j as int]) {
                    lemma_word_end(text@, i as int, j as int);
                }
                lemma_tag_run(rest, j - i - 1);
                assert(rest.take(j - i - 1) =~= text@.subrange(i + 1, j as int));
            }
            if j > i + 1 {
                let tag = content.substring_char(i + 1, j).to_owned();
                tags.push(tag);
            }
        } else {
            proof {
                if starts_word(text@, i as int) {
                    lemma_word_goes_on(text@, i as int, i + 1);
                }
            }
        }
        after_space = space;
        i += 1;
    }
    tags
}

/// Whether `found` is what the metadata `map` holds under `key`: the value
/// under the key, or nothing where the map has no such key.
///
/// The map of the standard library answers for its lookups where its keys
/// and its hasher keep to its model, and this says no more than the map does.
pub open spec fn found_under(
    map: Map<String, serde_yml::Value>,
    key: &str,
    found: Option<serde_yml::Value>,
) -> bool {
    obeys_key_model::<String>() && builds_valid_hashers::<RandomState>() ==> match found {
        Some(value) => maps_borrowed_key_to_value(map, key, value),
        None => !contains_borrowed_key(map, key),
    }
}

/// Whether `found` is what the metadata of a note holds under `key`: nothing,
/// where the note has no metadata.
pub open spec fn listed_under(
    properties: Option<DefaultProperties>,
    key: &str,
    found: Option<serde_yml::Value>,
) -> bool {
    match properties {
        Some(map) => found_under(map@, key, found),
        None => found is None,
    }
}

/// The list of texts that the value found under a key stands for: the texts
/// that the value holds, no text where nothing was found, and no list where
/// the value is no list of texts.
pub open spec fn listing(found: Option<serde_yml::Value>) -> Option<Seq<Seq<char>>> {
    match found {
        Some(value) => value_strings(value),
        None => Some(Seq::empty()),
    }
}

/// Whether `r` gives the list `listing`: the list itself, or an error where
/// there is no list.
pub open spec fn gives<E>(listing: Option<Seq<Seq<char>>>, r: Result<Vec<String>, E>) -> bool {
    match r {
        Ok(list) => listing == Some(strings_of(list@)),
        Err(_) => listing is None,
    }
}

/// The metadata that an answer to the question for it holds.
pub open spec fn held(properties: Option<Cow<'_, DefaultProperties>>) -> Option<DefaultProperties> {
    match properties {
        Some(p) => Some(cow_value(p)),
        None => None,
    }
}

/// What an answer with a list of texts holds.
pub open spec fn list_answer<E>(r: Result<Vec<String>, E>) -> Result<Seq<Seq<char>>, E> {
    match r {
        Ok(list) => Ok(strings_of(list@)),
        Err(e) => Err(e),
    }
}

/// The list of texts found under `key` in the metadata, or no text where
/// the metadata has no such key. Fails where what is found is no list of
/// texts.
fn listed(properties: &DefaultProperties, key: &str) -> (r: Result<
    Vec<String>,
    serde_yml::Error,
>)
    ensures
        exists|found: Option<serde_yml::Value>| #[trigger]
            found_under(properties@, key, found) && gives(listing(found), r),
{
    match properties.get(key) {
        Some(value) => {
            let r = decode_strings(value);
            assert(found_under(properties@, key, Some(*value)) && gives(listing(Some(*value)), r));
            r
        },
        None => {
            let r = Ok(Vec::new());
            assert(found_under(properties@, key, None) && gives(listing(None), r)) by {
                assert(strings_of(Seq::<String>::empty()) =~= Seq::<Seq<char>>::empty());
            }
            r
        },
    }
}

/// The list of texts found under `key` in the metadata of a note, or no text
/// where the note has no metadata or the metadata has no such key. Fails
/// where what is found is no list of texts.
pub(crate) fn listed_in(properties: &Option<Cow<'_, DefaultProperties>>, key: &str) -> (r: Result<
    Vec<String>,
    serde_yml::Error,
>)
    ensures
        exists|found: Option<serde_yml::Value>| #[trigger]
            listed_under(held(*properties), key, found) && gives(listing(found), r),
{
    match properties {
        Some(Cow::Borrowed(map)) => {
            let r = listed(map, key);
            proof {
                let found = choose|found: Option<serde_yml::Value>| #[trigger]
                    found_under(map@, key, found) && gives(listing(found), r);
                assert(listed_under(held(*properties), key, found));
            }
            r
        },
        Some(Cow::Owned(map)) => {
            let r = listed(map, key);
            proof {
                let found = choose|found: Option<serde_yml::Value>| #[trigger]
                    found_under(map@, key, found) && gives(listing(found), r);
                assert(listed_under(held(*properties), key, found));
            }
            r
        },
        None => {
            let r = Ok(Vec::new());
            assert(listed_under(held(*properties), key, None) && gives(listing(None), r)) by {
                assert(strings_of(Seq::<String>::empty()) =~= Seq::<Seq<char>>::empty());
            }
            r
        },
    }
}

/// A note with the default metadata, whose errors take in those of the
/// decoder.
pub trait NoteFromYaml: Note<Properties = DefaultProperties> {
    /// Whether `e` is the error of the note for metadata that is not of the
    /// form asked for. A kind of note that says nothing else takes every
    /// error for one.
    open spec fn is_yaml_error(e: Self::Error) -> bool {
        true
    }

    /// The error of the note for metadata that is not of the form asked for.
    fn yaml_error(e: serde_yml::Error) -> (r: Self::Error)
        ensures
            Self::is_yaml_error(r),
    ;
}

impl NoteFromYaml for NoteInMemory<DefaultProperties> {
    open spec fn is_yaml_error(e: NoteError) -> bool {
        e is Yaml
    }

    fn yaml_error(e: serde_yml::Error) -> (r: NoteError)
        ensures
            r == NoteError::Yaml(e),
    {
        NoteError::Yaml(e)
    }
}

impl<
    E,
    R: Fn(&str) -> Result<String, E>,
    D: Fn(&str) -> Result<DefaultProperties, serde_yml::Error>,
> NoteFromYaml for NoteOnDisk<E, R, DefaultProperties, D> {
    open spec fn is_yaml_error(e: SourceError<E>) -> bool {
        e is Yaml
    }

    fn yaml_error(e: serde_yml::Error) -> (r: SourceError<E>)
        ensures
            r == SourceError::<E>::Yaml(e),
    {
        SourceError::Yaml(e)
    }
}

impl<
    E,
    R: Fn(&str) -> Result<String, E>,
    D: Fn(&str) -> Result<DefaultProperties, serde_yml::Error>,
> NoteFromYaml for NoteOnceLock<E, R, DefaultProperties, D> {
    open spec fn is_yaml_error(e: SourceError<E>) -> bool {
        e is Yaml
    }

    fn yaml_error(e: serde_yml::Error) -> (r: SourceError<E>)
        ensures
            r == SourceError::<E>::Yaml(e),
    {
        SourceError::Yaml(e)
    }
}

/// Whether asking a note for the list of texts that its metadata holds under
/// `key` may come back with `r`.
///
/// The metadata is read first, and an error of that is the answer. Then the
/// value under the key is decoded: the answer is the list of its texts, no
/// text where the note has no metadata or the metadata has no such key, and
/// the note's error for such metadata where the value is no list of texts.
pub open spec fn listed_may_be<N: NoteFromYaml>(
    note: &N,
    key: &str,
    r: Result<Seq<Seq<char>>, N::Error>,
) -> bool {
    exists|m: Result<Option<DefaultProperties>, N::Error>| #[trigger]
        note.metadata_may_be(m) && match m {
            Err(e) => r == Err::<Seq<Seq<char>>, N::Error>(e),
            Ok(p) => exists|found: Option<serde_yml::Value>| #[trigger]
                listed_under(p, key, found) && match listing(found) {
                    Some(list) => r == Ok::<Seq<Seq<char>>, N::Error>(list),
                    None => r matches Err(e) && N::is_yaml_error(e),
                },
        }
}

/// Whether asking a note for its tags may come back with `r`.
///
/// The tags that the metadata lists under `tags` are asked for first, and an
/// error of that is the answer. Then the content is read, and an error of
/// that is the answer. Else the answer is the tags of the metadata, and
/// behind them the tags that stand in the content.
pub open spec fn tags_may_be<N: NoteFromYaml>(note: &N, r: Result<Seq<Seq<char>>, N::Error>) -> bool {
    exists|first: Result<Seq<Seq<char>>, N::Error>| #[trigger]
        listed_may_be(note, "tags", first) && match first {
            Err(e) => r == Err::<Seq<Seq<char>>, N::Error>(e),
            Ok(listed) => exists|c: Result<Seq<char>, N::Error>| #[trigger]
                note.body_may_be(c) && match c {
                    Err(e) => r == Err::<Seq<Seq<char>>, N::Error>(e),
                    Ok(text) => r == Ok::<Seq<Seq<char>>, N::Error>(listed + content_tags(text)),
                },
        }
}

/// The list of texts that the metadata of `note` holds under `key`.
pub(crate) fn listed_of<N: NoteFromYaml>(note: &N, key: &str) -> (r: Result<Vec<String>, N::Error>)
    ensures
        listed_may_be(note, key, list_answer(r)),
{
    let properties = match note.properties() {
        Ok(p) => p,
        Err(e) => {
            assert(note.metadata_may_be(Err(e)));
            return Err(e);
        },
    };
    assert(note.metadata_may_be(Ok(held(properties))));
    let listed = listed_in(&properties, key);
    match listed {
        Ok(list) => Ok(list),
        Err(e) => Err(N::yaml_error(e)),
    }
}

/// A note that has tags.
pub trait NoteTags: NoteFromYaml {
    /// The tags of the note: those that the metadata lists under `tags`,
    /// then those that stand in the content. Fails where the metadata or the
    /// content cannot be read, or the metadata lists no texts there.
    fn tags(&self) -> (r: Result<Vec<String>, Self::Error>)
        ensures
            tags_may_be(self, list_answer(r)),
    {
        let mut tags = match listed_of(self, "tags") {
            Ok(list) => list,
            Err(e) => {
                assert(listed_may_be(self, "tags", Err(e)));
                return Err(e);
            },
        };
        let ghost first = strings_of(tags@);
        assert(listed_may_be(self, "tags", Ok(first)));
        let content = match self.content() {
            Ok(c) => c,
            Err(e) => {
                assert(self.body_may_be(Err(e)));
                return Err(e);
            },
        };
        let ghost text = content@;
        assert(self.body_may_be(Ok(text)));
        let mut found = tags_of_content(cow_str(&content));
        tags.append(&mut found);
        assert(strings_of(tags@) =~= first + content_tags(text));
        Ok(tags)
    }
}

impl<N: NoteFromYaml> NoteTags for N {

}

} // verus!
