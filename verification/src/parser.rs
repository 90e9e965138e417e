//! The two small parsers of a note's text: the metadata block at its top, and
//! the links in its body.

use crate::text::{
    all_whitespace, before_char, char_is_whitespace, chars_of, find, find_from, index_of_char,
    is_whitespace, leading_whitespace, lemma_before_char, lemma_before_char_absent, lemma_find_from,
    lemma_find_from_is, lemma_index_of_char_is, lemma_trailing_whitespace, lemma_trim_is_part,
    lemma_trim_is_trimmed, lemma_trim_padding, lemma_whitespace_runs, matches_at, occurs_at, trim,
    trim_bounds, trim_end,
};
use vstd::prelude::*;
use vstd::string::{StringExecFns, StrSliceExecFns};

verus! {

/// The marker that opens and closes a metadata block: three dashes.
pub open spec fn fence() -> Seq<char> {
    seq!['-', '-', '-']
}

/// The fence, character by character.
pub proof fn lemma_fence()
    ensures
        fence().len() == 3,
        fence()[0] == '-',
        fence()[1] == '-',
        fence()[2] == '-',
        !is_whitespace('-'),
{
}

/// What a note's text is made of.
pub enum Parsed {
    /// The text opens a metadata block and never closes it.
    Malformed,
    /// The text has no metadata block: all of it is content.
    Plain,
    /// The text has a metadata block.
    Split { properties: Seq<char>, content: Seq<char> },
}

/// The first line of `t`, without its line feed.
pub open spec fn first_line(t: Seq<char>) -> Seq<char> {
    before_char(t, '\n')
}

/// Whether the first line of `t` is the fence, white space after it set aside.
/// White space before it is not set aside.
pub open spec fn opens_with_fence(t: Seq<char>) -> bool {
    trim_end(first_line(t)) == fence()
}

/// The parts of the text `t`.
///
/// Only the first line can open a block. The next fence after the opening
/// one closes it, wherever in a line it stands. What lies between the two
/// is the metadata, what follows the second is the content, both trimmed.
pub open spec fn parse(t: Seq<char>) -> Parsed {
    if !opens_with_fence(t) {
        Parsed::Plain
    } else {
        match find_from(t, fence(), 3) {
            Some(k) => Parsed::Split {
                properties: trim(t.subrange(3, k)),
                content: trim(t.subrange(k + 3, t.len() as int)),
            },
            None => Parsed::Malformed,
        }
    }
}

/// What `parse_obfile` finds in a text that is well formed.
#[derive(Debug, PartialEq, Eq)]
pub enum ResultParse<'a> {
    WithProperties { content: &'a str, properties: &'a str },
    WithoutProperties,
}

impl<'a> View for ResultParse<'a> {
    type V = Parsed;

    open spec fn view(&self) -> Parsed {
        match self {
            ResultParse::WithProperties { content, properties } => Parsed::Split {
                properties: properties@,
                content: content@,
            },
            ResultParse::WithoutProperties => Parsed::Plain,
        }
    }
}

/// Why a text cannot be parsed.
#[derive(Debug, PartialEq, Eq, Clone, Copy)]
pub enum ParseError {
    /// The metadata block is opened and not closed.
    NotFoundCloser,
}

/// The fence, as characters.
fn fence_chars() -> (v: Vec<char>)
    ensures
        v@ == fence(),
{
    let mut v: Vec<char> = Vec::new();
    v.push('-');
    v.push('-');
    v.push('-');
    v
}

/// A fence at the top of `t` followed by white space up to `end`, where the
/// first line ends, is what opens a block.
proof fn lemma_fence_line(t: Seq<char>, end: int)
    requires
        3 <= end <= t.len(),
        t.take(3) == fence(),
        forall|i: int| 3 <= i < end ==> is_whitespace(#[trigger] t[i]),
        forall|i: int| 0 <= i < end ==> #[trigger] t[i] != '\n',
        end < t.len() ==> t[end] == '\n',
    ensures
        opens_with_fence(t),
{
    if end < t.len() {
        lemma_index_of_char_is(t, '\n', end);
    } else {
        lemma_before_char_absent(t, '\n');
        assert(t.take(end) =~= t);
    }
    let line = t.take(end);
    lemma_trailing_whitespace(line, end - 3);
    assert(line.take(3) =~= t.take(3));
}

/// A first line that holds anything but white space after its third
/// character, or does not start with the fence, opens no block.
proof fn lemma_no_fence_line(t: Seq<char>, i: int)
    requires
        0 <= i < t.len(),
        forall|j: int| 0 <= j <= i ==> #[trigger] t[j] != '\n',
        i < 3 ==> t[i] != '-',
        i >= 3 ==> !is_whitespace(t[i]),
    ensures
        !opens_with_fence(t),
{
    lemma_fence();
    let line = first_line(t);
    lemma_find_from(t, seq!['\n'], 0);
    if line.len() <= i {
        let k = line.len() as int;
        assert(t.subrange(k, k + 1)[0] == '\n');
    }
    assert(line[i] == t[i]);
    lemma_whitespace_runs(line);
}

/// Whether the text opens a metadata block.
fn opens_block(text: &Vec<char>) -> (b: bool)
    ensures
        b == opens_with_fence(text@),
{
    if text.len() < 3 {
        proof {
            lemma_fence();
            lemma_before_char(text@, '\n');
            lemma_whitespace_runs(first_line(text@));
        }
        return false;
    }
    let mut i: usize = 0;
    while i < 3
        invariant
            i <= 3 <= text.len(),
            forall|j: int| 0 <= j < i ==> text@[j] == '-',
        decreases 3 - i,
    {
        if text[i] != '-' {
            proof {
                if text@[i as int] == '\n' {
                    lemma_fence();
                    lemma_index_of_char_is(text@, '\n', i as int);
                } else {
                    lemma_no_fence_line(text@, i as int);
                }
            }
            return false;
        }
        i += 1;
    }
    while i < text.len() && text[i] != '\n'
        invariant
            3 <= i <= text.len(),
            text@.take(3) == fence(),
            forall|j: int| 3 <= j < i ==> is_whitespace(#[trigger] text@[j]),
            forall|j: int| 0 <= j < i ==> #[trigger] text@[j] != '\n',
        decreases text.len() - i,
    {
        if !char_is_whitespace(text[i]) {
            proof {
                lemma_no_fence_line(text@, i as int);
            }
            return false;
        }
        i += 1;
    }
    proof {
        lemma_fence_line(text@, i as int);
    }
    true
}

/// Splits a note's text into its metadata block and its content.
///
/// Returns `WithoutProperties` where the first line is not the fence: the
/// whole text is then the content. Fails where the block is opened and no
/// second fence follows.
pub fn parse_obfile(raw_text: &str) -> (r: Result<ResultParse<'_>, ParseError>)
    ensures
        match r {
            Ok(found) => found@ == parse(raw_text@),
            Err(e) => parse(raw_text@) is Malformed && e == ParseError::NotFoundCloser,
        },
{
    let text = chars_of(raw_text);
    if !opens_block(&text) {
        return Ok(ResultParse::WithoutProperties);
    }
    let fence = fence_chars();
    proof {
        lemma_find_from(text@, fence@, 3);
    }
    match find(&text, &fence, 3) {
        None => Err(ParseError::NotFoundCloser),
        Some(k) => {
            let (a, b) = trim_bounds(&text, 3, k);
            let (c, d) = trim_bounds(&text, k + 3, text.len());
            Ok(
                ResultParse::WithProperties {
                    content: raw_text.substring_char(c, d),
                    properties: raw_text.substring_char(a, b),
                },
            )
        },
    }
}

/// The two brackets that open a link.
pub open spec fn link_open() -> Seq<char> {
    seq!['[', '[']
}

/// The two brackets that close a link.
pub open spec fn link_close() -> Seq<char> {
    seq![']', ']']
}

/// The note that a link names, given the text between its brackets: what
/// stands before the first `#`, of that what stands before the first `^`, of
/// that what stands before the first `|`, trimmed.
pub open spec fn link_target(inner: Seq<char>) -> Seq<char> {
    trim(before_char(before_char(before_char(inner, '#'), '^'), '|'))
}

/// The targets of the links of `t` that open at or after `from`, in the
/// order in which they open.
///
/// A link opens with `[[` and runs to the next `]]`; the search for the next
/// link goes on right behind those two opening brackets. An opening that no
/// `]]` follows names nothing.
pub open spec fn links_from(t: Seq<char>, from: int) -> Seq<Seq<char>>
    decreases t.len() + 2 - from,
{
    if from < 0 || from + 2 > t.len() {
        Seq::empty()
    } else if occurs_at(t, link_open(), from) {
        match find_from(t, link_close(), from + 2) {
            Some(end) => seq![link_target(t.subrange(from + 2, end))] + links_from(t, from + 2),
            None => links_from(t, from + 2),
        }
    } else {
        links_from(t, from + 1)
    }
}

/// The targets of all links of `t`.
pub open spec fn links(t: Seq<char>) -> Seq<Seq<char>> {
    links_from(t, 0)
}

/// What each text of `v` holds.
pub open spec fn texts_of(v: Seq<&str>) -> Seq<Seq<char>> {
    v.map_values(|s: &str| s@)
}

/// The opening brackets, as characters.
fn link_open_chars() -> (v: Vec<char>)
    ensures
        v@ == link_open(),
{
    let mut v: Vec<char> = Vec::new();
    v.push('[');
    v.push('[');
    v
}

/// The closing brackets, as characters.
fn link_close_chars() -> (v: Vec<char>)
    ensures
        v@ == link_close(),
{
    let mut v: Vec<char> = Vec::new();
    v.push(']');
    v.push(']');
    v
}

/// Where the part of `text` between `from` and `to` is cut off at its first `c`.
fn cut_at(text: &Vec<char>, from: usize, to: usize, c: char) -> (k: usize)
    requires
        from <= to <= text.len(),
    ensures
        from <= k <= to,
        text@.subrange(from as int, k as int) == before_char(
            text@.subrange(from as int, to as int),
            c,
        ),
{
    let ghost part = text@.subrange(from as int, to as int);
    let mut k: usize = from;
    while k < to
        invariant
            from <= k <= to <= text.len(),
            part == text@.subrange(from as int, to as int),
            forall|i: int| 0 <= i < k - from ==> #[trigger] part[i] != c,
        decreases to - k,
    {
        if text[k] == c {
            proof {
                lemma_index_of_char_is(part, c, k - from);
            }
            return k;
        }
        k += 1;
    }
    proof {
        lemma_before_char_absent(part, c);
    }
    k
}

/// The bounds of the target of the link whose inner text lies between `from` and `to`.
fn target_bounds(text: &Vec<char>, from: usize, to: usize) -> (r: (usize, usize))
    requires
        from <= to <= text.len(),
    ensures
        from <= r.0 <= r.1 <= to,
        text@.subrange(r.0 as int, r.1 as int) == link_target(
            text@.subrange(from as int, to as int),
        ),
{
    let heading = cut_at(text, from, to, '#');
    let block = cut_at(text, from, heading, '^');
    let alias = cut_at(text, from, block, '|');
    trim_bounds(text, from, alias)
}

/// The notes that the links in `text` name, in the order of the links.
///
/// A link is `[[target]]`; a heading after `#`, a block after `^` and an
/// alias after `|` are left out of the target. An opening `[[` that nothing
/// closes is passed over.
pub fn parse_links(text: &str) -> (r: Vec<&str>)
    ensures
        texts_of(r@) == links(text@),
{
    let chars = chars_of(text);
    let open = link_open_chars();
    let close = link_close_chars();
    let mut found: Vec<&str> = Vec::new();
    let mut i: usize = 0;
    while chars.len() >= 2 && i <= chars.len() - 2
        invariant
            chars@ == text@,
            open@ == link_open(),
            close@ == link_close(),
            i <= chars.len(),
            links(text@) == texts_of(found@) + links_from(text@, i as int),
        decreases chars.len() - i,
    {
        if matches_at(&chars, &open, i) {
            proof {
                lemma_find_from(chars@, close@, i + 2);
            }
            match find(&chars, &close, i + 2) {
                Some(end) => {
                    let (a, b) = target_bounds(&chars, i + 2, end);
                    let target = text.substring_char(a, b);
                    found.push(target);
                },
                None => {},
            }
            i += 2;
        } else {
            i += 1;
        }
    }
    found
}

/// A metadata block put together again: the fence, the metadata, the fence
/// and the content, with the text `before` behind the opening fence,
/// `between` before the closing one and `after` behind it.
pub open spec fn rebuild(
    before: Seq<char>,
    properties: Seq<char>,
    between: Seq<char>,
    after: Seq<char>,
    content: Seq<char>,
) -> Seq<char> {
    fence() + before + properties + between + fence() + after + content
}

/// The text of a note with the metadata `properties` and the content
/// `content`: each fence on a line of its own, the metadata between them, the
/// content behind them.
pub fn compose(properties: &str, content: &str) -> (text: String)
    ensures
        text@ == rebuild(seq!['\n'], properties@, seq!['\n'], seq!['\n'], content@),
{
    proof {
        reveal_strlit("---\n");
        reveal_strlit("\n---\n");
    }
    let mut text = String::from_str("---\n");
    text.append(properties);
    text.append("\n---\n");
    text.append(content);
    text
}

/// The two parts of a text with a metadata block are trimmed, and the
/// metadata holds no fence.
pub proof fn lemma_split_parts(t: Seq<char>)
    requires
        parse(t) is Split,
    ensures
        trim(parse(t)->properties) == parse(t)->properties,
        trim(parse(t)->content) == parse(t)->content,
        forall|j: int| !occurs_at(parse(t)->properties, fence(), j),
{
    lemma_find_from(t, fence(), 3);
    let k = find_from(t, fence(), 3).unwrap();
    let inner = t.subrange(3, k);
    let properties = parse(t)->properties;
    lemma_trim_is_trimmed(inner);
    lemma_trim_is_trimmed(t.subrange(k + 3, t.len() as int));
    lemma_trim_is_part(inner);
    let start = leading_whitespace(inner) as int;
    assert forall|j: int| !occurs_at(properties, fence(), j) by {
        if occurs_at(properties, fence(), j) {
            assert(t.subrange(3 + start + j, 3 + start + j + 3) =~= properties.subrange(j, j + 3));
            assert(occurs_at(t, fence(), 3 + start + j));
        }
    }
}

/// A rebuilt text opens a metadata block, where a line feed stands in the
/// white space behind the opening fence.
proof fn lemma_rebuild_opens(
    before: Seq<char>,
    properties: Seq<char>,
    between: Seq<char>,
    after: Seq<char>,
    content: Seq<char>,
)
    requires
        all_whitespace(before),
        before.contains('\n'),
    ensures
        opens_with_fence(rebuild(before, properties, between, after, content)),
{
    let r = rebuild(before, properties, between, after, content);
    let line_feed = seq!['\n'];
    let at = choose|at: int| 0 <= at < before.len() && before[at] == '\n';
    assert(before.subrange(at, at + 1) =~= line_feed);
    assert(occurs_at(before, line_feed, at));
    lemma_find_from(before, line_feed, 0);
    let first = index_of_char(before, '\n').unwrap();
    assert(before.subrange(first, first + 1)[0] == before[first]);
    assert forall|i: int| 0 <= i < 3 + first implies #[trigger] r[i] != '\n' by {
        if i >= 3 {
            if before[i - 3] == '\n' {
                assert(before.subrange(i - 3, i - 2) =~= line_feed);
                assert(occurs_at(before, line_feed, i - 3));
            }
        }
    }
    assert(r.take(3) =~= fence());
    lemma_fence_line(r, 3 + first);
}

/// In a rebuilt text the closing fence is the first fence behind the
/// opening one, where the metadata holds no fence and does not run into the
/// closing one with a dash.
proof fn lemma_rebuild_closes(
    before: Seq<char>,
    properties: Seq<char>,
    between: Seq<char>,
    after: Seq<char>,
    content: Seq<char>,
)
    requires
        all_whitespace(before),
        all_whitespace(between),
        forall|j: int| !occurs_at(properties, fence(), j),
        between.len() > 0 || properties.len() == 0 || properties.last() != '-',
    ensures
        find_from(rebuild(before, properties, between, after, content), fence(), 3) == Some(
            3 + before.len() as int + properties.len() + between.len(),
        ),
{
    let r = rebuild(before, properties, between, after, content);
    let b: int = 3 + before.len() as int;
    let p: int = b + properties.len();
    let c: int = p + between.len();
    assert(r.subrange(c, c + 3) =~= fence());
    assert forall|j: int| 3 <= j < c implies !occurs_at(r, fence(), j) by {
        if occurs_at(r, fence(), j) {
            let found = r.subrange(j, j + 3);
            if b <= j && j + 3 <= p {
                assert(properties.subrange(j - b, j - b + 3) =~= found);
                assert(occurs_at(properties, fence(), j - b));
            }
        }
    }
    lemma_find_from_is(r, fence(), 3, c);
}

/// A text with a metadata block, taken apart and put together again, is
/// taken apart into the same two parts.
///
/// This holds however the parts are padded with white space, as long as a
/// line feed follows the opening fence and the closing fence does not run
/// into a dash that the metadata ends with. Without the line feed the
/// opening fence is no line of its own, and no block is found at all.
pub proof fn lemma_round_trip(
    t: Seq<char>,
    before: Seq<char>,
    between: Seq<char>,
    after: Seq<char>,
)
    requires
        parse(t) is Split,
        all_whitespace(before),
        before.contains('\n'),
        all_whitespace(between),
        all_whitespace(after),
        between.len() > 0 || parse(t)->properties.len() == 0 || parse(t)->properties.last() != '-',
    ensures
        parse(rebuild(before, parse(t)->properties, between, after, parse(t)->content)) == parse(t),
{
    lemma_split_parts(t);
    let properties = parse(t)->properties;
    let content = parse(t)->content;
    let r = rebuild(before, properties, between, after, content);
    lemma_rebuild_opens(before, properties, between, after, content);
    lemma_rebuild_closes(before, properties, between, after, content);
    let c: int = 3 + before.len() as int + properties.len() + between.len();
    assert(r.subrange(3, c) =~= before + properties + between);
    assert(r.subrange(c + 3, r.len() as int) =~= after + content + Seq::<char>::empty());
    lemma_trim_padding(before, properties, between);
    lemma_trim_padding(after, content, Seq::<char>::empty());
}

/// A text with a metadata block, written anew with each fence on a line of
/// its own, as `compose` writes it, is taken apart into the same two parts.
pub proof fn lemma_round_trip_lines(t: Seq<char>)
    requires
        parse(t) is Split,
    ensures
        parse(
            rebuild(seq!['\n'], parse(t)->properties, seq!['\n'], seq!['\n'], parse(t)->content),
        ) == parse(t),
{
    let line_feed = seq!['\n'];
    assert(line_feed[0] == '\n');
    lemma_round_trip(t, line_feed, line_feed, line_feed);
}

/// A text that starts with white space has no metadata block, whatever
/// follows: all of it is content.
pub proof fn lemma_leading_whitespace_is_content(t: Seq<char>)
    requires
        t.len() > 0,
        is_whitespace(t[0]),
    ensures
        parse(t) == Parsed::Plain,
{
    if t[0] == '\n' {
        lemma_index_of_char_is(t, '\n', 0);
    } else {
        lemma_no_fence_line(t, 0);
    }
}

/// The target of a link holds none of the three marks, and is trimmed: read
/// as the inner text of a link, it names itself.
pub proof fn lemma_link_target_idempotent(inner: Seq<char>)
    ensures
        link_target(link_target(inner)) == link_target(inner),
        forall|i: int|
            0 <= i < link_target(inner).len() ==> {
                let c = #[trigger] link_target(inner)[i];
                c != '#' && c != '^' && c != '|'
            },
{
    let a = before_char(inner, '#');
    let b = before_char(a, '^');
    let c = before_char(b, '|');
    let t = trim(c);
    lemma_before_char(inner, '#');
    lemma_before_char(a, '^');
    lemma_before_char(b, '|');
    lemma_trim_is_part(c);
    lemma_trim_is_trimmed(c);
    lemma_before_char_absent(t, '#');
    lemma_before_char_absent(t, '^');
    lemma_before_char_absent(t, '|');
}

/// What follows a mark in a link does not change its target: a name with a
/// heading, a block or an alias behind it, in any number and order, names
/// what the name alone names.
pub proof fn lemma_link_suffix(name: Seq<char>, suffix: Seq<char>)
    requires
        forall|i: int|
            0 <= i < name.len() ==> #[trigger] name[i] != '#' && name[i] != '^' && name[i] != '|',
        suffix.len() > 0 ==> suffix[0] == '#' || suffix[0] == '^' || suffix[0] == '|',
    ensures
        link_target(name + suffix) == trim(name),
        link_target(name + suffix) == link_target(name),
{
    lemma_before_char_absent(name, '#');
    lemma_before_char_absent(name, '^');
    lemma_before_char_absent(name, '|');
    let inner = name + suffix;
    if suffix.len() > 0 {
        let n = name.len() as int;
        lemma_cut_keeps_name(inner, n, '#');
        let a = before_char(inner, '#');
        lemma_cut_keeps_name(a, n, '^');
        let b = before_char(a, '^');
        lemma_cut_keeps_name(b, n, '|');
        let c = before_char(b, '|');
        assert(c =~= name);
    }
}

/// Cutting a text at its first `c` keeps the first `n` characters, where
/// they hold no `c`. Where `c` stands right behind them, nothing else is
/// kept; else what stands right behind them is kept too.
proof fn lemma_cut_keeps_name(s: Seq<char>, n: int, c: char)
    requires
        0 <= n <= s.len(),
        forall|i: int| 0 <= i < n ==> #[trigger] s[i] != c,
    ensures
        n <= before_char(s, c).len() <= s.len(),
        before_char(s, c) == s.take(before_char(s, c).len() as int),
        n < s.len() && s[n] == c ==> before_char(s, c).len() == n,
        n < s.len() && s[n] != c ==> n < before_char(s, c).len(),
{
    lemma_find_from(s, seq![c], 0);
    let r = before_char(s, c);
    if r.len() < s.len() {
        let k = r.len() as int;
        assert(s.subrange(k, k + 1)[0] == c);
    }
    if n < s.len() && s[n] == c {
        lemma_index_of_char_is(s, c, n);
    }
}

/// A text in which no link opens from `from` on has no links from there on.
pub proof fn lemma_no_links(t: Seq<char>, from: int)
    requires
        0 <= from,
        forall|j: int| from <= j ==> !occurs_at(t, link_open(), j),
    ensures
        links_from(t, from) == Seq::<Seq<char>>::empty(),
    decreases t.len() + 2 - from,
{
    if from + 2 <= t.len() {
        lemma_no_links(t, from + 1);
    }
}

/// One link, whose inner text holds no bracket, names one target: that of
/// its inner text.
pub proof fn lemma_single_link(inner: Seq<char>)
    requires
        forall|i: int| 0 <= i < inner.len() ==> #[trigger] inner[i] != '[' && inner[i] != ']',
    ensures
        links(link_open() + inner + link_close()) == seq![link_target(inner)],
{
    let t = link_open() + inner + link_close();
    let n = inner.len() as int;
    assert forall|i: int| 0 <= i < t.len() implies #[trigger] t[i] == (if i < 2 {
        '['
    } else if i < 2 + n {
        inner[i - 2]
    } else {
        ']'
    }) by {}
    assert(t.subrange(0, 2) =~= link_open());
    assert(t.subrange(2 + n, 4 + n) =~= link_close());
    lemma_find_from_is(t, link_close(), 2, 2 + n);
    lemma_no_links(t, 2);
    assert(t.subrange(2, 2 + n) =~= inner);
}

} // verus!
