//! Locations as text: components separated by `/`, the last of them a file
//! name with an optional extension.
//!
//! A location is taken as it is written. Components are not resolved and
//! repeated or trailing separators are not removed: `a/b/` names the empty
//! file in `a/b`.

use crate::text::chars_of;
use vstd::prelude::*;
use vstd::string::StrSliceExecFns;

verus! {

/// The last position where `c` stands in `s`.
pub open spec fn last_index_of(s: Seq<char>, c: char) -> Option<int>
    decreases s.len(),
{
    if s.len() == 0 {
        None
    } else if s.last() == c {
        Some(s.len() - 1)
    } else {
        last_index_of(s.drop_last(), c)
    }
}

/// The last component of the location `p`: what follows its last `/`.
pub open spec fn file_name(p: Seq<char>) -> Seq<char> {
    match last_index_of(p, '/') {
        Some(k) => p.skip(k + 1),
        None => p,
    }
}

/// The name of the parent directory, which has no stem and no extension.
pub open spec fn dot_dot() -> Seq<char> {
    seq!['.', '.']
}

/// How much of the file name `name` is its stem: all that stands before its
/// last dot. A name without a dot, or with none but at its start, is all stem.
pub open spec fn stem_len(name: Seq<char>) -> int {
    if name == dot_dot() {
        name.len() as int
    } else {
        match last_index_of(name, '.') {
            Some(k) => if k > 0 {
                k
            } else {
                name.len() as int
            },
            None => name.len() as int,
        }
    }
}

/// The file name `name` without its extension.
pub open spec fn file_stem(name: Seq<char>) -> Seq<char> {
    name.take(stem_len(name))
}

/// What follows the last dot of the file name `name`, where it has an extension.
pub open spec fn extension(name: Seq<char>) -> Option<Seq<char>> {
    if stem_len(name) < name.len() {
        Some(name.skip(stem_len(name) + 1))
    } else {
        None
    }
}

/// The name under which the note at `p` is known: its file name without the
/// extension.
pub open spec fn note_name(p: Seq<char>) -> Seq<char> {
    file_stem(file_name(p))
}

/// The location `p` without the extension of its file name.
pub open spec fn without_extension(p: Seq<char>) -> Seq<char> {
    p.take(p.len() - file_name(p).len() + stem_len(file_name(p)))
}

/// What every location below `root` starts with: `root` and a separator.
/// The empty root stands for the directory a relative location starts from.
pub open spec fn root_prefix(root: Seq<char>) -> Seq<char> {
    if root.len() == 0 || root.last() == '/' {
        root
    } else {
        root.push('/')
    }
}

/// Whether the location `p` lies below `root`.
pub open spec fn is_under(root: Seq<char>, p: Seq<char>) -> bool {
    let prefix = root_prefix(root);
    prefix.len() <= p.len() && p.take(prefix.len() as int) == prefix
}

/// The key under which a note at `p` is found by its full location: `p`
/// relative to `root`, without the extension.
pub open spec fn full_key(root: Seq<char>, p: Seq<char>) -> Seq<char> {
    without_extension(p.skip(root_prefix(root).len() as int))
}

/// The name of the directory itself, which is no file name.
pub open spec fn dot() -> Seq<char> {
    seq!['.']
}

/// Whether the file name of `p` starts with a dot. The names `.` and `..`
/// stand for directories and are not hidden.
pub open spec fn hidden(p: Seq<char>) -> bool {
    let name = file_name(p);
    name.len() > 0 && name[0] == '.' && name != dot() && name != dot_dot()
}

/// Whether the extension of `p` is `md`, in upper or lower case.
pub open spec fn md_file(p: Seq<char>) -> bool {
    match extension(file_name(p)) {
        Some(e) => e.len() == 2 && (e[0] == 'm' || e[0] == 'M') && (e[1] == 'd' || e[1] == 'D'),
        None => false,
    }
}

/// What `last_index_of` returns: the position of a `c` that no `c` follows.
pub proof fn lemma_last_index_of(s: Seq<char>, c: char)
    ensures
        match last_index_of(s, c) {
            Some(k) => 0 <= k < s.len() && s[k] == c && forall|i: int|
                k < i < s.len() ==> #[trigger] s[i] != c,
            None => forall|i: int| 0 <= i < s.len() ==> #[trigger] s[i] != c,
        },
    decreases s.len(),
{
    if s.len() > 0 && s.last() != c {
        let t = s.drop_last();
        lemma_last_index_of(t, c);
        match last_index_of(t, c) {
            Some(k) => {
                assert forall|i: int| k < i < s.len() implies #[trigger] s[i] != c by {
                    if i < t.len() {
                        assert(s[i] == t[i]);
                    }
                }
            },
            None => {
                assert forall|i: int| 0 <= i < s.len() implies #[trigger] s[i] != c by {
                    if i < t.len() {
                        assert(s[i] == t[i]);
                    }
                }
            },
        }
    }
}

/// A `c` at `k` that no `c` follows is what `last_index_of` returns.
pub proof fn lemma_last_index_of_is(s: Seq<char>, c: char, k: int)
    requires
        0 <= k < s.len(),
        s[k] == c,
        forall|i: int| k < i < s.len() ==> #[trigger] s[i] != c,
    ensures
        last_index_of(s, c) == Some(k),
    decreases s.len(),
{
    if k < s.len() - 1 {
        let t = s.drop_last();
        lemma_last_index_of_is(t, c, k);
    }
}

/// A text without `c` has no last `c`.
pub proof fn lemma_last_index_of_none(s: Seq<char>, c: char)
    requires
        forall|i: int| 0 <= i < s.len() ==> #[trigger] s[i] != c,
    ensures
        last_index_of(s, c) is None,
    decreases s.len(),
{
    if s.len() > 0 {
        let t = s.drop_last();
        lemma_last_index_of_none(t, c);
    }
}

/// The last position between `from` and `to` where `c` stands in `text`.
fn last_index_in(text: &Vec<char>, from: usize, to: usize, c: char) -> (r: Option<usize>)
    requires
        from <= to <= text.len(),
    ensures
        match r {
            Some(k) => from <= k < to && last_index_of(text@.subrange(from as int, to as int), c)
                == Some(k - from),
            None => last_index_of(text@.subrange(from as int, to as int), c) is None,
        },
{
    let ghost part = text@.subrange(from as int, to as int);
    let mut j: usize = to;
    while j > from
        invariant
            from <= j <= to <= text.len(),
            part == text@.subrange(from as int, to as int),
            forall|i: int| j - from <= i < part.len() ==> #[trigger] part[i] != c,
        decreases j,
    {
        if text[j - 1] == c {
            proof {
                lemma_last_index_of_is(part, c, j - 1 - from);
            }
            return Some(j - 1);
        }
        j -= 1;
    }
    proof {
        lemma_last_index_of_none(part, c);
    }
    None
}

/// Where the file name of the location between `from` and `to` starts.
fn file_name_start(text: &Vec<char>, from: usize, to: usize) -> (r: usize)
    requires
        from <= to <= text.len(),
    ensures
        from <= r <= to,
        text@.subrange(r as int, to as int) == file_name(text@.subrange(from as int, to as int)),
{
    match last_index_in(text, from, to, '/') {
        Some(k) => {
            k + 1
        },
        None => from,
    }
}

/// Where the stem of the file name between `from` and `to` ends.
fn stem_end(text: &Vec<char>, from: usize, to: usize) -> (r: usize)
    requires
        from <= to <= text.len(),
    ensures
        from <= r <= to,
        r - from == stem_len(text@.subrange(from as int, to as int)),
{
    let ghost name = text@.subrange(from as int, to as int);
    if to - from == 2 && text[from] == '.' && text[from + 1] == '.' {
        assert(name =~= dot_dot());
        return to;
    }
    match last_index_in(text, from, to, '.') {
        Some(k) => if k > from {
            k
        } else {
            to
        },
        None => to,
    }
}

/// The name under which the note at `path` is known: the file name without
/// its extension.
pub fn note_name_of(path: &str) -> (r: String)
    ensures
        r@ == note_name(path@),
{
    let text = chars_of(path);
    let start = file_name_start(&text, 0, text.len());
    let end = stem_end(&text, start, text.len());
    proof {
        assert(text@.subrange(0, text.len() as int) =~= path@);
    }
    path.substring_char(start, end).to_owned()
}

/// The key under which the note at `path` is found by its full location in
/// the vault at `root`. There is none where `path` does not lie below `root`.
pub fn full_key_of(root: &str, path: &str) -> (r: Option<String>)
    ensures
        match r {
            Some(key) => is_under(root@, path@) && key@ == full_key(root@, path@),
            None => !is_under(root@, path@),
        },
{
    let base = chars_of(root);
    let text = chars_of(path);
    let ghost prefix = root_prefix(root@);
    let joined: bool = base.len() > 0 && base[base.len() - 1] != '/';
    if base.len() > text.len() || (joined && base.len() == text.len()) {
        return None;
    }
    let mut i: usize = 0;
    while i < base.len()
        invariant
            i <= base.len() <= prefix.len() <= text.len(),
            base@ == root@,
            text@ == path@,
            prefix == root_prefix(root@),
            forall|j: int| 0 <= j < i ==> text@[j] == base@[j],
        decreases base.len() - i,
    {
        if text[i] != base[i] {
            proof {
                if is_under(root@, path@) {
                    assert(path@.take(prefix.len() as int)[i as int] == path@[i as int]);
                }
            }
            return None;
        }
        i += 1;
    }
    let mut start: usize = base.len();
    if joined {
        if text[start] != '/' {
            proof {
                if is_under(root@, path@) {
                    assert(path@.take(prefix.len() as int)[start as int] == path@[start as int]);
                }
            }
            return None;
        }
        start += 1;
    }
    assert(path@.take(prefix.len() as int) =~= prefix);
    let name = file_name_start(&text, start, text.len());
    let end = stem_end(&text, name, text.len());
    Some(path.substring_char(start, end).to_owned())
}

/// Whether the file name of `path` starts with a dot; `.` and `..` are no
/// file names.
pub fn is_hidden(path: &str) -> (b: bool)
    ensures
        b == hidden(path@),
{
    let text = chars_of(path);
    let start = file_name_start(&text, 0, text.len());
    let ghost name = file_name(path@);
    proof {
        assert(text@.subrange(0, text.len() as int) =~= path@);
    }
    if start == text.len() || text[start] != '.' {
        return false;
    }
    if text.len() - start == 1 {
        assert(name =~= dot());
        return false;
    }
    if text.len() - start == 2 && text[start + 1] == '.' {
        assert(name =~= dot_dot());
        return false;
    }
    true
}

/// Whether the extension of `path` is `md`, in upper or lower case.
pub fn is_md_file(path: &str) -> (b: bool)
    ensures
        b == md_file(path@),
{
    let text = chars_of(path);
    let start = file_name_start(&text, 0, text.len());
    let end = stem_end(&text, start, text.len());
    proof {
        assert(text@.subrange(0, text.len() as int) =~= path@);
    }
    if text.len() - end != 3 {
        return false;
    }
    let m = text[end + 1];
    let d = text[end + 2];
    (m == 'm' || m == 'M') && (d == 'd' || d == 'D')
}

} // verus!
