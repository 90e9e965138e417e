//! Opening a vault: which entries of a directory tree are notes, and how
//! the notes read from them make a vault.
//!
//! Walking the tree is left to the caller. The builders here hold the
//! settings of the walk and answer, for each entry that the walk meets,
//! whether to go on with it.

pub mod options;

use crate::path::{hidden, is_hidden, is_md_file, md_file};
use crate::vault::vault_open::options::VaultOptions;
use vstd::prelude::*;

verus! {

/// The notes among the outcomes of reading files, in their order.
pub open spec fn parsed<N, E>(results: Seq<Result<N, E>>) -> Seq<N>
    decreases results.len(),
{
    if results.len() == 0 {
        Seq::empty()
    } else {
        let rest = parsed(results.drop_last());
        match results.last() {
            Ok(note) => rest.push(note),
            Err(_) => rest,
        }
    }
}

/// The errors among the outcomes of reading files, in their order.
pub open spec fn failed<N, E>(results: Seq<Result<N, E>>) -> Seq<E>
    decreases results.len(),
{
    if results.len() == 0 {
        Seq::empty()
    } else {
        let rest = failed(results.drop_last());
        match results.last() {
            Ok(_) => rest,
            Err(e) => rest.push(e),
        }
    }
}

/// Whether the first error among `results` stands at position `i`.
pub open spec fn first_failure<N, E>(results: Seq<Result<N, E>>, i: int) -> bool {
    &&& 0 <= i < results.len()
    &&& results[i] is Err
    &&& forall|j: int| 0 <= j < i ==> (#[trigger] results[j]) is Ok
}

/// Sorts the outcomes of reading files into the notes that were read and the
/// errors of the files that were not: the way to open a vault that puts up
/// with files it cannot read.
pub fn keep_parsed<N, E>(results: Vec<Result<N, E>>) -> (r: (Vec<N>, Vec<E>))
    ensures
        r.0@ == parsed(results@),
        r.1@ == failed(results@),
{
    let ghost all = results@;
    let mut notes: Vec<N> = Vec::new();
    let mut errors: Vec<E> = Vec::new();
    for result in it: results
        invariant
            it.seq() == all,
            notes@ == parsed(all.take(it.index() as int)),
            errors@ == failed(all.take(it.index() as int)),
    {
        proof {
            let now = all.take(it.index() + 1);
            assert(now.drop_last() =~= all.take(it.index() as int));
        }
        match result {
            Ok(note) => notes.push(note),
            Err(e) => errors.push(e),
        }
    }
    assert(all.take(all.len() as int) =~= all);
    (notes, errors)
}

/// The notes that were read, where every file was read; else the error of
/// the first file that was not, and none of the notes: the way to open a
/// vault that puts up with no such file.
pub fn all_parsed<N, E>(results: Vec<Result<N, E>>) -> (r: Result<Vec<N>, E>)
    ensures
        match r {
            Ok(notes) => notes@ == parsed(results@) && forall|i: int|
                0 <= i < results@.len() ==> (#[trigger] results@[i]) is Ok,
            Err(e) => exists|i: int|
                first_failure(results@, i) && (#[trigger] results@[i]) == Err::<N, E>(e),
        },
{
    let ghost all = results@;
    let mut notes: Vec<N> = Vec::new();
    for result in it: results
        invariant
            it.seq() == all,
            notes@ == parsed(all.take(it.index() as int)),
            forall|i: int| 0 <= i < it.index() ==> (#[trigger] all[i]) is Ok,
    {
        proof {
            let now = all.take(it.index() + 1);
            assert(now.drop_last() =~= all.take(it.index() as int));
        }
        match result {
            Ok(note) => notes.push(note),
            Err(e) => {
                return Err(e);
            },
        }
    }
    assert(all.take(all.len() as int) =~= all);
    Ok(notes)
}

/// Whether a walk that takes hidden entries or not, as `include_hidden`
/// says, goes on with the entry at `path`.
pub fn ignored_hidden_files(include_hidden: bool, path: &str) -> (b: bool)
    ensures
        b == (include_hidden || !hidden(path@)),
{
    include_hidden || !is_hidden(path)
}

/// The settings of a plain walk: the vault and whether hidden entries count.
#[derive(Debug, PartialEq, Eq, Clone, Copy)]
pub struct FilesBuilder<'a> {
    options: &'a VaultOptions,
    include_hidden: bool,
}

impl<'a> FilesBuilder<'a> {
    /// The vault that is walked.
    pub closed spec fn vault(&self) -> VaultOptions {
        *self.options
    }

    /// Whether entries whose name starts with a dot are walked.
    pub closed spec fn takes_hidden(&self) -> bool {
        self.include_hidden
    }

    /// Whether the walk enters the entry at `path`, found `depth` levels
    /// below the root: the root always, another entry unless it is hidden and
    /// hidden entries do not count.
    pub open spec fn enters(&self, depth: nat, path: Seq<char>) -> bool {
        depth == 0 || self.takes_hidden() || !hidden(path)
    }

    /// A walk of the vault of `options` that passes over hidden entries.
    #[must_use]
    pub fn new(options: &'a VaultOptions) -> (builder: Self)
        ensures
            builder.vault() == *options,
            !builder.takes_hidden(),
    {
        FilesBuilder { options, include_hidden: false }
    }

    /// The same walk, with hidden entries walked or not as `include_hidden` says.
    #[must_use]
    pub fn include_hidden(self, include_hidden: bool) -> (builder: Self)
        ensures
            builder.vault() == self.vault(),
            builder.takes_hidden() == include_hidden,
    {
        FilesBuilder { options: self.options, include_hidden }
    }

    /// The vault that is walked.
    pub fn options(&self) -> (r: &'a VaultOptions)
        ensures
            *r == self.vault(),
    {
        self.options
    }

    /// Whether the walk enters the entry at `path`, found `depth` levels
    /// below the root.
    pub fn enters_entry(&self, depth: usize, path: &str) -> (b: bool)
        ensures
            b == self.enters(depth as nat, path@),
    {
        depth == 0 || ignored_hidden_files(self.include_hidden, path)
    }

    /// Whether the entry at `path`, which the walk has entered, is a note: a
    /// file with the extension `md`.
    pub fn takes_file(&self, is_file: bool, path: &str) -> (b: bool)
        ensures
            b == (is_file && md_file(path@)),
    {
        is_file && is_md_file(path)
    }
}

/// The settings of a walk with bounds on its depth.
#[derive(Debug, PartialEq, Eq, Clone, Copy)]
pub struct VaultBuilder<'a> {
    options: &'a VaultOptions,
    include_hidden: bool,
    follow_links: bool,
    follow_root_links: bool,
    max_depth: Option<usize>,
    min_depth: Option<usize>,
}

impl<'a> VaultBuilder<'a> {
    /// The vault that is walked.
    pub closed spec fn vault(&self) -> VaultOptions {
        *self.options
    }

    /// Whether entries whose name starts with a dot are walked.
    pub closed spec fn takes_hidden(&self) -> bool {
        self.include_hidden
    }

    /// Whether the walk follows symbolic links.
    pub closed spec fn follows_links(&self) -> bool {
        self.follow_links
    }

    /// Whether the walk follows the root where it is a symbolic link.
    pub closed spec fn follows_root_links(&self) -> bool {
        self.follow_root_links
    }

    /// The depth below which nothing is walked, where one was set.
    pub closed spec fn max_depth_set(&self) -> Option<usize> {
        self.max_depth
    }

    /// The depth above which nothing is taken, where one was set.
    pub closed spec fn min_depth_set(&self) -> Option<usize> {
        self.min_depth
    }

    /// The greatest depth that is walked: unbounded unless set.
    pub open spec fn deepest(&self) -> usize {
        match self.max_depth_set() {
            Some(d) => d,
            None => usize::MAX,
        }
    }

    /// The least depth that is taken: 1, right below the root, unless set.
    pub open spec fn shallowest(&self) -> usize {
        match self.min_depth_set() {
            Some(d) => d,
            None => 1,
        }
    }

    /// Whether the entry at `path`, found `depth` levels below the root, is a
    /// note of the vault: a file with the extension `md` at a depth within
    /// the bounds. Hidden entries are left out by `enters`, which the walk
    /// asks of each entry before it goes on with it.
    pub open spec fn takes(&self, depth: nat, is_file: bool, path: Seq<char>) -> bool {
        self.shallowest() <= depth <= self.deepest() && is_file && md_file(path)
    }

    /// A walk of the vault of `options`: hidden entries passed over, links
    /// followed at the root only, no bound on the depth.
    #[must_use]
    pub fn new(options: &'a VaultOptions) -> (builder: Self)
        ensures
            builder.vault() == *options,
            !builder.takes_hidden(),
            !builder.follows_links(),
            builder.follows_root_links(),
            builder.max_depth_set() is None,
            builder.min_depth_set() is None,
    {
        VaultBuilder {
            options,
            include_hidden: false,
            follow_links: false,
            follow_root_links: true,
            max_depth: None,
            min_depth: None,
        }
    }

    /// The same walk, with hidden entries walked or not.
    #[must_use]
    pub fn include_hidden(self, include_hidden: bool) -> (builder: Self)
        ensures
            builder.takes_hidden() == include_hidden,
            builder.vault() == self.vault(),
            builder.follows_links() == self.follows_links(),
            builder.follows_root_links() == self.follows_root_links(),
            builder.max_depth_set() == self.max_depth_set(),
            builder.min_depth_set() == self.min_depth_set(),
    {
        let mut builder = self;
        builder.include_hidden = include_hidden;
        builder
    }

    /// The same walk, with symbolic links followed or not.
    #[must_use]
    pub fn follow_links(self, follow_links: bool) -> (builder: Self)
        ensures
            builder.follows_links() == follow_links,
            builder.vault() == self.vault(),
            builder.takes_hidden() == self.takes_hidden(),
            builder.follows_root_links() == self.follows_root_links(),
            builder.max_depth_set() == self.max_depth_set(),
            builder.min_depth_set() == self.min_depth_set(),
    {
        let mut builder = self;
        builder.follow_links = follow_links;
        builder
    }

    /// The same walk, with a root that is a symbolic link followed or not.
    #[must_use]
    pub fn follow_root_links(self, follow_root_links: bool) -> (builder: Self)
        ensures
            builder.follows_root_links() == follow_root_links,
            builder.vault() == self.vault(),
            builder.takes_hidden() == self.takes_hidden(),
            builder.follows_links() == self.follows_links(),
            builder.max_depth_set() == self.max_depth_set(),
            builder.min_depth_set() == self.min_depth_set(),
    {
        let mut builder = self;
        builder.follow_root_links = follow_root_links;
        builder
    }

    /// The same walk, down to `max_depth` levels below the root.
    #[must_use]
    pub fn max_depth(self, max_depth: usize) -> (builder: Self)
        ensures
            builder.max_depth_set() == Some(max_depth),
            builder.vault() == self.vault(),
            builder.takes_hidden() == self.takes_hidden(),
            builder.follows_links() == self.follows_links(),
            builder.follows_root_links() == self.follows_root_links(),
            builder.min_depth_set() == self.min_depth_set(),
    {
        let mut builder = self;
        builder.max_depth = Some(max_depth);
        builder
    }

    /// The same walk, from `min_depth` levels below the root on.
    #[must_use]
    pub fn min_depth(self, min_depth: usize) -> (builder: Self)
        ensures
            builder.min_depth_set() == Some(min_depth),
            builder.vault() == self.vault(),
            builder.takes_hidden() == self.takes_hidden(),
            builder.follows_links() == self.follows_links(),
            builder.follows_root_links() == self.follows_root_links(),
            builder.max_depth_set() == self.max_depth_set(),
    {
        let mut builder = self;
        builder.min_depth = Some(min_depth);
        builder
    }

    /// The vault that is walked.
    pub fn options(&self) -> (r: &'a VaultOptions)
        ensures
            *r == self.vault(),
    {
        self.options
    }

    /// Whether the walk follows symbolic links.
    pub fn follows(&self) -> (b: bool)
        ensures
            b == self.follows_links(),
    {
        self.follow_links
    }

    /// Whether the walk follows the root where it is a symbolic link.
    pub fn follows_root(&self) -> (b: bool)
        ensures
            b == self.follows_root_links(),
    {
        self.follow_root_links
    }

    /// The greatest depth that is walked.
    pub fn greatest_depth(&self) -> (d: usize)
        ensures
            d == self.deepest(),
    {
        match self.max_depth {
            Some(d) => d,
            None => usize::MAX,
        }
    }

    /// The least depth that is taken.
    pub fn least_depth(&self) -> (d: usize)
        ensures
            d == self.shallowest(),
    {
        match self.min_depth {
            Some(d) => d,
            None => 1,
        }
    }

    /// Whether the walk goes on with the entry at `path`: always, unless the
    /// entry is hidden and hidden entries do not count.
    pub fn enters_entry(&self, path: &str) -> (b: bool)
        ensures
            b == (self.takes_hidden() || !hidden(path@)),
    {
        ignored_hidden_files(self.include_hidden, path)
    }

    /// Whether the entry at `path`, found `depth` levels below the root, is a
    /// note of the vault.
    pub fn takes_file(&self, depth: usize, is_file: bool, path: &str) -> (b: bool)
        ensures
            b == self.takes(depth as nat, is_file, path@),
    {
        self.least_depth() <= depth && depth <= self.greatest_depth() && is_file && is_md_file(
            path,
        )
    }
}

} // verus!
