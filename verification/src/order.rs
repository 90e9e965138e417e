//! Keys, their order, and the entries that share a key.
//!
//! A key is a sequence of bytes; keys are ordered byte by byte, a key before
//! every key that it is a proper prefix of. Entries are numbered; an entry
//! may have no key. Entries are ordered by their keys, and entries with the
//! same key by their numbers.

use vstd::pervasive::unreached;
use vstd::prelude::*;

verus! {

/// Whether `a` and `b` agree before position `k`, where `b` goes on and `a`
/// ends or goes on with a smaller byte.
pub open spec fn less_at(a: Seq<u8>, b: Seq<u8>, k: int) -> bool {
    &&& 0 <= k <= a.len()
    &&& k < b.len()
    &&& a.take(k) == b.take(k)
    &&& k < a.len() ==> a[k] < b[k]
}

/// Whether the key `a` comes before the key `b`.
pub open spec fn lex_lt(a: Seq<u8>, b: Seq<u8>) -> bool {
    exists|k: int| less_at(a, b, k)
}

/// The keys of entries, as what they hold.
pub open spec fn key_views(keys: Seq<Option<Vec<u8>>>) -> Seq<Option<Seq<u8>>> {
    keys.map_values(
        |k: Option<Vec<u8>>|
            match k {
                Some(bytes) => Some(bytes@),
                None => None,
            },
    )
}

/// Whether the entry `x` comes before the entry `y`: by key, and by number
/// where the keys are the same.
pub open spec fn entry_lt(keys: Seq<Option<Seq<u8>>>, x: usize, y: usize) -> bool {
    let a = keys[x as int].unwrap();
    let b = keys[y as int].unwrap();
    lex_lt(a, b) || (a == b && x < y)
}

/// Whether every entry of `s` is an entry with a key.
pub open spec fn keyed(keys: Seq<Option<Seq<u8>>>, s: Seq<usize>) -> bool {
    forall|i: int| 0 <= i < s.len() ==> (#[trigger] s[i]) < keys.len() && keys[s[i] as int] is Some
}

/// Whether the entries of `s` stand in their order, none of them twice.
pub open spec fn sorted(keys: Seq<Option<Seq<u8>>>, s: Seq<usize>) -> bool {
    forall|i: int, j: int| 0 <= i < j < s.len() ==> entry_lt(keys, #[trigger] s[i], #[trigger] s[j])
}

/// Whether the entry `x` has a key that another entry has too.
pub open spec fn shares_key(keys: Seq<Option<Seq<u8>>>, x: int) -> bool {
    &&& 0 <= x < keys.len()
    &&& keys[x] is Some
    &&& exists|y: int| 0 <= y < keys.len() && y != x && #[trigger] keys[y] == keys[x]
}

/// Whether `r` is the list of the entries that share their key with another
/// entry: all of them, each once, in the order of the entries. There is one
/// such list.
pub open spec fn is_duplicates(keys: Seq<Option<Seq<u8>>>, r: Seq<usize>) -> bool {
    &&& keyed(keys, r)
    &&& sorted(keys, r)
    &&& forall|x: usize| r.contains(x) <==> shares_key(keys, x as int)
}

/// A key that comes before a key that comes before a third comes before the third.
pub proof fn lemma_lex_transitive(a: Seq<u8>, b: Seq<u8>, c: Seq<u8>)
    requires
        lex_lt(a, b),
        lex_lt(b, c),
    ensures
        lex_lt(a, c),
{
    let k1 = choose|k: int| less_at(a, b, k);
    let k2 = choose|k: int| less_at(b, c, k);
    let k = if k1 <= k2 {
        k1
    } else {
        k2
    };
    assert(a.take(k) =~= c.take(k)) by {
        assert forall|i: int| 0 <= i < k implies a[i] == c[i] by {
            assert(a.take(k1)[i] == b.take(k1)[i]);
        }
    }
    if k1 < k2 {
        assert(b.take(k2)[k1] == c.take(k2)[k1]);
    } else if k2 < k1 {
        assert(a.take(k1)[k2] == b.take(k1)[k2]);
    }
    assert(less_at(a, c, k));
}

/// Of two keys, one does not come before the other both ways.
pub proof fn lemma_lex_asymmetric(a: Seq<u8>, b: Seq<u8>)
    requires
        lex_lt(a, b),
    ensures
        !lex_lt(b, a),
        a != b,
{
    if lex_lt(b, a) {
        lemma_lex_transitive(a, b, a);
    }
}

/// The order of entries is transitive.
pub proof fn lemma_entry_transitive(keys: Seq<Option<Seq<u8>>>, x: usize, y: usize, z: usize)
    requires
        entry_lt(keys, x, y),
        entry_lt(keys, y, z),
    ensures
        entry_lt(keys, x, z),
{
    let a = keys[x as int].unwrap();
    let b = keys[y as int].unwrap();
    let c = keys[z as int].unwrap();
    if lex_lt(a, b) && lex_lt(b, c) {
        lemma_lex_transitive(a, b, c);
    }
}

/// In a sorted list, entries with the same key stand side by side: between
/// two of them stand only entries with that key.
pub proof fn lemma_same_key_between(keys: Seq<Option<Seq<u8>>>, s: Seq<usize>, p: int, q: int, m: int)
    requires
        sorted(keys, s),
        0 <= p <= m <= q < s.len(),
        keys[s[p] as int].unwrap() == keys[s[q] as int].unwrap(),
    ensures
        keys[s[m] as int].unwrap() == keys[s[p] as int].unwrap(),
{
    let a = keys[s[p] as int].unwrap();
    let b = keys[s[m] as int].unwrap();
    if p < m && m < q && lex_lt(a, b) && lex_lt(b, a) {
        lemma_lex_asymmetric(a, b);
    }
}

/// There is one list of the entries that share their key.
pub proof fn lemma_duplicates_unique(keys: Seq<Option<Seq<u8>>>, r: Seq<usize>, s: Seq<usize>)
    requires
        is_duplicates(keys, r),
        is_duplicates(keys, s),
    ensures
        r == s,
{
    lemma_sorted_same_entries(keys, r, s);
}

/// Two sorted lists of the same entries are the same list.
pub proof fn lemma_sorted_same_entries(keys: Seq<Option<Seq<u8>>>, r: Seq<usize>, s: Seq<usize>)
    requires
        sorted(keys, r),
        sorted(keys, s),
        keyed(keys, r),
        keyed(keys, s),
        forall|x: usize| r.contains(x) <==> s.contains(x),
    ensures
        r == s,
    decreases r.len(),
{
    if r.len() == 0 {
        if s.len() > 0 {
            assert(s.contains(s[0]));
        }
    } else {
        let last = r.last();
        assert(r.contains(last));
        let q = choose|q: int| 0 <= q < s.len() && s[q] == last;
        if q < s.len() - 1 {
            let other = s[q + 1];
            assert(s.contains(other));
            let p = choose|p: int| 0 <= p < r.len() && r[p] == other;
            if p < r.len() - 1 {
                lemma_entry_transitive(keys, last, other, last);
            }
        }
        let r0 = r.drop_last();
        let s0 = s.drop_last();
        assert forall|x: usize| r0.contains(x) <==> s0.contains(x) by {
            if r0.contains(x) {
                assert(r.contains(x));
                let t = choose|t: int| 0 <= t < s.len() && s[t] == x;
                assert(s0[t] == x);
            }
            if s0.contains(x) {
                assert(s.contains(x));
                let t = choose|t: int| 0 <= t < r.len() && r[t] == x;
                assert(r0[t] == x);
            }
        }
        lemma_sorted_same_entries(keys, r0, s0);
        assert(r =~= r0.push(last));
    }
}

/// How two keys stand to each other.
#[derive(Debug, PartialEq, Eq, Clone, Copy)]
pub enum Rank {
    /// The first comes before the second.
    Before,
    /// They are the same key.
    Same,
    /// The first comes after the second.
    After,
}

/// How the key `a` stands to the key `b`.
pub fn rank(a: &Vec<u8>, b: &Vec<u8>) -> (r: Rank)
    ensures
        match r {
            Rank::Before => lex_lt(a@, b@),
            Rank::Same => a@ == b@,
            Rank::After => lex_lt(b@, a@),
        },
{
    let mut k: usize = 0;
    while k < a.len() && k < b.len()
        invariant
            k <= a.len(),
            k <= b.len(),
            a@.take(k as int) == b@.take(k as int),
        decreases a.len() - k,
    {
        if a[k] < b[k] {
            assert(less_at(a@, b@, k as int));
            return Rank::Before;
        }
        if a[k] > b[k] {
            assert(less_at(b@, a@, k as int));
            return Rank::After;
        }
        k += 1;
    }
    if k < b.len() {
        assert(less_at(a@, b@, k as int));
        Rank::Before
    } else if k < a.len() {
        assert(less_at(b@, a@, k as int));
        Rank::After
    } else {
        assert(a@.take(k as int) =~= a@);
        Rank::Same
    }
}

/// The key of the entry `x`.
fn key_of(keys: &Vec<Option<Vec<u8>>>, x: usize) -> (key: &Vec<u8>)
    requires
        x < keys.len(),
        keys[x as int] is Some,
    ensures
        Some(key@) == key_views(keys@)[x as int],
{
    match &keys[x] {
        Some(key) => key,
        None => unreached(),
    }
}

/// Whether the entry `x` comes before the entry `y`.
fn entry_before(keys: &Vec<Option<Vec<u8>>>, x: usize, y: usize) -> (b: bool)
    requires
        x < keys.len(),
        y < keys.len(),
        keys[x as int] is Some,
        keys[y as int] is Some,
    ensures
        b == entry_lt(key_views(keys@), x, y),
        !b && x != y ==> entry_lt(key_views(keys@), y, x),
{
    let r = rank(key_of(keys, x), key_of(keys, y));
    proof {
        let a = key_views(keys@)[x as int].unwrap();
        let b = key_views(keys@)[y as int].unwrap();
        if lex_lt(a, b) {
            lemma_lex_asymmetric(a, b);
        }
    }
    match r {
        Rank::Before => true,
        Rank::Same => x < y,
        Rank::After => false,
    }
}

/// Whether the entries `x` and `y` have the same key.
fn same_key(keys: &Vec<Option<Vec<u8>>>, x: usize, y: usize) -> (b: bool)
    requires
        x < keys.len(),
        y < keys.len(),
        keys[x as int] is Some,
        keys[y as int] is Some,
    ensures
        b == (key_views(keys@)[x as int] == key_views(keys@)[y as int]),
{
    let r = rank(key_of(keys, x), key_of(keys, y));
    match r {
        Rank::Same => true,
        _ => false,
    }
}

/// The entries of two sorted lists that share no entry, as one sorted list.
fn merge(keys: &Vec<Option<Vec<u8>>>, left: &Vec<usize>, right: &Vec<usize>) -> (out: Vec<usize>)
    requires
        keyed(key_views(keys@), left@),
        keyed(key_views(keys@), right@),
        sorted(key_views(keys@), left@),
        sorted(key_views(keys@), right@),
        forall|i: int, j: int|
            0 <= i < left@.len() && 0 <= j < right@.len() ==> #[trigger] left@[i]
                != #[trigger] right@[j],
    ensures
        keyed(key_views(keys@), out@),
        sorted(key_views(keys@), out@),
        out@.len() == left@.len() + right@.len(),
        forall|x: usize| out@.contains(x) <==> left@.contains(x) || right@.contains(x),
{
    let ghost ks = key_views(keys@);
    let mut out: Vec<usize> = Vec::new();
    let mut i: usize = 0;
    let mut j: usize = 0;
    while i < left.len() || j < right.len()
        invariant
            ks == key_views(keys@),
            i <= left.len(),
            j <= right.len(),
            out@.len() == i + j,
            keyed(ks, left@),
            keyed(ks, right@),
            sorted(ks, left@),
            sorted(ks, right@),
            forall|a: int, b: int|
                0 <= a < left@.len() && 0 <= b < right@.len() ==> #[trigger] left@[a]
                    != #[trigger] right@[b],
            keyed(ks, out@),
            sorted(ks, out@),
            forall|p: int, q: int|
                0 <= p < out@.len() && i <= q < left@.len() ==> entry_lt(
                    ks,
                    #[trigger] out@[p],
                    #[trigger] left@[q],
                ),
            forall|p: int, q: int|
                0 <= p < out@.len() && j <= q < right@.len() ==> entry_lt(
                    ks,
                    #[trigger] out@[p],
                    #[trigger] right@[q],
                ),
            forall|x: usize|
                out@.contains(x) <==> left@.take(i as int).contains(x) || right@.take(
                    j as int,
                ).contains(x),
        decreases left.len() - i + right.len() - j,
    {
        let ghost before = out@;
        let take_left: bool = if i == left.len() {
            false
        } else if j == right.len() {
            true
        } else {
            entry_before(keys, left[i], right[j])
        };
        if take_left {
            let v = left[i];
            out.push(v);
            proof {
                assert forall|p: int, q: int|
                    0 <= p < out@.len() && j <= q < right@.len() implies entry_lt(
                    ks,
                    #[trigger] out@[p],
                    #[trigger] right@[q],
                ) by {
                    if p == before.len() && q > j {
                        lemma_entry_transitive(ks, v, right@[j as int], right@[q]);
                    }
                }
                assert(left@.take(i + 1) =~= left@.take(i as int).push(v));
                assert forall|x: usize|
                    out@.contains(x) <==> left@.take(i + 1).contains(x) || right@.take(
                        j as int,
                    ).contains(x) by {
                    lemma_contains_push(before, v, x);
                    lemma_contains_push(left@.take(i as int), v, x);
                }
            }
            i += 1;
        } else {
            let v = right[j];
            out.push(v);
            proof {
                assert forall|p: int, q: int|
                    0 <= p < out@.len() && i <= q < left@.len() implies entry_lt(
                    ks,
                    #[trigger] out@[p],
                    #[trigger] left@[q],
                ) by {
                    if p == before.len() && q > i {
                        lemma_entry_transitive(ks, v, left@[i as int], left@[q]);
                    }
                }
                assert(right@.take(j + 1) =~= right@.take(j as int).push(v));
                assert forall|x: usize|
                    out@.contains(x) <==> left@.take(i as int).contains(x) || right@.take(
                        j + 1,
                    ).contains(x) by {
                    lemma_contains_push(before, v, x);
                    lemma_contains_push(right@.take(j as int), v, x);
                }
            }
            j += 1;
        }
    }
    proof {
        assert(left@.take(i as int) =~= left@);
        assert(right@.take(j as int) =~= right@);
    }
    out
}

/// What a list holds after one more entry is added to it.
pub proof fn lemma_contains_push(s: Seq<usize>, v: usize, x: usize)
    ensures
        s.push(v).contains(x) <==> s.contains(x) || x == v,
{
    if s.contains(x) {
        let p = choose|p: int| 0 <= p < s.len() && s[p] == x;
        assert(s.push(v)[p] == x);
    }
    if x == v {
        assert(s.push(v)[s.len() as int] == x);
    }
}

/// The entries of `items` from position `lo` up to position `hi`, sorted.
fn sort_range(keys: &Vec<Option<Vec<u8>>>, items: &Vec<usize>, lo: usize, hi: usize) -> (out: Vec<
    usize,
>)
    requires
        lo <= hi <= items.len(),
        keyed(key_views(keys@), items@),
        forall|a: int, b: int|
            0 <= a < b < items@.len() ==> #[trigger] items@[a] != #[trigger] items@[b],
    ensures
        keyed(key_views(keys@), out@),
        sorted(key_views(keys@), out@),
        out@.len() == hi - lo,
        forall|x: usize| out@.contains(x) <==> items@.subrange(lo as int, hi as int).contains(x),
    decreases hi - lo,
{
    let ghost part = items@.subrange(lo as int, hi as int);
    if hi - lo == 0 {
        return Vec::new();
    }
    if hi - lo == 1 {
        let mut out: Vec<usize> = Vec::new();
        out.push(items[lo]);
        proof {
            assert(out@ =~= part);
        }
        return out;
    }
    let mid: usize = lo + (hi - lo) / 2;
    let left = sort_range(keys, items, lo, mid);
    let right = sort_range(keys, items, mid, hi);
    proof {
        let l = items@.subrange(lo as int, mid as int);
        let r = items@.subrange(mid as int, hi as int);
        assert forall|i: int, j: int|
            0 <= i < left@.len() && 0 <= j < right@.len() implies #[trigger] left@[i]
            != #[trigger] right@[j] by {
            assert(left@.contains(left@[i]));
            assert(right@.contains(right@[j]));
        }
        assert forall|x: usize| l.contains(x) || r.contains(x) <==> part.contains(x) by {
            if r.contains(x) {
                let q = choose|q: int| 0 <= q < r.len() && r[q] == x;
                assert(part[mid - lo + q] == x);
            }
            if part.contains(x) {
                let p = choose|p: int| 0 <= p < part.len() && part[p] == x;
                if p >= mid - lo {
                    assert(r[p - (mid - lo)] == x);
                }
            }
        }
    }
    merge(keys, &left, &right)
}

/// The entries that share their key with another entry: all of them, each
/// once, ordered by key, and by number where the keys are the same.
pub fn duplicates_by_key(keys: &Vec<Option<Vec<u8>>>) -> (r: Vec<usize>)
    ensures
        is_duplicates(key_views(keys@), r@),
{
    let ghost ks = key_views(keys@);
    let mut items: Vec<usize> = Vec::new();
    let mut i: usize = 0;
    while i < keys.len()
        invariant
            i <= keys.len(),
            ks == key_views(keys@),
            keyed(ks, items@),
            forall|a: int| 0 <= a < items@.len() ==> (#[trigger] items@[a]) < i,
            forall|a: int, b: int|
                0 <= a < b < items@.len() ==> #[trigger] items@[a] < #[trigger] items@[b],
            forall|x: usize| x < i && ks[x as int] is Some ==> items@.contains(x),
        decreases keys.len() - i,
    {
        let ghost before = items@;
        if keys[i].is_some() {
            items.push(i);
            proof {
                assert forall|x: usize| x < i + 1 && ks[x as int] is Some implies items@.contains(
                    x,
                ) by {
                    lemma_contains_push(before, i, x);
                }
            }
        }
        i += 1;
    }
    let order = sort_range(keys, &items, 0, items.len());
    proof {
        assert(items@.subrange(0, items@.len() as int) =~= items@);
    }
    let mut found: Vec<usize> = Vec::new();
    let mut k: usize = 0;
    while k < order.len()
        invariant
            k <= order.len(),
            ks == key_views(keys@),
            keyed(ks, order@),
            sorted(ks, order@),
            keyed(ks, found@),
            sorted(ks, found@),
            forall|p: int, q: int|
                0 <= p < found@.len() && k <= q < order@.len() ==> entry_lt(
                    ks,
                    #[trigger] found@[p],
                    #[trigger] order@[q],
                ),
            forall|x: usize|
                found@.contains(x) <==> exists|p: int|
                    0 <= p < k && #[trigger] order@[p] == x && beside_same_key(ks, order@, p),
        decreases order.len() - k,
    {
        let ghost before = found@;
        let x = order[k];
        let mut shared: bool = false;
        if k > 0 {
            if same_key(keys, order[k - 1], x) {
                shared = true;
            }
        }
        if !shared && k + 1 < order.len() {
            if same_key(keys, x, order[k + 1]) {
                shared = true;
            }
        }
        if shared {
            found.push(x);
        }
        proof {
            assert forall|y: usize|
                found@.contains(y) <==> exists|p: int|
                    0 <= p < k + 1 && #[trigger] order@[p] == y && beside_same_key(
                        ks,
                        order@,
                        p,
                    ) by {
                if shared {
                    lemma_contains_push(before, x, y);
                }
            }
        }
        k += 1;
    }
    proof {
        assert forall|x: usize| found@.contains(x) <==> shares_key(ks, x as int) by {
            if x < ks.len() {
                lemma_found_shares(ks, order@, x);
            }
        }
    }
    found
}

/// Whether the entry at position `p` of `s` has the key of the entry before
/// it or of the entry behind it.
pub open spec fn beside_same_key(keys: Seq<Option<Seq<u8>>>, s: Seq<usize>, p: int) -> bool {
    ||| p > 0 && keys[s[p - 1] as int] == keys[s[p] as int]
    ||| p + 1 < s.len() && keys[s[p] as int] == keys[s[p + 1] as int]
}

/// In the sorted list of all entries with a key, an entry stands beside one
/// with its key just when it shares its key with another entry.
proof fn lemma_found_shares(keys: Seq<Option<Seq<u8>>>, order: Seq<usize>, x: usize)
    requires
        x < keys.len() <= usize::MAX,
        keyed(keys, order),
        sorted(keys, order),
        forall|y: usize| y < keys.len() && keys[y as int] is Some ==> order.contains(y),
    ensures
        shares_key(keys, x as int) <==> exists|p: int|
            0 <= p < order.len() && #[trigger] order[p] == x && beside_same_key(keys, order, p),
{
    if shares_key(keys, x as int) {
        let y = choose|y: int|
            0 <= y < keys.len() && y != x as int && #[trigger] keys[y] == keys[x as int];
        let yu = y as usize;
        assert(order.contains(x));
        assert(order.contains(yu));
        let p = choose|p: int| 0 <= p < order.len() && order[p] == x;
        let q = choose|q: int| 0 <= q < order.len() && order[q] == yu;
        if p < q {
            lemma_same_key_between(keys, order, p, q, p + 1);
        } else {
            lemma_same_key_between(keys, order, q, p, p - 1);
        }
    }
}

} // verus!
