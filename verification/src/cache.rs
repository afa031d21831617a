use vstd::prelude::*;

use crate::config::{join_path, join_spec};
use crate::digest::{hex_lower, sha256_digest, sha256_of, to_hex_lower};
use crate::text::{push_str, str_equals};
use crate::clock::now_ms;
use vstd::utf8::encode_utf8;

verus! {

/// What the cache holds of one file: its path, its size in bytes and the
/// millisecond of its last use.
#[derive(Clone, Debug)]
pub struct CacheEntry {
    pub path: String,
    pub size: u64,
    pub last_access: u128,
}

/// One file of the cache together with the key it is found by.
#[derive(Clone, Debug)]
pub struct CachedFile {
    pub key: String,
    pub entry: CacheEntry,
}

/// A cached file as a value: key, path, size, last access.
pub type FileView = (Seq<char>, Seq<char>, u64, u128);

impl View for CachedFile {
    type V = FileView;

    open spec fn view(&self) -> FileView {
        (self.key@, self.entry.path@, self.entry.size, self.entry.last_access)
    }
}

/// What `TransformCache::stats` reports.
#[derive(Clone, Copy, Debug)]
pub struct CacheStats {
    pub items: usize,
    pub bytes: u64,
    pub max_bytes: u64,
}

/// The store of transformed image variants, bounded by a number of bytes and
/// emptied least recently used first.
pub struct TransformCache {
    dir: String,
    max_bytes: u64,
    /// The cached files, each under a key of its own (`keys_unique`), in the
    /// order they were first cached; a lookup walks them.
    entries: Vec<CachedFile>,
}

// ----------------------------------------------------------------------
// The model: a sequence of files in the order they were first cached
// ----------------------------------------------------------------------

/// No key occurs twice.
pub open spec fn keys_unique(s: Seq<FileView>) -> bool {
    forall|i: int, j: int| 0 <= i < j < s.len() ==> s[i].0 != s[j].0
}

/// The sum of the sizes.
pub open spec fn total_size(s: Seq<FileView>) -> nat
    decreases s.len(),
{
    if s.len() == 0 {
        0
    } else {
        (total_size(s.drop_last()) + s.last().2) as nat
    }
}

/// The first position holding key `k`.
pub open spec fn find_key(s: Seq<FileView>, k: Seq<char>) -> Option<int>
    decreases s.len(),
{
    if s.len() == 0 {
        None
    } else if s[0].0 == k {
        Some(0)
    } else {
        match find_key(s.drop_first(), k) {
            Some(i) => Some(i + 1),
            None => None,
        }
    }
}

/// The file held under key `k`.
pub open spec fn lookup(s: Seq<FileView>, k: Seq<char>) -> Option<FileView> {
    match find_key(s, k) {
        Some(i) => Some(s[i]),
        None => None,
    }
}

/// `s` with `f` stored under its key: in place of the file with that key, or last.
pub open spec fn upsert(s: Seq<FileView>, f: FileView) -> Seq<FileView> {
    match find_key(s, f.0) {
        Some(i) => s.update(i, f),
        None => s.push(f),
    }
}

/// `s` with the file under `k` marked as used at `now`.
pub open spec fn touch(s: Seq<FileView>, k: Seq<char>, now: u128) -> Seq<FileView> {
    match find_key(s, k) {
        Some(i) => s.update(i, (s[i].0, s[i].1, s[i].2, now)),
        None => s,
    }
}

/// `s` without the file under `k`.
pub open spec fn remove_key(s: Seq<FileView>, k: Seq<char>) -> Seq<FileView> {
    match find_key(s, k) {
        Some(i) => s.remove(i),
        None => s,
    }
}

/// The first position of a least recently used file.
pub open spec fn oldest_index(s: Seq<FileView>) -> int
    decreases s.len(),
{
    if s.len() <= 1 {
        0
    } else {
        let j = oldest_index(s.drop_last());
        if s.last().3 < s[j].3 {
            s.len() - 1
        } else {
            j
        }
    }
}

/// Eviction: while the files hold more than `max` bytes, the least recently used
/// one leaves. The result is what stays and what left, in the order it left.
pub open spec fn evict_spec(s: Seq<FileView>, max: nat) -> (Seq<FileView>, Seq<FileView>)
    decreases s.len(),
{
    if s.len() == 0 || total_size(s) <= max {
        (s, Seq::empty())
    } else {
        let i = oldest_index(s);
        proof {
            lemma_oldest_index(s);
        }
        let rest = evict_spec(s.remove(i), max);
        (rest.0, seq![s[i]] + rest.1)
    }
}

// ----------------------------------------------------------------------
// Lemmas on the model
// ----------------------------------------------------------------------

pub proof fn lemma_find_key(s: Seq<FileView>, k: Seq<char>)
    ensures
        match find_key(s, k) {
            Some(i) => 0 <= i < s.len() && s[i].0 == k && forall|j: int| 0 <= j < i ==> s[j].0 != k,
            None => forall|j: int| 0 <= j < s.len() ==> s[j].0 != k,
        },
    decreases s.len(),
{
    if s.len() > 0 && s[0].0 != k {
        lemma_find_key(s.drop_first(), k);
        assert forall|j: int| 0 < j < s.len() implies s[j] == s.drop_first()[j - 1] by {}
    }
}

/// With unique keys, the position found is the only one holding the key.
pub proof fn lemma_find_key_unique(s: Seq<FileView>, i: int)
    requires
        keys_unique(s),
        0 <= i < s.len(),
    ensures
        find_key(s, s[i].0) == Some(i),
{
    lemma_find_key(s, s[i].0);
    match find_key(s, s[i].0) {
        Some(j) => {
            if j < i {
                assert(s[j].0 != s[i].0);
            }
        },
        None => {},
    }
}

pub proof fn lemma_total_remove(s: Seq<FileView>, i: int)
    requires
        0 <= i < s.len(),
    ensures
        total_size(s.remove(i)) + s[i].2 == total_size(s),
    decreases s.len(),
{
    if i < s.len() - 1 {
        lemma_total_remove(s.drop_last(), i);
        assert(s.remove(i).drop_last() =~= s.drop_last().remove(i));
        assert(s.remove(i).last() == s.last());
    } else {
        assert(s.remove(i) =~= s.drop_last());
    }
}

pub proof fn lemma_total_update(s: Seq<FileView>, i: int, f: FileView)
    requires
        0 <= i < s.len(),
    ensures
        total_size(s.update(i, f)) + s[i].2 == total_size(s) + f.2,
    decreases s.len(),
{
    if i < s.len() - 1 {
        lemma_total_update(s.drop_last(), i, f);
        assert(s.update(i, f).drop_last() =~= s.drop_last().update(i, f));
    } else {
        assert(s.update(i, f).drop_last() =~= s.drop_last());
    }
}

pub proof fn lemma_total_push(s: Seq<FileView>, f: FileView)
    ensures
        total_size(s.push(f)) == total_size(s) + f.2,
{
    assert(s.push(f).drop_last() =~= s);
}

pub proof fn lemma_total_prefix(s: Seq<FileView>, k: int)
    requires
        0 <= k <= s.len(),
    ensures
        total_size(s.take(k)) <= total_size(s),
    decreases s.len(),
{
    if k < s.len() {
        assert(s.drop_last().take(k) =~= s.take(k));
        lemma_total_prefix(s.drop_last(), k);
    } else {
        assert(s.take(k) =~= s);
    }
}

/// A file of `s.remove(i)` is a file of `s`.
pub proof fn lemma_remove_contains(s: Seq<FileView>, i: int, x: FileView)
    requires
        0 <= i < s.len(),
        s.remove(i).contains(x),
    ensures
        s.contains(x),
{
    s.remove_ensures(i);
    let c = choose|c: int| 0 <= c < s.remove(i).len() && s.remove(i)[c] == x;
    if c < i {
        assert(s[c] == x);
    } else {
        assert(s[c + 1] == x);
    }
}

pub proof fn lemma_oldest_index(s: Seq<FileView>)
    requires
        s.len() > 0,
    ensures
        0 <= oldest_index(s) < s.len(),
        forall|j: int| 0 <= j < s.len() ==> s[oldest_index(s)].3 <= #[trigger] s[j].3,
    decreases s.len(),
{
    if s.len() > 1 {
        lemma_oldest_index(s.drop_last());
        let j = oldest_index(s.drop_last());
        assert forall|t: int| 0 <= t < s.len() implies s[oldest_index(s)].3 <= #[trigger] s[t].3 by {
            if t < s.len() - 1 {
                assert(s[t] == s.drop_last()[t]);
            }
        }
    }
}

pub proof fn lemma_remove_keys_unique(s: Seq<FileView>, i: int)
    requires
        keys_unique(s),
        0 <= i < s.len(),
    ensures
        keys_unique(s.remove(i)),
{
    let r = s.remove(i);
    assert forall|a: int, b: int| 0 <= a < b < r.len() implies r[a].0 != r[b].0 by {
        let a2 = if a < i {
            a
        } else {
            a + 1
        };
        let b2 = if b < i {
            b
        } else {
            b + 1
        };
        assert(r[a] == s[a2]);
        assert(r[b] == s[b2]);
    }
}

/// A least recently used file was used no later than any file.
pub proof fn lemma_oldest_below(s: Seq<FileView>, x: FileView)
    requires
        s.contains(x),
    ensures
        s[oldest_index(s)].3 <= x.3,
{
    lemma_oldest_index(s);
    let j = choose|j: int| 0 <= j < s.len() && s[j] == x;
    assert(s[oldest_index(s)].3 <= s[j].3);
}

/// What eviction keeps and removes, element by element.
pub proof fn lemma_evict_parts(s: Seq<FileView>, max: nat)
    ensures
        evict_spec(s, max).0.len() + evict_spec(s, max).1.len() == s.len(),
        forall|x: FileView| evict_spec(s, max).0.contains(x) ==> s.contains(x),
        forall|x: FileView| evict_spec(s, max).1.contains(x) ==> s.contains(x),
        keys_unique(s) ==> keys_unique(evict_spec(s, max).0),
        keys_unique(s) ==> forall|a: int, b: int|
            0 <= a < evict_spec(s, max).0.len() && 0 <= b < evict_spec(s, max).1.len()
                ==> evict_spec(s, max).0[a].0 != evict_spec(s, max).1[b].0,
    decreases s.len(),
{
    if !(s.len() == 0 || total_size(s) <= max) {
        let i = oldest_index(s);
        lemma_oldest_index(s);
        let t = s.remove(i);
        lemma_evict_parts(t, max);
        let (r, v) = evict_spec(t, max);
        assert forall|x: FileView| r.contains(x) implies s.contains(x) by {
            lemma_remove_contains(s, i, x);
        }
        let w = seq![s[i]] + v;
        assert forall|x: FileView| w.contains(x) implies s.contains(x) by {
            let a = choose|a: int| 0 <= a < w.len() && w[a] == x;
            if a == 0 {
                assert(s[i] == x);
            } else {
                assert(v[a - 1] == x);
                assert(v.contains(x));
                lemma_remove_contains(s, i, x);
            }
        }
        if keys_unique(s) {
            lemma_remove_keys_unique(s, i);
            assert forall|a: int, b: int| 0 <= a < r.len() && 0 <= b < w.len() implies r[a].0
                != w[b].0 by {
                if b == 0 {
                    assert(r.contains(r[a]));
                    assert(t.contains(r[a]));
                    s.remove_ensures(i);
                    let c = choose|c: int| 0 <= c < t.len() && t[c] == r[a];
                    if c < i {
                        assert(s[c] == r[a]);
                        assert(s[c].0 != s[i].0);
                    } else {
                        assert(s[c + 1] == r[a]);
                        assert(s[i].0 != s[c + 1].0);
                    }
                } else {
                    assert(w[b] == v[b - 1]);
                }
            }
        }
    }
}

// ----------------------------------------------------------------------
// Laws of eviction
// ----------------------------------------------------------------------

/// After eviction the files hold at most `max` bytes.
pub proof fn law_evict_within_capacity(s: Seq<FileView>, max: nat)
    ensures
        total_size(evict_spec(s, max).0) <= max,
    decreases s.len(),
{
    if s.len() == 0 {
    } else if total_size(s) <= max {
    } else {
        lemma_oldest_index(s);
        law_evict_within_capacity(s.remove(oldest_index(s)), max);
    }
}

/// Eviction removes nothing from files that already fit.
pub proof fn law_evict_nothing_when_fitting(s: Seq<FileView>, max: nat)
    requires
        total_size(s) <= max,
    ensures
        evict_spec(s, max).0 == s,
        evict_spec(s, max).1.len() == 0,
{
}

/// Every file that eviction removes was used no later than every file it keeps.
pub proof fn law_evict_least_recent_first(s: Seq<FileView>, max: nat)
    ensures
        forall|a: int, b: int|
            0 <= a < evict_spec(s, max).1.len() && 0 <= b < evict_spec(s, max).0.len()
                ==> evict_spec(s, max).1[a].3 <= evict_spec(s, max).0[b].3,
    decreases s.len(),
{
    if !(s.len() == 0 || total_size(s) <= max) {
        let i = oldest_index(s);
        lemma_oldest_index(s);
        let t = s.remove(i);
        law_evict_least_recent_first(t, max);
        lemma_evict_parts(t, max);
        let (r, v) = evict_spec(t, max);
        assert forall|x: FileView| t.contains(x) implies s.contains(x) by {
            lemma_remove_contains(s, i, x);
        }
        assert forall|a: int, b: int|
            0 <= a < evict_spec(s, max).1.len() && 0 <= b < evict_spec(s, max).0.len()
                implies evict_spec(s, max).1[a].3 <= evict_spec(s, max).0[b].3 by {
            if a == 0 {
                assert(r.contains(r[b]));
                lemma_oldest_below(s, r[b]);
            } else {
                assert(evict_spec(s, max).1[a] == v[a - 1]);
            }
        }
    }
}

/// Files leave in the order of their last use.
pub proof fn law_evict_in_order_of_use(s: Seq<FileView>, max: nat)
    ensures
        forall|a: int, b: int|
            0 <= a < b < evict_spec(s, max).1.len() ==> evict_spec(s, max).1[a].3
                <= evict_spec(s, max).1[b].3,
    decreases s.len(),
{
    if !(s.len() == 0 || total_size(s) <= max) {
        let i = oldest_index(s);
        lemma_oldest_index(s);
        let t = s.remove(i);
        law_evict_in_order_of_use(t, max);
        lemma_evict_parts(t, max);
        let (r, v) = evict_spec(t, max);
        assert forall|x: FileView| t.contains(x) implies s.contains(x) by {
            lemma_remove_contains(s, i, x);
        }
        assert forall|a: int, b: int| 0 <= a < b < evict_spec(s, max).1.len() implies evict_spec(
            s,
            max,
        ).1[a].3 <= evict_spec(s, max).1[b].3 by {
            if a == 0 {
                assert(evict_spec(s, max).1[b] == v[b - 1]);
                assert(v.contains(v[b - 1]));
                lemma_oldest_below(s, v[b - 1]);
            } else {
                assert(evict_spec(s, max).1[a] == v[a - 1]);
                assert(evict_spec(s, max).1[b] == v[b - 1]);
            }
        }
    }
}

/// Eviction stops as soon as the files fit: had the last file removed stayed,
/// they would not.
pub proof fn law_evict_no_more_than_needed(s: Seq<FileView>, max: nat)
    ensures
        evict_spec(s, max).1.len() > 0 ==> total_size(evict_spec(s, max).0) + evict_spec(
            s,
            max,
        ).1.last().2 > max,
    decreases s.len(),
{
    if !(s.len() == 0 || total_size(s) <= max) {
        let i = oldest_index(s);
        lemma_oldest_index(s);
        let t = s.remove(i);
        law_evict_no_more_than_needed(t, max);
        let (r, v) = evict_spec(t, max);
        if v.len() == 0 {
            assert(r == t);
            lemma_total_remove(s, i);
            assert(evict_spec(s, max).1.last() == s[i]);
        } else {
            assert(evict_spec(s, max).1.last() == v.last());
        }
    }
}

/// A file stored last, used after every other file and no larger than the
/// capacity, survives the eviction that follows.
pub proof fn law_fresh_file_stays(s: Seq<FileView>, f: FileView, max: nat)
    requires
        keys_unique(s),
        f.2 <= max,
        forall|j: int| 0 <= j < s.len() ==> #[trigger] s[j].3 < f.3,
    ensures
        evict_spec(upsert(s, f), max).0.contains(f),
{
    lemma_find_key(s, f.0);
    let u = upsert(s, f);
    let k = match find_key(s, f.0) {
        Some(i) => i,
        None => s.len() as int,
    };
    assert(u[k] == f);
    assert forall|j: int| 0 <= j < u.len() && j != k implies #[trigger] u[j].3 < f.3 by {
        assert(u[j] == s[j]);
    }
    lemma_fresh_stays(u, k, max);
}

/// Using a file changes nothing but its time of last use: keys, paths, sizes and
/// their total stay.
pub proof fn law_touch_keeps_files(s: Seq<FileView>, k: Seq<char>, now: u128)
    ensures
        touch(s, k, now).len() == s.len(),
        forall|i: int|
            0 <= i < s.len() ==> {
                let t = #[trigger] touch(s, k, now)[i];
                t.0 == s[i].0 && t.1 == s[i].1 && t.2 == s[i].2
            },
        total_size(touch(s, k, now)) == total_size(s),
        keys_unique(s) ==> keys_unique(touch(s, k, now)),
{
    lemma_find_key(s, k);
    match find_key(s, k) {
        Some(i) => {
            lemma_total_update(s, i, (s[i].0, s[i].1, s[i].2, now));
        },
        None => {},
    }
}

/// Storing a file keeps keys unique.
pub proof fn lemma_upsert_keys_unique(s: Seq<FileView>, f: FileView)
    requires
        keys_unique(s),
    ensures
        keys_unique(upsert(s, f)),
{
    lemma_find_key(s, f.0);
    let u = upsert(s, f);
    match find_key(s, f.0) {
        Some(i) => {
            assert forall|a: int, b: int| 0 <= a < b < u.len() implies u[a].0 != u[b].0 by {
                if a == i {
                    assert(s[b].0 != s[i].0);
                } else if b == i {
                    assert(s[a].0 != s[i].0);
                } else {
                    assert(s[a].0 != s[b].0);
                }
            }
        },
        None => {
            assert forall|a: int, b: int| 0 <= a < b < u.len() implies u[a].0 != u[b].0 by {
                if b == s.len() {
                    assert(u[a] == s[a]);
                } else {
                    assert(s[a].0 != s[b].0);
                }
            }
        },
    }
}

/// A read gives back what a write stored: a file stored last, used after every
/// other file and no larger than the capacity, is found under its key after the
/// eviction that follows.
pub proof fn law_lookup_after_insert(s: Seq<FileView>, f: FileView, max: nat)
    requires
        keys_unique(s),
        f.2 <= max,
        forall|j: int| 0 <= j < s.len() ==> #[trigger] s[j].3 < f.3,
    ensures
        lookup(evict_spec(upsert(s, f), max).0, f.0) == Some(f),
{
    law_fresh_file_stays(s, f, max);
    lemma_upsert_keys_unique(s, f);
    lemma_evict_parts(upsert(s, f), max);
    let r = evict_spec(upsert(s, f), max).0;
    let k = choose|k: int| 0 <= k < r.len() && r[k] == f;
    lemma_find_key_unique(r, k);
}

/// A file stored last, used after every other file and no larger than the
/// capacity, is not among the files the eviction that follows removes: no file
/// removed has its key.
pub proof fn law_fresh_file_not_evicted(s: Seq<FileView>, f: FileView, max: nat)
    requires
        keys_unique(s),
        f.2 <= max,
        forall|j: int| 0 <= j < s.len() ==> #[trigger] s[j].3 < f.3,
    ensures
        forall|i: int|
            0 <= i < evict_spec(upsert(s, f), max).1.len() ==> #[trigger] evict_spec(
                upsert(s, f),
                max,
            ).1[i].0 != f.0,
{
    law_fresh_file_stays(s, f, max);
    lemma_upsert_keys_unique(s, f);
    lemma_evict_parts(upsert(s, f), max);
    let r = evict_spec(upsert(s, f), max).0;
    let k = choose|k: int| 0 <= k < r.len() && r[k] == f;
    assert forall|i: int| 0 <= i < evict_spec(upsert(s, f), max).1.len() implies #[trigger] evict_spec(
        upsert(s, f),
        max,
    ).1[i].0 != f.0 by {
        assert(r[k].0 != evict_spec(upsert(s, f), max).1[i].0);
    }
}

/// Whether a time of use later than every file's exists: no file was used at the
/// last representable millisecond.
pub open spec fn stamps_below_max(s: Seq<FileView>) -> bool {
    forall|j: int| 0 <= j < s.len() ==> #[trigger] s[j].3 < u128::MAX
}

/// Using a file at a time later than every use so far makes it the most recently
/// used file: it is stamped with that time, and every file under another key was
/// used before it.
pub proof fn law_touched_file_is_latest(s: Seq<FileView>, k: Seq<char>, now: u128)
    requires
        forall|j: int| 0 <= j < s.len() ==> #[trigger] s[j].3 < now,
    ensures
        match lookup(touch(s, k, now), k) {
            Some(f) => {
                &&& f.3 == now
                &&& forall|j: int|
                    0 <= j < touch(s, k, now).len() && #[trigger] touch(s, k, now)[j].0 != k
                        ==> touch(s, k, now)[j].3 < f.3
            },
            None => lookup(s, k) is None,
        },
{
    lemma_find_key(s, k);
    let t = touch(s, k, now);
    lemma_find_key(t, k);
    match find_key(s, k) {
        Some(i) => {
            assert(t[i].0 == k);
            match find_key(t, k) {
                Some(i2) => {
                    if i2 < i {
                        assert(t[i2] == s[i2]);
                    }
                    if i < i2 {
                        assert(t[i].0 == k);
                    }
                    assert(i2 == i);
                },
                None => {},
            }
            assert forall|j: int| 0 <= j < t.len() && #[trigger] t[j].0 != k implies t[j].3
                < now by {
                assert(j != i);
                assert(t[j] == s[j]);
            }
        },
        None => {
            assert(t == s);
        },
    }
}

/// The time to stamp on a file used now, given the clock reading and the latest
/// use in the cache: the clock reading when it is past that use, else one
/// millisecond after it, so that the file just used counts as the most recent.
pub fn next_use_time(clock: u128, latest: u128) -> (t: u128)
    ensures
        t == (if clock > latest {
            clock
        } else if latest < u128::MAX {
            (latest + 1) as u128
        } else {
            latest
        }),
        t >= latest,
        latest < u128::MAX ==> t > latest,
{
    if clock > latest {
        clock
    } else if latest < u128::MAX {
        latest + 1
    } else {
        latest
    }
}

proof fn lemma_fresh_stays(u: Seq<FileView>, k: int, max: nat)
    requires
        0 <= k < u.len(),
        u[k].2 <= max,
        forall|j: int| 0 <= j < u.len() && j != k ==> #[trigger] u[j].3 < u[k].3,
    ensures
        evict_spec(u, max).0.contains(u[k]),
    decreases u.len(),
{
    if total_size(u) <= max {
        assert(u[k] == evict_spec(u, max).0[k]);
    } else {
        let i = oldest_index(u);
        lemma_oldest_index(u);
        if i == k {
            if u.len() == 1 {
                assert(u.drop_last() =~= Seq::<FileView>::empty());
                assert(total_size(u.drop_last()) == 0);
                assert(u.last() == u[0]);
                assert(total_size(u) == u[0].2);
            } else {
                let j = if k == 0 {
                    1
                } else {
                    0
                };
                assert(u[j].3 < u[k].3);
            }
        } else {
            let t = u.remove(i);
            let k2 = if k < i {
                k
            } else {
                k - 1
            };
            assert(t[k2] == u[k]);
            assert forall|j: int| 0 <= j < t.len() && j != k2 implies #[trigger] t[j].3
                < t[k2].3 by {
                if j < i {
                    assert(t[j] == u[j]);
                } else {
                    assert(t[j] == u[j + 1]);
                }
            }
            lemma_fresh_stays(t, k2, max);
        }
    }
}

// ----------------------------------------------------------------------
// The cache
// ----------------------------------------------------------------------

impl View for TransformCache {
    type V = Seq<FileView>;

    closed spec fn view(&self) -> Seq<FileView> {
        self.entries@.map_values(|f: CachedFile| f@)
    }
}

impl TransformCache {
    /// The number of bytes the cache may hold.
    pub closed spec fn capacity(&self) -> u64 {
        self.max_bytes
    }

    /// The directory that cached files are written to.
    pub closed spec fn directory(&self) -> Seq<char> {
        self.dir@
    }

    /// The cache's invariant: keys are unique and the files fit.
    pub closed spec fn wf(&self) -> bool {
        &&& keys_unique(self@)
        &&& total_size(self@) <= self.max_bytes
    }

    /// What the invariant means: unique keys, and files that fit the capacity.
    pub proof fn lemma_well_formed(&self)
        requires
            self.wf(),
        ensures
            keys_unique(self@),
            total_size(self@) <= self.capacity(),
    {
    }

    /// An empty cache writing to `dir` and holding at most `max_bytes` bytes.
    pub fn new(dir: String, max_bytes: u64) -> (c: Self)
        ensures
            c.wf(),
            c@ == Seq::<FileView>::empty(),
            c.capacity() == max_bytes,
            c.directory() == dir@,
    {
        let c = TransformCache { dir, max_bytes, entries: Vec::new() };
        assert(c@ =~= Seq::<FileView>::empty());
        c
    }

    /// The key of a variant: the lower-case hex SHA-256 of `image_id`, a colon and `query`.
    pub fn key(image_id: &str, query: &str) -> (k: String)
        ensures
            k@ == hex_lower(
                sha256_digest(encode_utf8(image_id@) + seq![58u8] + encode_utf8(query@)),
            ),
            k@.len() == 64,
    {
        let a = image_id.as_bytes();
        let b = query.as_bytes();
        let mut data: Vec<u8> = Vec::new();
        let mut i: usize = 0;
        while i < a.len()
            invariant
                a@ == encode_utf8(image_id@),
                0 <= i <= a@.len(),
                data@ == a@.take(i as int),
            decreases a@.len() - i,
        {
            data.push(a[i]);
            assert(a@.take(i + 1) =~= a@.take(i as int).push(a@[i as int]));
            i += 1;
        }
        assert(a@.take(a@.len() as int) =~= a@);
        data.push(58u8);
        let ghost head = data@;
        let mut j: usize = 0;
        while j < b.len()
            invariant
                b@ == encode_utf8(query@),
                0 <= j <= b@.len(),
                data@ == head + b@.take(j as int),
            decreases b@.len() - j,
        {
            data.push(b[j]);
            assert(b@.take(j + 1) =~= b@.take(j as int).push(b@[j as int]));
            j += 1;
        }
        assert(b@.take(b@.len() as int) =~= b@);
        assert(data@ =~= encode_utf8(image_id@) + seq![58u8] + encode_utf8(query@));
        let digest = sha256_of(data.as_slice());
        to_hex_lower(digest.as_slice())
    }

    /// Where the variant `key` with extension `ext` is written.
    pub fn path_for(&self, key: &str, ext: &str) -> (p: String)
        ensures
            p@ == join_spec(self.directory(), key@ + seq!['.'] + ext@),
    {
        let mut name = String::new();
        push_str(&mut name, key);
        push_str(&mut name, ".");
        push_str(&mut name, ext);
        proof {
            reveal_strlit(".");
        }
        join_path(self.dir.as_str(), name.as_str())
    }

    /// The position of `key`.
    fn position(&self, key: &str) -> (r: Option<usize>)
        ensures
            match r {
                Some(i) => i < self@.len() && find_key(self@, key@) == Some(i as int),
                None => find_key(self@, key@) is None,
            },
    {
        let ghost s = self@;
        proof {
            lemma_find_key(s, key@);
        }
        let mut i: usize = 0;
        while i < self.entries.len()
            invariant
                s == self@,
                s.len() == self.entries@.len(),
                0 <= i <= s.len(),
                forall|j: int| 0 <= j < i ==> s[j].0 != key@,
                match find_key(s, key@) {
                    Some(k) => 0 <= k < s.len() && s[k].0 == key@ && forall|j: int|
                        0 <= j < k ==> s[j].0 != key@,
                    None => forall|j: int| 0 <= j < s.len() ==> s[j].0 != key@,
                },
            decreases s.len() - i,
        {
            assert(s[i as int] == self.entries@[i as int]@);
            if str_equals(self.entries[i].key.as_str(), key) {
                proof {
                    match find_key(s, key@) {
                        Some(k) => {
                            if k > i {
                                assert(s[i as int].0 == key@);
                            }
                        },
                        None => {},
                    }
                }
                return Some(i);
            }
            i += 1;
        }
        None
    }

    /// The total size of the files, as a number that cannot overflow.
    fn total_bytes(&self) -> (t: u128)
        requires
            total_size(self@) <= u128::MAX,
        ensures
            t == total_size(self@),
    {
        let ghost s = self@;
        let mut t: u128 = 0;
        let mut i: usize = 0;
        while i < self.entries.len()
            invariant
                s == self@,
                s.len() == self.entries@.len(),
                total_size(s) <= u128::MAX,
                0 <= i <= s.len(),
                t == total_size(s.take(i as int)),
            decreases s.len() - i,
        {
            assert(s.take(i + 1).drop_last() =~= s.take(i as int));
            assert(s[i as int] == self.entries@[i as int]@);
            proof {
                lemma_total_prefix(s, i + 1);
            }
            t = t + self.entries[i].entry.size as u128;
            i += 1;
        }
        assert(s.take(s.len() as int) =~= s);
        t
    }

    /// The position of a least recently used file.
    fn oldest(&self) -> (i: usize)
        requires
            self@.len() > 0,
        ensures
            i == oldest_index(self@),
    {
        let ghost s = self@;
        let mut best: usize = 0;
        let mut i: usize = 1;
        assert(s.take(1).len() == 1);
        while i < self.entries.len()
            invariant
                s == self@,
                s.len() == self.entries@.len(),
                1 <= i <= s.len(),
                best == oldest_index(s.take(i as int)),
                best < i,
            decreases s.len() - i,
        {
            proof {
                assert(s.take(i + 1).drop_last() =~= s.take(i as int));
                assert(s.take(i as int)[best as int] == s[best as int]);
                assert(s[best as int] == self.entries@[best as int]@);
                assert(s[i as int] == self.entries@[i as int]@);
            }
            if self.entries[i].entry.last_access < self.entries[best].entry.last_access {
                best = i;
            }
            i += 1;
        }
        assert(s.take(s.len() as int) =~= s);
        best
    }

    /// The latest time of use among the files, 0 when there are none.
    fn latest_use(&self) -> (t: u128)
        ensures
            forall|j: int| 0 <= j < self@.len() ==> #[trigger] self@[j].3 <= t,
            stamps_below_max(self@) ==> t < u128::MAX,
    {
        let ghost s = self@;
        let mut t: u128 = 0;
        let mut i: usize = 0;
        while i < self.entries.len()
            invariant
                s == self@,
                s.len() == self.entries@.len(),
                0 <= i <= s.len(),
                forall|j: int| 0 <= j < i ==> #[trigger] s[j].3 <= t,
                stamps_below_max(s) ==> t < u128::MAX,
            decreases s.len() - i,
        {
            assert(s[i as int] == self.entries@[i as int]@);
            proof {
                if stamps_below_max(s) {
                    assert(s[i as int].3 < u128::MAX);
                }
            }
            if self.entries[i].entry.last_access > t {
                t = self.entries[i].entry.last_access;
            }
            i += 1;
        }
        t
    }

    /// The time of a use happening now: the clock reading, moved past the latest
    /// use in the cache when the clock has not gone beyond it.
    fn use_time(&self) -> (now: u128)
        ensures
            forall|j: int| 0 <= j < self@.len() ==> #[trigger] self@[j].3 <= now,
            stamps_below_max(self@) ==> forall|j: int|
                0 <= j < self@.len() ==> #[trigger] self@[j].3 < now,
    {
        let latest = self.latest_use();
        next_use_time(now_ms(), latest)
    }

    /// Removes least recently used files until the rest fit; gives back those removed.
    fn evict(&mut self) -> (victims: Vec<CachedFile>)
        requires
            keys_unique(old(self)@),
            total_size(old(self)@) <= u128::MAX,
        ensures
            final(self)@ == evict_spec(old(self)@, old(self).max_bytes as nat).0,
            victims@.map_values(|f: CachedFile| f@) == evict_spec(
                old(self)@,
                old(self).max_bytes as nat,
            ).1,
            final(self).max_bytes == old(self).max_bytes,
            final(self).dir == old(self).dir,
            final(self).wf(),
    {
        let ghost start = self@;
        let ghost max = self.max_bytes as nat;
        let mut victims: Vec<CachedFile> = Vec::new();
        let mut total = self.total_bytes();
        proof {
            lemma_evict_parts(start, max);
            law_evict_within_capacity(start, max);
        }
        while total > self.max_bytes as u128
            invariant
                max == self.max_bytes as nat,
                self.max_bytes == old(self).max_bytes,
                self.dir == old(self).dir,
                start == old(self)@,
                total == total_size(self@),
                keys_unique(self@),
                evict_spec(start, max).0 == evict_spec(self@, max).0,
                evict_spec(start, max).1 == victims@.map_values(|f: CachedFile| f@) + evict_spec(
                    self@,
                    max,
                ).1,
            decreases self@.len(),
        {
            let ghost before = self@;
            proof {
                if before.len() == 0 {
                    assert(total_size(before) == 0);
                }
            }
            let i = self.oldest();
            proof {
                lemma_oldest_index(before);
                lemma_total_remove(before, i as int);
                lemma_remove_keys_unique(before, i as int);
            }
            let f = self.entries.remove(i);
            assert(self@ =~= before.remove(i as int));
            assert(f@ == before[i as int]);
            total = total - f.entry.size as u128;
            let ghost prev = victims@.map_values(|g: CachedFile| g@);
            victims.push(f);
            assert(victims@.map_values(|g: CachedFile| g@) =~= prev.push(before[i as int]));
            assert(evict_spec(before, max).1 =~= seq![before[i as int]] + evict_spec(self@, max).1);
            assert(prev.push(before[i as int]) + evict_spec(self@, max).1 =~= prev + (seq![
                before[i as int],
            ] + evict_spec(self@, max).1));
        }
        proof {
            assert(evict_spec(self@, max).1 =~= Seq::<FileView>::empty());
            assert(victims@.map_values(|f: CachedFile| f@) + Seq::<FileView>::empty()
                =~= victims@.map_values(|f: CachedFile| f@));
        }
        victims
    }

    /// Marks the file under `key` as used at `now` and gives its path.
    pub fn get_at(&mut self, key: &str, now: u128) -> (r: Option<String>)
        requires
            old(self).wf(),
        ensures
            final(self).wf(),
            final(self)@ == touch(old(self)@, key@, now),
            final(self).capacity() == old(self).capacity(),
            final(self).directory() == old(self).directory(),
            match lookup(old(self)@, key@) {
                Some(f) => r is Some && r->0@ == f.1,
                None => r is None,
            },
    {
        match self.position(key) {
            None => None,
            Some(i) => {
                let ghost before = self@;
                let path = self.entries[i].entry.path.clone();
                let f = CachedFile {
                    key: self.entries[i].key.clone(),
                    entry: CacheEntry {
                        path: self.entries[i].entry.path.clone(),
                        size: self.entries[i].entry.size,
                        last_access: now,
                    },
                };
                assert(before[i as int] == self.entries@[i as int]@);
                self.entries.set(i, f);
                assert(self@ =~= before.update(i as int, f@));
                proof {
                    lemma_total_update(before, i as int, f@);
                    assert forall|a: int, b: int| 0 <= a < b < self@.len() implies self@[a].0
                        != self@[b].0 by {
                        assert(before[a].0 != before[b].0);
                    }
                }
                Some(path)
            },
        }
    }

    /// Marks the file under `key` as used now and gives its path. "Now" is the
    /// clock reading, moved past the latest use in the cache if the clock has not
    /// gone beyond it, so that the file read becomes the most recently used.
    pub fn get(&mut self, key: &str) -> (r: Option<String>)
        requires
            old(self).wf(),
        ensures
            final(self).wf(),
            exists|now: u128|
                {
                    &&& forall|j: int|
                        0 <= j < old(self)@.len() ==> #[trigger] old(self)@[j].3 <= now
                    &&& stamps_below_max(old(self)@) ==> forall|j: int|
                        0 <= j < old(self)@.len() ==> #[trigger] old(self)@[j].3 < now
                    &&& final(self)@ == touch(old(self)@, key@, now)
                },
            stamps_below_max(old(self)@) ==> match lookup(final(self)@, key@) {
                Some(f) => forall|j: int|
                    0 <= j < final(self)@.len() && #[trigger] final(self)@[j].0 != key@
                        ==> final(self)@[j].3 < f.3,
                None => true,
            },
            final(self).capacity() == old(self).capacity(),
            final(self).directory() == old(self).directory(),
            match lookup(old(self)@, key@) {
                Some(f) => r is Some && r->0@ == f.1,
                None => r is None,
            },
    {
        let now = self.use_time();
        proof {
            if stamps_below_max(self@) {
                law_touched_file_is_latest(self@, key@, now);
            }
        }
        self.get_at(key, now)
    }

    /// Stores `path` of `size` bytes under `key`, used at `now`, then evicts least
    /// recently used files until the cache fits; gives back the evicted files.
    pub fn insert_at(&mut self, key: String, path: String, size: u64, now: u128) -> (evicted: Vec<
        CachedFile,
    >)
        requires
            old(self).wf(),
        ensures
            final(self).wf(),
            final(self)@ == evict_spec(
                upsert(old(self)@, (key@, path@, size, now)),
                old(self).capacity() as nat,
            ).0,
            evicted@.map_values(|f: CachedFile| f@) == evict_spec(
                upsert(old(self)@, (key@, path@, size, now)),
                old(self).capacity() as nat,
            ).1,
            total_size(final(self)@) <= final(self).capacity(),
            final(self).capacity() == old(self).capacity(),
            final(self).directory() == old(self).directory(),
    {
        let ghost before = self@;
        let ghost fv: FileView = (key@, path@, size, now);
        let pos = self.position(key.as_str());
        let f = CachedFile { key, entry: CacheEntry { path, size, last_access: now } };
        assert(f@ == fv);
        proof {
            lemma_find_key(before, fv.0);
        }
        match pos {
            Some(i) => {
                self.entries.set(i, f);
                assert(self@ =~= before.update(i as int, fv));
                proof {
                    lemma_total_update(before, i as int, fv);
                    assert forall|a: int, b: int| 0 <= a < b < self@.len() implies self@[a].0
                        != self@[b].0 by {
                        assert(before[a].0 != before[b].0 || a == i || b == i);
                        if a == i {
                            assert(before[b].0 != before[a].0);
                        }
                        if b == i {
                            assert(before[a].0 != before[b].0);
                        }
                    }
                }
            },
            None => {
                self.entries.push(f);
                assert(self@ =~= before.push(fv));
                proof {
                    lemma_total_push(before, fv);
                }
            },
        }
        assert(self@ == upsert(before, fv));
        self.evict()
    }

    /// Stores `path` of `size` bytes under `key`, used now, then evicts least
    /// recently used files until the cache fits; gives back the evicted files.
    /// "Now" is the clock reading, moved past the latest use in the cache if the
    /// clock has not gone beyond it: the file stored is the most recently used, and
    /// one that fits the capacity is never evicted by its own insertion.
    pub fn insert(&mut self, key: String, path: String, size: u64) -> (evicted: Vec<CachedFile>)
        requires
            old(self).wf(),
        ensures
            final(self).wf(),
            exists|now: u128|
                {
                    &&& forall|j: int|
                        0 <= j < old(self)@.len() ==> #[trigger] old(self)@[j].3 <= now
                    &&& stamps_below_max(old(self)@) ==> forall|j: int|
                        0 <= j < old(self)@.len() ==> #[trigger] old(self)@[j].3 < now
                    &&& final(self)@ == evict_spec(
                        upsert(old(self)@, (key@, path@, size, now)),
                        old(self).capacity() as nat,
                    ).0
                    &&& evicted@.map_values(|f: CachedFile| f@) == evict_spec(
                        upsert(old(self)@, (key@, path@, size, now)),
                        old(self).capacity() as nat,
                    ).1
                },
            size <= old(self).capacity() && stamps_below_max(old(self)@) ==> (lookup(
                final(self)@,
                key@,
            ) matches Some(f) && f.0 == key@ && f.1 == path@ && f.2 == size),
            size <= old(self).capacity() && stamps_below_max(old(self)@) ==> forall|i: int|
                0 <= i < evicted@.len() ==> #[trigger] evicted@[i].key@ != key@,
            total_size(final(self)@) <= final(self).capacity(),
            final(self).capacity() == old(self).capacity(),
            final(self).directory() == old(self).directory(),
    {
        let ghost before = self@;
        let ghost cap = self.max_bytes as nat;
        let ghost fv: FileView = (key@, path@, size, 0);
        let now = self.use_time();
        let ghost f: FileView = (key@, path@, size, now);
        let evicted = self.insert_at(key, path, size, now);
        proof {
            if size <= cap && stamps_below_max(before) {
                law_lookup_after_insert(before, f, cap);
                law_fresh_file_not_evicted(before, f, cap);
                let ev = evict_spec(upsert(before, f), cap).1;
                assert(evicted@.map_values(|g: CachedFile| g@) == ev);
                assert forall|i: int| 0 <= i < evicted@.len() implies #[trigger] evicted@[i].key@
                    != f.0 by {
                    assert(evicted@.map_values(|g: CachedFile| g@)[i] == evicted@[i]@);
                    assert(ev[i].0 != f.0);
                }
            }
        }
        evicted
    }

    /// Forgets the file under `key`; gives it back if there was one.
    pub fn remove(&mut self, key: &str) -> (r: Option<CachedFile>)
        requires
            old(self).wf(),
        ensures
            final(self).wf(),
            final(self)@ == remove_key(old(self)@, key@),
            match lookup(old(self)@, key@) {
                Some(f) => r is Some && r->0@ == f,
                None => r is None,
            },
            final(self).capacity() == old(self).capacity(),
            final(self).directory() == old(self).directory(),
    {
        match self.position(key) {
            None => None,
            Some(i) => {
                let ghost before = self@;
                proof {
                    lemma_total_remove(before, i as int);
                    lemma_remove_keys_unique(before, i as int);
                }
                let f = self.entries.remove(i);
                assert(self@ =~= before.remove(i as int));
                Some(f)
            },
        }
    }

    /// Forgets every file; gives back their paths, in the cache's order.
    pub fn clear(&mut self) -> (paths: Vec<String>)
        requires
            old(self).wf(),
        ensures
            final(self).wf(),
            final(self)@ == Seq::<FileView>::empty(),
            paths@.map_values(|p: String| p@) == old(self)@.map_values(|f: FileView| f.1),
            final(self).capacity() == old(self).capacity(),
            final(self).directory() == old(self).directory(),
    {
        let mut paths: Vec<String> = Vec::new();
        let mut i: usize = 0;
        while i < self.entries.len()
            invariant
                0 <= i <= self.entries@.len(),
                paths@.map_values(|p: String| p@) == self@.map_values(|f: FileView| f.1).take(
                    i as int,
                ),
            decreases self.entries@.len() - i,
        {
            let ghost prev = paths@.map_values(|p: String| p@);
            assert(self@[i as int] == self.entries@[i as int]@);
            paths.push(self.entries[i].entry.path.clone());
            assert(paths@.map_values(|p: String| p@) =~= prev.push(self@[i as int].1));
            assert(self@.map_values(|f: FileView| f.1).take(i + 1) =~= self@.map_values(
                |f: FileView| f.1,
            ).take(i as int).push(self@[i as int].1));
            assert(paths@.map_values(|p: String| p@) =~= self@.map_values(|f: FileView| f.1).take(
                i + 1,
            ));
            i += 1;
        }
        assert(self@.map_values(|f: FileView| f.1).take(self.entries@.len() as int)
            =~= self@.map_values(|f: FileView| f.1));
        self.entries.clear();
        assert(self@ =~= Seq::<FileView>::empty());
        paths
    }

    /// The number of files, the bytes they hold and the capacity.
    pub fn stats(&self) -> (s: CacheStats)
        requires
            self.wf(),
        ensures
            s.items == self@.len(),
            s.bytes == total_size(self@),
            s.max_bytes == self.capacity(),
    {
        let t = self.total_bytes();
        CacheStats { items: self.entries.len(), bytes: t as u64, max_bytes: self.max_bytes }
    }
}

} // verus!
