//! The cache of scraped pages.

use vstd::prelude::*;

use crate::duration::Duration;
use crate::system::{digest, short_digest, system_nanos};
use crate::text::{decimal, digit, show};
use crate::types::{Page, PageView};

verus! {

/// What is kept of a page, in the form of the cache file.
#[derive(Debug)]
pub struct CacheEntry {
    /// When it was put there, in seconds since 1970.
    pub t: i64,
    /// How it was fetched.
    pub s: String,
    /// The page.
    pub p: Page,
}

/// What a [`CacheEntry`] holds.
pub struct EntryView {
    pub t: i64,
    pub s: Seq<char>,
    pub p: PageView,
}

impl View for CacheEntry {
    type V = EntryView;

    open spec fn view(&self) -> EntryView {
        EntryView { t: self.t, s: self.s@, p: self.p@ }
    }
}

impl EntryView {
    /// Whether the entry is older than `ttl` nanoseconds at the time `now`, in
    /// nanoseconds since 1970. One from before 1970 always is, one from the
    /// future never.
    pub open spec fn expired(self, ttl: int, now: int) -> bool {
        self.t < 0 || now - self.t * 1_000_000_000 > ttl
    }

    /// What is found where this entry is.
    pub open spec fn found(self, ttl: int, now: int) -> CachedView {
        CachedView { page: self.p, source: self.s, expired: self.expired(ttl, now) }
    }
}

/// A page as it was found in the cache.
#[derive(Debug)]
pub struct CachedPage {
    pub page: Page,
    pub source: String,
    pub expired: bool,
}

/// What a [`CachedPage`] holds.
#[verifier::ext_equal]
pub struct CachedView {
    pub page: PageView,
    pub source: Seq<char>,
    pub expired: bool,
}

impl View for CachedPage {
    type V = CachedView;

    open spec fn view(&self) -> CachedView {
        CachedView { page: self.page@, source: self.source@, expired: self.expired }
    }
}

impl Clone for CachedPage {
    fn clone(&self) -> (r: Self)
        ensures
            r@ == self@,
    {
        CachedPage {
            page: self.page.clone(),
            source: self.source.clone(),
            expired: self.expired,
        }
    }
}

/// What was found, if anything.
pub open spec fn maybe_cached(cached: Option<CachedPage>) -> Option<CachedView> {
    match cached {
        Some(cached) => Some(cached@),
        None => None,
    }
}

/// Pages by the short digests of their URLs, each with the time it was put there.
#[derive(Debug)]
pub struct PageCache {
    entries: Vec<(String, CacheEntry)>,
    ttl: Duration,
}

/// The first index from `i` on of an entry under `key`, or the number of entries.
spec fn position(entries: Seq<(String, CacheEntry)>, key: Seq<char>, i: int) -> int
    decreases entries.len() - i,
{
    if i < 0 || i >= entries.len() || entries[i].0@ == key {
        i
    } else {
        position(entries, key, i + 1)
    }
}

proof fn lemma_position(entries: Seq<(String, CacheEntry)>, key: Seq<char>, i: int)
    requires
        0 <= i <= entries.len(),
    ensures
        i <= position(entries, key, i) <= entries.len(),
        position(entries, key, i) < entries.len() ==> entries[position(entries, key, i)].0@ == key,
        forall|k: int|
            i <= k < position(entries, key, i) ==> (#[trigger] entries[k]).0@ != key,
    decreases entries.len() - i,
{
    if i < entries.len() && entries[i].0@ != key {
        lemma_position(entries, key, i + 1);
    }
}

/// Whether no two entries are under the same key.
spec fn distinct(entries: Seq<(String, CacheEntry)>) -> bool {
    forall|i: int, j: int|
        0 <= i < j < entries.len() ==> (#[trigger] entries[i]).0@ != (#[trigger] entries[j]).0@
}

/// Setting the entry at the place of its key, or behind all others, changes what
/// is found under this key and nothing else.
proof fn lemma_replaced(
    before: Seq<(String, CacheEntry)>,
    after: Seq<(String, CacheEntry)>,
    at: int,
    k0: Seq<char>,
    e0: EntryView,
    key: Seq<char>,
)
    requires
        0 <= at <= before.len(),
        at == position(before, k0, 0),
        after.len() == (if at < before.len() {
            before.len()
        } else {
            before.len() + 1
        }),
        after[at].0@ == k0,
        after[at].1@ == e0,
        forall|k: int|
            0 <= k < before.len() && k != at ==> #[trigger] before[k] == after[k],
    ensures
        as_map(after).dom().contains(key) == as_map(before).insert(k0, e0).dom().contains(key),
        as_map(after).dom().contains(key) ==> as_map(after)[key] == as_map(before).insert(
            k0,
            e0,
        )[key],
{
    lemma_position(before, k0, 0);
    lemma_position(before, key, 0);
    lemma_position(after, key, 0);
    let p = position(before, key, 0);
    let q = position(after, key, 0);
    if key == k0 {
        if q < at {
            assert(before[q] == after[q]);
        }
        if q > at {
            assert(after[at].0@ != key);
        }
    } else if p < before.len() {
        assert(before[p] == after[p]);
        if q > p {
            assert(after[p].0@ != key);
        }
        if q < p {
            assert(before[q] == after[q]);
        }
    } else if q < after.len() {
        assert(before[q] == after[q]);
    }
}

/// The entries by their keys.
spec fn as_map(entries: Seq<(String, CacheEntry)>) -> Map<Seq<char>, EntryView> {
    Map::new(
        |key: Seq<char>| position(entries, key, 0) < entries.len(),
        |key: Seq<char>| entries[position(entries, key, 0)].1@,
    )
}

impl View for PageCache {
    type V = Map<Seq<char>, EntryView>;

    closed spec fn view(&self) -> Map<Seq<char>, EntryView> {
        as_map(self.entries@)
    }
}

/// What is found under the key of `url` at the time `now`.
pub open spec fn cached_at(
    entries: Map<Seq<char>, EntryView>,
    ttl: int,
    url: Seq<char>,
    now: int,
) -> Option<CachedView> {
    if entries.contains_key(short_digest(url)) {
        Some(entries[short_digest(url)].found(ttl, now))
    } else {
        None
    }
}

/// The entries after a page was put there under the key of `url` at `secs`.
pub open spec fn stored(
    entries: Map<Seq<char>, EntryView>,
    url: Seq<char>,
    page: PageView,
    source: Seq<char>,
    secs: i64,
) -> Map<Seq<char>, EntryView> {
    entries.insert(short_digest(url), EntryView { t: secs, s: source, p: page })
}

/// What is fresh of what was found: the page and how it was fetched.
pub open spec fn fresh(cached: Option<CachedView>) -> Option<(PageView, Seq<char>)> {
    match cached {
        Some(cached) => if cached.expired {
            None
        } else {
            Some((cached.page, cached.source))
        },
        None => None,
    }
}

/// The key of `url` in the cache.
pub fn cache_key(url: &str) -> (r: String)
    ensures
        r@ == short_digest(url@),
{
    digest(url)
}

/// The time in seconds since 1970, whatever the clock reads.
pub fn unix_now() -> (r: i64)
    ensures
        r >= 0,
        exists|nanos: u128| r == #[trigger] whole_seconds(nanos as int),
{
    let nanos = system_nanos();
    let secs = seconds_of(nanos);
    assert(secs == whole_seconds(nanos as int));
    secs
}

/// The whole seconds of a number of nanoseconds, as far as 63 bits go.
pub open spec fn whole_seconds(nanos: int) -> int {
    if nanos / 1_000_000_000 > i64::MAX {
        i64::MAX as int
    } else {
        nanos / 1_000_000_000
    }
}

/// The whole seconds of `nanos` nanoseconds, as far as 63 bits go.
pub fn seconds_of(nanos: u128) -> (r: i64)
    ensures
        r == whole_seconds(nanos as int),
{
    let secs: u128 = nanos / 1_000_000_000;
    if secs > 0x7fff_ffff_ffff_ffff {
        0x7fff_ffff_ffff_ffff
    } else {
        secs as i64
    }
}

/// Whether `entry` is older than `ttl` at the time `now`.
pub fn entry_expired(entry: &CacheEntry, ttl: &Duration, now: u128) -> (r: bool)
    ensures
        r == entry@.expired(ttl.in_nanos(), now as int),
{
    if entry.t < 0 {
        return true;
    }
    let cached_at: u128 = entry.t as u128 * 1_000_000_000;
    now >= cached_at && now - cached_at > ttl.as_nanos()
}

impl PageCache {
    /// Whether no key has two entries.
    pub closed spec fn valid(self) -> bool {
        distinct(self.entries@)
    }

    /// How long an entry is fresh, in nanoseconds.
    pub closed spec fn ttl_nanos(self) -> int {
        self.ttl.in_nanos()
    }

    /// An empty cache whose entries are fresh for `ttl`.
    pub fn new(ttl: Duration) -> (r: Self)
        ensures
            r.valid(),
            r@ == Map::<Seq<char>, EntryView>::empty(),
            r.ttl_nanos() == ttl.in_nanos(),
    {
        let r = PageCache { entries: Vec::new(), ttl: ttl };
        assert(r@ =~= Map::<Seq<char>, EntryView>::empty());
        r
    }

    /// The number of the entry under `key`, or how many there are.
    fn find(&self, key: &String) -> (r: usize)
        ensures
            r == position(self.entries@, key@, 0),
            r <= self.entries@.len(),
            r < self.entries@.len() ==> self.entries@[r as int].0@ == key@,
            forall|k: int| 0 <= k < r ==> (#[trigger] self.entries@[k]).0@ != key@,
    {
        let mut i: usize = 0;
        while i < self.entries.len() && self.entries[i].0 != *key
            invariant
                i <= self.entries@.len(),
                position(self.entries@, key@, 0) == position(self.entries@, key@, i as int),
                forall|k: int| 0 <= k < i ==> (#[trigger] self.entries@[k]).0@ != key@,
            decreases self.entries@.len() - i,
        {
            i += 1;
        }
        i
    }

    /// Puts `entry` under `key`, in place of what was there.
    pub fn insert(&mut self, key: String, entry: CacheEntry)
        requires
            old(self).valid(),
        ensures
            final(self).valid(),
            final(self).ttl_nanos() == old(self).ttl_nanos(),
            final(self)@ == old(self)@.insert(key@, entry@),
    {
        let at = self.find(&key);
        let ghost before = self.entries@;
        let ghost k0 = key@;
        let ghost e0 = entry@;
        if at < self.entries.len() {
            self.entries.set(at, (key, entry));
        } else {
            self.entries.push((key, entry));
        }
        let ghost after = self.entries@;
        assert(after[at as int].0@ == k0 && after[at as int].1@ == e0);
        assert(distinct(after)) by {
            assert forall|i: int, j: int| 0 <= i < j < after.len() implies (#[trigger] after[i]).0@
                != (#[trigger] after[j]).0@ by {
                if i == at && j < before.len() {
                    assert(before[j].0@ == after[j].0@);
                    assert(before[i].0@ == k0);
                } else if j == at && i < before.len() {
                    assert(before[i].0@ == after[i].0@);
                } else {
                    assert(before[i].0@ == after[i].0@);
                    assert(before[j].0@ == after[j].0@);
                }
            }
        }
        assert(as_map(after) =~= as_map(before).insert(k0, e0)) by {
            assert forall|key: Seq<char>| #[trigger]
                as_map(after).dom().contains(key) == as_map(before).insert(k0, e0).dom().contains(
                    key,
                ) by {
                lemma_replaced(before, after, at as int, k0, e0, key);
            }
            assert forall|key: Seq<char>|
                as_map(after).dom().contains(key) implies #[trigger] as_map(after)[key] == as_map(
                before,
            ).insert(k0, e0)[key] by {
                lemma_replaced(before, after, at as int, k0, e0, key);
            }
        }
    }

    /// The page that is found for `url` at the time `now`, fresh or not.
    pub fn get_any_at(&self, url: &str, now: u128) -> (r: Option<CachedPage>)
        ensures
            maybe_cached(r) == cached_at(self@, self.ttl_nanos(), url@, now as int),
    {
        let key = cache_key(url);
        let at = self.find(&key);
        if at >= self.entries.len() {
            return None;
        }
        Some(
            CachedPage {
                page: self.entries[at].1.p.clone(),
                source: self.entries[at].1.s.clone(),
                expired: entry_expired(&self.entries[at].1, &self.ttl, now),
            },
        )
    }

    /// The page that is found for `url` now, fresh or not.
    pub fn get_any(&self, url: &str) -> (r: Option<CachedPage>)
        ensures
            exists|now: int|
                0 <= now && maybe_cached(r) == #[trigger] cached_at(
                    self@,
                    self.ttl_nanos(),
                    url@,
                    now,
                ),
    {
        let now = system_nanos();
        let r = self.get_any_at(url, now);
        assert(0 <= now as int && maybe_cached(r) == cached_at(
            self@,
            self.ttl_nanos(),
            url@,
            now as int,
        ));
        r
    }

    /// The page that is found for `url` and still fresh at the time `now`, and how
    /// it was fetched.
    pub fn get_at(&self, url: &str, now: u128) -> (r: Option<(Page, String)>)
        ensures
            match r {
                Some(found) => fresh(cached_at(self@, self.ttl_nanos(), url@, now as int)) == Some(
                    (found.0@, found.1@),
                ),
                None => fresh(cached_at(self@, self.ttl_nanos(), url@, now as int)) is None,
            },
    {
        match self.get_any_at(url, now) {
            Some(cached) => if cached.expired {
                None
            } else {
                Some((cached.page, cached.source))
            },
            None => None,
        }
    }

    /// The page that is found for `url` and still fresh, and how it was fetched.
    pub fn get(&self, url: &str) -> (r: Option<(Page, String)>)
        ensures
            exists|now: int|
                0 <= now && (match r {
                    Some(found) => fresh(
                        #[trigger] cached_at(self@, self.ttl_nanos(), url@, now),
                    ) == Some((found.0@, found.1@)),
                    None => fresh(cached_at(self@, self.ttl_nanos(), url@, now)) is None,
                }),
    {
        let now = system_nanos();
        self.get_at(url, now)
    }

    /// Puts a page there under the key of `url`, as of `secs`.
    pub fn put_at(&mut self, url: &str, page: &Page, source: &str, secs: i64)
        requires
            old(self).valid(),
        ensures
            final(self).valid(),
            final(self).ttl_nanos() == old(self).ttl_nanos(),
            final(self)@ == stored(old(self)@, url@, page@, source@, secs),
            final(self)@.dom().finite(),
            final(self)@.dom().len() == old(self)@.dom().len() + (if old(self)@.contains_key(
                short_digest(url@),
            ) {
                0int
            } else {
                1
            }),
    {
        proof {
            law_a_cache_is_finite(*self);
            law_a_put_is_counted_once(self@, url@, page@, source@, secs);
        }
        let entry = CacheEntry { t: secs, s: source.to_owned(), p: page.clone() };
        self.insert(cache_key(url), entry);
        proof {
            law_a_cache_is_finite(*self);
        }
    }

    /// Puts a page there under the key of `url`.
    pub fn put(&mut self, url: &str, page: &Page, source: &str)
        requires
            old(self).valid(),
        ensures
            final(self).valid(),
            final(self).ttl_nanos() == old(self).ttl_nanos(),
            exists|secs: i64|
                secs >= 0 && final(self)@ == #[trigger] stored(
                    old(self)@,
                    url@,
                    page@,
                    source@,
                    secs,
                ),
            final(self)@.dom().finite(),
    {
        let secs = unix_now();
        self.put_at(url, page, source, secs);
    }

    /// How many entries there are, beside the size of the file that holds them.
    pub fn stats(&self, bytes: u64) -> (r: (usize, u64))
        requires
            self.valid(),
        ensures
            self@.dom().finite(),
            r.0 == self@.dom().len(),
            r.1 == bytes,
    {
        proof {
            law_a_cache_is_finite(*self);
        }
        (self.entries.len(), bytes)
    }

    /// Removes all entries.
    pub fn clear(&mut self)
        ensures
            final(self).valid(),
            final(self).ttl_nanos() == old(self).ttl_nanos(),
            final(self)@ == Map::<Seq<char>, EntryView>::empty(),
    {
        self.entries = Vec::new();
        assert(self@ =~= Map::<Seq<char>, EntryView>::empty());
    }

    /// The number of entries.
    pub closed spec fn size(self) -> nat {
        self.entries@.len()
    }

    /// The number of entries.
    pub fn len(&self) -> (r: usize)
        ensures
            r == self.size(),
    {
        self.entries.len()
    }

    /// The keys of the entries.
    pub closed spec fn keys(self) -> Seq<Seq<char>> {
        Seq::new(self.entries@.len(), |i: int| self.entries@[i].0@)
    }

    /// The key of an entry and the entry.
    pub fn entry(&self, index: usize) -> (r: (&String, &CacheEntry))
        requires
            self.valid(),
            index < self.size(),
        ensures
            r.0@ == self.keys()[index as int],
            self@.contains_key(r.0@),
            self@[r.0@] == r.1@,
    {
        proof {
            let key = self.entries@[index as int].0@;
            lemma_position(self.entries@, key, 0);
            let p = position(self.entries@, key, 0);
            if p > index {
                assert(self.entries@[index as int].0@ != key);
            }
        }
        (&self.entries[index].0, &self.entries[index].1)
    }
}

/// A cache has finitely many keys, as many as it has entries.
pub proof fn law_a_cache_is_finite(cache: PageCache)
    requires
        cache.valid(),
    ensures
        cache@.dom().finite(),
        cache@.dom().len() == cache.size(),
{
    broadcast use vstd::seq_lib::seq_to_set_is_finite;

    let keys = Seq::new(cache.entries@.len(), |i: int| cache.entries@[i].0@);
    assert(keys.no_duplicates());
    keys.unique_seq_to_set();
    assert(cache@.dom() =~= keys.to_set()) by {
        assert forall|key: Seq<char>|
            cache@.dom().contains(key) == keys.to_set().contains(key) by {
            lemma_position(cache.entries@, key, 0);
            let p = position(cache.entries@, key, 0);
            if p < cache.entries@.len() {
                assert(keys[p] == key);
            } else if keys.contains(key) {
                let i = choose|i: int| 0 <= i < keys.len() && keys[i] == key;
                assert(cache.entries@[i].0@ == key);
            }
        }
    }
}

/// Putting a page under a new key makes one entry more; under a known key it replaces the
/// entry.
pub proof fn law_a_put_is_counted_once(
    entries: Map<Seq<char>, EntryView>,
    url: Seq<char>,
    page: PageView,
    source: Seq<char>,
    secs: i64,
)
    requires
        entries.dom().finite(),
    ensures
        stored(entries, url, page, source, secs).dom().finite(),
        stored(entries, url, page, source, secs).dom().len() == entries.dom().len() + (
        if entries.contains_key(short_digest(url)) {
            0int
        } else {
            1
        }),
{
    let key = short_digest(url);
    assert(stored(entries, url, page, source, secs).dom() =~= entries.dom().insert(key));
}

/// A page that is put into a cache.
pub struct Put {
    pub url: Seq<char>,
    pub page: PageView,
    pub source: Seq<char>,
    pub secs: i64,
}

/// The entries after the first `j` pages were put there, one after the other.
pub open spec fn stored_all(
    entries: Map<Seq<char>, EntryView>,
    puts: Seq<Put>,
    j: int,
) -> Map<Seq<char>, EntryView>
    decreases j,
{
    if j <= 0 || j > puts.len() {
        entries
    } else {
        let put = puts[j - 1];
        stored(stored_all(entries, puts, j - 1), put.url, put.page, put.source, put.secs)
    }
}

/// Pages that are put under different keys are all found, in whatever order they come.
pub proof fn law_no_put_is_lost(
    entries: Map<Seq<char>, EntryView>,
    puts: Seq<Put>,
    j: int,
    i: int,
    ttl: int,
    now: int,
)
    requires
        0 <= i < j <= puts.len(),
        forall|a: int, b: int|
            0 <= a < b < puts.len() ==> short_digest((#[trigger] puts[a]).url) != short_digest(
                (#[trigger] puts[b]).url,
            ),
    ensures
        cached_at(stored_all(entries, puts, j), ttl, puts[i].url, now) matches Some(found)
            && found.page == puts[i].page && found.source == puts[i].source,
    decreases j,
{
    if i < j - 1 {
        law_no_put_is_lost(entries, puts, j - 1, i, ttl, now);
        assert(short_digest(puts[i].url) != short_digest(puts[j - 1].url));
    }
}

/// What was put under a URL is found there, as it was put, fresh for as long as
/// the time to live has not passed.
pub proof fn law_put_then_get(
    entries: Map<Seq<char>, EntryView>,
    ttl: int,
    url: Seq<char>,
    page: PageView,
    source: Seq<char>,
    secs: i64,
    now: int,
)
    requires
        secs >= 0,
        now - secs * 1_000_000_000 <= ttl,
    ensures
        fresh(cached_at(stored(entries, url, page, source, secs), ttl, url, now)) == Some(
            (page, source),
        ),
{
}

/// An entry that has expired is still found by those who look at expired entries,
/// and by nobody else.
pub proof fn law_expired_entries_stay_inspectable(
    entries: Map<Seq<char>, EntryView>,
    ttl: int,
    url: Seq<char>,
    page: PageView,
    source: Seq<char>,
    secs: i64,
    now: int,
)
    requires
        secs >= 0,
        now - secs * 1_000_000_000 > ttl,
    ensures
        cached_at(stored(entries, url, page, source, secs), ttl, url, now) == Some(
            CachedView { page: page, source: source, expired: true },
        ),
        fresh(cached_at(stored(entries, url, page, source, secs), ttl, url, now)) is None,
{
}

/// Putting a page under one URL changes nothing for a URL with another key.
pub proof fn law_other_urls_are_unaffected(
    entries: Map<Seq<char>, EntryView>,
    ttl: int,
    url: Seq<char>,
    other: Seq<char>,
    page: PageView,
    source: Seq<char>,
    secs: i64,
    now: int,
)
    requires
        short_digest(url) != short_digest(other),
    ensures
        cached_at(stored(entries, url, page, source, secs), ttl, other, now) == cached_at(
            entries,
            ttl,
            other,
            now,
        ),
{
}

/// After clearing the cache nothing is found.
pub proof fn law_clear_forgets(ttl: int, url: Seq<char>, now: int)
    ensures
        cached_at(Map::<Seq<char>, EntryView>::empty(), ttl, url, now) is None,
{
}

/// The path `file` as it is understood in the directory `dir`: an absolute path
/// is left as it is.
pub open spec fn in_dir(dir: Seq<char>, file: Seq<char>) -> Seq<char> {
    if file.len() > 0 && file[0] == '/' {
        file
    } else if dir.len() == 0 || dir.last() == '/' {
        dir + file
    } else {
        dir + "/"@ + file
    }
}

/// The path `file` as it is understood in the directory `dir`.
pub fn path_in(dir: &str, file: &str) -> (r: String)
    ensures
        r@ == in_dir(dir@, file@),
{
    let name = crate::text::chars_of(file);
    if name.len() > 0 && name[0] == '/' {
        return file.to_owned();
    }
    let chars = crate::text::chars_of(dir);
    let mut out = dir.to_owned();
    if chars.len() > 0 && chars[chars.len() - 1] != '/' {
        out.append("/");
    }
    out.append(file);
    out
}

/// The path of the cache file in the cache directory.
pub fn db_path(cache_dir: &str) -> (r: String)
    ensures
        r@ == in_dir(cache_dir@, "cache.json"@),
{
    path_in(cache_dir, "cache.json")
}

/// The distance between neighbouring floating point numbers of double precision
/// at a whole number.
pub open spec fn double_step(n: int) -> int
    decreases n,
{
    if n < 0x20_0000_0000_0000 {
        1
    } else {
        2 * double_step(n / 2)
    }
}

/// `n / d` to the nearest whole number, and to the even one of two.
pub open spec fn nearest(n: int, d: int) -> int {
    let q = n / d;
    let r = n % d;
    if 2 * r > d || (2 * r == d && q % 2 == 1) {
        q + 1
    } else {
        q
    }
}

/// The floating point number of double precision that is nearest to a whole
/// number.
pub open spec fn nearest_double(n: int) -> int {
    nearest(n, double_step(n)) * double_step(n)
}

/// A number of tenths with one decimal place.
pub open spec fn with_tenths(n: int) -> Seq<char> {
    decimal(n / 10) + seq!['.'] + seq![digit(n % 10)]
}

/// A number of bytes in the notation that is shown: whole bytes, or kilobytes or
/// megabytes to one decimal place.
pub open spec fn bytes_text(bytes: int) -> Seq<char> {
    if bytes >= 0x10_0000 {
        with_tenths(nearest(nearest_double(bytes) * 10, 0x10_0000)) + " MB"@
    } else if bytes >= 0x400 {
        with_tenths(nearest(nearest_double(bytes) * 10, 0x400)) + " KB"@
    } else {
        decimal(bytes) + " B"@
    }
}

proof fn lemma_double_step(n: int, half: int, step: int)
    requires
        n >= 0,
        half >= 0x20_0000_0000_0000,
        half == n / step,
        step >= 1,
        double_step(n) == step * double_step(half),
    ensures
        double_step(n) == (2 * step) * double_step(half / 2),
        half / 2 == n / (2 * step),
{
    assert(n / step / 2 == n / (step * 2)) by {
        vstd::arithmetic::div_mod::lemma_div_denominator(n, step, 2);
    }
    let d = double_step(half / 2);
    assert(step * (2 * d) == (2 * step) * d) by (nonlinear_arith);
    assert(step * 2 == 2 * step);
}

fn step_of(n: u64) -> (r: u128)
    ensures
        r == double_step(n as int),
        1 <= r <= 0xffe,
        (n as int) / (r as int) < 0x20_0000_0000_0000,
{
    let mut half: u64 = n;
    let mut step: u128 = 1;
    while half >= 0x20_0000_0000_0000
        invariant
            half == (n as int) / (step as int),
            step >= 1,
            double_step(n as int) == step * double_step(half as int),
            half * step <= 0xffff_ffff_ffff_ffff,
            half >= 0x10_0000_0000_0000 || step == 1,
            step <= 0xffe,
        decreases half,
    {
        proof {
            lemma_double_step(n as int, half as int, step as int);
            assert(step <= 0x7ff) by (nonlinear_arith)
                requires
                    half * step <= 0xffff_ffff_ffff_ffff,
                    half >= 0x20_0000_0000_0000,
            ;
            assert((half / 2) * (2 * step) <= half * step) by (nonlinear_arith)
                requires
                    step >= 1,
                    half >= 0,
            ;
        }
        half = half / 2;
        step = 2 * step;
    }
    assert(double_step(half as int) == 1);
    step
}

fn nearest_of(n: u128, d: u128) -> (r: u128)
    requires
        1 <= d <= 0x10_0000,
        n < 0x1000_0000_0000_0000_0000_0000,
    ensures
        r == nearest(n as int, d as int),
        r <= n / d + 1,
{
    let q: u128 = n / d;
    let rest: u128 = n % d;
    if 2 * rest > d || (2 * rest == d && q % 2 == 1) {
        q + 1
    } else {
        q
    }
}

fn show_tenths(n: u128) -> (r: String)
    requires
        n < 0xffff_ffff_ffff_ffff,
    ensures
        r@ == with_tenths(n as int),
{
    let mut out = show((n / 10) as u64);
    out.push('.');
    let code: u8 = 48 + (n % 10) as u8;
    out.push(code as char);
    assert(out@ =~= with_tenths(n as int));
    out
}

/// A number of bytes in the notation that is shown.
pub fn format_bytes(bytes: u64) -> (r: String)
    ensures
        r@ == bytes_text(bytes as int),
{
    if bytes < 0x400 {
        let mut out = show(bytes);
        out.append(" B");
        return out;
    }
    let step = step_of(bytes);
    let whole = nearest_of(bytes as u128, step);
    assert(whole * step <= 0x20_0000_0000_0000 * 0xffe) by (nonlinear_arith)
        requires
            0 <= whole <= 0x20_0000_0000_0000,
            0 <= step <= 0xffe,
    ;
    let rounded: u128 = whole * step;
    if bytes >= 0x10_0000 {
        let mut out = show_tenths(nearest_of(rounded * 10, 0x10_0000));
        out.append(" MB");
        out
    } else {
        assert(double_step(bytes as int) == 1);
        let mut out = show_tenths(nearest_of(rounded * 10, 0x400));
        out.append(" KB");
        out
    }
}

/// An entry is expired as soon as more than the time to live has passed since it was put
/// there, and not before. One from before 1970 is expired, one from the future is not.
pub proof fn law_when_an_entry_expires(entry: EntryView, ttl: int, now: int)
    requires
        0 <= ttl,
        0 <= now,
    ensures
        entry.t < 0 ==> entry.expired(ttl, now),
        entry.t >= 0 && now <= entry.t * 1_000_000_000 ==> !entry.expired(ttl, now),
        entry.t >= 0 && now == entry.t * 1_000_000_000 + ttl ==> !entry.expired(ttl, now),
        entry.t >= 0 && now == entry.t * 1_000_000_000 + ttl + 1 ==> entry.expired(ttl, now),
        entry.expired(ttl, now) ==> entry.expired(ttl, now + 1),
        entry.found(ttl, now).page == entry.p,
        entry.found(ttl, now).source == entry.s,
        entry.found(ttl, now).expired == entry.expired(ttl, now),
{
}

/// What is fresh is what was found and is not expired, as it was found.
pub proof fn law_what_is_fresh(cached: CachedView)
    ensures
        fresh(None) is None,
        cached.expired ==> fresh(Some(cached)) is None,
        !cached.expired ==> fresh(Some(cached)) == Some((cached.page, cached.source)),
{
}

/// Seconds are counted when they are over.
pub proof fn law_whole_seconds(secs: int, rest: int)
    requires
        0 <= secs <= i64::MAX,
        0 <= rest < 1_000_000_000,
    ensures
        whole_seconds(secs * 1_000_000_000 + rest) == secs,
{
}

/// A file in a directory stands behind it and a slash; one with an absolute path is where
/// that says.
pub proof fn law_files_in_directories(dir: Seq<char>, file: Seq<char>)
    requires
        file.len() > 0,
    ensures
        file[0] == '/' ==> in_dir(dir, file) == file,
        file[0] != '/' && dir.len() > 0 && dir.last() != '/' ==> in_dir(dir, file) == dir + seq![
            '/',
        ] + file,
        file[0] != '/' && (dir.len() == 0 || dir.last() == '/') ==> in_dir(dir, file) == dir + file,
{
    reveal_strlit("/");
    assert("/"@ =~= seq!['/']);
}

/// Sizes are shown in bytes below a kilobyte, in kilobytes below a megabyte, and in
/// megabytes, to the nearest tenth. `n` is the number of tenths.
pub proof fn law_how_sizes_are_shown(bytes: int, n: int)
    requires
        0 <= bytes < 0x20_0000_0000_0000,
        0 <= n,
    ensures
        bytes < 1024 ==> bytes_text(bytes) == decimal(bytes) + " B"@,
        1024 <= bytes < 1024 * 1024 && -512 < n * 1024 - bytes * 10 < 512 ==> bytes_text(bytes)
            == decimal(n / 10) + seq!['.'] + decimal(n % 10) + " KB"@,
        1024 * 1024 <= bytes && -524288 < n * 1048576 - bytes * 10 < 524288 ==> bytes_text(bytes)
            == decimal(n / 10) + seq!['.'] + decimal(n % 10) + " MB"@,
{
    assert(double_step(bytes) == 1);
    assert(nearest_double(bytes) == bytes) by {
        assert(bytes / 1 == bytes && bytes % 1 == 0);
    }
    assert(decimal(n % 10) =~= seq![digit(n % 10)]);
    if 1024 <= bytes < 1024 * 1024 && -512 < n * 1024 - bytes * 10 < 512 {
        assert(nearest(bytes * 10, 0x400) == n);
    }
    if 1024 * 1024 <= bytes && -524288 < n * 1048576 - bytes * 10 < 524288 {
        assert(nearest(bytes * 10, 0x10_0000) == n);
    }
}

/// An entry is seen as its fields are.
pub proof fn law_what_an_entry_holds(record: CacheEntry)
    ensures
        record@.s == record.s@,
        record@.p == record.p@,
        record@.t == record.t,
{
}

/// What was found is seen as its fields are.
pub proof fn law_what_was_found_holds(record: CachedPage)
    ensures
        record@.page == record.page@,
        record@.source == record.source@,
        record@.expired == record.expired,
{
}

/// The keys of a cache are those of its entries, each once.
pub proof fn law_every_entry_has_its_key(cache: PageCache, key: Seq<char>)
    requires
        cache.valid(),
    ensures
        cache.keys().len() == cache.size(),
        cache.keys().no_duplicates(),
        cache@.contains_key(key) <==> cache.keys().contains(key),
{
    let keys = cache.keys();
    assert forall|i: int, j: int| 0 <= i < keys.len() && 0 <= j < keys.len() && i != j implies keys[i]
        != keys[j] by {
        assert(cache.entries@[i].0@ == keys[i]);
        assert(cache.entries@[j].0@ == keys[j]);
    }
    lemma_position(cache.entries@, key, 0);
    let p = position(cache.entries@, key, 0);
    if p < cache.entries@.len() {
        assert(keys[p] == key);
    } else if keys.contains(key) {
        let i = choose|i: int| 0 <= i < keys.len() && keys[i] == key;
        assert(cache.entries@[i].0@ == key);
    }
}

} // verus!
