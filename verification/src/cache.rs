//! A backend that remembers what its inner backend said.
//!
//! Four things are remembered, each for a fixed number of seconds: the
//! catalog, the usage counts, the archives fetched so far and the images
//! fetched so far. The archives and the images are forgotten all at once
//! when their time is up, never one by one.

use bytes::Bytes;
use vstd::prelude::*;
use crate::interface::{blob_copy, contents, IStorage, Statistics, StorageError};
use crate::keyed_map::{KeyedMap, TextMap};
use crate::store_plugin::{clone_plugins, plugins_of, Plugin, StorePluginList};

verus! {

/// The time by the system's clock, in seconds since 1970: `Utc::now` of
/// chrono and its `timestamp`. Nothing is known of the value. (chrono stops
/// the program when the clock stands before 1970.)
#[verifier::external_body]
pub(crate) fn current_timestamp() -> i64 {
    chrono::Utc::now().timestamp()
}

/// The moment up to which a value loaded at `now` is kept: `ttl` seconds
/// later, or the last or first moment there is where the sum is no moment.
pub open spec fn deadline(now: i64, ttl: i64) -> i64 {
    if now + ttl > i64::MAX {
        i64::MAX
    } else if now + ttl < i64::MIN {
        i64::MIN
    } else {
        (now + ttl) as i64
    }
}

fn deadline_of(now: i64, ttl: i64) -> (r: i64)
    ensures
        r == deadline(now, ttl),
{
    match now.checked_add(ttl) {
        Some(moment) => moment,
        None => if ttl > 0 {
            i64::MAX
        } else {
            i64::MIN
        },
    }
}

/// A value and the moment up to which it counts as fresh.
pub struct Cached<T> {
    expiry: i64,
    value: T,
    ttl: i64,
}

impl<T> Cached<T> {
    /// The last moment at which the value is fresh.
    pub closed spec fn expiry(self) -> i64 {
        self.expiry
    }

    /// The value that is kept.
    pub closed spec fn value(self) -> T {
        self.value
    }

    /// The number of seconds for which a value is kept.
    pub closed spec fn ttl(self) -> i64 {
        self.ttl
    }

    /// Whether the value is fresh at the moment `now`.
    pub open spec fn fresh_at(self, now: i64) -> bool {
        now <= self.expiry()
    }

    /// Keeps `value`, loaded at `now`, for `duration` seconds.
    pub fn new(value: T, now: i64, duration: i64) -> (r: Self)
        ensures
            r.value() == value,
            r.ttl() == duration,
            r.expiry() == deadline(now, duration),
    {
        Cached { expiry: deadline_of(now, duration), value: value, ttl: duration }
    }

    /// The value, if it is fresh at `now`; the holder then has to load
    /// nothing. Otherwise `None`: the holder loads the value anew and hands
    /// it to [`Cached::refresh`].
    pub fn get(&self, now: i64) -> (r: Option<&T>)
        ensures
            self.fresh_at(now) ==> r == Some(&self.value()),
            !self.fresh_at(now) ==> r is None,
    {
        if self.expiry < now {
            None
        } else {
            Some(&self.value)
        }
    }

    /// Keeps `new_value`, loaded at `now`, in place of the old value.
    pub fn refresh(&mut self, now: i64, new_value: T)
        ensures
            final(self).value() == new_value,
            final(self).ttl() == old(self).ttl(),
            final(self).expiry() == deadline(now, old(self).ttl()),
    {
        self.expiry = deadline_of(now, self.ttl);
        self.value = new_value;
    }

    /// A value loaded at `loaded_at` is fresh at every moment from then to
    /// `ttl` seconds later.
    pub proof fn lemma_fresh_within_ttl(self, loaded_at: i64, now: i64)
        requires
            self.expiry() == deadline(loaded_at, self.ttl()),
            loaded_at <= now <= loaded_at + self.ttl(),
        ensures
            self.fresh_at(now),
    {
    }

    /// A value loaded at `loaded_at` is no longer fresh once more than
    /// `ttl` seconds have gone by.
    pub proof fn lemma_stale_after_ttl(self, loaded_at: i64, now: i64)
        requires
            self.expiry() == deadline(loaded_at, self.ttl()),
            now > loaded_at + self.ttl(),
            now > i64::MIN || loaded_at + self.ttl() >= i64::MIN,
        ensures
            !self.fresh_at(now),
    {
    }
}

/// What the blobs of a map hold.
pub open spec fn blobs(held: Map<Seq<char>, Bytes>) -> Map<Seq<char>, Seq<u8>> {
    held.map_values(|blob: Bytes| contents(blob))
}

/// A copy of usage counts.
pub fn copy_statistics(source: &Statistics) -> (r: Statistics)
    ensures
        r@ == source@,
{
    let mut out: Statistics = KeyedMap::new();
    let n = source.len();
    let mut i: usize = 0;
    while i < n
        invariant
            i <= n,
            n == source.labels().len(),
            source.consistent(),
            forall|k: Seq<char>|
                out@.contains_key(k) <==> exists|j: int|
                    0 <= j < i && #[trigger] source.labels()[j] == k,
            forall|k: Seq<char>| out@.contains_key(k) ==> out@[k] == source@[k],
        decreases n - i,
    {
        let label = source.label(i).clone();
        let count = *source.item(i);
        let ghost before = out@;
        out.insert(label, count);
        proof {
            assert forall|k: Seq<char>| out@.contains_key(k) <==> exists|j: int|
                0 <= j < i + 1 && #[trigger] source.labels()[j] == k by {
                if before.contains_key(k) {
                    let j = choose|j: int| 0 <= j < i && #[trigger] source.labels()[j] == k;
                    assert(0 <= j < i + 1 && source.labels()[j] == k);
                }
                if k == source.labels()[i as int] {
                    assert(0 <= i < i + 1 && source.labels()[i as int] == k);
                }
            }
        }
        i += 1;
    }
    proof {
        assert forall|k: Seq<char>| source@.contains_key(k) implies out@.contains_key(k) by {
            assert(source.labels().contains(k));
            let j = choose|j: int| 0 <= j < source.labels().len() && source.labels()[j] == k;
            assert(0 <= j < n && source.labels()[j] == k);
        }
        assert forall|k: Seq<char>| out@.contains_key(k) implies source@.contains_key(k) by {
            let j = choose|j: int| 0 <= j < n && #[trigger] source.labels()[j] == k;
            assert(source@.contains_key(source.labels()[j]));
        }
        assert(out@ =~= source@);
    }
    out
}

/// A backend that answers from memory while its memory is fresh.
pub struct CachedStorage<S: IStorage> {
    fallback: S,
    plugins_cache: Cached<StorePluginList>,
    statistics_cache: Cached<Statistics>,
    artifacts_cache: Cached<TextMap<Bytes>>,
    images_cache: Cached<TextMap<Bytes>>,
}

impl<S: IStorage> CachedStorage<S> {
    /// The inner backend.
    pub closed spec fn fallback(self) -> S {
        self.fallback
    }

    /// The catalog that is kept.
    pub closed spec fn plugins_cache(self) -> Cached<StorePluginList> {
        self.plugins_cache
    }

    /// The usage counts that are kept.
    pub closed spec fn statistics_cache(self) -> Cached<Statistics> {
        self.statistics_cache
    }

    /// The archives that are kept, by digest.
    pub closed spec fn artifacts_cache(self) -> Cached<TextMap<Bytes>> {
        self.artifacts_cache
    }

    /// The images that are kept, by plugin name.
    pub closed spec fn images_cache(self) -> Cached<TextMap<Bytes>> {
        self.images_cache
    }

    /// Whether a cache that is set up in front of `inner` comes out as
    /// `self`: the catalog and the usage counts that it keeps are what
    /// `inner` answers, asked first for the one, then for the other; no
    /// archive and no image is kept yet.
    pub open spec fn loaded_from(self, inner: S) -> bool {
        &&& exists|listed: S|
            #![trigger inner.lists(&listed, plugins_of(self.plugins_cache().value()@))]
            inner.lists(&listed, plugins_of(self.plugins_cache().value()@)) && listed.counts(
                &self.fallback(),
                self.statistics_cache().value()@,
            )
        &&& self.artifacts_cache().value()@ == Map::<Seq<char>, Bytes>::empty()
        &&& self.images_cache().value()@ == Map::<Seq<char>, Bytes>::empty()
    }

    /// A cache in front of `inner` that keeps every answer for `duration`
    /// seconds, counted from `now`. The catalog and the usage counts are
    /// loaded at once; no archive and no image is kept yet.
    pub fn new_at(now: i64, duration: i64, inner: S) -> (r: Self)
        ensures
            r.loaded_from(inner),
            r.plugins_cache().ttl() == duration,
            r.statistics_cache().ttl() == duration,
            r.artifacts_cache().ttl() == duration,
            r.images_cache().ttl() == duration,
            r.plugins_cache().expiry() == deadline(now, duration),
            r.statistics_cache().expiry() == deadline(now, duration),
            r.artifacts_cache().expiry() == deadline(now, duration),
            r.images_cache().expiry() == deadline(now, duration),
    {
        let ghost given = inner;
        let mut inner = inner;
        let plugins = inner.plugins();
        let ghost listed = inner;
        let statistics = inner.get_statistics();
        let r = CachedStorage {
            plugins_cache: Cached::new(plugins, now, duration),
            statistics_cache: Cached::new(statistics, now, duration),
            artifacts_cache: Cached::new(KeyedMap::new(), now, duration),
            images_cache: Cached::new(KeyedMap::new(), now, duration),
            fallback: inner,
        };
        assert(given.lists(&listed, plugins_of(r.plugins_cache().value()@)));
        r
    }

    /// A cache in front of `inner` that keeps every answer for `duration`
    /// seconds, counted from the present moment.
    pub fn new(duration: i64, inner: S) -> (r: Self)
        ensures
            r.loaded_from(inner),
            r.plugins_cache().ttl() == duration,
            r.statistics_cache().ttl() == duration,
            r.artifacts_cache().ttl() == duration,
            r.images_cache().ttl() == duration,
            exists|now: i64|
                {
                    &&& r.plugins_cache().expiry() == #[trigger] deadline(now, duration)
                    &&& r.statistics_cache().expiry() == deadline(now, duration)
                    &&& r.artifacts_cache().expiry() == deadline(now, duration)
                    &&& r.images_cache().expiry() == deadline(now, duration)
                },
    {
        Self::new_at(current_timestamp(), duration, inner)
    }

    /// What reading the catalog at the moment `now` comes to, with the
    /// backend as it is before and after and the catalog `r` that is handed
    /// out. While the kept catalog is fresh it is the answer, and nothing
    /// changes; the inner backend is left as it is. Otherwise the inner
    /// backend is asked, and its answer is handed out and kept from `now`
    /// on.
    pub open spec fn catalog_read(self, after: Self, r: Seq<Plugin>, now: i64) -> bool {
        &&& after.statistics_cache() == self.statistics_cache()
        &&& after.artifacts_cache() == self.artifacts_cache()
        &&& after.images_cache() == self.images_cache()
        &&& after.plugins_cache().ttl() == self.plugins_cache().ttl()
        &&& plugins_of(after.plugins_cache().value()@) == r
        &&& if self.plugins_cache().fresh_at(now) {
            &&& r == plugins_of(self.plugins_cache().value()@)
            &&& after.fallback() == self.fallback()
            &&& after.plugins_cache().expiry() == self.plugins_cache().expiry()
        } else {
            &&& self.fallback().lists(&after.fallback(), r)
            &&& after.plugins_cache().expiry() == deadline(now, self.plugins_cache().ttl())
        }
    }

    /// What reading the usage counts at the moment `now` comes to; it goes
    /// as reading the catalog does.
    pub open spec fn statistics_read(self, after: Self, r: Map<Seq<char>, u64>, now: i64) -> bool {
        &&& after.plugins_cache() == self.plugins_cache()
        &&& after.artifacts_cache() == self.artifacts_cache()
        &&& after.images_cache() == self.images_cache()
        &&& after.statistics_cache().ttl() == self.statistics_cache().ttl()
        &&& after.statistics_cache().value()@ == r
        &&& if self.statistics_cache().fresh_at(now) {
            &&& r == self.statistics_cache().value()@
            &&& after.fallback() == self.fallback()
            &&& after.statistics_cache().expiry() == self.statistics_cache().expiry()
        } else {
            &&& self.fallback().counts(&after.fallback(), r)
            &&& after.statistics_cache().expiry() == deadline(now, self.statistics_cache().ttl())
        }
    }

    /// After a reading at `loaded_at` that found nothing fresh, every
    /// reading up to `ttl` seconds later hands out the same catalog and
    /// leaves the inner backend unasked.
    pub proof fn lemma_catalog_kept_within_ttl(
        self,
        loaded: Self,
        after: Self,
        first: Seq<Plugin>,
        second: Seq<Plugin>,
        loaded_at: i64,
        now: i64,
    )
        requires
            !self.plugins_cache().fresh_at(loaded_at),
            self.catalog_read(loaded, first, loaded_at),
            loaded.catalog_read(after, second, now),
            loaded_at <= now <= loaded_at + self.plugins_cache().ttl(),
        ensures
            second == first,
            after.fallback() == loaded.fallback(),
    {
        loaded.plugins_cache().lemma_fresh_within_ttl(loaded_at, now);
    }

    /// After a reading at `loaded_at` that found nothing fresh, a reading
    /// more than `ttl` seconds later finds nothing fresh either: what it
    /// hands out is kept anew, from `now` on.
    pub proof fn lemma_catalog_reloaded_after_ttl(
        self,
        loaded: Self,
        after: Self,
        first: Seq<Plugin>,
        second: Seq<Plugin>,
        loaded_at: i64,
        now: i64,
    )
        requires
            !self.plugins_cache().fresh_at(loaded_at),
            self.catalog_read(loaded, first, loaded_at),
            loaded.catalog_read(after, second, now),
            now > loaded_at + self.plugins_cache().ttl(),
            now > i64::MIN || loaded_at + self.plugins_cache().ttl() >= i64::MIN,
        ensures
            !loaded.plugins_cache().fresh_at(now),
            after.plugins_cache().expiry() == deadline(now, self.plugins_cache().ttl()),
            plugins_of(after.plugins_cache().value()@) == second,
    {
        loaded.plugins_cache().lemma_stale_after_ttl(loaded_at, now);
    }

    /// The catalog at the moment `now`. While the kept catalog is fresh it
    /// is the answer and the inner backend is not asked. Otherwise the
    /// inner backend is asked, and its answer is kept from `now` on.
    pub fn plugins_at(&mut self, now: i64) -> (r: StorePluginList)
        ensures
            old(self).catalog_read(*final(self), plugins_of(r@), now),
    {
        match self.plugins_cache.get(now) {
            Some(kept) => clone_plugins(kept),
            None => {
                let loaded = self.fallback.plugins();
                let copy = clone_plugins(&loaded);
                self.plugins_cache.refresh(now, loaded);
                copy
            },
        }
    }

    /// The usage counts at the moment `now`, kept and loaded as the
    /// catalog is.
    pub fn get_statistics_at(&mut self, now: i64) -> (r: Statistics)
        ensures
            old(self).statistics_read(*final(self), r@, now),
    {
        match self.statistics_cache.get(now) {
            Some(kept) => copy_statistics(kept),
            None => {
                let loaded = self.fallback.get_statistics();
                let copy = copy_statistics(&loaded);
                self.statistics_cache.refresh(now, loaded);
                copy
            },
        }
    }
}

/// The blobs that a cache still holds at the moment `now`: all of them
/// while it is fresh, none once its time is up.
pub open spec fn kept_blobs(cache: Cached<TextMap<Bytes>>, now: i64) -> Map<Seq<char>, Seq<u8>> {
    if cache.fresh_at(now) {
        blobs(cache.value()@)
    } else {
        Map::empty()
    }
}

/// The moment up to which a cache is fresh after it was looked into at
/// `now` and nothing was added: a cache whose time was up has started over.
pub open spec fn kept_expiry(cache: Cached<TextMap<Bytes>>, now: i64) -> i64 {
    if cache.fresh_at(now) {
        cache.expiry()
    } else {
        deadline(now, cache.ttl())
    }
}

/// Looks a blob up in a cache at the moment `now`. A cache whose time is up
/// is emptied first and starts over from `now`.
fn look_up(cache: &mut Cached<TextMap<Bytes>>, now: i64, key: &String) -> (r: Option<Bytes>)
    ensures
        final(cache).ttl() == old(cache).ttl(),
        final(cache).expiry() == kept_expiry(*old(cache), now),
        blobs(final(cache).value()@) == kept_blobs(*old(cache), now),
        match r {
            Some(blob) => kept_blobs(*old(cache), now).contains_key(key@) && contents(blob)
                == kept_blobs(*old(cache), now)[key@],
            None => !kept_blobs(*old(cache), now).contains_key(key@),
        },
{
    if cache.expiry < now {
        cache.refresh(now, KeyedMap::new());
        assert(blobs(cache.value@) =~= Map::<Seq<char>, Seq<u8>>::empty());
    }
    match cache.value.get(key) {
        Some(blob) => Some(blob_copy(blob)),
        None => None,
    }
}

/// Adds a blob to a cache at the moment `now`; the cache is fresh from
/// `now` on.
fn keep(cache: &mut Cached<TextMap<Bytes>>, now: i64, key: String, blob: &Bytes)
    ensures
        final(cache).ttl() == old(cache).ttl(),
        final(cache).expiry() == deadline(now, old(cache).ttl()),
        blobs(final(cache).value()@) == blobs(old(cache).value()@).insert(key@, contents(*blob)),
{
    let ghost before = cache.value@;
    cache.value.insert(key, blob_copy(blob));
    cache.expiry = deadline_of(now, cache.ttl);
    assert(blobs(cache.value@) =~= blobs(before).insert(key@, contents(*blob)));
}

/// What looking for a blob under `key` at the moment `now` comes to, with
/// the cache as it is before and after and the answer `r`. A blob that is
/// kept under the key is the answer, and the inner backend is not asked:
/// it is `inner_untouched`. Otherwise the inner backend is asked and `r`
/// is what it answers, `inner_answered`: a blob is kept under the key, and
/// all that is kept is fresh from `now` on; a failure leaves what is kept
/// as it is.
pub open spec fn blob_read(
    before: Cached<TextMap<Bytes>>,
    after: Cached<TextMap<Bytes>>,
    inner_untouched: bool,
    inner_answered: bool,
    r: Result<Bytes, StorageError>,
    key: Seq<char>,
    now: i64,
) -> bool {
    let held = kept_blobs(before, now);
    let kept = blobs(after.value()@);
    &&& after.ttl() == before.ttl()
    &&& if held.contains_key(key) {
        &&& r matches Ok(blob) && contents(blob) == held[key]
        &&& inner_untouched
        &&& kept == held
        &&& after.expiry() == kept_expiry(before, now)
    } else {
        &&& inner_answered
        &&& match r {
            Ok(blob) => kept == held.insert(key, contents(blob)) && after.expiry() == deadline(
                now,
                before.ttl(),
            ),
            Err(_) => kept == held && after.expiry() == kept_expiry(before, now),
        }
    }
}

impl<S: IStorage> CachedStorage<S> {
    /// What fetching an archive at the moment `now` comes to. Archives are
    /// kept by their digest alone.
    pub open spec fn artifact_read(
        self,
        after: Self,
        r: Result<Bytes, StorageError>,
        name: Seq<char>,
        version: Seq<char>,
        hash: Seq<char>,
        now: i64,
    ) -> bool {
        &&& after.plugins_cache() == self.plugins_cache()
        &&& after.statistics_cache() == self.statistics_cache()
        &&& after.images_cache() == self.images_cache()
        &&& blob_read(
            self.artifacts_cache(),
            after.artifacts_cache(),
            after.fallback() == self.fallback(),
            self.fallback().serves_artifact(&after.fallback(), name, version, hash, r),
            r,
            hash,
            now,
        )
    }

    /// What fetching an image at the moment `now` comes to.
    pub open spec fn image_read(
        self,
        after: Self,
        r: Result<Bytes, StorageError>,
        name: Seq<char>,
        now: i64,
    ) -> bool {
        &&& after.plugins_cache() == self.plugins_cache()
        &&& after.statistics_cache() == self.statistics_cache()
        &&& after.artifacts_cache() == self.artifacts_cache()
        &&& blob_read(
            self.images_cache(),
            after.images_cache(),
            after.fallback() == self.fallback(),
            self.fallback().serves_image(&after.fallback(), name, r),
            r,
            name,
            now,
        )
    }

    /// The archive of a version at the moment `now`. An archive that is
    /// kept under the digest is the answer, and the inner backend is not
    /// asked. Otherwise the inner backend is asked; what it hands out is
    /// kept under the digest, and the kept archives are fresh from `now`
    /// on; a failure is passed on and nothing is kept.
    pub fn get_artifact_at(&mut self, now: i64, name: &str, version: &str, hash: &str) -> (r:
        Result<Bytes, StorageError>)
        ensures
            old(self).artifact_read(*final(self), r, name@, version@, hash@, now),
    {
        let key = hash.to_owned();
        match look_up(&mut self.artifacts_cache, now, &key) {
            Some(blob) => Ok(blob),
            None => {
                match self.fallback.get_artifact(name, version, hash) {
                    Ok(blob) => {
                        keep(&mut self.artifacts_cache, now, key, &blob);
                        Ok(blob)
                    },
                    Err(e) => Err(e),
                }
            },
        }
    }

    /// The image of a plugin at the moment `now`, kept under the plugin's
    /// name as archives are kept under their digest.
    pub fn get_image_at(&mut self, now: i64, name: &str) -> (r: Result<Bytes, StorageError>)
        ensures
            old(self).image_read(*final(self), r, name@, now),
    {
        let key = name.to_owned();
        match look_up(&mut self.images_cache, now, &key) {
            Some(blob) => Ok(blob),
            None => {
                match self.fallback.get_image(name) {
                    Ok(blob) => {
                        keep(&mut self.images_cache, now, key, &blob);
                        Ok(blob)
                    },
                    Err(e) => Err(e),
                }
            },
        }
    }
}

impl<S: IStorage> IStorage for CachedStorage<S> {
    /// A reading of the catalog at the moment that the system's clock
    /// shows.
    open spec fn lists(&self, after: &Self, catalog: Seq<Plugin>) -> bool {
        exists|now: i64| #[trigger] self.catalog_read(*after, catalog, now)
    }

    /// A fetch of the archive at the moment that the system's clock shows.
    open spec fn serves_artifact(
        &self,
        after: &Self,
        name: Seq<char>,
        version: Seq<char>,
        hash: Seq<char>,
        r: Result<Bytes, StorageError>,
    ) -> bool {
        exists|now: i64| #[trigger] self.artifact_read(*after, r, name, version, hash, now)
    }

    /// A fetch of the image at the moment that the system's clock shows.
    open spec fn serves_image(
        &self,
        after: &Self,
        name: Seq<char>,
        r: Result<Bytes, StorageError>,
    ) -> bool {
        exists|now: i64| #[trigger] self.image_read(*after, r, name, now)
    }

    /// A reading of the usage counts at the moment that the system's clock
    /// shows.
    open spec fn counts(&self, after: &Self, statistics: Map<Seq<char>, u64>) -> bool {
        exists|now: i64| #[trigger] self.statistics_read(*after, statistics, now)
    }

    /// Reads the clock and the catalog.
    fn plugins(&mut self) -> (r: StorePluginList) {
        let now = current_timestamp();
        let r = self.plugins_at(now);
        assert(old(self).catalog_read(*self, plugins_of(r@), now));
        r
    }

    /// Reads the clock and fetches the archive.
    fn get_artifact(&mut self, name: &str, version: &str, hash: &str) -> (r: Result<
        Bytes,
        StorageError,
    >) {
        let now = current_timestamp();
        let r = self.get_artifact_at(now, name, version, hash);
        assert(old(self).artifact_read(*self, r, name@, version@, hash@, now));
        r
    }

    /// Reads the clock and fetches the image.
    fn get_image(&mut self, name: &str) -> (r: Result<Bytes, StorageError>) {
        let now = current_timestamp();
        let r = self.get_image_at(now, name);
        assert(old(self).image_read(*self, r, name@, now));
        r
    }

    /// Reads the clock and the usage counts.
    fn get_statistics(&mut self) -> (r: Statistics) {
        let now = current_timestamp();
        let r = self.get_statistics_at(now);
        assert(old(self).statistics_read(*self, r@, now));
        r
    }
}

} // verus!
