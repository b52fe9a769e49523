//! The entity store: reconstructs an entity's current state by replaying
//! its identifier stream through a projector, memoized by a pluggable
//! cache.
//!
//! Correctness does not depend on the cache: any cache whose entries are
//! true snapshots (see `cache_ok`), including the always-miss `DontCache`,
//! yields the same entity. Neither does it depend on the batch size: the
//! replay loop pages through the stream until it is exhausted.
//!
//! The store and cache are not designed for concurrent mutation from
//! several execution contexts; callers needing concurrent fetches use
//! independent instances.
use crate::error::Error;
use crate::message_store::{
    matching, MessageData, MessageStore, clone_record,
};
use crate::stream_name::{ident_key, render_key, StreamName};
use crate::text;
use vstd::prelude::*;

verus! {

/// Folds records into entity state; users implement one per entity type.
pub trait EntityBuilder<T>: Sized {
    /// The fold step: what applying one record to an entity yields.
    spec fn apply_spec(e: T, m: MessageData) -> T;

    /// The entity the builder currently holds.
    spec fn entity_spec(&self) -> T;

    /// Seeds the builder with a base entity.
    fn initialize(&mut self, base_entity: &T)
        ensures
            final(self).entity_spec() == *base_entity,
    ;

    /// Folds one record into the entity. A record of an unhandled type is
    /// ignored by the fold step, never an error.
    fn apply(&mut self, message: MessageData)
        ensures
            final(self).entity_spec() == Self::apply_spec(old(self).entity_spec(), message),
    ;

    /// The entity built so far.
    fn entity(&mut self) -> (r: T)
        ensures
            r == old(self).entity_spec(),
            final(self).entity_spec() == old(self).entity_spec(),
    ;
}

/// An entity type that the store can reconstruct.
pub trait EntityStoreEntity: Sized {
    /// The projector that folds records into this entity type.
    type Projector: EntityBuilder<Self>;

    /// The state an entity has before any record.
    spec fn initial_spec() -> Self;

    /// A fresh projector holding the initial state.
    fn get_projector() -> (p: Self::Projector)
        ensures
            p.entity_spec() == Self::initial_spec(),
    ;
}

/// The entity that replaying `msgs` in order over `base` yields.
pub open spec fn folded<T: EntityStoreEntity>(base: T, msgs: Seq<MessageData>) -> T
    decreases msgs.len(),
{
    if msgs.len() == 0 {
        base
    } else {
        <T::Projector as EntityBuilder<T>>::apply_spec(
            folded::<T>(base, msgs.drop_last()),
            msgs.last(),
        )
    }
}

/// Replay is deterministic and composable: folding a whole stream equals
/// folding its remainder over the fold of any prefix. A warm cache seeded
/// from a prefix therefore yields the same entity as a cold replay of the
/// full stream, and two replays of the same stream yield the same entity.
pub proof fn lemma_replay_from_prefix<T: EntityStoreEntity>(base: T, msgs: Seq<MessageData>, k: int)
    requires
        0 <= k <= msgs.len(),
    ensures
        folded::<T>(base, msgs) == folded::<T>(folded::<T>(base, msgs.take(k)), msgs.skip(k)),
    decreases msgs.len(),
{
    if k == msgs.len() {
        assert(msgs.take(k) =~= msgs);
        assert(msgs.skip(k) =~= Seq::<MessageData>::empty());
    } else {
        let pre = msgs.drop_last();
        lemma_replay_from_prefix::<T>(base, pre, k);
        assert(pre.take(k) =~= msgs.take(k));
        assert(msgs.skip(k).drop_last() =~= pre.skip(k));
        assert(msgs.skip(k).last() == msgs.last());
    }
}

/// The category an entity type's streams live under.
pub trait EntityCategory {
    /// Returns the category text.
    fn get_category() -> String;
}

/// Applies a typed message to an entity; users implement one per message
/// type they project.
pub trait Projection<E> {
    /// Folds this payload into the entity.
    fn apply(&self, entity: &mut E);
}

/// Snapshot storage for entities; an alternative to the read-through
/// cache for users who persist reconstructed state themselves.
pub trait EntitySnapShot: Sized {
    /// Stores a snapshot of an entity at a position.
    fn snapshot(&mut self, identity: &str, position: u64, entity: Self);

    /// Retrieves the stored snapshot.
    fn retrieve(&mut self, identity: &str) -> (r: (u64, Self));
}

/// The memo from (category, identity) to (position, entity); users may
/// supply their own implementation.
pub trait EntityCache<T>: Sized {
    /// The memo's contents.
    spec fn cache_spec(&self) -> Map<(Seq<char>, Seq<char>), (i64, T)>;

    /// Looks a pair up. A cache may miss; what it returns is a held entry.
    fn get_from_cache(&self, category: &str, identity: &str) -> (r: Option<(i64, &T)>)
        ensures
            match r {
                Some(p) => self.cache_spec().contains_key((category@, identity@))
                    && self.cache_spec()[(category@, identity@)] == (p.0, *p.1),
                None => true,
            },
    ;

    /// Memoizes a pair. A cache may drop it, but never corrupts it, and
    /// leaves every other key untouched.
    fn set_in_cache(&mut self, category: &str, identity: &str, position: i64, value: T)
        ensures
            forall|k: (Seq<char>, Seq<char>)|
                k != (category@, identity@) ==> (#[trigger] final(self).cache_spec().contains_key(k)
                    == old(self).cache_spec().contains_key(k)) && (old(self).cache_spec().contains_key(
                    k,
                ) ==> final(self).cache_spec()[k] == old(self).cache_spec()[k]),
            final(self).cache_spec().contains_key((category@, identity@)) ==> final(self).cache_spec()[
                (category@, identity@)
            ] == (position, value),
    ;
}

/// The always-miss cache: reads find nothing and writes are dropped.
/// Substituting it for any other valid cache loses the performance
/// benefit of memoization but never changes a fetched entity.
pub struct DontCache;

impl<T> EntityCache<T> for DontCache {
    open spec fn cache_spec(&self) -> Map<(Seq<char>, Seq<char>), (i64, T)> {
        Map::empty()
    }

    fn get_from_cache(&self, category: &str, identity: &str) -> (r: Option<(i64, &T)>) {
        None
    }

    fn set_in_cache(&mut self, category: &str, identity: &str, position: i64, value: T) {
    }
}

struct CacheEntry<T> {
    category: String,
    identity: String,
    position: i64,
    value: T,
}

/// The memo a sequence of cache writes leaves: later writes win.
spec fn entries_map<T>(s: Seq<CacheEntry<T>>) -> Map<(Seq<char>, Seq<char>), (i64, T)>
    decreases s.len(),
{
    if s.len() == 0 {
        Map::empty()
    } else {
        entries_map(s.drop_last()).insert(
            (s.last().category@, s.last().identity@),
            (s.last().position, s.last().value),
        )
    }
}

proof fn lemma_entries_map_found<T>(s: Seq<CacheEntry<T>>, k: (Seq<char>, Seq<char>), j: int)
    requires
        0 <= j < s.len(),
        s[j].category@ == k.0,
        s[j].identity@ == k.1,
        forall|l: int|
            j < l < s.len() ==> ((#[trigger] s[l]).category@ != k.0 || s[l].identity@ != k.1),
    ensures
        entries_map(s).contains_key(k),
        entries_map(s)[k] == (s[j].position, s[j].value),
    decreases s.len(),
{
    assert(k =~= (k.0, k.1));
    if j == s.len() - 1 {
        assert(entries_map(s) == entries_map(s.drop_last()).insert(
            (s.last().category@, s.last().identity@),
            (s.last().position, s.last().value),
        ));
    } else {
        assert(s.drop_last()[j] == s[j]);
        lemma_entries_map_found(s.drop_last(), k, j);
        assert(s.last().category@ != k.0 || s.last().identity@ != k.1);
        assert((s.last().category@, s.last().identity@) != k);
    }
}

proof fn lemma_entries_map_absent<T>(s: Seq<CacheEntry<T>>, k: (Seq<char>, Seq<char>))
    requires
        forall|l: int|
            0 <= l < s.len() ==> ((#[trigger] s[l]).category@ != k.0 || s[l].identity@ != k.1),
    ensures
        !entries_map(s).contains_key(k),
    decreases s.len(),
{
    assert(k =~= (k.0, k.1));
    if s.len() > 0 {
        assert(forall|l: int|
            0 <= l < s.len() - 1 ==> ((#[trigger] s.drop_last()[l]).category@ != k.0
                || s.drop_last()[l].identity@ != k.1)) by {
            assert(forall|l: int| 0 <= l < s.len() - 1 ==> s.drop_last()[l] == #[trigger] s[l]);
        }
        lemma_entries_map_absent(s.drop_last(), k);
        assert((s.last().category@, s.last().identity@) != k);
    }
}

/// An in-memory cache: one growing list of writes, later writes winning.
pub struct InMemoryCache<T> {
    entries: Vec<CacheEntry<T>>,
}

impl<T> InMemoryCache<T> {
    /// An empty cache.
    pub fn new() -> (r: InMemoryCache<T>)
        ensures
            r.cache_spec() == Map::<(Seq<char>, Seq<char>), (i64, T)>::empty(),
    {
        let r = InMemoryCache { entries: Vec::new() };
        proof {
            assert(r.entries@ =~= Seq::<CacheEntry<T>>::empty());
        }
        r
    }

    /// Looks a pair up: a hit exactly when the memo holds the key, and the
    /// hit is the pair most recently memoized under it. (The `EntityCache`
    /// trait leaves misses free so substitutes such as `DontCache` can
    /// drop entries; this cache never does.)
    pub fn lookup(&self, category: &str, identity: &str) -> (r: Option<(i64, &T)>)
        ensures
            match r {
                Some(p) => self.cache_spec().contains_key((category@, identity@))
                    && self.cache_spec()[(category@, identity@)] == (p.0, *p.1),
                None => !self.cache_spec().contains_key((category@, identity@)),
            },
    {
        let ghost k = (category@, identity@);
        let mut i: usize = self.entries.len();
        while i > 0
            invariant
                0 <= i <= self.entries@.len(),
                k == (category@, identity@),
                forall|l: int|
                    i <= l < self.entries@.len() ==> ((#[trigger] self.entries@[l]).category@
                        != k.0 || self.entries@[l].identity@ != k.1),
            decreases i,
        {
            i -= 1;
            let e = &self.entries[i];
            if text::str_eq(e.category.as_str(), category) && text::str_eq(
                e.identity.as_str(),
                identity,
            ) {
                proof {
                    lemma_entries_map_found(self.entries@, k, i as int);
                }
                return Some((e.position, &e.value));
            }
        }
        proof {
            lemma_entries_map_absent(self.entries@, k);
        }
        None
    }

    /// Memoizes a pair: the memo afterwards holds exactly the old entries
    /// with this key now bound to the pair.
    pub fn save(&mut self, category: &str, identity: &str, position: i64, value: T)
        ensures
            final(self).cache_spec() == old(self).cache_spec().insert(
                (category@, identity@),
                (position, value),
            ),
    {
        let entry = CacheEntry {
            category: category.to_owned(),
            identity: identity.to_owned(),
            position,
            value,
        };
        let ghost oldseq = self.entries@;
        self.entries.push(entry);
        proof {
            assert(self.entries@.drop_last() =~= oldseq);
        }
    }
}

impl<T> EntityCache<T> for InMemoryCache<T> {
    closed spec fn cache_spec(&self) -> Map<(Seq<char>, Seq<char>), (i64, T)> {
        entries_map(self.entries@)
    }

    fn get_from_cache(&self, category: &str, identity: &str) -> (r: Option<(i64, &T)>) {
        self.lookup(category, identity)
    }

    fn set_in_cache(&mut self, category: &str, identity: &str, position: i64, value: T) {
        self.save(category, identity, position, value);
    }
}

/// Reconstructs an entity's current state. The projector is seeded from
/// the cache when it holds a snapshot, else from the initial state; every
/// record of the identifier stream after the seed position is replayed in
/// batches of the store's batch size; the result is memoized and returned.
///
/// The returned entity is the fold of the whole identifier stream over the
/// initial state: it depends neither on the cache (an always-miss cache
/// gives the same entity) nor on the batch size (a second page round-trip
/// at an exact batch boundary reads no further records and ends in the
/// same state as one large read).
///
/// A read failure would abort reconstruction with the cache untouched; the
/// in-memory store's reads do not fail.
pub fn fetch<T: EntityStoreEntity, C: EntityCache<T>>(
    store: &MessageStore,
    cache: &mut C,
    category: &str,
    identity: &str,
) -> (r: Result<T, Error>)
    requires
        store.wf(),
        cache_ok::<T>(old(cache).cache_spec(), store.records()),
    ensures
        cache_ok::<T>(final(cache).cache_spec(), store.records()),
        (r matches Ok(e) && e == folded::<T>(
            T::initial_spec(),
            matching(store.records(), render_key(ident_key(category@, identity@))),
        )),
        forall|k2: (Seq<char>, Seq<char>)|
            k2 != (category@, identity@) ==> (#[trigger] final(cache).cache_spec().contains_key(k2)
                == old(cache).cache_spec().contains_key(k2)) && (old(cache).cache_spec().contains_key(
                k2,
            ) ==> final(cache).cache_spec()[k2] == old(cache).cache_spec()[k2]),
        final(cache).cache_spec().contains_key((category@, identity@)) ==> final(cache).cache_spec()[
            (category@, identity@)
        ] == ({
            let ms = matching(store.records(), render_key(ident_key(category@, identity@)));
            ((ms.len() - 1) as i64, folded::<T>(T::initial_spec(), ms))
        }),
{
    let stream = StreamName::identified(category, identity);
    let ghost t = render_key(ident_key(category@, identity@));
    let ghost ms = matching(store.records(), t);
    proof {
        crate::message_store::lemma_matching_len(store.records(), t);
        crate::message_store::lemma_matching_positions(store.records(), t);
    }
    let batch: u64 = store.read_batch_size();
    let mut position: i64 = -1;
    let mut builder = T::get_projector();
    match cache.get_from_cache(category, identity) {
        Some((p, e)) => {
            position = p;
            builder.initialize(e);
            proof {
                assert(cache.cache_spec().contains_key((category@, identity@)));
            }
        },
        None => {
            proof {
                assert(ms.take(position + 1) =~= Seq::<MessageData>::empty());
            }
        },
    }
    loop
        invariant
            store.wf(),
            cache.cache_spec() == old(cache).cache_spec(),
            t == render_key(ident_key(category@, identity@)),
            stream.key() == ident_key(category@, identity@),
            ms == matching(store.records(), t),
            ms.len() <= store.records().len(),
            store.records().len() <= 0x7fff_ffff_ffff_ffff,
            forall|j: int| 0 <= j < ms.len() ==> (#[trigger] ms[j]).position == Some(j as i64),
            batch as int == crate::message_store::effective_batch(store.settings_view()),
            -1 <= position as int,
            position + 1 <= ms.len(),
            builder.entity_spec() == folded::<T>(T::initial_spec(), ms.take(position + 1)),
        ensures
            cache.cache_spec() == old(cache).cache_spec(),
            position as int == ms.len() - 1,
            builder.entity_spec() == folded::<T>(T::initial_spec(), ms),
        decreases ms.len() - position,
    {
        let ghost start = position as int + 1;
        let messages = match store.get(&stream, Some(position)) {
            Ok(msgs) => msgs,
            Err(e) => {
                proof {
                    assert(false);
                }
                return Err(e);
            },
        };
        let n = messages.len();
        let ghost end = if start + batch as int <= ms.len() {
            start + batch as int
        } else {
            ms.len() as int
        };
        proof {
            assert(messages@ =~= ms.subrange(start, end));
        }
        let mut kk: usize = 0;
        while kk < n
            invariant
                n == messages@.len(),
                messages@ == ms.subrange(start, end),
                0 <= start,
                start <= end,
                end <= ms.len(),
                forall|j: int| 0 <= j < ms.len() ==> (#[trigger] ms[j]).position == Some(j as i64),
                ms.len() <= 0x7fff_ffff_ffff_ffff,
                0 <= kk <= n,
                builder.entity_spec() == folded::<T>(T::initial_spec(), ms.take(start + kk)),
                position as int == start + kk - 1,
            decreases n - kk,
        {
            let m = clone_record(&messages[kk]);
            proof {
                assert(messages@[kk as int] == ms[start + kk]);
                assert(ms[start + kk].position == Some((start + kk) as i64));
                let tk = ms.take(start + kk + 1);
                assert(tk.drop_last() =~= ms.take(start + kk));
                assert(tk.last() == ms[start + kk]);
            }
            match m.position {
                Some(p) => {
                    position = p;
                },
                None => {
                    proof {
                        assert(false);
                    }
                },
            }
            builder.apply(m);
            kk += 1;
        }
        if (n as u64) < batch {
            proof {
                assert(end == ms.len());
                assert(ms.take(position + 1) =~= ms);
            }
            break ;
        }
    }
    let entity = builder.entity();
    let memo = builder.entity();
    let ghost pre_set = cache.cache_spec();
    cache.set_in_cache(category, identity, position, memo);
    proof {
        assert(ms.take(position as int + 1) =~= ms);
        assert forall|k2: (Seq<char>, Seq<char>)| #[trigger]
            cache.cache_spec().contains_key(k2) implies ({
            let pe = cache.cache_spec()[k2];
            let ms2 = matching(store.records(), render_key(ident_key(k2.0, k2.1)));
            -1 <= pe.0 && pe.0 + 1 <= ms2.len() && pe.1 == folded::<T>(
                T::initial_spec(),
                ms2.take(pe.0 + 1),
            )
        }) by {
            if k2 == (category@, identity@) {
                assert(cache.cache_spec()[k2] == (position, memo));
            } else {
                assert(pre_set.contains_key(k2));
                assert(cache.cache_spec()[k2] == pre_set[k2]);
            }
        }
    }
    Ok(entity)
}

/// As `fetch`, but telling "never existed" from "exists with initial
/// state": the result is nothing exactly when the identifier stream has
/// never held a record. The reconstruction is memoized either way: on a
/// stream that never existed the cache holds the valid empty snapshot,
/// as the contract's cache clauses state.
pub fn get<T: EntityStoreEntity, C: EntityCache<T>>(
    store: &MessageStore,
    cache: &mut C,
    category: &str,
    identity: &str,
) -> (r: Result<Option<T>, Error>)
    requires
        store.wf(),
        cache_ok::<T>(old(cache).cache_spec(), store.records()),
    ensures
        cache_ok::<T>(final(cache).cache_spec(), store.records()),
        (r matches Ok(res) && ({
            let ms = matching(store.records(), render_key(ident_key(category@, identity@)));
            match res {
                Some(e) => ms.len() > 0 && e == folded::<T>(T::initial_spec(), ms),
                None => ms.len() == 0,
            }
        })),
        forall|k2: (Seq<char>, Seq<char>)|
            k2 != (category@, identity@) ==> (#[trigger] final(cache).cache_spec().contains_key(k2)
                == old(cache).cache_spec().contains_key(k2)) && (old(cache).cache_spec().contains_key(
                k2,
            ) ==> final(cache).cache_spec()[k2] == old(cache).cache_spec()[k2]),
        final(cache).cache_spec().contains_key((category@, identity@)) ==> final(cache).cache_spec()[
            (category@, identity@)
        ] == ({
            let ms = matching(store.records(), render_key(ident_key(category@, identity@)));
            ((ms.len() - 1) as i64, folded::<T>(T::initial_spec(), ms))
        }),
{
    let entity = match fetch::<T, C>(store, cache, category, identity) {
        Ok(e) => e,
        Err(e) => {
            proof {
                assert(false);
            }
            return Err(e);
        },
    };
    let stream = StreamName::identified(category, identity);
    match store.get_last(&stream) {
        Ok(Some(_)) => Ok(Some(entity)),
        Ok(None) => Ok(None),
        Err(e) => {
            proof {
                assert(false);
            }
            Err(e)
        },
    }
}

/// Every cache entry is a true snapshot of its identifier stream: its
/// position never leads the stream (lagging is safe: the delta is
/// replayed), and its entity is the fold of the stream's prefix up to and
/// including that position.
pub open spec fn cache_ok<T: EntityStoreEntity>(
    cache: Map<(Seq<char>, Seq<char>), (i64, T)>,
    log: Seq<MessageData>,
) -> bool {
    forall|k: (Seq<char>, Seq<char>)| #[trigger]
        cache.contains_key(k) ==> ({
            let pe = cache[k];
            let ms = matching(log, render_key(ident_key(k.0, k.1)));
            -1 <= pe.0 && pe.0 + 1 <= ms.len() && pe.1 == folded::<T>(
                T::initial_spec(),
                ms.take(pe.0 + 1),
            )
        })
}

/// Appending a record never invalidates a cache: a snapshot of a prefix
/// stays a snapshot of the longer stream.
pub proof fn lemma_cache_ok_append<T: EntityStoreEntity>(
    cache: Map<(Seq<char>, Seq<char>), (i64, T)>,
    log: Seq<MessageData>,
    m: MessageData,
)
    requires
        cache_ok::<T>(cache, log),
    ensures
        cache_ok::<T>(cache, log.push(m)),
{
    assert forall|k: (Seq<char>, Seq<char>)| #[trigger] cache.contains_key(k) implies ({
        let pe = cache[k];
        let ms = matching(log.push(m), render_key(ident_key(k.0, k.1)));
        -1 <= pe.0 && pe.0 + 1 <= ms.len() && pe.1 == folded::<T>(
            T::initial_spec(),
            ms.take(pe.0 + 1),
        )
    }) by {
        let t = render_key(ident_key(k.0, k.1));
        crate::message_store::lemma_matching_push(log, t, m);
        let pe = cache[k];
        let pre = matching(log, t);
        let ms = matching(log.push(m), t);
        if crate::message_store::in_stream(m, t) {
            assert(ms.take(pe.0 + 1) =~= pre.take(pe.0 + 1));
        }
    }
}

} // verus!
