//! A handler context: one category, a store, and a memoizing entity
//! cache, bundled so that the cache invariant is kept internally.
use crate::entity_store;
use crate::entity_store::{cache_ok, folded, EntityCache, EntityStoreEntity, InMemoryCache};
use crate::error::Error;
use crate::message_store::{matching, MessageData, MessageStore};
use crate::messaging::message::{Message, MessageType};
use crate::stream_name::{ident_key, render_key, StreamName};
use vstd::prelude::*;

verus! {

/// Settings of a handler context.
pub struct Settings {}

impl Default for Settings {
    /// There is nothing to configure yet.
    fn default() -> (r: Settings)
        ensures
            r == (Settings {  }),
    {
        Settings {  }
    }
}

/// Consuming through a handler context; users implement it.
pub trait Consumer {
    fn start(&mut self, settings: Settings);

    fn handle<M>(&mut self, message: M) -> Result<(), Error>;
}

/// One category's handler context: a store and a read-through entity
/// cache whose entries this context keeps valid.
pub struct Handler<T: EntityStoreEntity> {
    category: String,
    store: MessageStore,
    settings: Settings,
    cache: InMemoryCache<T>,
}

impl<T: EntityStoreEntity> Handler<T> {
    /// The store contents.
    pub closed spec fn records(self) -> Seq<MessageData> {
        self.store.records()
    }

    /// The category text.
    pub closed spec fn category_view(self) -> Seq<char> {
        self.category@
    }

    /// The handler invariant: the store's invariant, and every cache entry
    /// a true snapshot.
    pub closed spec fn wf(self) -> bool {
        self.store.wf() && cache_ok::<T>(self.cache.cache_spec(), self.store.records())
    }

    /// A fresh context over an empty store.
    pub fn build(category: String) -> (r: Handler<T>)
        ensures
            r.wf(),
            r.records() == Seq::<MessageData>::empty(),
            r.category_view() == category@,
    {
        Handler {
            category,
            store: MessageStore::build(),
            settings: Settings::default(),
            cache: InMemoryCache::new(),
        }
    }

    /// Reconstructs the entity with the given identity under this
    /// context's category: the fold of its identifier stream.
    pub fn fetch(&mut self, identity: &str) -> (r: Result<T, Error>)
        requires
            old(self).wf(),
        ensures
            final(self).wf(),
            final(self).records() == old(self).records(),
            final(self).category_view() == old(self).category_view(),
            (r matches Ok(e) && e == folded::<T>(
                T::initial_spec(),
                matching(
                    old(self).records(),
                    render_key(ident_key(old(self).category_view(), identity@)),
                ),
            )),
    {
        entity_store::fetch::<T, InMemoryCache<T>>(
            &self.store,
            &mut self.cache,
            self.category.as_str(),
            identity,
        )
    }

    /// As `fetch`, but telling "never existed" from "exists with initial
    /// state".
    pub fn get(&mut self, identity: &str) -> (r: Result<Option<T>, Error>)
        requires
            old(self).wf(),
        ensures
            final(self).wf(),
            final(self).records() == old(self).records(),
            final(self).category_view() == old(self).category_view(),
            (r matches Ok(res) && ({
                let ms = matching(
                    old(self).records(),
                    render_key(ident_key(old(self).category_view(), identity@)),
                );
                match res {
                    Some(e) => ms.len() > 0 && e == folded::<T>(T::initial_spec(), ms),
                    None => ms.len() == 0,
                }
            })),
    {
        entity_store::get::<T, InMemoryCache<T>>(
            &self.store,
            &mut self.cache,
            self.category.as_str(),
            identity,
        )
    }

    /// Appends a message to a stream of this context's store with no
    /// concurrency precondition; the memoized snapshots stay valid.
    pub fn write<M: MessageType>(&mut self, message: &Message<M>, stream_name: &StreamName) -> (r:
        Result<(), Error>)
        requires
            old(self).wf(),
        ensures
            final(self).wf(),
            final(self).category_view() == old(self).category_view(),
            match r {
                Ok(()) => crate::write_message::message_written(
                    old(self).records(),
                    final(self).records(),
                    render_key(stream_name.key()),
                    *message,
                ),
                Err(e) => final(self).records() == old(self).records() && (e matches Error::Store(_)
                    && old(self).records().len() >= 0x7fff_ffff_ffff_ffff),
            },
    {
        let ghost oldlog = self.store.records();
        let r = self.store.write(message, stream_name);
        proof {
            if r is Ok {
                let newlog = self.store.records();
                assert(newlog =~= oldlog.push(newlog.last()));
                entity_store::lemma_cache_ok_append::<T>(
                    self.cache.cache_spec(),
                    oldlog,
                    newlog.last(),
                );
            }
        }
        r
    }

    /// Appends a message that expects the stream's last position to equal
    /// `expected_version`.
    pub fn write_position<M: MessageType>(
        &mut self,
        message: &Message<M>,
        stream_name: &StreamName,
        expected_version: i64,
    ) -> (r: Result<(), Error>)
        requires
            old(self).wf(),
        ensures
            final(self).wf(),
            final(self).category_view() == old(self).category_view(),
            ({
                let t = render_key(stream_name.key());
                let cur = crate::message_store::stream_version(old(self).records(), t);
                match r {
                    Ok(()) => expected_version == cur && crate::write_message::message_written(
                        old(self).records(),
                        final(self).records(),
                        t,
                        *message,
                    ),
                    Err(e) => final(self).records() == old(self).records() && (match e {
                        Error::ExpectedVersion(msg) => expected_version != cur && msg@
                            == crate::message_store::conflict_message(expected_version as int, t, cur),
                        Error::Store(_) => expected_version == cur && old(self).records().len()
                            >= 0x7fff_ffff_ffff_ffff,
                        _ => false,
                    }),
                }
            }),
    {
        let ghost oldlog = self.store.records();
        let r = self.store.write_position(message, stream_name, expected_version);
        proof {
            if r is Ok {
                let newlog = self.store.records();
                assert(newlog =~= oldlog.push(newlog.last()));
                entity_store::lemma_cache_ok_append::<T>(
                    self.cache.cache_spec(),
                    oldlog,
                    newlog.last(),
                );
            }
        }
        r
    }

    /// Appends a message that expects the stream not to exist yet.
    pub fn initial<M: MessageType>(&mut self, message: &Message<M>, stream_name: &StreamName) -> (r:
        Result<(), Error>)
        requires
            old(self).wf(),
        ensures
            final(self).wf(),
            final(self).category_view() == old(self).category_view(),
            ({
                let t = render_key(stream_name.key());
                let cur = crate::message_store::stream_version(old(self).records(), t);
                match r {
                    Ok(()) => cur == -1 && crate::write_message::message_written(
                        old(self).records(),
                        final(self).records(),
                        t,
                        *message,
                    ),
                    Err(e) => final(self).records() == old(self).records() && (match e {
                        Error::ExpectedVersion(msg) => cur != -1 && msg@
                            == crate::message_store::conflict_message(-1, t, cur),
                        Error::Store(_) => cur == -1 && old(self).records().len()
                            >= 0x7fff_ffff_ffff_ffff,
                        _ => false,
                    }),
                }
            }),
    {
        let ghost oldlog = self.store.records();
        let r = self.store.write_initial(message, stream_name);
        proof {
            if r is Ok {
                let newlog = self.store.records();
                assert(newlog =~= oldlog.push(newlog.last()));
                entity_store::lemma_cache_ok_append::<T>(
                    self.cache.cache_spec(),
                    oldlog,
                    newlog.last(),
                );
            }
        }
        r
    }
}

} // verus!
