//! The polling consumer: reads a category in global order, dispatches
//! each record to a handler, records its own progress, backs off when
//! idle, and stops cooperatively on an external signal.
//!
//! One consumer owns one polling loop; the only state shared across
//! execution contexts is the stop flag, held for the length of one read or
//! write of a boolean and never across store work. Several consumers may
//! run against the same category; this engine does not coordinate
//! ordering across them.
use crate::error::Error;
use crate::message_store::{
    cat_matching, effective_batch, in_category, in_stream, matching, page_cat, page_ident,
    MessageData, MessageStore, clone_record,
};
use crate::position_store;
use crate::position_store::{last_position_spec, position_appended, position_key};
use crate::stream_name::{render_key, SnKey, StreamName};
use vstd::prelude::*;

verus! {

/// The settings of a consumer.
pub struct Settings {
    /// How many records one poll reads at most; it overrides the store's
    /// batch size when set.
    pub batch_size: Option<i64>,
    /// Passed through to an outside store's read filtering; the in-memory
    /// store does not interpret them.
    pub correlation: Option<String>,
    pub group_member: Option<i64>,
    pub group_size: Option<i64>,
    pub condition: Option<String>,
    /// The idle backoff, for backoff implementations that read it.
    pub poll_interval_milliseconds: Option<u64>,
    /// How many non-empty batches lie between two position writes; every
    /// batch when unset or not positive.
    pub position_update_interval: Option<i64>,
    /// The consumer's identity: progress is recorded per identity.
    pub identifier: Option<String>,
}

impl Default for Settings {
    /// All options unset.
    fn default() -> (r: Settings)
        ensures
            r.batch_size is None,
            r.correlation is None,
            r.group_member is None,
            r.group_size is None,
            r.condition is None,
            r.poll_interval_milliseconds is None,
            r.position_update_interval is None,
            r.identifier is None,
    {
        Settings {
            batch_size: None,
            correlation: None,
            group_member: None,
            group_size: None,
            condition: None,
            poll_interval_milliseconds: None,
            position_update_interval: None,
            identifier: None,
        }
    }
}

/// The throttling policy between polls; users may substitute their own.
/// `wait` is called after every poll with the number of records the poll
/// processed; an implementation typically sleeps when that is zero and
/// returns at once otherwise.
pub trait BackOff {
    fn wait(&mut self, messages_processed: u64);
}

/// The flag shared between a running consumer and its stop handles.
/// It relies on `std::sync::Arc` and `std::sync::Mutex`; Verus does not
/// read it, so nothing is promised of its reads: another execution
/// context may change the flag at any time.
#[verifier::external_body]
pub struct StopFlag {
    flag: std::sync::Arc<std::sync::Mutex<bool>>,
}

impl StopFlag {
    /// Relies on `Arc::new` and `Mutex::new`: a fresh flag, initially
    /// telling the loop to continue.
    #[verifier::external_body]
    fn new() -> StopFlag {
        StopFlag { flag: std::sync::Arc::new(std::sync::Mutex::new(true)) }
    }

    /// Relies on `Arc::clone`: another handle to the same flag.
    #[verifier::external_body]
    fn handle(&self) -> StopFlag {
        StopFlag { flag: self.flag.clone() }
    }

    /// Relies on `Mutex::lock`: reads the flag. A poisoned lock reads as
    /// "stop". The result depends on other execution contexts, so nothing
    /// is promised of it.
    #[verifier::external_body]
    fn should_continue(&self) -> bool {
        match self.flag.lock() {
            Ok(guard) => *guard,
            Err(_) => false,
        }
    }

    /// Relies on `Mutex::lock` and `PoisonError::get_mut`: sets the flag
    /// to "stop", forcing it even through a poisoned lock, and returns
    /// whether the lock was poisoned. Stopping never fails to take
    /// effect.
    #[verifier::external_body]
    fn request_stop(&self) -> bool {
        match self.flag.lock() {
            Ok(mut guard) => {
                *guard = false;
                false
            },
            Err(mut poisoned) => {
                **poisoned.get_mut() = false;
                true
            },
        }
    }
}

/// Stops a running consumer.
pub trait Stopper {
    fn stop(&mut self) -> Result<(), Error>;
}

/// A stop handle; it may be invoked from another execution context than
/// the loop it stops.
pub struct ConsumerStopper {
    should_continue: StopFlag,
}

impl Stopper for ConsumerStopper {
    /// Sets the shared flag to "stop". The loop observes the flag before
    /// every read and again after every backoff wait, so it exits without
    /// issuing another read; an in-flight batch is never interrupted. A
    /// poisoned flag lock is forced anyway and reported as the
    /// warning-class `Error::ConsumerError`.
    fn stop(&mut self) -> (r: Result<(), Error>)
        ensures
            r matches Err(e) ==> e == Error::ConsumerError,
    {
        if self.should_continue.request_stop() {
            Err(Error::ConsumerError)
        } else {
            Ok(())
        }
    }
}

/// Handles consumed records; users implement it. `handles` names the type
/// tags the handler takes: records of other tags are skipped, never
/// errors. An error from `handle` aborts the batch.
pub trait Handler {
    fn handles(&self, message_type: &String) -> bool;

    fn handle(&mut self, message: MessageData) -> Result<(), Error>;
}

/// The page one poll reads: the records of the category after the given
/// position, at most one batch of them. (A consumer pointed at an
/// identifier stream reads that single stream by per-stream position.)
pub open spec fn poll_page(log: Seq<MessageData>, cat: SnKey, after: int, batch: int) -> Seq<
    MessageData,
> {
    if cat.id is None {
        page_cat(cat_matching(log, render_key(cat)), after, batch)
    } else {
        page_ident(matching(log, render_key(cat)), after, batch)
    }
}

/// Whether `newlog` extends `oldlog` with nothing but consumer position
/// records on the derived stream under key `k`: the log the consumer read
/// is kept whole, and the only records it ever adds are its own progress.
pub open spec fn only_positions_appended(
    oldlog: Seq<MessageData>,
    newlog: Seq<MessageData>,
    k: SnKey,
) -> bool {
    oldlog.len() <= newlog.len() && newlog.take(oldlog.len() as int) == oldlog && (forall|j: int|
        oldlog.len() <= j < newlog.len() ==> in_stream(#[trigger] newlog[j], render_key(k))
            && newlog[j].message_type@ == "Position"@)
}

/// Appending only position records composes.
pub proof fn lemma_only_positions_trans(
    a: Seq<MessageData>,
    b: Seq<MessageData>,
    c: Seq<MessageData>,
    k: SnKey,
)
    requires
        only_positions_appended(a, b, k),
        only_positions_appended(b, c, k),
    ensures
        only_positions_appended(a, c, k),
{
    assert forall|i: int| 0 <= i < a.len() implies c.take(a.len() as int)[i] == #[trigger] a[i] by {
        assert(c.take(b.len() as int)[i] == c[i]);
        assert(b.take(a.len() as int)[i] == b[i]);
    }
    assert(c.take(a.len() as int) =~= a);
    assert forall|j: int|
        a.len() <= j < c.len() implies in_stream(#[trigger] c[j], render_key(k)) && c[j].message_type@
        == "Position"@ by {
        if j < b.len() {
            assert(c.take(b.len() as int)[j] == c[j]);
            assert(b[j] == c[j]);
        }
    }
}

/// The positions a consumer can legitimately hold over `log`: nothing
/// processed yet, the position recorded on its derived stream, or the
/// global position of a record of its category.
pub open spec fn plausible_position(
    log: Seq<MessageData>,
    cat: SnKey,
    consumer: Option<Seq<char>>,
    p: i64,
) -> bool {
    p == -1 || last_position_spec(log, position_key(cat, consumer)) == Some(p) || (exists|j: int|
        0 <= j < log.len() && (#[trigger] log[j]).global_position == Some(p) && in_category(
            log[j],
            render_key(cat),
        ))
}

/// The polling consumer. It owns its store and handler; the stop flag is
/// the only state it shares with other execution contexts.
pub struct Consumer<B: BackOff, H: Handler> {
    category: StreamName,
    settings: Settings,
    store: MessageStore,
    current_position: i64,
    batches_since_update: i64,
    back_off: B,
    handler: H,
    should_continue: StopFlag,
}

impl<B: BackOff, H: Handler> Consumer<B, H> {
    /// The consumer's store contents.
    pub closed spec fn records(self) -> Seq<MessageData> {
        self.store.records()
    }

    /// The consumer's category key.
    pub closed spec fn category_view(self) -> SnKey {
        self.category.key()
    }

    /// The consumer's identity, under which progress is recorded.
    pub closed spec fn identifier_view(self) -> Option<Seq<char>> {
        match self.settings.identifier {
            Some(s) => Some(s@),
            None => None,
        }
    }

    /// The position of the last record the consumer has processed; -1
    /// before anything was processed.
    pub closed spec fn position_view(self) -> i64 {
        self.current_position
    }

    /// How many records one poll reads at most.
    pub closed spec fn batch(self) -> int {
        effective_batch(self.store.settings_view())
    }

    /// How many non-empty batches lie between two position writes.
    pub closed spec fn interval_view(self) -> int {
        match self.settings.position_update_interval {
            Some(v) => if v >= 1 {
                v as int
            } else {
                1
            },
            None => 1,
        }
    }

    /// Non-empty batches processed since the last position write.
    pub closed spec fn batches_since(self) -> int {
        self.batches_since_update as int
    }

    /// The consumer invariant: its store's invariant, and the position
    /// write counter within its interval.
    pub closed spec fn wf(self) -> bool {
        self.store.wf() && 0 <= self.batches_since() < self.interval_view()
    }

    /// A consumer over a category, owning a store, a backoff policy and a
    /// handler. It starts at position -1, "nothing processed yet", so a
    /// cold start with no recorded position delivers the very first
    /// record; `start` loads any recorded position before polling. A
    /// batch size in the settings overrides the store's.
    pub fn new(category: StreamName, store: MessageStore, settings: Settings, back_off: B, handler: H) -> (r: Consumer<B, H>)
        requires
            store.wf(),
        ensures
            r.wf(),
            r.records() == store.records(),
            r.category_view() == category.key(),
            r.position_view() == -1i64,
            r.batches_since() == 0,
            (match settings.identifier {
                Some(s) => r.identifier_view() == Some(s@),
                None => r.identifier_view() is None,
            }),
            (match settings.batch_size {
                Some(b) => r.batch() == (if b >= 1 {
                    b as int
                } else {
                    1000
                }),
                None => r.batch() == effective_batch(store.settings_view()),
            }),
    {
        let mut store = store;
        match settings.batch_size {
            Some(b) => {
                store.set_batch_size(Some(b));
            },
            None => {},
        }
        Consumer {
            category,
            settings,
            store,
            current_position: -1,
            batches_since_update: 0,
            back_off,
            handler,
            should_continue: StopFlag::new(),
        }
    }

    /// The category this consumer reads.
    pub fn get_category(&self) -> (r: String)
        ensures
            r@ == render_key(self.category_view()),
    {
        self.category.render()
    }

    /// A handle that stops this consumer from any execution context.
    pub fn stopper(&self) -> ConsumerStopper {
        ConsumerStopper { should_continue: self.should_continue.handle() }
    }

    /// Dissolves the consumer, handing its store back (another consumer
    /// may resume from the progress recorded in it).
    pub fn into_store(self) -> (r: MessageStore)
        ensures
            r.records() == self.records(),
            self.wf() ==> r.wf(),
    {
        self.store
    }

    /// Loads the consumer's recorded position: the value of the last
    /// record on its derived position stream, or -1 when none was ever
    /// recorded. Fails only when the category name is malformed (it
    /// carries an identifier).
    pub fn load_position(&mut self) -> (r: Result<(), Error>)
        requires
            old(self).wf(),
        ensures
            final(self).wf(),
            final(self).records() == old(self).records(),
            final(self).category_view() == old(self).category_view(),
            final(self).identifier_view() == old(self).identifier_view(),
            final(self).batch() == old(self).batch(),
            final(self).interval_view() == old(self).interval_view(),
            final(self).batches_since() == old(self).batches_since(),
            match r {
                Ok(()) => old(self).category_view().id is None && final(self).position_view() == (
                match last_position_spec(
                    old(self).records(),
                    position_key(old(self).category_view(), old(self).identifier_view()),
                ) {
                    Some(p) => p,
                    None => -1i64,
                }),
                Err(e) => e == Error::StreamName && !(old(self).category_view().id is None)
                    && final(self).position_view() == old(self).position_view(),
            },
    {
        let last = match position_store::get_last(
            &self.store,
            &self.category,
            self.settings.identifier.as_ref(),
        ) {
            Ok(last) => last,
            Err(e) => {
                return Err(e);
            },
        };
        match last {
            Some(p) => {
                self.current_position = p;
            },
            None => {
                self.current_position = -1;
            },
        }
        Ok(())
    }

    /// Reads one batch of the category after the current position and
    /// dispatches each record to the handler (records of tags the handler
    /// does not take are skipped). When the batch was non-empty and all
    /// records were handled, the current position advances to the last
    /// record's global position, and — every `position_update_interval`
    /// non-empty batches — the new position is recorded on the derived
    /// position stream. A handler or store error aborts the poll with the
    /// position not advanced, so the batch is redelivered after a
    /// restart: at-least-once delivery, never silently skipped work.
    pub fn poll(&mut self) -> (r: Result<u64, Error>)
        requires
            old(self).wf(),
        ensures
            final(self).wf(),
            final(self).category_view() == old(self).category_view(),
            final(self).identifier_view() == old(self).identifier_view(),
            final(self).batch() == old(self).batch(),
            final(self).interval_view() == old(self).interval_view(),
            ({
                let page = poll_page(
                    old(self).records(),
                    old(self).category_view(),
                    old(self).position_view() as int,
                    old(self).batch(),
                );
                page.len() == 0 ==> r == Ok::<u64, Error>(0)
            }),
            (r matches Ok(n) && n > 0 ==> exists|j: int|
                0 <= j < old(self).records().len() && (#[trigger] old(self).records()[j]).global_position
                    == Some(final(self).position_view()) && in_category(
                    old(self).records()[j],
                    render_key(old(self).category_view()),
                )),
            (r matches Ok(n) && n > 0 ==> final(self).position_view() > old(self).position_view()),
            ({
                let page = poll_page(
                    old(self).records(),
                    old(self).category_view(),
                    old(self).position_view() as int,
                    old(self).batch(),
                );
                match r {
                    Ok(n) => n as int == page.len() && (n == 0 ==> final(self).records() == old(self).records()
                        && final(self).position_view() == old(self).position_view()
                        && final(self).batches_since() == old(self).batches_since()) && (n > 0 ==> (
                    final(self).position_view() == page.last().global_position.unwrap() && (if old(self).batches_since()
                        + 1 >= old(self).interval_view() {
                        final(self).batches_since() == 0 && position_appended(
                            old(self).records(),
                            final(self).records(),
                            position_key(old(self).category_view(), old(self).identifier_view()),
                            final(self).position_view(),
                        )
                    } else {
                        final(self).batches_since() == old(self).batches_since() + 1 && final(self).records()
                            == old(self).records()
                    }))),
                    Err(_) => final(self).records() == old(self).records() && final(self).position_view()
                        == old(self).position_view(),
                }
            }),
    {
        let ghost oldlog = self.store.records();
        let ghost page = poll_page(
            self.store.records(),
            self.category.key(),
            self.current_position as int,
            effective_batch(self.store.settings_view()),
        );
        let messages = match self.store.get(&self.category, Some(self.current_position)) {
            Ok(m) => m,
            Err(e) => {
                proof {
                    assert(false);
                }
                return Err(e);
            },
        };
        proof {
            assert(messages@ == page);
        }
        let n = messages.len();
        if n == 0 {
            return Ok(0);
        }
        proof {
            let t = render_key(self.category.key());
            let log = self.store.records();
            let aft = self.current_position as int;
            if self.category.key().id is None {
                crate::message_store::lemma_cat_matching_globals(log, t);
                let cm = cat_matching(log, t);
                crate::message_store::lemma_after_global_elems(cm, aft);
                let f = crate::message_store::after_global(cm, aft);
                assert forall|j: int|
                    0 <= j < page.len() implies (#[trigger] page[j]).global_position is Some by {
                    assert(page[j] == f[j]);
                }
            } else {
                crate::message_store::lemma_matching_globals(log, t);
                let ms = matching(log, t);
                let lo = if aft + 1 >= 0 {
                    aft + 1
                } else {
                    0
                };
                let start = if lo <= ms.len() {
                    lo
                } else {
                    ms.len() as int
                };
                assert forall|j: int|
                    0 <= j < page.len() implies (#[trigger] page[j]).global_position is Some by {
                    assert(page[j] == ms[start + j]);
                }
            }
        }
        let mut last_global: i64 = 0;
        let mut k: usize = 0;
        while k < n
            invariant
                old(self).wf(),
                page == poll_page(
                    old(self).records(),
                    old(self).category_view(),
                    old(self).position_view() as int,
                    old(self).batch(),
                ),
                0 < n == messages@.len(),
                messages@ == page,
                forall|j: int| 0 <= j < page.len() ==> (#[trigger] page[j]).global_position is Some,
                0 <= k <= n,
                k > 0 ==> last_global == page[k - 1].global_position.unwrap(),
                self.store == old(self).store,
                self.category == old(self).category,
                self.settings == old(self).settings,
                self.current_position == old(self).current_position,
                self.batches_since_update == old(self).batches_since_update,
            decreases n - k,
        {
            let m = clone_record(&messages[k]);
            match m.global_position {
                Some(g) => {
                    last_global = g;
                },
                None => {
                    proof {
                        assert(false);
                    }
                },
            }
            let tag = m.message_type.clone();
            if self.handler.handles(&tag) {
                match self.handler.handle(m) {
                    Ok(()) => {},
                    Err(e) => {
                        return Err(e);
                    },
                }
            }
            k += 1;
        }
        proof {
            // The advanced position is the global position of a record of
            // the category, present in the log that was read.
            let t = render_key(old(self).category_view());
            let log = old(self).records();
            let rec = page[n - 1];
            assert(last_global == rec.global_position.unwrap());
            let aft = old(self).position_view() as int;
            if old(self).category_view().id is None {
                let cm = cat_matching(log, t);
                let f = crate::message_store::after_global(cm, aft);
                assert(rec == f[n - 1]);
                crate::message_store::lemma_after_global_members(cm, aft);
                crate::message_store::lemma_after_global_bounds(cm, aft);
                assert(last_global as int > aft);
                let j1 = choose|j: int| 0 <= j < cm.len() && #[trigger] cm[j] == f[n - 1];
                crate::message_store::lemma_cat_matching_members(log, t);
                assert(in_category(cm[j1], t));
                let j2 = choose|j: int| 0 <= j < log.len() && #[trigger] log[j] == cm[j1];
                assert(log[j2].global_position == Some(last_global));
                assert(in_category(log[j2], t));
            } else {
                let ms = matching(log, t);
                let lo = if aft + 1 >= 0 {
                    aft + 1
                } else {
                    0
                };
                let start = if lo <= ms.len() {
                    lo
                } else {
                    ms.len() as int
                };
                assert(rec == ms[start + n - 1]);
                crate::message_store::lemma_matching_members(log, t);
                crate::message_store::lemma_matching_positions(log, t);
                crate::message_store::lemma_matching_global_ge_position(log, t);
                crate::message_store::lemma_matching_len(log, t);
                let jx = start + n - 1;
                assert(0 <= jx < ms.len());
                assert(jx <= 0x7fff_ffff_ffff_ffff);
                assert(ms[jx].position == Some(jx as i64));
                assert(ms[jx].global_position.unwrap() >= ms[jx].position.unwrap());
                assert(start >= aft + 1);
                assert(last_global as int > aft);
                assert(in_stream(ms[start + n - 1], t));
                let j2 = choose|j: int| 0 <= j < log.len() && #[trigger] log[j] == ms[start + n
                    - 1];
                assert(log[j2].global_position == Some(last_global));
                assert(in_category(log[j2], t)) by {
                    assert(crate::message_store::cat_related(t, t));
                }
            }
            assert(exists|j: int|
                0 <= j < log.len() && (#[trigger] log[j]).global_position == Some(last_global)
                    && in_category(log[j], t));
        }
        let interval: i64 = match self.settings.position_update_interval {
            Some(v) => if v >= 1 {
                v
            } else {
                1
            },
            None => 1,
        };
        if self.batches_since_update + 1 >= interval {
            match position_store::update(
                &mut self.store,
                &self.category,
                self.settings.identifier.as_ref(),
                last_global,
            ) {
                Ok(()) => {
                    self.batches_since_update = 0;
                },
                Err(e) => {
                    return Err(e);
                },
            }
        } else {
            self.batches_since_update = self.batches_since_update + 1;
        }
        self.current_position = last_global;
        Ok(n as u64)
    }

    /// Runs the polling loop: loads the recorded position, then, while
    /// the stop flag allows, polls, waits through the backoff policy, and
    /// re-checks the flag. A stop requested during the backoff wait ends
    /// the loop before another read is issued; an in-flight batch always
    /// completes. Returns cleanly when stopped or after `max_polls` polls
    /// (verified code shows its loops terminate, so the fuel is explicit;
    /// a long-running process re-invokes `start` from its own supervision
    /// loop). A store or handler failure ends the loop and surfaces:
    /// restarting is the caller's supervision policy; a malformed category
    /// (one carrying an identifier) is fatal before the first read.
    /// However the loop ends, the log it read is kept whole — the consumer
    /// appends nothing but its own position records — and its position
    /// never falls below the loaded one, holding -1, a recorded position,
    /// or the global position of a record of its category.
    pub fn start(&mut self, max_polls: u64) -> (r: Result<(), Error>)
        requires
            old(self).wf(),
        ensures
            final(self).wf(),
            final(self).category_view() == old(self).category_view(),
            final(self).identifier_view() == old(self).identifier_view(),
            final(self).batch() == old(self).batch(),
            final(self).interval_view() == old(self).interval_view(),
            only_positions_appended(
                old(self).records(),
                final(self).records(),
                position_key(old(self).category_view(), old(self).identifier_view()),
            ),
            !(old(self).category_view().id is None) ==> r == Err::<(), Error>(Error::StreamName)
                && final(self).records() == old(self).records() && final(self).position_view()
                == old(self).position_view(),
            old(self).category_view().id is None ==> plausible_position(
                final(self).records(),
                old(self).category_view(),
                old(self).identifier_view(),
                final(self).position_view(),
            ),
            old(self).category_view().id is None ==> final(self).position_view() as int >= (
            match last_position_spec(
                old(self).records(),
                position_key(old(self).category_view(), old(self).identifier_view()),
            ) {
                Some(p) => p as int,
                None => -1,
            }),
    {
        self.poll_continuously(max_polls)
    }

    fn poll_continuously(&mut self, max_polls: u64) -> (r: Result<(), Error>)
        requires
            old(self).wf(),
        ensures
            final(self).wf(),
            final(self).category_view() == old(self).category_view(),
            final(self).identifier_view() == old(self).identifier_view(),
            final(self).batch() == old(self).batch(),
            final(self).interval_view() == old(self).interval_view(),
            only_positions_appended(
                old(self).records(),
                final(self).records(),
                position_key(old(self).category_view(), old(self).identifier_view()),
            ),
            !(old(self).category_view().id is None) ==> r == Err::<(), Error>(Error::StreamName)
                && final(self).records() == old(self).records() && final(self).position_view()
                == old(self).position_view(),
            old(self).category_view().id is None ==> plausible_position(
                final(self).records(),
                old(self).category_view(),
                old(self).identifier_view(),
                final(self).position_view(),
            ),
            old(self).category_view().id is None ==> final(self).position_view() as int >= (
            match last_position_spec(
                old(self).records(),
                position_key(old(self).category_view(), old(self).identifier_view()),
            ) {
                Some(p) => p as int,
                None => -1,
            }),
    {
        let ghost k = position_key(old(self).category_view(), old(self).identifier_view());
        proof {
            assert(old(self).records().take(old(self).records().len() as int) =~= old(
                self,
            ).records());
        }
        match self.load_position() {
            Ok(()) => {},
            Err(e) => {
                return Err(e);
            },
        }
        let ghost loaded: int = (match last_position_spec(old(self).records(), k) {
            Some(p) => p as int,
            None => -1,
        });
        let mut polls: u64 = 0;
        let mut keep_going = self.should_continue.should_continue();
        while keep_going && polls < max_polls
            invariant
                self.wf(),
                polls <= max_polls,
                k == position_key(old(self).category_view(), old(self).identifier_view()),
                loaded == (match last_position_spec(old(self).records(), k) {
                    Some(p) => p as int,
                    None => -1,
                }),
                self.position_view() as int >= loaded,
                self.category_view() == old(self).category_view(),
                self.identifier_view() == old(self).identifier_view(),
                self.batch() == old(self).batch(),
                self.interval_view() == old(self).interval_view(),
                old(self).category_view().id is None,
                only_positions_appended(old(self).records(), self.records(), k),
                plausible_position(
                    self.records(),
                    old(self).category_view(),
                    old(self).identifier_view(),
                    self.position_view(),
                ),
            decreases max_polls - polls,
        {
            let ghost pre = *self;
            let processed = match self.poll() {
                Ok(n) => n,
                Err(e) => {
                    return Err(e);
                },
            };
            proof {
                assert(pre.records().take(pre.records().len() as int) =~= pre.records());
                if processed > 0 && pre.batches_since() + 1 >= pre.interval_view() {
                    position_store::lemma_position_round_trip(
                        pre.records(),
                        self.records(),
                        k,
                        self.position_view(),
                    );
                }
                assert(only_positions_appended(pre.records(), self.records(), k));
                lemma_only_positions_trans(old(self).records(), pre.records(), self.records(), k);
            }
            self.back_off.wait(processed);
            keep_going = self.should_continue.should_continue();
            polls += 1;
        }
        Ok(())
    }
}

} // verus!
