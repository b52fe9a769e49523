//! The in-memory message store: an append-only log with per-stream
//! positions, a global order, optimistic-concurrency append, and ordered
//! paginated reads.
use crate::error::Error;
use crate::identity::{fresh_id, MessageId};
use crate::stream_name::{render_key, StreamName};
use crate::text;
use vstd::prelude::*;

verus! {

/// The expected version of a stream that must not yet exist.
pub fn initial() -> (r: Option<i64>)
    ensures
        r == Some(-1i64),
{
    Some(-1)
}

/// One immutable record of the log. The store assigns `id` (when absent),
/// `stream_name`, `position`, `global_position` and `time` on append.
/// `data` and `metadata` hold the payload and metadata text; the store
/// treats both as opaque. `time` is the store's logical clock: this
/// in-memory store stamps each record with its global position.
#[derive(Clone)]
pub struct MessageData {
    pub id: Option<MessageId>,
    pub message_type: String,
    pub stream_name: Option<String>,
    pub position: Option<i64>,
    pub global_position: Option<i64>,
    pub data: String,
    pub metadata: String,
    pub time: Option<i64>,
}

impl Default for MessageData {
    /// An empty record: no identity, empty type and payload text.
    fn default() -> (r: MessageData)
        ensures
            r.id is None,
            r.message_type@ == Seq::<char>::empty(),
            r.stream_name is None,
            r.position is None,
            r.global_position is None,
            r.data@ == Seq::<char>::empty(),
            r.metadata@ == Seq::<char>::empty(),
            r.time is None,
    {
        MessageData {
            id: None,
            message_type: String::new(),
            stream_name: None,
            position: None,
            global_position: None,
            data: String::new(),
            metadata: String::new(),
            time: None,
        }
    }
}

/// Copies a record; the copy equals the original.
pub fn clone_record(m: &MessageData) -> (r: MessageData)
    ensures
        r == *m,
{
    let r = MessageData {
        id: m.id,
        message_type: m.message_type.clone(),
        stream_name: match &m.stream_name {
            Some(s) => Some(s.clone()),
            None => None,
        },
        position: m.position,
        global_position: m.global_position,
        data: m.data.clone(),
        metadata: m.metadata.clone(),
        time: m.time,
    };
    r
}

/// Read settings of the store.
pub struct Settings {
    /// How many records one read returns at most; 1000 when absent or not
    /// positive.
    pub batch_size: Option<i64>,
    /// Passed through to an outside store's read filtering; the in-memory
    /// store does not interpret them.
    pub correlation: Option<String>,
    pub group_member: Option<i64>,
    pub group_size: Option<i64>,
    pub condition: Option<String>,
}

impl Default for Settings {
    /// All options unset.
    fn default() -> (r: Settings)
        ensures
            r.batch_size is None,
            r.correlation is None,
            r.group_member is None,
            r.group_size is None,
            r.condition is None,
    {
        Settings {
            batch_size: None,
            correlation: None,
            group_member: None,
            group_size: None,
            condition: None,
        }
    }
}

/// Whether a record sits on exactly the stream whose rendered name is `t`.
pub open spec fn in_stream(m: MessageData, t: Seq<char>) -> bool {
    m.stream_name matches Some(s) && s@ == t
}

/// Whether a stream name text `name` is category-related to the category
/// text `cat`: it is the category itself, or an identifier stream under it
/// (the category text followed by `-` and an identifier).
pub open spec fn cat_related(name: Seq<char>, cat: Seq<char>) -> bool {
    name == cat || (name.len() > cat.len() && name.take(cat.len() as int) == cat && name[cat.len() as int]
        == '-')
}

/// Whether a record sits on a stream category-related to `cat`.
pub open spec fn in_category(m: MessageData, cat: Seq<char>) -> bool {
    m.stream_name matches Some(s) && cat_related(s@, cat)
}

/// The records of the stream whose rendered name is `t`, in log order.
pub open spec fn matching(log: Seq<MessageData>, t: Seq<char>) -> Seq<MessageData>
    decreases log.len(),
{
    if log.len() == 0 {
        Seq::empty()
    } else {
        let pre = matching(log.drop_last(), t);
        if in_stream(log.last(), t) {
            pre.push(log.last())
        } else {
            pre
        }
    }
}

/// The records of all streams category-related to `cat`, in log order
/// (which is global-position order).
pub open spec fn cat_matching(log: Seq<MessageData>, cat: Seq<char>) -> Seq<MessageData>
    decreases log.len(),
{
    if log.len() == 0 {
        Seq::empty()
    } else {
        let pre = cat_matching(log.drop_last(), cat);
        if in_category(log.last(), cat) {
            pre.push(log.last())
        } else {
            pre
        }
    }
}

/// The last position of the stream named `t`: -1 when the stream is empty.
pub open spec fn stream_version(log: Seq<MessageData>, t: Seq<char>) -> int {
    matching(log, t).len() - 1
}

/// Store invariant at one record: assigned fields are present, the global
/// position is the record's index, and the per-stream position counts the
/// records of its stream written before it.
pub open spec fn wf_at(log: Seq<MessageData>, i: int) -> bool {
    let m = log[i];
    m.id is Some && m.stream_name is Some && m.time is Some && m.global_position == Some(
        i as i64,
    ) && m.position == Some(matching(log.take(i), m.stream_name.unwrap()@).len() as i64)
}

/// Store invariant: per-stream positions are contiguous from 0 and global
/// positions are the log indices, so strictly increasing.
pub open spec fn wf_log(log: Seq<MessageData>) -> bool {
    log.len() <= 0x7fff_ffff_ffff_ffff && (forall|i: int| 0 <= i < log.len() ==> #[trigger] wf_at(
        log,
        i,
    ))
}

/// How many records one read returns at most.
pub open spec fn effective_batch(settings: Settings) -> int {
    match settings.batch_size {
        Some(b) => if b >= 1 {
            b as int
        } else {
            1000
        },
        None => 1000,
    }
}

/// The page an identifier-stream read returns: the records of the stream
/// with position strictly greater than `aft`, in position order, at most
/// `batch` of them. `ms` is the whole stream in order, so positions are
/// indices.
pub open spec fn page_ident(ms: Seq<MessageData>, aft: int, batch: int) -> Seq<MessageData> {
    let lo = if aft + 1 >= 0 {
        aft + 1
    } else {
        0
    };
    let start = if lo <= ms.len() {
        lo
    } else {
        ms.len() as int
    };
    let end = if start + batch <= ms.len() {
        start + batch
    } else {
        ms.len() as int
    };
    ms.subrange(start, end)
}

/// The records of `ms` whose global position is strictly greater than `g`,
/// in order.
pub open spec fn after_global(ms: Seq<MessageData>, g: int) -> Seq<MessageData>
    decreases ms.len(),
{
    if ms.len() == 0 {
        Seq::empty()
    } else {
        let pre = after_global(ms.drop_last(), g);
        if ms.last().global_position.unwrap() > g {
            pre.push(ms.last())
        } else {
            pre
        }
    }
}

/// The page a category read returns: the records of the category with
/// global position strictly greater than `g`, in global order, at most
/// `batch` of them.
pub open spec fn page_cat(ms: Seq<MessageData>, g: int, batch: int) -> Seq<MessageData> {
    let f = after_global(ms, g);
    let end = if batch <= f.len() {
        batch
    } else {
        f.len() as int
    };
    let end2 = if end >= 0 {
        end
    } else {
        0
    };
    f.subrange(0, end2)
}

/// The diagnostic text of an optimistic-concurrency conflict.
pub open spec fn conflict_message(expected: int, name: Seq<char>, current: int) -> Seq<char> {
    "ERROR: Wrong expected version: "@ + text::dec_int(expected) + " (Stream: "@ + name
        + ", Stream Version: "@ + text::dec_int(current) + ")"@
}

/// What the store guarantees of an appended record: identity present (the
/// caller's when it gave one), type and payload carried over unchanged,
/// the stream name filled in, and position, global position and time
/// assigned by the store.
pub open spec fn assigned_from(
    rec: MessageData,
    data: MessageData,
    t: Seq<char>,
    pos: int,
    global: int,
) -> bool {
    rec.id is Some && (data.id is Some ==> rec.id == data.id) && rec.message_type
        == data.message_type && (rec.stream_name matches Some(s) && s@ == t) && rec.position
        == Some(pos as i64) && rec.global_position == Some(global as i64) && rec.data == data.data
        && rec.metadata == data.metadata && rec.time == Some(global as i64)
}

/// Tests whether the stream name text `name` is category-related to the
/// category text `cat`.
fn cat_related_exec(name: &String, cat: &String) -> (r: bool)
    ensures
        r == cat_related(name@, cat@),
{
    if name.eq(cat) {
        return true;
    }
    let n = name.as_str().unicode_len();
    let c = cat.as_str().unicode_len();
    proof {
        assert(name@.take(cat@.len() as int) == name@.subrange(0, cat@.len() as int));
    }
    if n > c {
        if text::match_at(name.as_str(), 0, cat.as_str()) {
            if name.as_str().get_char(c) == '-' {
                return true;
            }
        }
    }
    false
}

/// How one record appended to the stream changes the page an
/// identifier-stream read returns: it joins the page exactly when its
/// position (the stream length before it) lies after `aft` and the page
/// is not yet full.
pub proof fn lemma_page_ident_push(ms: Seq<MessageData>, m: MessageData, aft: int, batch: int)
    requires
        batch >= 1,
    ensures
        page_ident(ms.push(m), aft, batch) == (if ms.len() as int > aft && page_ident(
            ms,
            aft,
            batch,
        ).len() < batch {
            page_ident(ms, aft, batch).push(m)
        } else {
            page_ident(ms, aft, batch)
        }),
{
    let n = ms.len() as int;
    let lo = if aft + 1 >= 0 {
        aft + 1
    } else {
        0
    };
    let p1 = page_ident(ms, aft, batch);
    let p2 = page_ident(ms.push(m), aft, batch);
    if n >= lo {
        if p1.len() < batch {
            assert(p2 =~= p1.push(m));
        } else {
            assert(p2 =~= p1);
        }
    } else {
        assert(p2 =~= p1);
    }
}

/// How one record appended to the category changes the page a category
/// read returns: it joins the page exactly when its global position lies
/// after `g` and the page is not yet full.
pub proof fn lemma_page_cat_push(ms: Seq<MessageData>, m: MessageData, g: int, batch: int)
    requires
        batch >= 1,
    ensures
        page_cat(ms.push(m), g, batch) == (if m.global_position.unwrap() > g && page_cat(
            ms,
            g,
            batch,
        ).len() < batch {
            page_cat(ms, g, batch).push(m)
        } else {
            page_cat(ms, g, batch)
        }),
{
    let l2 = ms.push(m);
    assert(l2.drop_last() =~= ms);
    assert(l2.last() == m);
    let f = after_global(ms, g);
    let f2 = after_global(l2, g);
    let p1 = page_cat(ms, g, batch);
    let p2 = page_cat(l2, g, batch);
    if m.global_position.unwrap() > g {
        assert(f2 == f.push(m));
        if f.len() < batch {
            assert(p1 =~= f);
            assert(p2 =~= f2);
        } else {
            assert(p2 =~= p1);
        }
    } else {
        assert(f2 == f);
        assert(p2 =~= p1);
    }
}

/// A stream holds no more records than the whole log.
pub proof fn lemma_matching_len(log: Seq<MessageData>, t: Seq<char>)
    ensures
        matching(log, t).len() <= log.len(),
    decreases log.len(),
{
    if log.len() > 0 {
        lemma_matching_len(log.drop_last(), t);
    }
}

/// How one appended record changes a stream's contents.
pub proof fn lemma_matching_push(log: Seq<MessageData>, t: Seq<char>, m: MessageData)
    ensures
        matching(log.push(m), t) == (if in_stream(m, t) {
            matching(log, t).push(m)
        } else {
            matching(log, t)
        }),
{
    let l2 = log.push(m);
    assert(l2.drop_last() =~= log);
    assert(l2.last() == m);
}

/// How one appended record changes a category's contents.
pub proof fn lemma_cat_matching_push(log: Seq<MessageData>, cat: Seq<char>, m: MessageData)
    ensures
        cat_matching(log.push(m), cat) == (if in_category(m, cat) {
            cat_matching(log, cat).push(m)
        } else {
            cat_matching(log, cat)
        }),
{
    let l2 = log.push(m);
    assert(l2.drop_last() =~= log);
    assert(l2.last() == m);
}

/// Under the store invariant, the records of a stream carry their index
/// within the stream as their per-stream position.
pub proof fn lemma_matching_positions(log: Seq<MessageData>, t: Seq<char>)
    requires
        wf_log(log),
    ensures
        forall|j: int|
            0 <= j < matching(log, t).len() ==> (#[trigger] matching(log, t)[j]).position == Some(
                j as i64,
            ),
    decreases log.len(),
{
    if log.len() > 0 {
        let pre = log.drop_last();
        assert(wf_log(pre)) by {
            assert forall|i: int| 0 <= i < pre.len() implies #[trigger] wf_at(pre, i) by {
                assert(wf_at(log, i));
                assert(pre.take(i) =~= log.take(i));
                assert(pre[i] == log[i]);
            }
        }
        lemma_matching_positions(pre, t);
        lemma_matching_len(pre, t);
        let ms = matching(log, t);
        let m = log.last();
        if in_stream(m, t) {
            assert(ms == matching(pre, t).push(m));
            assert(wf_at(log, log.len() - 1));
            assert(log.take(log.len() - 1) =~= pre);
            assert(m.stream_name.unwrap()@ == t);
            assert(m.position == Some(matching(pre, t).len() as i64));
            assert forall|j: int| 0 <= j < ms.len() implies (#[trigger] ms[j]).position == Some(
                j as i64,
            ) by {
                if j < ms.len() - 1 {
                    assert(ms[j] == matching(pre, t)[j]);
                }
            }
        } else {
            assert(ms == matching(pre, t));
        }
    }
}

/// Whether a backing store's diagnostic text signals an
/// optimistic-concurrency conflict: it opens with the fixed conflict
/// prefix. (A structured conflict signal from the backing store is
/// sturdier; matching the prefix is what its current protocol offers.)
pub fn is_expected_version_conflict(msg: &str) -> (r: bool)
    ensures
        r == text::occurs_at(msg@, 0, "ERROR: Wrong expected version"@),
{
    text::match_at(msg, 0, "ERROR: Wrong expected version")
}

/// Identity never dedupes: whatever identities the caller supplied, two
/// records appended to the same stream one after the other carry distinct,
/// consecutive positions.
pub proof fn lemma_appends_positions_distinct(
    log: Seq<MessageData>,
    t: Seq<char>,
    d1: MessageData,
    d2: MessageData,
    r1: MessageData,
    r2: MessageData,
)
    requires
        log.len() + 1 < 0x7fff_ffff_ffff_ffff,
        assigned_from(r1, d1, t, stream_version(log, t) + 1, log.len() as int),
        assigned_from(r2, d2, t, stream_version(log.push(r1), t) + 1, log.len() as int + 1),
    ensures
        r2.position == Some((r1.position.unwrap() + 1) as i64),
        r1.position != r2.position,
{
    lemma_matching_len(log, t);
    lemma_matching_push(log, t, r1);
}

/// Appending to one stream of the store: how the trait callers reach
/// `put` and `put_many`.
pub trait Put<T, R> {
    /// What the store asks of itself before an append.
    spec fn put_req(&self) -> bool;

    fn put(&mut self, data: T, stream_name: &StreamName, expected_version: Option<i64>) -> (r:
        Result<R, Error>)
        requires
            old(self).put_req(),
    ;
}

impl<'a> Put<&'a MessageData, MessageData> for MessageStore {
    open spec fn put_req(&self) -> bool {
        self.wf()
    }

    fn put(&mut self, data: &'a MessageData, stream_name: &StreamName, expected_version: Option<i64>) -> (r: Result<MessageData, Error>) {
        MessageStore::put(self, data, stream_name, expected_version)
    }
}

impl<'a> Put<&'a Vec<MessageData>, Vec<MessageData>> for MessageStore {
    open spec fn put_req(&self) -> bool {
        self.wf()
    }

    fn put(&mut self, data: &'a Vec<MessageData>, stream_name: &StreamName, expected_version: Option<i64>) -> (r: Result<Vec<MessageData>, Error>) {
        MessageStore::put_many(self, data, stream_name, expected_version)
    }
}

/// Dropping the last record preserves the store invariant.
pub proof fn lemma_wf_drop_last(log: Seq<MessageData>)
    requires
        wf_log(log),
        log.len() > 0,
    ensures
        wf_log(log.drop_last()),
{
    let pre = log.drop_last();
    assert forall|i: int| 0 <= i < pre.len() implies #[trigger] wf_at(pre, i) by {
        assert(wf_at(log, i));
        assert(pre.take(i) =~= log.take(i));
        assert(pre[i] == log[i]);
    }
}

/// Under the store invariant, the records of a stream carry their global
/// position.
pub proof fn lemma_matching_globals(log: Seq<MessageData>, t: Seq<char>)
    requires
        wf_log(log),
    ensures
        forall|j: int|
            0 <= j < matching(log, t).len() ==> (#[trigger] matching(log, t)[j]).global_position
                is Some,
    decreases log.len(),
{
    if log.len() > 0 {
        lemma_wf_drop_last(log);
        lemma_matching_globals(log.drop_last(), t);
        assert(wf_at(log, log.len() - 1));
        let ms = matching(log, t);
        let pre = matching(log.drop_last(), t);
        assert forall|j: int| 0 <= j < ms.len() implies (#[trigger] ms[j]).global_position
            is Some by {
            if j < pre.len() {
                assert(ms[j] == pre[j]);
            }
        }
    }
}

/// Under the store invariant, the records of a category carry their
/// global position.
pub proof fn lemma_cat_matching_globals(log: Seq<MessageData>, c: Seq<char>)
    requires
        wf_log(log),
    ensures
        forall|j: int|
            0 <= j < cat_matching(log, c).len() ==> (#[trigger] cat_matching(log, c)[j]).global_position is Some,
    decreases log.len(),
{
    if log.len() > 0 {
        lemma_wf_drop_last(log);
        lemma_cat_matching_globals(log.drop_last(), c);
        assert(wf_at(log, log.len() - 1));
        let ms = cat_matching(log, c);
        let pre = cat_matching(log.drop_last(), c);
        assert forall|j: int| 0 <= j < ms.len() implies (#[trigger] ms[j]).global_position
            is Some by {
            if j < pre.len() {
                assert(ms[j] == pre[j]);
            }
        }
    }
}

/// Every record of a stream is one of the log's records, on that stream.
pub proof fn lemma_matching_members(log: Seq<MessageData>, t: Seq<char>)
    ensures
        forall|i: int|
            #![trigger matching(log, t)[i]]
            0 <= i < matching(log, t).len() ==> in_stream(matching(log, t)[i], t) && (exists|j: int|
                0 <= j < log.len() && #[trigger] log[j] == matching(log, t)[i]),
    decreases log.len(),
{
    if log.len() > 0 {
        let pre = log.drop_last();
        lemma_matching_members(pre, t);
        let ms = matching(log, t);
        let msp = matching(pre, t);
        assert forall|i: int|
            0 <= i < ms.len() implies in_stream(#[trigger] ms[i], t) && (exists|j: int|
            0 <= j < log.len() && #[trigger] log[j] == ms[i]) by {
            if i < msp.len() {
                assert(ms[i] == msp[i]);
                let jw = choose|j: int| 0 <= j < pre.len() && #[trigger] pre[j] == msp[i];
                assert(log[jw] == ms[i]);
            } else {
                assert(ms[i] == log.last());
                assert(log[log.len() - 1] == ms[i]);
            }
        }
    }
}

/// Every record of a category is one of the log's records, under that
/// category.
pub proof fn lemma_cat_matching_members(log: Seq<MessageData>, c: Seq<char>)
    ensures
        forall|i: int|
            #![trigger cat_matching(log, c)[i]]
            0 <= i < cat_matching(log, c).len() ==> in_category(cat_matching(log, c)[i], c) && (
            exists|j: int| 0 <= j < log.len() && #[trigger] log[j] == cat_matching(log, c)[i]),
    decreases log.len(),
{
    if log.len() > 0 {
        let pre = log.drop_last();
        lemma_cat_matching_members(pre, c);
        let ms = cat_matching(log, c);
        let msp = cat_matching(pre, c);
        assert forall|i: int|
            0 <= i < ms.len() implies in_category(#[trigger] ms[i], c) && (exists|j: int|
            0 <= j < log.len() && #[trigger] log[j] == ms[i]) by {
            if i < msp.len() {
                assert(ms[i] == msp[i]);
                let jw = choose|j: int| 0 <= j < pre.len() && #[trigger] pre[j] == msp[i];
                assert(log[jw] == ms[i]);
            } else {
                assert(ms[i] == log.last());
                assert(log[log.len() - 1] == ms[i]);
            }
        }
    }
}

/// Filtering by global position keeps only records of the sequence.
pub proof fn lemma_after_global_members(ms: Seq<MessageData>, g: int)
    ensures
        forall|i: int|
            #![trigger after_global(ms, g)[i]]
            0 <= i < after_global(ms, g).len() ==> (exists|j: int|
                0 <= j < ms.len() && #[trigger] ms[j] == after_global(ms, g)[i]),
    decreases ms.len(),
{
    if ms.len() > 0 {
        let pre = ms.drop_last();
        lemma_after_global_members(pre, g);
        let f = after_global(ms, g);
        let fp = after_global(pre, g);
        assert forall|i: int| #![trigger f[i]]
            0 <= i < f.len() implies (exists|j: int| 0 <= j < ms.len() && #[trigger] ms[j] == f[i]) by {
            if i < fp.len() {
                assert(f[i] == fp[i]);
                let jw = choose|j: int| 0 <= j < pre.len() && #[trigger] pre[j] == fp[i];
                assert(ms[jw] == f[i]);
            } else {
                assert(f[i] == ms.last());
                assert(ms[ms.len() - 1] == f[i]);
            }
        }
    }
}

/// Records filtered by global position indeed lie strictly after it.
pub proof fn lemma_after_global_bounds(ms: Seq<MessageData>, g: int)
    ensures
        forall|i: int|
            0 <= i < after_global(ms, g).len() ==> (#[trigger] after_global(ms, g)[
                i
            ]).global_position.unwrap() > g,
    decreases ms.len(),
{
    if ms.len() > 0 {
        let pre = ms.drop_last();
        lemma_after_global_bounds(pre, g);
        let f = after_global(ms, g);
        let fp = after_global(pre, g);
        assert forall|i: int|
            0 <= i < f.len() implies (#[trigger] f[i]).global_position.unwrap() > g by {
            if i < fp.len() {
                assert(f[i] == fp[i]);
            }
        }
    }
}

/// Under the store invariant, a record's global position is at least its
/// per-stream position: the stream it sits on holds no more earlier
/// records than the whole log does.
pub proof fn lemma_matching_global_ge_position(log: Seq<MessageData>, t: Seq<char>)
    requires
        wf_log(log),
    ensures
        forall|j: int|
            #![trigger matching(log, t)[j]]
            0 <= j < matching(log, t).len() ==> matching(log, t)[j].global_position.unwrap()
                >= matching(log, t)[j].position.unwrap(),
    decreases log.len(),
{
    if log.len() > 0 {
        lemma_wf_drop_last(log);
        lemma_matching_global_ge_position(log.drop_last(), t);
        let ms = matching(log, t);
        let pre = matching(log.drop_last(), t);
        assert forall|j: int| #![trigger ms[j]]
            0 <= j < ms.len() implies ms[j].global_position.unwrap() >= ms[j].position.unwrap() by {
            if j < pre.len() {
                assert(ms[j] == pre[j]);
            } else {
                let m = log.last();
                assert(wf_at(log, log.len() - 1));
                assert(log.take(log.len() - 1) =~= log.drop_last());
                lemma_matching_len(log.drop_last(), m.stream_name.unwrap()@);
            }
        }
    }
}

/// Filtering by global position keeps records whose global position is
/// present.
pub proof fn lemma_after_global_elems(ms: Seq<MessageData>, g: int)
    requires
        forall|j: int| 0 <= j < ms.len() ==> (#[trigger] ms[j]).global_position is Some,
    ensures
        forall|j: int|
            0 <= j < after_global(ms, g).len() ==> (#[trigger] after_global(ms, g)[j]).global_position is Some,
    decreases ms.len(),
{
    if ms.len() > 0 {
        let pre = ms.drop_last();
        assert(forall|j: int| 0 <= j < pre.len() ==> pre[j] == #[trigger] ms[j]);
        lemma_after_global_elems(pre, g);
        let f = after_global(ms, g);
        let fp = after_global(pre, g);
        assert forall|j: int| 0 <= j < f.len() implies (#[trigger] f[j]).global_position is Some by {
            if j < fp.len() {
                assert(f[j] == fp[j]);
            }
        }
    }
}

/// The in-memory message store: read settings and the log itself.
pub struct MessageStore {
    pub settings: Settings,
    log: Vec<MessageData>,
}

impl MessageStore {
    /// The log's records, in global order.
    pub closed spec fn records(self) -> Seq<MessageData> {
        self.log@
    }

    /// The store's settings, for contracts.
    pub closed spec fn settings_view(self) -> Settings {
        self.settings
    }

    /// The store invariant; every public operation preserves it.
    pub open spec fn wf(self) -> bool {
        wf_log(self.records())
    }

    /// An empty store with default settings.
    pub fn build() -> (r: MessageStore)
        ensures
            r.wf(),
            r.records() == Seq::<MessageData>::empty(),
            r.settings_view().batch_size is None,
    {
        let r = MessageStore { settings: Settings::default(), log: Vec::new() };
        proof {
            assert(r.records() =~= Seq::<MessageData>::empty());
        }
        r
    }

    /// An empty store with the given settings.
    pub fn build_with_settings(settings: Settings) -> (r: MessageStore)
        ensures
            r.wf(),
            r.records() == Seq::<MessageData>::empty(),
            r.settings_view() == settings,
    {
        let r = MessageStore { settings, log: Vec::new() };
        proof {
            assert(r.records() =~= Seq::<MessageData>::empty());
        }
        r
    }

    /// Appends one record to the named stream under optimistic concurrency
    /// control. `expected_version` of `None` means no check; `Some(-1)`
    /// means the stream must not yet exist; `Some(n)` means the stream's
    /// last position must equal `n`. On success the returned record equals
    /// the stored one: the caller's payload and metadata unchanged, the
    /// caller's identity kept (a fresh one assigned when absent), and the
    /// stream name, position, global position and time filled in by the
    /// store. On a version mismatch nothing is appended and the error
    /// carries the diagnostic text; the store only otherwise refuses an
    /// append when the log can hold no further record.
    pub fn put(
        &mut self,
        data: &MessageData,
        stream_name: &StreamName,
        expected_version: Option<i64>,
    ) -> (r: Result<MessageData, Error>)
        requires
            old(self).wf(),
        ensures
            final(self).wf(),
            final(self).settings_view() == old(self).settings_view(),
            (r is Ok) == ((expected_version matches Some(v) ==> v == stream_version(
                old(self).records(),
                render_key(stream_name.key()),
            )) && old(self).records().len() < 0x7fff_ffff_ffff_ffff),
            ({
                let t = render_key(stream_name.key());
                let cur = stream_version(old(self).records(), t);
                match r {
                    Ok(rec) => (expected_version matches Some(v) ==> v == cur) && old(
                        self,
                    ).records().len() < 0x7fff_ffff_ffff_ffff && assigned_from(
                        rec,
                        *data,
                        t,
                        cur + 1,
                        old(self).records().len() as int,
                    ) && final(self).records() == old(self).records().push(rec),
                    Err(e) => final(self).records() == old(self).records() && (match e {
                        Error::ExpectedVersion(msg) => (expected_version matches Some(v) && v != cur
                            && msg@ == conflict_message(v as int, t, cur)),
                        Error::Store(_) => old(self).records().len() >= 0x7fff_ffff_ffff_ffff && (
                        expected_version matches Some(v) ==> v == cur),
                        _ => false,
                    }),
                }
            }),
    {
        let name_text = stream_name.render();
        let count = self.count_stream(&name_text);
        proof {
            lemma_matching_len(self.records(), name_text@);
        }
        let cur: i64 = (count as i64) - 1;
        match expected_version {
            Some(v) => {
                if v != cur {
                    let mut msg: String = "ERROR: Wrong expected version: ".to_owned();
                    let vs = text::i64_to_string(v);
                    msg.append(vs.as_str());
                    msg.append(" (Stream: ");
                    msg.append(name_text.as_str());
                    msg.append(", Stream Version: ");
                    let cs = text::i64_to_string(cur);
                    msg.append(cs.as_str());
                    msg.append(")");
                    proof {
                        assert(msg@ =~= conflict_message(
                            v as int,
                            name_text@,
                            stream_version(self.records(), name_text@),
                        ));
                    }
                    return Err(Error::ExpectedVersion(msg));
                }
            },
            None => {},
        }
        if self.log.len() as u64 >= 0x7fff_ffff_ffff_ffffu64 {
            return Err(Error::Store("the log can hold no further record".to_owned()));
        }
        let global: i64 = self.log.len() as i64;
        let id: Option<MessageId> = match data.id {
            Some(given) => Some(given),
            None => Some(fresh_id()),
        };
        let rec = MessageData {
            id,
            message_type: data.message_type.clone(),
            stream_name: Some(name_text),
            position: Some(count as i64),
            global_position: Some(global),
            data: data.data.clone(),
            metadata: data.metadata.clone(),
            time: Some(global),
        };
        let out = clone_record(&rec);
        let ghost oldlog = self.records();
        self.log.push(rec);
        proof {
            let newlog = self.records();
            assert(newlog == oldlog.push(out));
            assert forall|i: int| 0 <= i < newlog.len() implies #[trigger] wf_at(newlog, i) by {
                if i < oldlog.len() {
                    assert(wf_at(oldlog, i));
                    assert(newlog.take(i) =~= oldlog.take(i));
                    assert(newlog[i] == oldlog[i]);
                } else {
                    assert(newlog.take(i) =~= oldlog);
                    assert(newlog[i] == out);
                }
            }
        }
        Ok(out)
    }

    /// Appends a sequence of records atomically: the first uses
    /// `expected_version`, each following record the prior expectation
    /// incremented by one (when one was supplied at all). Either every
    /// record is appended, with contiguous positions, or — on a version
    /// mismatch, or when the whole batch cannot fit — none is.
    pub fn put_many(
        &mut self,
        data: &Vec<MessageData>,
        stream_name: &StreamName,
        expected_version: Option<i64>,
    ) -> (r: Result<Vec<MessageData>, Error>)
        requires
            old(self).wf(),
        ensures
            final(self).wf(),
            final(self).settings_view() == old(self).settings_view(),
            (r is Ok) == ((expected_version matches Some(v) ==> v == stream_version(
                old(self).records(),
                render_key(stream_name.key()),
            )) && old(self).records().len() + data@.len() <= 0x7fff_ffff_ffff_ffff),
            ({
                let t = render_key(stream_name.key());
                let cur = stream_version(old(self).records(), t);
                match r {
                    Ok(recs) => (expected_version matches Some(v) ==> v == cur) && old(
                        self,
                    ).records().len() + data@.len() <= 0x7fff_ffff_ffff_ffff && recs@.len()
                        == data@.len() && final(self).records() == old(self).records() + recs@ && (
                    forall|j: int|
                        0 <= j < data@.len() ==> assigned_from(
                            #[trigger] recs@[j],
                            data@[j],
                            t,
                            cur + 1 + j,
                            old(self).records().len() + j,
                        )),
                    Err(e) => final(self).records() == old(self).records() && (match e {
                        Error::ExpectedVersion(msg) => (expected_version matches Some(v) && v != cur
                            && msg@ == conflict_message(v as int, t, cur)),
                        Error::Store(_) => old(self).records().len() + data@.len()
                            > 0x7fff_ffff_ffff_ffff && (expected_version matches Some(v) ==> v
                            == cur),
                        _ => false,
                    }),
                }
            }),
    {
        let name_text = stream_name.render();
        let count = self.count_stream(&name_text);
        proof {
            lemma_matching_len(self.records(), name_text@);
        }
        let cur: i64 = (count as i64) - 1;
        match expected_version {
            Some(v) => {
                if v != cur {
                    let mut msg: String = "ERROR: Wrong expected version: ".to_owned();
                    let vs = text::i64_to_string(v);
                    msg.append(vs.as_str());
                    msg.append(" (Stream: ");
                    msg.append(name_text.as_str());
                    msg.append(", Stream Version: ");
                    let cs = text::i64_to_string(cur);
                    msg.append(cs.as_str());
                    msg.append(")");
                    proof {
                        assert(msg@ =~= conflict_message(
                            v as int,
                            name_text@,
                            stream_version(self.records(), name_text@),
                        ));
                    }
                    return Err(Error::ExpectedVersion(msg));
                }
            },
            None => {},
        }
        if (self.log.len() as u128) + (data.len() as u128) > 0x7fff_ffff_ffff_ffffu128 {
            return Err(Error::Store("the log cannot hold the whole batch".to_owned()));
        }
        let ghost t = name_text@;
        let ghost oldlog = self.records();
        let mut results: Vec<MessageData> = Vec::new();
        let mut next: Option<i64> = expected_version;
        let mut j: usize = 0;
        while j < data.len()
            invariant
                self.wf(),
                self.settings_view() == old(self).settings_view(),
                0 <= j <= data@.len(),
                results@.len() == j,
                t == render_key(stream_name.key()),
                oldlog == old(self).records(),
                oldlog.len() + data@.len() <= 0x7fff_ffff_ffff_ffff,
                cur == stream_version(oldlog, t),
                -1 <= cur,
                cur + 1 + data@.len() <= 0x7fff_ffff_ffff_ffff,
                expected_version matches Some(v) ==> v == cur,
                self.records() == oldlog + results@,
                stream_version(self.records(), t) == cur + j,
                next == (match expected_version {
                    Some(v) => Some((v + j) as i64),
                    None => None::<i64>,
                }),
                forall|k: int|
                    0 <= k < j ==> assigned_from(
                        #[trigger] results@[k],
                        data@[k],
                        t,
                        cur + 1 + k,
                        oldlog.len() + k,
                    ),
            decreases data@.len() - j,
        {
            let ghost prelog = self.records();
            let rec = match self.put(&data[j], stream_name, next) {
                Ok(rec) => rec,
                Err(e) => {
                    proof {
                        assert(prelog.len() == oldlog.len() + j);
                        assert(prelog.len() < 0x7fff_ffff_ffff_ffff);
                        assert(false);
                    }
                    return Err(e);
                },
            };
            proof {
                lemma_matching_push(prelog, t, rec);
                assert(self.records() == oldlog + results@.push(rec)) by {
                    assert(oldlog + results@.push(rec) =~= (oldlog + results@).push(rec));
                }
            }
            results.push(rec);
            if let Some(v) = next {
                next = Some(v + 1);
            }
            j += 1;
        }
        proof {
            assert(results@.len() == data@.len());
        }
        Ok(results)
    }

    /// Reads one page of records. For an identifier stream: the records of
    /// exactly that stream with position strictly greater than `position`
    /// (`None` reads from the start), in position order. For a category
    /// stream: the records of every stream under the category, with global
    /// position strictly greater than `position`, in global order. Either
    /// way at most `batch_size` records (1000 when unset). A result shorter
    /// than the batch size means the stream is exhausted for now.
    pub fn get(&self, stream_name: &StreamName, position: Option<i64>) -> (r: Result<
        Vec<MessageData>,
        Error,
    >)
        requires
            self.wf(),
        ensures
            r matches Ok(page) && ({
                let t = render_key(stream_name.key());
                let aft = (match position {
                    Some(p) => p as int,
                    None => -1,
                });
                let batch = effective_batch(self.settings_view());
                if stream_name.id is Some {
                    page@ == page_ident(matching(self.records(), t), aft, batch)
                } else {
                    page@ == page_cat(cat_matching(self.records(), t), aft, batch)
                }
            }),
    {
        let name_text = stream_name.render();
        let is_ident = !stream_name.is_category();
        let batch: u64 = match self.settings.batch_size {
            Some(b) => if b >= 1 {
                b as u64
            } else {
                1000
            },
            None => 1000,
        };
        let aft: i64 = match position {
            Some(p) => p,
            None => -1,
        };
        let ghost t = name_text@;
        let ghost aft_g = aft as int;
        let ghost batch_g = batch as int;
        let mut out: Vec<MessageData> = Vec::new();
        let mut i: usize = 0;
        while i < self.log.len()
            invariant
                self.wf(),
                0 <= i <= self.records().len(),
                t == render_key(stream_name.key()),
                name_text@ == t,
                is_ident == (stream_name.id is Some),
                aft_g == aft as int,
                batch_g == effective_batch(self.settings_view()),
                batch == batch_g,
                out@ == (if is_ident {
                    page_ident(matching(self.records().take(i as int), t), aft_g, batch_g)
                } else {
                    page_cat(cat_matching(self.records().take(i as int), t), aft_g, batch_g)
                }),
                out@.len() <= batch_g,
            decreases self.records().len() - i,
        {
            proof {
                assert(wf_at(self.records(), i as int));
            }
            let ghost pre = self.records().take(i as int);
            let ghost nxt = self.records().take(i + 1);
            proof {
                assert(nxt.drop_last() =~= pre);
                assert(nxt.last() == self.records()[i as int]);
            }
            let m = &self.log[i];
            let matched: bool = match &m.stream_name {
                Some(s) => if is_ident {
                    s.eq(&name_text)
                } else {
                    cat_related_exec(s, &name_text)
                },
                None => false,
            };
            if matched {
                let after_ok: bool = if is_ident {
                    match m.position {
                        Some(p) => p > aft,
                        None => false,
                    }
                } else {
                    match m.global_position {
                        Some(g) => g > aft,
                        None => false,
                    }
                };
                if after_ok && (out.len() as u64) < batch {
                    out.push(clone_record(m));
                }
            }
            proof {
                let rec = self.records()[i as int];
                if is_ident {
                    let ms = matching(pre, t);
                    let ms2 = matching(nxt, t);
                    lemma_matching_len(pre, t);
                    if in_stream(rec, t) {
                        assert(ms2 == ms.push(rec));
                        assert(rec.position == Some(ms.len() as i64)) by {
                            assert(matching(pre, rec.stream_name.unwrap()@) == matching(pre, t));
                        }
                        lemma_page_ident_push(ms, rec, aft_g, batch_g);
                    } else {
                        assert(ms2 == ms);
                    }
                } else {
                    let ms = cat_matching(pre, t);
                    let ms2 = cat_matching(nxt, t);
                    if in_category(rec, t) {
                        assert(ms2 == ms.push(rec));
                        lemma_page_cat_push(ms, rec, aft_g, batch_g);
                    } else {
                        assert(ms2 == ms);
                    }
                }
            }
            i += 1;
        }
        proof {
            assert(self.records().take(self.records().len() as int) =~= self.records());
        }
        Ok(out)
    }

    /// Reads the single highest-position record of exactly the named
    /// stream, or nothing when the stream is empty.
    pub fn get_last(&self, stream_name: &StreamName) -> (r: Result<Option<MessageData>, Error>)
        requires
            self.wf(),
        ensures
            r matches Ok(res) && ({
                let ms = matching(self.records(), render_key(stream_name.key()));
                match res {
                    Some(rec) => ms.len() > 0 && rec == ms.last(),
                    None => ms.len() == 0,
                }
            }),
    {
        let name_text = stream_name.render();
        let ghost t = name_text@;
        let mut out: Option<MessageData> = None;
        let mut i: usize = 0;
        while i < self.log.len()
            invariant
                self.wf(),
                0 <= i <= self.records().len(),
                t == render_key(stream_name.key()),
                name_text@ == t,
                match out {
                    Some(rec) => matching(self.records().take(i as int), t).len() > 0 && rec
                        == matching(self.records().take(i as int), t).last(),
                    None => matching(self.records().take(i as int), t).len() == 0,
                },
            decreases self.records().len() - i,
        {
            let ghost pre = self.records().take(i as int);
            let ghost nxt = self.records().take(i + 1);
            proof {
                assert(nxt.drop_last() =~= pre);
                assert(nxt.last() == self.records()[i as int]);
            }
            let m = &self.log[i];
            match &m.stream_name {
                Some(s) => {
                    if s.eq(&name_text) {
                        out = Some(clone_record(m));
                    }
                },
                None => {},
            }
            i += 1;
        }
        proof {
            assert(self.records().take(self.records().len() as int) =~= self.records());
        }
        Ok(out)
    }

    /// How many records the whole log holds.
    pub fn record_count(&self) -> (r: usize)
        ensures
            r == self.records().len(),
    {
        self.log.len()
    }

    /// Overrides the batch size of later reads.
    pub fn set_batch_size(&mut self, b: Option<i64>)
        ensures
            final(self).records() == old(self).records(),
            final(self).settings_view().batch_size == b,
            final(self).settings_view().correlation == old(self).settings_view().correlation,
            final(self).settings_view().group_member == old(self).settings_view().group_member,
            final(self).settings_view().group_size == old(self).settings_view().group_size,
            final(self).settings_view().condition == old(self).settings_view().condition,
    {
        self.settings.batch_size = b;
    }

    /// How many records one read returns at most under the current
    /// settings.
    pub fn read_batch_size(&self) -> (r: u64)
        ensures
            r as int == effective_batch(self.settings_view()),
    {
        match self.settings.batch_size {
            Some(b) => if b >= 1 {
                b as u64
            } else {
                1000
            },
            None => 1000,
        }
    }

    /// Counts the records of the stream whose rendered name is `text`.
    fn count_stream(&self, text: &String) -> (c: usize)
        ensures
            c == matching(self.records(), text@).len(),
    {
        let mut c: usize = 0;
        let mut i: usize = 0;
        while i < self.log.len()
            invariant
                0 <= i <= self.log@.len(),
                c == matching(self.log@.take(i as int), text@).len(),
                c <= i,
            decreases self.log@.len() - i,
        {
            proof {
                let pre = self.log@.take(i as int);
                let nxt = self.log@.take(i + 1);
                assert(nxt.drop_last() =~= pre);
                assert(nxt.last() == self.log@[i as int]);
            }
            match &self.log[i].stream_name {
                Some(s) => {
                    if s.eq(text) {
                        c += 1;
                    }
                },
                None => {},
            }
            i += 1;
        }
        proof {
            assert(self.log@.take(self.log@.len() as int) =~= self.log@);
        }
        c
    }
}

} // verus!
