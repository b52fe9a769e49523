//! The position store: a consumer's read progress, kept as ordinary
//! records on a stream derived from the consumer's category.
use crate::error::Error;
use crate::message_store::{in_stream, matching, MessageData, MessageStore};
use crate::messaging::message::{Message, MessageType};
use crate::stream_name::{render_key, SnKey, StreamName};
use crate::text;
use vstd::prelude::*;

verus! {

/// The payload of a consumer position record: one integer, the global
/// position of the last record the consumer has fully processed.
#[derive(Clone, Copy, PartialEq, Eq, Structural, Debug)]
pub struct Position {
    pub position: i64,
}

impl MessageType for Position {
    open spec fn message_type_spec() -> Seq<char> {
        "Position"@
    }

    open spec fn wf(self) -> bool {
        true
    }

    open spec fn encoded(self) -> Seq<char> {
        text::dec_int(self.position as int)
    }

    open spec fn decodes(s: Seq<char>) -> bool {
        text::parse_int_spec(s) matches Some(v) && text::dec_int(v as int) == s
    }

    proof fn lemma_encoded_decodes(self) {
        text::lemma_dec_int_round_trip(self.position);
    }

    fn message_type() -> (r: String) {
        "Position".to_owned()
    }

    fn to_data(&self) -> (r: String) {
        text::i64_to_string(self.position)
    }

    fn from_data(s: &str) -> (r: Option<Self>) {
        match text::parse_i64(s) {
            Some(v) => {
                let e = text::i64_to_string(v);
                if text::str_eq(e.as_str(), s) {
                    Some(Position { position: v })
                } else {
                    None
                }
            },
            None => None,
        }
    }
}

/// The position payload's encoding is injective: equal payload texts mean
/// equal payloads, so a position record read back is the position written.
pub proof fn lemma_position_encode_injective(a: Position, b: Position)
    requires
        a.encoded() == b.encoded(),
    ensures
        a == b,
{
    text::lemma_dec_int_round_trip(a.position);
    text::lemma_dec_int_round_trip(b.position);
}

/// The key of the position stream derived from a category: the reserved
/// `position` type tag is added when absent, and the consumer's identity
/// becomes the identifier when one is given.
pub open spec fn position_key(k: SnKey, consumer: Option<Seq<char>>) -> SnKey {
    SnKey {
        category: k.category,
        types: if k.types.contains("position"@) {
            k.types
        } else {
            k.types.push("position"@)
        },
        id: consumer,
    }
}

/// Derives the position stream name of a category. The name must be a
/// category (no identifier); a name that already carries an identifier is
/// malformed input.
pub fn position_stream_name(stream_name: &StreamName, consumer_identifier: Option<&String>) -> (r:
    Result<StreamName, Error>)
    ensures
        match r {
            Ok(name) => stream_name.is_category_spec() && name.key() == position_key(
                stream_name.key(),
                match consumer_identifier {
                    Some(c) => Some(c@),
                    None => None,
                },
            ),
            Err(e) => e == Error::StreamName && !stream_name.is_category_spec(),
        },
{
    if !stream_name.is_category() {
        return Err(Error::StreamName);
    }
    let ghost orig = stream_name.types.deep_view();
    let mut types: Vec<String> = Vec::new();
    let mut found: bool = false;
    let mut i: usize = 0;
    while i < stream_name.types.len()
        invariant
            0 <= i <= stream_name.types@.len(),
            orig == stream_name.types.deep_view(),
            types@.len() == i,
            forall|j: int| 0 <= j < i ==> types@[j] == stream_name.types@[j],
            found == (exists|j: int| 0 <= j < i && orig[j] == "position"@),
        decreases stream_name.types@.len() - i,
    {
        let t = &stream_name.types[i];
        if text::str_eq(t.as_str(), "position") {
            found = true;
            proof {
                assert(orig[i as int] == "position"@);
            }
        }
        types.push(t.clone());
        i += 1;
    }
    proof {
        assert(types@ =~= stream_name.types@);
        assert(found == orig.contains("position"@));
    }
    if !found {
        types.push("position".to_owned());
        proof {
            assert(types.deep_view() =~= orig.push("position"@));
        }
    } else {
        proof {
            assert(types.deep_view() =~= orig);
        }
    }
    let id: Option<String> = match consumer_identifier {
        Some(c) => Some(c.clone()),
        None => None,
    };
    let r = StreamName { category: stream_name.category.clone(), types, id };
    proof {
        assert(r.key() =~= position_key(
            stream_name.key(),
            match consumer_identifier {
                Some(c) => Some(c@),
                None => None::<Seq<char>>,
            },
        ));
    }
    Ok(r)
}

/// What the last record of the position stream under key `k` says: the
/// recorded position, or nothing when the stream is empty or its last
/// record is not a well-formed position record.
pub open spec fn last_position_spec(log: Seq<MessageData>, k: SnKey) -> Option<i64> {
    let ms = matching(log, render_key(k));
    if ms.len() == 0 {
        None
    } else {
        let rec = ms.last();
        if rec.message_type@ == "Position"@ && (match text::parse_int_spec(rec.data@) {
            Some(v) => text::dec_int(v as int) == rec.data@,
            None => false,
        }) {
            text::parse_int_spec(rec.data@)
        } else {
            None
        }
    }
}

/// Reads the consumer's last recorded position: the value of the last
/// record on the derived position stream, or nothing when that stream is
/// empty (the consumer never recorded progress).
pub fn get_last(
    store: &MessageStore,
    category: &StreamName,
    consumer_identity: Option<&String>,
) -> (r: Result<Option<i64>, Error>)
    requires
        store.wf(),
    ensures
        match r {
            Ok(p) => category.is_category_spec() && p == last_position_spec(
                store.records(),
                position_key(
                    category.key(),
                    match consumer_identity {
                        Some(c) => Some(c@),
                        None => None,
                    },
                ),
            ),
            Err(e) => e == Error::StreamName && !category.is_category_spec(),
        },
{
    let name = match position_stream_name(category, consumer_identity) {
        Ok(name) => name,
        Err(e) => {
            return Err(e);
        },
    };
    let last = match store.get_last(&name) {
        Ok(last) => last,
        Err(e) => {
            return Err(e);
        },
    };
    match last {
        Some(rec) => {
            let ghost data_view = rec.data@;
            match Message::<Position>::try_from(rec) {
                Ok(msg) => {
                    proof {
                        text::lemma_dec_int_round_trip(msg.0.position);
                    }
                    Ok(Some(msg.into_inner().position))
                },
                Err(_) => Ok(None),
            }
        },
        None => Ok(None),
    }
}

/// What `update` appends: one record on the derived position stream,
/// carrying the position as its payload, with everything before it kept.
pub open spec fn position_appended(
    oldlog: Seq<MessageData>,
    newlog: Seq<MessageData>,
    k: SnKey,
    p: i64,
) -> bool {
    newlog.len() == oldlog.len() + 1 && newlog.take(oldlog.len() as int) == oldlog && ({
        let rec = newlog.last();
        in_stream(rec, render_key(k)) && rec.message_type@ == "Position"@ && rec.data@
            == text::dec_int(p as int)
    })
}

/// Records the consumer's position on the derived stream, with no
/// concurrency precondition: the last writer wins, which is acceptable for
/// advisory progress.
pub fn update(
    store: &mut MessageStore,
    category: &StreamName,
    consumer_identity: Option<&String>,
    position: i64,
) -> (r: Result<(), Error>)
    requires
        old(store).wf(),
    ensures
        final(store).wf(),
        final(store).settings_view() == old(store).settings_view(),
        match r {
            Ok(()) => category.is_category_spec() && old(store).records().len()
                < 0x7fff_ffff_ffff_ffff && position_appended(
                old(store).records(),
                final(store).records(),
                position_key(
                    category.key(),
                    match consumer_identity {
                        Some(c) => Some(c@),
                        None => None,
                    },
                ),
                position,
            ),
            Err(e) => match e {
                Error::StreamName => !category.is_category_spec() && final(store).records() == old(
                    store,
                ).records(),
                Error::Store(_) => category.is_category_spec() && old(store).records().len()
                    >= 0x7fff_ffff_ffff_ffff && final(store).records() == old(store).records(),
                _ => false,
            },
        },
{
    let name = match position_stream_name(category, consumer_identity) {
        Ok(name) => name,
        Err(e) => {
            return Err(e);
        },
    };
    let message = Message::from_t(Position { position });
    let data = message.as_message_data();
    match store.put(&data, &name, None) {
        Ok(_) => {
            proof {
                assert(final(store).records().take(old(store).records().len() as int) =~= old(
                    store,
                ).records());
            }
            Ok(())
        },
        Err(e) => {
            match &e {
                Error::Store(_) => {},
                _ => {
                    proof {
                        assert(false);
                    }
                },
            }
            Err(e)
        },
    }
}

/// Progress recorded is progress read back: after `update` appends
/// position `p` for a consumer, the last position of the derived stream
/// reads exactly `p`. A consumer resuming from it polls strictly after
/// `p`, so nothing at or before `p` is redelivered.
pub proof fn lemma_position_round_trip(
    oldlog: Seq<MessageData>,
    newlog: Seq<MessageData>,
    k: SnKey,
    p: i64,
)
    requires
        position_appended(oldlog, newlog, k, p),
    ensures
        last_position_spec(newlog, k) == Some(p),
{
    let rec = newlog.last();
    assert(newlog =~= oldlog.push(rec));
    crate::message_store::lemma_matching_push(oldlog, render_key(k), rec);
    let ms = matching(newlog, render_key(k));
    assert(ms.len() > 0 && ms.last() == rec);
    text::lemma_dec_int_round_trip(p);
}

} // verus!
