//! Writing typed messages: thin verified helpers over `put` that turn a
//! message envelope into a record.
use crate::error::Error;
use crate::message_store::{
    conflict_message, in_stream, stream_version, MessageData, MessageStore,
};
use crate::messaging::message::{Message, MessageType};
use crate::stream_name::{render_key, StreamName};
use vstd::prelude::*;

verus! {

/// What writing a message appends: one record carrying the payload's type
/// tag and canonical text, at the stream's next position, with everything
/// before it kept. The caller's identity is kept; one is assigned when
/// absent.
pub open spec fn message_written<T: MessageType>(
    oldlog: Seq<MessageData>,
    newlog: Seq<MessageData>,
    t: Seq<char>,
    message: Message<T>,
) -> bool {
    newlog.len() == oldlog.len() + 1 && newlog.take(oldlog.len() as int) == oldlog && ({
        let rec = newlog.last();
        in_stream(rec, t) && rec.message_type@ == T::message_type_spec() && rec.data@
            == message.0.encoded() && rec.position == Some(
            (stream_version(oldlog, t) + 1) as i64,
        ) && rec.id is Some && (message.1 is Some ==> rec.id == message.1)
    })
}

impl MessageStore {
    /// Appends a message with no concurrency precondition.
    pub fn write<T: MessageType>(&mut self, message: &Message<T>, stream_name: &StreamName) -> (r:
        Result<(), Error>)
        requires
            old(self).wf(),
        ensures
            final(self).wf(),
            final(self).settings_view() == old(self).settings_view(),
            match r {
                Ok(()) => message_written(
                    old(self).records(),
                    final(self).records(),
                    render_key(stream_name.key()),
                    *message,
                ),
                Err(e) => final(self).records() == old(self).records() && (e matches Error::Store(_)
                    && old(self).records().len() >= 0x7fff_ffff_ffff_ffff),
            },
    {
        let data = message.as_message_data();
        match self.put(&data, stream_name, None) {
            Ok(_) => {
                proof {
                    assert(final(self).records().take(old(self).records().len() as int) =~= old(
                        self,
                    ).records());
                }
                Ok(())
            },
            Err(e) => {
                match &e {
                    Error::Store(_) => {},
                    _ => {
                        proof {
                            assert(false);
                        }
                    },
                }
                Err(e)
            },
        }
    }

    /// Appends a message that expects the stream's last position to equal
    /// `expected_version`.
    pub fn write_position<T: MessageType>(
        &mut self,
        message: &Message<T>,
        stream_name: &StreamName,
        expected_version: i64,
    ) -> (r: Result<(), Error>)
        requires
            old(self).wf(),
        ensures
            final(self).wf(),
            final(self).settings_view() == old(self).settings_view(),
            ({
                let t = render_key(stream_name.key());
                let cur = stream_version(old(self).records(), t);
                match r {
                    Ok(()) => expected_version == cur && message_written(
                        old(self).records(),
                        final(self).records(),
                        t,
                        *message,
                    ),
                    Err(e) => final(self).records() == old(self).records() && (match e {
                        Error::ExpectedVersion(msg) => expected_version != cur && msg@
                            == conflict_message(expected_version as int, t, cur),
                        Error::Store(_) => expected_version == cur && old(self).records().len()
                            >= 0x7fff_ffff_ffff_ffff,
                        _ => false,
                    }),
                }
            }),
    {
        let data = message.as_message_data();
        match self.put(&data, stream_name, Some(expected_version)) {
            Ok(_) => {
                proof {
                    assert(final(self).records().take(old(self).records().len() as int) =~= old(
                        self,
                    ).records());
                }
                Ok(())
            },
            Err(e) => Err(e),
        }
    }

    /// Appends a message that expects the stream not to exist yet.
    pub fn write_initial<T: MessageType>(
        &mut self,
        message: &Message<T>,
        stream_name: &StreamName,
    ) -> (r: Result<(), Error>)
        requires
            old(self).wf(),
        ensures
            final(self).wf(),
            final(self).settings_view() == old(self).settings_view(),
            ({
                let t = render_key(stream_name.key());
                let cur = stream_version(old(self).records(), t);
                match r {
                    Ok(()) => cur == -1 && message_written(
                        old(self).records(),
                        final(self).records(),
                        t,
                        *message,
                    ),
                    Err(e) => final(self).records() == old(self).records() && (match e {
                        Error::ExpectedVersion(msg) => cur != -1 && msg@ == conflict_message(
                            -1,
                            t,
                            cur,
                        ),
                        Error::Store(_) => cur == -1 && old(self).records().len()
                            >= 0x7fff_ffff_ffff_ffff,
                        _ => false,
                    }),
                }
            }),
    {
        let data = message.as_message_data();
        match self.put(&data, stream_name, Some(-1)) {
            Ok(_) => {
                proof {
                    assert(final(self).records().take(old(self).records().len() as int) =~= old(
                        self,
                    ).records());
                }
                Ok(())
            },
            Err(e) => Err(e),
        }
    }
}

} // verus!
