//! The typed message envelope.
use crate::error::Error;
use crate::identity::MessageId;
use crate::message_store::MessageData;
use crate::messaging::metadata::{clone_opt, empty_meta, follows_spec, Metadata};
use vstd::prelude::*;

verus! {

/// A typed message payload: its type tag and its payload-text codec.
///
/// An implementation fixes a canonical payload text for each value. Only
/// well-formed (`wf`) values are promised to survive a round trip through
/// the log; what well-formed means is the implementation's choice (for the
/// codecs of this crate: field texts free of `"` and `\`).
pub trait MessageType: Sized {
    /// The type tag.
    spec fn message_type_spec() -> Seq<char>;

    /// Whether this value's payload text decodes back to it.
    spec fn wf(self) -> bool;

    /// The canonical payload text of this value.
    spec fn encoded(self) -> Seq<char>;

    /// Whether a payload text is the canonical text of some well-formed
    /// value.
    spec fn decodes(s: Seq<char>) -> bool;

    /// The canonical text of a well-formed value decodes.
    proof fn lemma_encoded_decodes(self)
        requires
            self.wf(),
        ensures
            Self::decodes(self.encoded()),
    ;

    /// Returns the type tag.
    fn message_type() -> (r: String)
        ensures
            r@ == Self::message_type_spec(),
    ;

    /// Renders the payload text.
    fn to_data(&self) -> (r: String)
        ensures
            r@ == self.encoded(),
    ;

    /// Parses a payload text: a well-formed value whose canonical text is
    /// exactly the given text, or nothing.
    fn from_data(s: &str) -> (r: Option<Self>)
        ensures
            match r {
                Some(v) => v.wf() && v.encoded() == s@,
                None => !Self::decodes(s@),
            },
    ;
}

/// A payload that can derive a follow-up payload of another type.
pub trait Follows<To>: Sized {
    /// Whether `r` is the follow-up this payload derives.
    spec fn follows_from(&self, r: To) -> bool;

    /// Derives the follow-up payload.
    fn follow(&self) -> (r: To)
        ensures
            self.follows_from(r),
    ;
}

/// A message: a payload, an optional identity, and metadata.
pub struct Message<T>(pub T, pub Option<MessageId>, pub Metadata);

impl<T> Message<T> {
    /// Wraps a bare payload with no identity and empty metadata.
    pub fn from_t(t: T) -> (r: Message<T>)
        ensures
            r.0 == t,
            r.1 is None,
            empty_meta(r.2),
    {
        Message(t, None, Metadata::default())
    }

    /// A message that follows `message`: its payload derived through
    /// `Follows`, its metadata marking the causation.
    pub fn follow<M: Follows<T>>(message: &Message<M>) -> (r: Message<T>)
        ensures
            message.0.follows_from(r.0),
            r.1 is None,
            follows_spec(r.2, message.2),
    {
        let metadata = Metadata::follow(&message.2);
        let data = message.0.follow();
        Message(data, None, metadata)
    }

    /// Whether this message follows `other`.
    pub fn follows<M>(&self, other: &Message<M>) -> (r: bool)
        ensures
            r == follows_spec(self.2, other.2),
    {
        self.2.follows(&other.2)
    }

    /// Whether this message is correlated to the given stream.
    pub fn correlated(&self, stream: &str) -> (r: bool)
        ensures
            r == (self.2.correlation_stream_name matches Some(s) && s@ == stream@),
    {
        self.2.correlated(stream)
    }

    /// Sets the correlation stream.
    pub fn correlate(&mut self, stream: &str)
        ensures
            final(self).0 == old(self).0,
            final(self).1 == old(self).1,
            (final(self).2.correlation_stream_name matches Some(s) && s@ == stream@),
            final(self).2.causation_message_stream_name == old(
                self,
            ).2.causation_message_stream_name,
            final(self).2.causation_message_position == old(self).2.causation_message_position,
            final(self).2.causation_message_global_position == old(
                self,
            ).2.causation_message_global_position,
            final(self).2.stream_name == old(self).2.stream_name,
            final(self).2.position == old(self).2.position,
            final(self).2.global_position == old(self).2.global_position,
    {
        self.2.correlate(stream);
    }

    /// The message's identity.
    pub fn message_id(&self) -> (r: &Option<MessageId>)
        ensures
            *r == self.1,
    {
        &self.1
    }

    /// Unwraps the payload.
    pub fn into_inner(self) -> (r: T)
        ensures
            r == self.0,
    {
        self.0
    }

    /// The message's metadata.
    pub fn metadata(&self) -> (r: &Metadata)
        ensures
            *r == self.2,
    {
        &self.2
    }

    /// Appends one trace pair to the metadata.
    pub fn add_trace(&mut self, key: String, value: String)
        ensures
            final(self).0 == old(self).0,
            final(self).1 == old(self).1,
            final(self).2.traces@ == old(self).2.traces@.push((key, value)),
    {
        self.2.add_trace(key, value);
    }
}

impl<T: MessageType> Message<T> {
    /// The record this message appends: the payload's canonical text under
    /// the payload's type tag, with the envelope columns from the metadata.
    /// The record's own metadata blob is left empty.
    pub fn as_message_data(&self) -> (r: MessageData)
        ensures
            r.id == self.1,
            r.message_type@ == T::message_type_spec(),
            r.stream_name == self.2.stream_name,
            r.position == self.2.position,
            r.global_position == self.2.global_position,
            r.data@ == self.0.encoded(),
            r.metadata@ == "{}"@,
            r.time == self.2.time,
    {
        MessageData {
            id: self.1,
            message_type: T::message_type(),
            stream_name: clone_opt(&self.2.stream_name),
            position: self.2.position,
            global_position: self.2.global_position,
            data: self.0.to_data(),
            metadata: "{}".to_owned(),
            time: self.2.time,
        }
    }

    /// As `as_message_data`, consuming the message.
    pub fn into_message_data(self) -> (r: MessageData)
        ensures
            r.id == self.1,
            r.message_type@ == T::message_type_spec(),
            r.stream_name == self.2.stream_name,
            r.position == self.2.position,
            r.global_position == self.2.global_position,
            r.data@ == self.0.encoded(),
            r.metadata@ == "{}"@,
            r.time == self.2.time,
    {
        self.as_message_data()
    }

    /// Decodes a record into a typed message: the record's type tag must
    /// equal the payload type's tag and its payload text must decode;
    /// otherwise the record is not of the expected type.
    pub fn try_from(value: MessageData) -> (r: Result<Message<T>, Error>)
        ensures
            match r {
                Ok(msg) => value.message_type@ == T::message_type_spec() && msg.0.wf()
                    && msg.0.encoded() == value.data@ && msg.1 == value.id && msg.2.stream_name
                    == value.stream_name && msg.2.position == value.position
                    && msg.2.global_position == value.global_position && msg.2.time == value.time
                    && (msg.2.message_type matches Some(t) && t == value.message_type),
                Err(e) => e == Error::MessageType && (value.message_type@
                    != T::message_type_spec() || !T::decodes(value.data@)),
            },
    {
        let tag = T::message_type();
        if value.message_type.eq(&tag) {
            match T::from_data(value.data.as_str()) {
                Some(v) => {
                    let metadata = Metadata::from_record(&value);
                    Ok(Message(v, value.id, metadata))
                },
                None => Err(Error::MessageType),
            }
        } else {
            Err(Error::MessageType)
        }
    }
}

} // verus!
