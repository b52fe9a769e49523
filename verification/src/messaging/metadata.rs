//! Metadata of a message: where it sits in the log, and how it relates to
//! the messages that caused it.
use crate::message_store::MessageData;
use vstd::prelude::*;

verus! {

/// The metadata of one message.
pub struct Metadata {
    /// Where the record sits: filled by the store on append.
    pub stream_name: Option<String>,
    pub position: Option<i64>,
    pub global_position: Option<i64>,
    pub time: Option<i64>,
    pub message_type: Option<String>,
    /// The correlation trail.
    pub correlation_stream_name: Option<String>,
    pub reply_stream_name: Option<String>,
    /// Which message this one follows.
    pub causation_message_stream_name: Option<String>,
    pub causation_message_position: Option<i64>,
    pub causation_message_global_position: Option<i64>,
    pub schema_version: Option<String>,
    /// Free-form trace pairs.
    pub traces: Vec<(String, String)>,
}

/// Whether a metadata value carries nothing at all.
pub open spec fn empty_meta(m: Metadata) -> bool {
    m.stream_name is None && m.position is None && m.global_position is None && m.time is None
        && m.message_type is None && m.correlation_stream_name is None && m.reply_stream_name
        is None && m.causation_message_stream_name is None && m.causation_message_position is None
        && m.causation_message_global_position is None && m.schema_version is None && m.traces@
        =~= Seq::<(String, String)>::empty()
}

/// Whether metadata `a` marks the message that carries it as following the
/// message whose metadata is `b`: `a`'s causation triple names `b`'s place
/// in the log, and their correlation trails agree.
pub open spec fn follows_spec(a: Metadata, b: Metadata) -> bool {
    a.causation_message_stream_name.deep_view() == b.stream_name.deep_view()
        && a.causation_message_position == b.position && a.causation_message_global_position
        == b.global_position && a.correlation_stream_name.deep_view()
        == b.correlation_stream_name.deep_view()
}

/// Compares two optional texts by their characters.
pub fn opt_text_eq(a: &Option<String>, b: &Option<String>) -> (r: bool)
    ensures
        r == (a.deep_view() == b.deep_view()),
{
    match (a, b) {
        (Some(x), Some(y)) => x.eq(y),
        (None, None) => true,
        _ => false,
    }
}

impl Default for Metadata {
    /// Metadata that carries nothing.
    fn default() -> (r: Metadata)
        ensures
            empty_meta(r),
    {
        let r = Metadata {
            stream_name: None,
            position: None,
            global_position: None,
            time: None,
            message_type: None,
            correlation_stream_name: None,
            reply_stream_name: None,
            causation_message_stream_name: None,
            causation_message_position: None,
            causation_message_global_position: None,
            schema_version: None,
            traces: Vec::new(),
        };
        proof {
            assert(r.traces@ =~= Seq::<(String, String)>::empty());
        }
        r
    }
}

impl Metadata {
    /// The metadata of a message that follows the message carrying `other`:
    /// the causation triple names `other`'s place in the log, and the
    /// correlation and reply trails are carried over.
    pub fn follow(other: &Metadata) -> (r: Metadata)
        ensures
            follows_spec(r, *other),
            r.reply_stream_name.deep_view() == other.reply_stream_name.deep_view(),
            r.stream_name is None,
            r.position is None,
            r.global_position is None,
            r.time is None,
            r.message_type is None,
            r.schema_version is None,
            r.traces@ =~= Seq::<(String, String)>::empty(),
    {
        let r = Metadata {
            stream_name: None,
            position: None,
            global_position: None,
            time: None,
            message_type: None,
            correlation_stream_name: clone_opt(&other.correlation_stream_name),
            reply_stream_name: clone_opt(&other.reply_stream_name),
            causation_message_stream_name: clone_opt(&other.stream_name),
            causation_message_position: other.position,
            causation_message_global_position: other.global_position,
            schema_version: None,
            traces: Vec::new(),
        };
        proof {
            assert(r.traces@ =~= Seq::<(String, String)>::empty());
        }
        r
    }

    /// Whether the message carrying this metadata follows the one carrying
    /// `other`.
    pub fn follows(&self, other: &Metadata) -> (r: bool)
        ensures
            r == follows_spec(*self, *other),
    {
        opt_text_eq(&self.causation_message_stream_name, &other.stream_name) && opt_i64_eq(
            &self.causation_message_position,
            &other.position,
        ) && opt_i64_eq(&self.causation_message_global_position, &other.global_position)
            && opt_text_eq(&self.correlation_stream_name, &other.correlation_stream_name)
    }

    /// Sets the correlation stream.
    pub fn correlate(&mut self, stream: &str)
        ensures
            (final(self).correlation_stream_name matches Some(s) && s@ == stream@),
            final(self).stream_name == old(self).stream_name,
            final(self).position == old(self).position,
            final(self).global_position == old(self).global_position,
            final(self).time == old(self).time,
            final(self).message_type == old(self).message_type,
            final(self).reply_stream_name == old(self).reply_stream_name,
            final(self).causation_message_stream_name == old(self).causation_message_stream_name,
            final(self).causation_message_position == old(self).causation_message_position,
            final(self).causation_message_global_position == old(
                self,
            ).causation_message_global_position,
            final(self).schema_version == old(self).schema_version,
            final(self).traces == old(self).traces,
    {
        self.correlation_stream_name = Some(stream.to_owned());
    }

    /// Whether this metadata is correlated to the given stream.
    pub fn correlated(&self, stream: &str) -> (r: bool)
        ensures
            r == (self.correlation_stream_name matches Some(s) && s@ == stream@),
    {
        match &self.correlation_stream_name {
            Some(s) => crate::text::str_eq(s.as_str(), stream),
            None => false,
        }
    }

    /// Appends one trace pair.
    pub fn add_trace(&mut self, key: String, value: String)
        ensures
            final(self).traces@ == old(self).traces@.push((key, value)),
            final(self).stream_name == old(self).stream_name,
            final(self).position == old(self).position,
            final(self).global_position == old(self).global_position,
            final(self).time == old(self).time,
            final(self).message_type == old(self).message_type,
            final(self).correlation_stream_name == old(self).correlation_stream_name,
            final(self).reply_stream_name == old(self).reply_stream_name,
            final(self).causation_message_stream_name == old(self).causation_message_stream_name,
            final(self).causation_message_position == old(self).causation_message_position,
            final(self).causation_message_global_position == old(
                self,
            ).causation_message_global_position,
            final(self).schema_version == old(self).schema_version,
    {
        self.traces.push((key, value));
    }

    /// The metadata a record's envelope columns give: its place in the log
    /// and its type tag.
    pub fn from_record(m: &MessageData) -> (r: Metadata)
        ensures
            r.stream_name == m.stream_name,
            r.position == m.position,
            r.global_position == m.global_position,
            r.time == m.time,
            (r.message_type matches Some(t) && t == m.message_type),
            r.correlation_stream_name is None,
            r.reply_stream_name is None,
            r.causation_message_stream_name is None,
            r.causation_message_position is None,
            r.causation_message_global_position is None,
            r.schema_version is None,
            r.traces@ =~= Seq::<(String, String)>::empty(),
    {
        let r = Metadata {
            stream_name: clone_opt(&m.stream_name),
            position: m.position,
            global_position: m.global_position,
            time: m.time,
            message_type: Some(m.message_type.clone()),
            correlation_stream_name: None,
            reply_stream_name: None,
            causation_message_stream_name: None,
            causation_message_position: None,
            causation_message_global_position: None,
            schema_version: None,
            traces: Vec::new(),
        };
        proof {
            assert(r.traces@ =~= Seq::<(String, String)>::empty());
        }
        r
    }
}

/// Copies an optional text; the copy equals the original.
pub fn clone_opt(o: &Option<String>) -> (r: Option<String>)
    ensures
        r == *o,
{
    match o {
        Some(s) => Some(s.clone()),
        None => None,
    }
}

/// Compares two optional integers.
pub fn opt_i64_eq(a: &Option<i64>, b: &Option<i64>) -> (r: bool)
    ensures
        r == (*a == *b),
{
    match (a, b) {
        (Some(x), Some(y)) => *x == *y,
        (None, None) => true,
        _ => false,
    }
}

} // verus!
