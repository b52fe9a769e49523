//! Example payload types, fixtures and a small entity, used by the test
//! suite and usable as a model for real payload types.
use crate::entity_store::{EntityBuilder, EntityCategory, EntityStoreEntity};
use crate::identity::MessageId;
use crate::message_store::MessageData;
use crate::messaging::message::{Follows, Message, MessageType};
use crate::messaging::metadata::{empty_meta, Metadata};
use crate::text;
use vstd::prelude::*;

verus! {

/// Whether a field text survives the payload codecs: it holds no quote
/// and no backslash.
pub open spec fn clean_text(s: Seq<char>) -> bool {
    text::no_char(s, '"') && text::no_char(s, '\\')
}

/// An example command payload.
#[derive(Debug, Clone)]
pub struct Command {
    pub field1: String,
    pub field2: String,
}

/// An example event payload.
#[derive(Debug, Clone)]
pub struct Event {
    pub field1: String,
    pub field2: String,
    pub field3: String,
}

/// The canonical payload text of an event.
pub open spec fn event_encoded_spec(f1: Seq<char>, f2: Seq<char>, f3: Seq<char>) -> Seq<char> {
    "{\"field1\":\""@ + f1 + "\",\"field2\":\""@ + f2 + "\",\"field3\":\""@ + f3 + "\"}"@
}

/// Whether a text is the canonical payload text of some event.
pub open spec fn event_decodes_spec(s: Seq<char>) -> bool {
    let p1 = "{\"field1\":\""@;
    let m1 = "\",\"field2\":\""@;
    let m2 = "\",\"field3\":\""@;
    let suf = "\"}"@;
    text::occurs_at(s, 0, p1) && {
        let q1 = text::find_char_spec(s, p1.len() as int, '"');
        q1 >= 0 && text::occurs_at(s, q1, m1) && {
            let q2 = text::find_char_spec(s, q1 + m1.len(), '"');
            q2 >= 0 && text::occurs_at(s, q2, m2) && {
                let q3 = text::find_char_spec(s, q2 + m2.len(), '"');
                q3 >= 0 && q3 + suf.len() == s.len() && text::occurs_at(s, q3, suf) && text::no_char(
                    s.subrange(p1.len() as int, q1),
                    '\\',
                ) && text::no_char(s.subrange(q1 + m1.len(), q2), '\\') && text::no_char(
                    s.subrange(q2 + m2.len(), q3),
                    '\\',
                )
            }
        }
    }
}

impl MessageType for Event {
    open spec fn message_type_spec() -> Seq<char> {
        "Event"@
    }

    open spec fn wf(self) -> bool {
        clean_text(self.field1@) && clean_text(self.field2@) && clean_text(self.field3@)
    }

    open spec fn encoded(self) -> Seq<char> {
        event_encoded_spec(self.field1@, self.field2@, self.field3@)
    }

    open spec fn decodes(s: Seq<char>) -> bool {
        event_decodes_spec(s)
    }

    proof fn lemma_encoded_decodes(self) {
        reveal_strlit("{\"field1\":\"");
        reveal_strlit("\",\"field2\":\"");
        reveal_strlit("\",\"field3\":\"");
        reveal_strlit("\"}");
        let p1 = "{\"field1\":\""@;
        let m1 = "\",\"field2\":\""@;
        let m2 = "\",\"field3\":\""@;
        let suf = "\"}"@;
        let f1 = self.field1@;
        let f2 = self.field2@;
        let f3 = self.field3@;
        let s = self.encoded();
        let rest1 = m1 + f2 + m2 + f3 + suf;
        assert(s =~= p1 + f1 + rest1);
        text::lemma_find_in_concat(s, p1, f1, rest1, '"');
        let q1 = p1.len() as int + f1.len() as int;
        assert(s.subrange(0, p1.len() as int) =~= p1);
        assert(s.subrange(q1, q1 + m1.len()) =~= m1);
        let pre2 = p1 + f1 + m1;
        let rest2 = m2 + f3 + suf;
        assert(s =~= pre2 + f2 + rest2);
        text::lemma_find_in_concat(s, pre2, f2, rest2, '"');
        let q2 = pre2.len() as int + f2.len() as int;
        assert(pre2.len() == q1 + m1.len());
        assert(s.subrange(q2, q2 + m2.len()) =~= m2);
        let pre3 = pre2 + f2 + m2;
        assert(s =~= pre3 + f3 + suf);
        text::lemma_find_in_concat(s, pre3, f3, suf, '"');
        let q3 = pre3.len() as int + f3.len() as int;
        assert(pre3.len() == q2 + m2.len());
        assert(q3 + suf.len() == s.len());
        assert(s.subrange(q3, q3 + suf.len()) =~= suf);
        assert(s.subrange(p1.len() as int, q1) =~= f1);
        assert(s.subrange(q1 + m1.len(), q2) =~= f2);
        assert(s.subrange(q2 + m2.len(), q3) =~= f3);
    }

    fn message_type() -> (r: String) {
        "Event".to_owned()
    }

    fn to_data(&self) -> (r: String) {
        let mut out: String = "{\"field1\":\"".to_owned();
        out.append(self.field1.as_str());
        out.append("\",\"field2\":\"");
        out.append(self.field2.as_str());
        out.append("\",\"field3\":\"");
        out.append(self.field3.as_str());
        out.append("\"}");
        proof {
            assert(out@ =~= self.encoded());
        }
        out
    }

    fn from_data(s: &str) -> (r: Option<Self>) {
        let n = s.unicode_len();
        let p1 = "{\"field1\":\"";
        if !text::match_at(s, 0, p1) {
            return None;
        }
        let p1len = p1.unicode_len();
        let q1 = match text::find_char_e(s, p1len, '"') {
            Some(q) => q,
            None => {
                return None;
            },
        };
        proof {
            text::lemma_find_char_spec(s@, p1len as int, '"');
        }
        let m1 = "\",\"field2\":\"";
        if !text::match_at(s, q1, m1) {
            return None;
        }
        let m1len = m1.unicode_len();
        let q2 = match text::find_char_e(s, q1 + m1len, '"') {
            Some(q) => q,
            None => {
                return None;
            },
        };
        proof {
            text::lemma_find_char_spec(s@, q1 as int + m1len as int, '"');
        }
        let m2 = "\",\"field3\":\"";
        if !text::match_at(s, q2, m2) {
            return None;
        }
        let m2len = m2.unicode_len();
        let q3 = match text::find_char_e(s, q2 + m2len, '"') {
            Some(q) => q,
            None => {
                return None;
            },
        };
        proof {
            text::lemma_find_char_spec(s@, q2 as int + m2len as int, '"');
        }
        let suf = "\"}";
        if !text::match_at(s, q3, suf) {
            return None;
        }
        let suflen = suf.unicode_len();
        if q3 + suflen != n {
            return None;
        }
        let field1 = text::substring_string(s, p1len, q1);
        let field2 = text::substring_string(s, q1 + m1len, q2);
        let field3 = text::substring_string(s, q2 + m2len, q3);
        match text::find_char_e(field1.as_str(), 0, '\\') {
            Some(_) => {
                proof {
                    text::lemma_find_char_spec(field1@, 0, '\\');
                }
                return None;
            },
            None => {
                proof {
                    text::lemma_find_char_spec(field1@, 0, '\\');
                }
            },
        }
        match text::find_char_e(field2.as_str(), 0, '\\') {
            Some(_) => {
                proof {
                    text::lemma_find_char_spec(field2@, 0, '\\');
                }
                return None;
            },
            None => {
                proof {
                    text::lemma_find_char_spec(field2@, 0, '\\');
                }
            },
        }
        match text::find_char_e(field3.as_str(), 0, '\\') {
            Some(_) => {
                proof {
                    text::lemma_find_char_spec(field3@, 0, '\\');
                }
                return None;
            },
            None => {
                proof {
                    text::lemma_find_char_spec(field3@, 0, '\\');
                }
            },
        }
        let ev = Event { field1, field2, field3 };
        proof {
            assert(ev.encoded() =~= s@);
        }
        Some(ev)
    }
}

impl Default for Event {
    /// An event with empty fields.
    fn default() -> (r: Event)
        ensures
            r.field1@ == Seq::<char>::empty(),
            r.field2@ == Seq::<char>::empty(),
            r.field3@ == Seq::<char>::empty(),
    {
        Event { field1: String::new(), field2: String::new(), field3: String::new() }
    }
}

/// The canonical payload text of a command.
pub open spec fn command_encoded_spec(f1: Seq<char>, f2: Seq<char>) -> Seq<char> {
    "{\"field1\":\""@ + f1 + "\",\"field2\":\""@ + f2 + "\"}"@
}

/// Whether a text is the canonical payload text of some command.
pub open spec fn command_decodes_spec(s: Seq<char>) -> bool {
    let p1 = "{\"field1\":\""@;
    let m1 = "\",\"field2\":\""@;
    let suf = "\"}"@;
    text::occurs_at(s, 0, p1) && {
        let q1 = text::find_char_spec(s, p1.len() as int, '"');
        q1 >= 0 && text::occurs_at(s, q1, m1) && {
            let q2 = text::find_char_spec(s, q1 + m1.len(), '"');
            q2 >= 0 && q2 + suf.len() == s.len() && text::occurs_at(s, q2, suf) && text::no_char(
                s.subrange(p1.len() as int, q1),
                '\\',
            ) && text::no_char(s.subrange(q1 + m1.len(), q2), '\\')
        }
    }
}

impl MessageType for Command {
    open spec fn message_type_spec() -> Seq<char> {
        "Command"@
    }

    open spec fn wf(self) -> bool {
        clean_text(self.field1@) && clean_text(self.field2@)
    }

    open spec fn encoded(self) -> Seq<char> {
        command_encoded_spec(self.field1@, self.field2@)
    }

    open spec fn decodes(s: Seq<char>) -> bool {
        command_decodes_spec(s)
    }

    proof fn lemma_encoded_decodes(self) {
        reveal_strlit("{\"field1\":\"");
        reveal_strlit("\",\"field2\":\"");
        reveal_strlit("\"}");
        let p1 = "{\"field1\":\""@;
        let m1 = "\",\"field2\":\""@;
        let suf = "\"}"@;
        let f1 = self.field1@;
        let f2 = self.field2@;
        let s = self.encoded();
        let rest1 = m1 + f2 + suf;
        assert(s =~= p1 + f1 + rest1);
        text::lemma_find_in_concat(s, p1, f1, rest1, '"');
        let q1 = p1.len() as int + f1.len() as int;
        assert(s.subrange(0, p1.len() as int) =~= p1);
        assert(s.subrange(q1, q1 + m1.len()) =~= m1);
        let pre2 = p1 + f1 + m1;
        assert(s =~= pre2 + f2 + suf);
        text::lemma_find_in_concat(s, pre2, f2, suf, '"');
        let q2 = pre2.len() as int + f2.len() as int;
        assert(pre2.len() == q1 + m1.len());
        assert(q2 + suf.len() == s.len());
        assert(s.subrange(q2, q2 + suf.len()) =~= suf);
        assert(s.subrange(p1.len() as int, q1) =~= f1);
        assert(s.subrange(q1 + m1.len(), q2) =~= f2);
    }

    fn message_type() -> (r: String) {
        "Command".to_owned()
    }

    fn to_data(&self) -> (r: String) {
        let mut out: String = "{\"field1\":\"".to_owned();
        out.append(self.field1.as_str());
        out.append("\",\"field2\":\"");
        out.append(self.field2.as_str());
        out.append("\"}");
        proof {
            assert(out@ =~= self.encoded());
        }
        out
    }

    fn from_data(s: &str) -> (r: Option<Self>) {
        let n = s.unicode_len();
        let p1 = "{\"field1\":\"";
        if !text::match_at(s, 0, p1) {
            return None;
        }
        let p1len = p1.unicode_len();
        let q1 = match text::find_char_e(s, p1len, '"') {
            Some(q) => q,
            None => {
                return None;
            },
        };
        proof {
            text::lemma_find_char_spec(s@, p1len as int, '"');
        }
        let m1 = "\",\"field2\":\"";
        if !text::match_at(s, q1, m1) {
            return None;
        }
        let m1len = m1.unicode_len();
        let q2 = match text::find_char_e(s, q1 + m1len, '"') {
            Some(q) => q,
            None => {
                return None;
            },
        };
        proof {
            text::lemma_find_char_spec(s@, q1 as int + m1len as int, '"');
        }
        let suf = "\"}";
        if !text::match_at(s, q2, suf) {
            return None;
        }
        let suflen = suf.unicode_len();
        if q2 + suflen != n {
            return None;
        }
        let field1 = text::substring_string(s, p1len, q1);
        let field2 = text::substring_string(s, q1 + m1len, q2);
        match text::find_char_e(field1.as_str(), 0, '\\') {
            Some(_) => {
                proof {
                    text::lemma_find_char_spec(field1@, 0, '\\');
                }
                return None;
            },
            None => {
                proof {
                    text::lemma_find_char_spec(field1@, 0, '\\');
                }
            },
        }
        match text::find_char_e(field2.as_str(), 0, '\\') {
            Some(_) => {
                proof {
                    text::lemma_find_char_spec(field2@, 0, '\\');
                }
                return None;
            },
            None => {
                proof {
                    text::lemma_find_char_spec(field2@, 0, '\\');
                }
            },
        }
        let cmd = Command { field1, field2 };
        proof {
            assert(cmd.encoded() =~= s@);
        }
        Some(cmd)
    }
}

impl Default for Command {
    /// A command with empty fields.
    fn default() -> (r: Command)
        ensures
            r.field1@ == Seq::<char>::empty(),
            r.field2@ == Seq::<char>::empty(),
    {
        Command { field1: String::new(), field2: String::new() }
    }
}

/// The event encoding is injective on well-formed values: two well-formed
/// events with the same payload text have the same field texts. With
/// `Event::from_data`'s contract (the parsed value's canonical text is the
/// given text), a record-to-message round trip therefore loses no payload:
/// the decoded fields read character for character as the encoded ones.
/// (A `String`'s mathematical content is its character view, so the law is
/// stated over views.)
pub proof fn lemma_event_encode_injective(a: Event, b: Event)
    requires
        a.wf(),
        b.wf(),
        a.encoded() == b.encoded(),
    ensures
        a.field1@ == b.field1@,
        a.field2@ == b.field2@,
        a.field3@ == b.field3@,
{
    reveal_strlit("{\"field1\":\"");
    reveal_strlit("\",\"field2\":\"");
    reveal_strlit("\",\"field3\":\"");
    reveal_strlit("\"}");
    let p1 = "{\"field1\":\""@;
    let m1 = "\",\"field2\":\""@;
    let m2 = "\",\"field3\":\""@;
    let suf = "\"}"@;
    let s = a.encoded();
    assert(s =~= p1 + a.field1@ + (m1 + a.field2@ + m2 + a.field3@ + suf));
    assert(s =~= p1 + b.field1@ + (m1 + b.field2@ + m2 + b.field3@ + suf));
    text::lemma_find_in_concat(s, p1, a.field1@, m1 + a.field2@ + m2 + a.field3@ + suf, '"');
    text::lemma_find_in_concat(s, p1, b.field1@, m1 + b.field2@ + m2 + b.field3@ + suf, '"');
    let q1 = p1.len() as int + a.field1@.len() as int;
    assert(a.field1@.len() == b.field1@.len());
    assert(a.field1@ =~= s.subrange(p1.len() as int, q1));
    assert(b.field1@ =~= s.subrange(p1.len() as int, q1));
    let pre2a = p1 + a.field1@ + m1;
    let pre2b = p1 + b.field1@ + m1;
    assert(s =~= pre2a + a.field2@ + (m2 + a.field3@ + suf));
    assert(s =~= pre2b + b.field2@ + (m2 + b.field3@ + suf));
    text::lemma_find_in_concat(s, pre2a, a.field2@, m2 + a.field3@ + suf, '"');
    text::lemma_find_in_concat(s, pre2b, b.field2@, m2 + b.field3@ + suf, '"');
    let q2 = pre2a.len() as int + a.field2@.len() as int;
    assert(pre2a.len() == pre2b.len());
    assert(a.field2@.len() == b.field2@.len());
    assert(a.field2@ =~= s.subrange(pre2a.len() as int, q2));
    assert(b.field2@ =~= s.subrange(pre2a.len() as int, q2));
    assert(a.field3@.len() == b.field3@.len());
    let pre3 = pre2a + a.field2@ + m2;
    assert(a.field3@ =~= s.subrange(pre3.len() as int, pre3.len() as int + a.field3@.len() as int));
    assert(b.field3@ =~= s.subrange(pre3.len() as int, pre3.len() as int + a.field3@.len() as int));
}

/// The command encoding is injective on well-formed values, as
/// `lemma_event_encode_injective` is for events.
pub proof fn lemma_command_encode_injective(a: Command, b: Command)
    requires
        a.wf(),
        b.wf(),
        a.encoded() == b.encoded(),
    ensures
        a.field1@ == b.field1@,
        a.field2@ == b.field2@,
{
    reveal_strlit("{\"field1\":\"");
    reveal_strlit("\",\"field2\":\"");
    reveal_strlit("\"}");
    let p1 = "{\"field1\":\""@;
    let m1 = "\",\"field2\":\""@;
    let suf = "\"}"@;
    let s = a.encoded();
    assert(s =~= p1 + a.field1@ + (m1 + a.field2@ + suf));
    assert(s =~= p1 + b.field1@ + (m1 + b.field2@ + suf));
    text::lemma_find_in_concat(s, p1, a.field1@, m1 + a.field2@ + suf, '"');
    text::lemma_find_in_concat(s, p1, b.field1@, m1 + b.field2@ + suf, '"');
    let q1 = p1.len() as int + a.field1@.len() as int;
    assert(a.field1@.len() == b.field1@.len());
    assert(a.field1@ =~= s.subrange(p1.len() as int, q1));
    assert(b.field1@ =~= s.subrange(p1.len() as int, q1));
    assert(a.field2@.len() == b.field2@.len());
    let pre2 = p1 + a.field1@ + m1;
    assert(a.field2@ =~= s.subrange(pre2.len() as int, pre2.len() as int + a.field2@.len() as int));
    assert(b.field2@ =~= s.subrange(pre2.len() as int, pre2.len() as int + a.field2@.len() as int));
}

/// An example entity: how many events its identifier stream holds.
#[derive(Clone, Copy, PartialEq, Eq, Structural, Debug)]
pub struct EventSummary {
    pub applied: u64,
}

/// The projector of `EventSummary`: counts records that decode as events,
/// ignoring records of other or unreadable types.
pub struct SummaryProjector {
    state: EventSummary,
}

impl EntityBuilder<EventSummary> for SummaryProjector {
    open spec fn apply_spec(e: EventSummary, m: MessageData) -> EventSummary {
        if m.message_type@ == "Event"@ && event_decodes_spec(m.data@) {
            EventSummary {
                applied: if e.applied < 0xffff_ffff_ffff_ffff {
                    (e.applied + 1) as u64
                } else {
                    e.applied
                },
            }
        } else {
            e
        }
    }

    closed spec fn entity_spec(&self) -> EventSummary {
        self.state
    }

    fn initialize(&mut self, base_entity: &EventSummary) {
        self.state = EventSummary { applied: base_entity.applied };
    }

    fn apply(&mut self, message: MessageData) {
        let is_event = text::str_eq(message.message_type.as_str(), "Event");
        if is_event {
            match Event::from_data(message.data.as_str()) {
                Some(v) => {
                    proof {
                        v.lemma_encoded_decodes();
                    }
                    if self.state.applied < 0xffff_ffff_ffff_ffff {
                        self.state = EventSummary { applied: self.state.applied + 1 };
                    }
                },
                None => {},
            }
        }
    }

    fn entity(&mut self) -> (r: EventSummary) {
        EventSummary { applied: self.state.applied }
    }
}

impl EntityStoreEntity for EventSummary {
    type Projector = SummaryProjector;

    open spec fn initial_spec() -> EventSummary {
        EventSummary { applied: 0 }
    }

    fn get_projector() -> (p: SummaryProjector) {
        SummaryProjector { state: EventSummary { applied: 0 } }
    }
}

impl EntityCategory for EventSummary {
    fn get_category() -> String {
        "summary".to_owned()
    }
}

/// A fixed field text.
pub fn field1() -> (r: String)
    ensures
        r@ == "field1"@,
{
    "field1".to_owned()
}

/// A fixed field text.
pub fn field2() -> (r: String)
    ensures
        r@ == "field2"@,
{
    "field2".to_owned()
}

/// A fixed field text.
pub fn field3() -> (r: String)
    ensures
        r@ == "field3"@,
{
    "field3".to_owned()
}

/// A fixed message identity.
pub fn id() -> (r: Option<MessageId>)
    ensures
        r == Some(MessageId { hi: 0xa1a2a3a4b1b2c1c2, lo: 0xd1d2d3d4d5d6d7d8 }),
{
    Some(MessageId { hi: 0xa1a2a3a4b1b2c1c2, lo: 0xd1d2d3d4d5d6d7d8 })
}

/// An example command message with the fixed fields and empty metadata.
pub fn command() -> (r: Message<Command>)
    ensures
        r.0.field1@ == "field1"@,
        r.0.field2@ == "field2"@,
        r.1 is Some,
        empty_meta(r.2),
{
    Message(Command { field1: field1(), field2: field2() }, id(), Metadata::default())
}

/// An example event message with the fixed fields and empty metadata.
pub fn event() -> (r: Message<Event>)
    ensures
        r.0.field1@ == "field1"@,
        r.0.field2@ == "field2"@,
        r.0.field3@ == "field3"@,
        r.1 is Some,
        empty_meta(r.2),
{
    Message(Event { field1: field1(), field2: field2(), field3: field3() }, id(), Metadata::default())
}

/// An example event message.
pub fn example() -> (r: Message<Event>)
    ensures
        r.0.field1@ == "field1"@,
        r.0.field2@ == "field2"@,
        r.0.field3@ == "field3"@,
{
    event()
}

/// The payload text of the example event.
pub fn data() -> (r: String)
    ensures
        r@ == event_encoded_spec("field1"@, "field2"@, "field3"@),
{
    let ev = Event { field1: field1(), field2: field2(), field3: field3() };
    ev.to_data()
}

/// A fixed metadata blob text.
pub fn metadata() -> (r: String)
    ensures
        r@ == "{\"schema_version\":\"1\"}"@,
{
    "{\"schema_version\":\"1\"}".to_owned()
}

/// A bare example record, as a caller hands one to the store: no identity
/// and nothing assigned yet.
pub fn new_example() -> (r: MessageData)
    ensures
        r.id is None,
        r.message_type@ == "Event"@,
        r.stream_name is None,
        r.position is None,
        r.global_position is None,
        r.data@ == event_encoded_spec("field1"@, "field2"@, "field3"@),
{
    MessageData {
        id: None,
        message_type: "Event".to_owned(),
        stream_name: None,
        position: None,
        global_position: None,
        data: data(),
        metadata: metadata(),
        time: None,
    }
}

/// An example record as the store would return it: every assigned field
/// filled in.
pub fn example_record() -> (r: MessageData)
    ensures
        r.id is Some,
        r.message_type@ == "Event"@,
        (r.stream_name matches Some(s) && s@ == "summary-someIdentity"@),
        r.position == Some(10i64),
        r.global_position == Some(15i64),
        r.data@ == event_encoded_spec("field1"@, "field2"@, "field3"@),
        r.time == Some(15i64),
{
    MessageData {
        id: id(),
        message_type: "Event".to_owned(),
        stream_name: Some("summary-someIdentity".to_owned()),
        position: Some(10),
        global_position: Some(15),
        data: data(),
        metadata: metadata(),
        time: Some(15),
    }
}

impl Follows<Event> for Command {
    /// The event a command derives: the shared fields copied, the extra
    /// field left empty.
    open spec fn follows_from(&self, r: Event) -> bool {
        r.field1 == self.field1 && r.field2 == self.field2 && r.field3@ == Seq::<char>::empty()
    }

    fn follow(&self) -> (r: Event) {
        Event {
            field1: self.field1.clone(),
            field2: self.field2.clone(),
            field3: String::new(),
        }
    }
}

} // verus!
