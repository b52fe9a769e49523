//! Tests of the message envelope: following, correlation, and conversion
//! between records and typed messages.
use message_log::controls;
use message_log::controls::{Command, Event};
use message_log::error::Error;
use message_log::messaging::message::{Message, MessageType};

#[test]
fn following_copies_attributes() {
    let cmd = controls::command();
    let field1 = controls::field1();
    let field2 = controls::field2();

    let evt: Message<Event> = Message::follow(&cmd);

    assert_eq!(field1, evt.0.field1);
    assert_eq!(field2, evt.0.field2);
    assert_eq!(String::default(), evt.0.field3);
}

#[test]
fn follows() {
    let cmd = controls::command();

    let evt: Message<Event> = Message::follow(&cmd);

    assert!(evt.follows(&cmd));
}

#[test]
fn correlates() {
    let mut cmd = controls::command();
    let stream = "exampleStream";

    cmd.correlate(stream);

    assert!(cmd.correlated(stream));
}

#[test]
fn converts_from_message_data() {
    let message_data = controls::example_record();

    let id = message_data.id;
    let message_type = message_data.message_type.clone();
    let position = message_data.position;
    let global_position = message_data.global_position;
    let field1 = controls::field1();
    let field2 = controls::field2();
    let field3 = controls::field3();

    let message = Message::<Event>::try_from(message_data).unwrap();
    let metadata = message.metadata();

    assert_eq!(&id, message.message_id());

    assert_eq!(message_type, metadata.message_type.clone().unwrap());
    assert_eq!(position, metadata.position);
    assert_eq!(global_position, metadata.global_position);

    assert_eq!(field1, message.0.field1);
    assert_eq!(field2, message.0.field2);
    assert_eq!(field3, message.0.field3);
}

#[test]
fn try_from_rejects_a_record_of_another_type() {
    let mut message_data = controls::example_record();
    message_data.message_type = "Other".to_owned();

    let result = Message::<Event>::try_from(message_data);

    assert!(matches!(result, Err(Error::MessageType)));
}

#[test]
fn try_from_rejects_an_undecodable_payload() {
    let mut message_data = controls::example_record();
    message_data.data = "not a payload".to_owned();

    let result = Message::<Event>::try_from(message_data);

    assert!(matches!(result, Err(Error::MessageType)));
}

#[test]
fn event_payload_round_trips() {
    let ev = Event {
        field1: "alpha".to_owned(),
        field2: "beta".to_owned(),
        field3: "gamma".to_owned(),
    };
    let text = ev.to_data();
    assert_eq!("{\"field1\":\"alpha\",\"field2\":\"beta\",\"field3\":\"gamma\"}", text);

    let back = Event::from_data(text.as_str()).unwrap();
    assert_eq!("alpha", back.field1);
    assert_eq!("beta", back.field2);
    assert_eq!("gamma", back.field3);
}

#[test]
fn command_payload_round_trips() {
    let cmd = Command { field1: "alpha".to_owned(), field2: "beta".to_owned() };
    let text = cmd.to_data();
    assert_eq!("{\"field1\":\"alpha\",\"field2\":\"beta\"}", text);

    let back = Command::from_data(text.as_str()).unwrap();
    assert_eq!("alpha", back.field1);
    assert_eq!("beta", back.field2);
}

#[test]
fn event_decode_rejects_non_canonical_texts() {
    assert!(Event::from_data("").is_none());
    assert!(Event::from_data("{\"field1\":\"a\"}").is_none());
    assert!(Event::from_data("{\"field1\":\"a\",\"field2\":\"b\",\"field3\":\"c\"} ").is_none());
    assert!(Event::from_data("{\"field1\":\"a\\\",\"field2\":\"b\",\"field3\":\"c\"}").is_none());
}

#[test]
fn as_message_data_carries_type_tag_and_payload() {
    let msg = controls::event();
    let data = msg.as_message_data();
    assert_eq!("Event", data.message_type);
    assert_eq!(controls::data(), data.data);
    assert_eq!(msg.1, data.id);
}

#[test]
fn add_trace_appends_a_pair() {
    let mut msg = controls::command();
    msg.add_trace("origin".to_owned(), "test".to_owned());
    assert_eq!(1, msg.metadata().traces.len());
    assert_eq!("origin", msg.metadata().traces[0].0);
    assert_eq!("test", msg.metadata().traces[0].1);
}

#[test]
fn into_inner_returns_the_payload() {
    let msg = controls::event();
    let payload = msg.into_inner();
    assert_eq!(controls::field1(), payload.field1);
}
