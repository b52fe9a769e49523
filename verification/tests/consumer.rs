//! Tests of the consumer: position resume, cooperative stop, dispatch,
//! and the position-stream protocol.
use message_log::consumer::{BackOff, Consumer, ConsumerStopper, Handler, Settings, Stopper};
use message_log::controls;
use message_log::error::Error;
use message_log::message_store::{MessageData, MessageStore};
use message_log::position_store;
use message_log::position_store::{position_stream_name, Position};
use message_log::messaging::message::MessageType;
use message_log::stream_name::StreamName;
use std::sync::{Arc, Mutex};

struct RecordingHandler {
    seen: Arc<Mutex<Vec<i64>>>,
}

impl Handler for RecordingHandler {
    fn handles(&self, message_type: &String) -> bool {
        message_type == "Event"
    }

    fn handle(&mut self, message: MessageData) -> Result<(), Error> {
        self.seen.lock().unwrap().push(message.global_position.unwrap());
        Ok(())
    }
}

struct StopWhenIdle {
    stopper: Arc<Mutex<Option<ConsumerStopper>>>,
    waits: Arc<Mutex<u64>>,
}

impl BackOff for StopWhenIdle {
    fn wait(&mut self, messages_processed: u64) {
        *self.waits.lock().unwrap() += 1;
        if messages_processed == 0 {
            if let Some(stopper) = self.stopper.lock().unwrap().as_mut() {
                stopper.stop().unwrap();
            }
        }
    }
}

struct StopAtOnce {
    stopper: Arc<Mutex<Option<ConsumerStopper>>>,
    waits: Arc<Mutex<u64>>,
}

impl BackOff for StopAtOnce {
    fn wait(&mut self, _messages_processed: u64) {
        *self.waits.lock().unwrap() += 1;
        if let Some(stopper) = self.stopper.lock().unwrap().as_mut() {
            stopper.stop().unwrap();
        }
    }
}

fn put_events(store: &mut MessageStore, identity: &str, count: usize) {
    let stream = StreamName::identified("orders", identity);
    for _ in 0..count {
        store.put(&controls::new_example(), &stream, None).unwrap();
    }
}

#[test]
fn consumer_processes_a_category_and_records_progress() {
    let mut store = MessageStore::build();
    put_events(&mut store, "one", 5);

    let seen = Arc::new(Mutex::new(Vec::new()));
    let stopper_cell = Arc::new(Mutex::new(None));
    let waits = Arc::new(Mutex::new(0u64));
    let mut settings = Settings::default();
    settings.identifier = Some("groupA".to_owned());

    let mut consumer = Consumer::new(
        StreamName::category("orders"),
        store,
        settings,
        StopWhenIdle { stopper: stopper_cell.clone(), waits: waits.clone() },
        RecordingHandler { seen: seen.clone() },
    );
    stopper_cell.lock().unwrap().replace(consumer.stopper());

    consumer.start(100).unwrap();

    assert_eq!(vec![0, 1, 2, 3, 4], *seen.lock().unwrap());

    let store = consumer.into_store();
    let recorded = position_store::get_last(
        &store,
        &StreamName::category("orders"),
        Some(&"groupA".to_owned()),
    )
    .unwrap();
    assert_eq!(Some(4), recorded);
}

#[test]
fn position_resume_never_redelivers_processed_records() {
    let mut store = MessageStore::build();
    put_events(&mut store, "one", 5);

    let seen = Arc::new(Mutex::new(Vec::new()));
    let stopper_cell = Arc::new(Mutex::new(None));
    let waits = Arc::new(Mutex::new(0u64));
    let mut settings = Settings::default();
    settings.identifier = Some("groupA".to_owned());

    let mut first = Consumer::new(
        StreamName::category("orders"),
        store,
        settings,
        StopWhenIdle { stopper: stopper_cell.clone(), waits: waits.clone() },
        RecordingHandler { seen: seen.clone() },
    );
    stopper_cell.lock().unwrap().replace(first.stopper());
    first.start(100).unwrap();
    assert_eq!(5, seen.lock().unwrap().len());

    // The first consumer stops; more records arrive; a new consumer for
    // the same identity resumes from the recorded position.
    let mut store = first.into_store();
    put_events(&mut store, "two", 3);

    let seen_later = Arc::new(Mutex::new(Vec::new()));
    let stopper_cell2 = Arc::new(Mutex::new(None));
    let mut settings2 = Settings::default();
    settings2.identifier = Some("groupA".to_owned());

    let mut second = Consumer::new(
        StreamName::category("orders"),
        store,
        settings2,
        StopWhenIdle { stopper: stopper_cell2.clone(), waits: Arc::new(Mutex::new(0)) },
        RecordingHandler { seen: seen_later.clone() },
    );
    stopper_cell2.lock().unwrap().replace(second.stopper());
    second.start(100).unwrap();

    let redelivered: Vec<i64> = seen_later.lock().unwrap().clone();
    for g in 0..5 {
        assert!(!redelivered.contains(&g));
    }
    // Global 5 is the first consumer's position record; the new events
    // landed at globals 6, 7 and 8.
    assert_eq!(vec![6, 7, 8], redelivered);
}

#[test]
fn a_stop_during_the_backoff_wait_ends_the_loop_before_another_read() {
    let store = MessageStore::build();

    let seen = Arc::new(Mutex::new(Vec::new()));
    let stopper_cell = Arc::new(Mutex::new(None));
    let waits = Arc::new(Mutex::new(0u64));

    let mut consumer = Consumer::new(
        StreamName::category("orders"),
        store,
        Settings::default(),
        StopAtOnce { stopper: stopper_cell.clone(), waits: waits.clone() },
        RecordingHandler { seen: seen.clone() },
    );
    stopper_cell.lock().unwrap().replace(consumer.stopper());

    consumer.start(1000).unwrap();

    // One poll, one wait, then the flag was observed and the loop ended
    // without issuing another read.
    assert_eq!(1, *waits.lock().unwrap());
    assert!(seen.lock().unwrap().is_empty());
}

struct StoppingHandler {
    stopper: Arc<Mutex<Option<ConsumerStopper>>>,
    seen: Arc<Mutex<Vec<i64>>>,
}

impl Handler for StoppingHandler {
    fn handles(&self, _message_type: &String) -> bool {
        true
    }

    fn handle(&mut self, message: MessageData) -> Result<(), Error> {
        // Request the stop while the batch is in flight.
        if let Some(stopper) = self.stopper.lock().unwrap().as_mut() {
            stopper.stop().unwrap();
        }
        self.seen.lock().unwrap().push(message.global_position.unwrap());
        Ok(())
    }
}

#[test]
fn a_stop_request_mid_batch_lets_the_batch_complete() {
    let mut store = MessageStore::build();
    put_events(&mut store, "one", 3);

    let seen = Arc::new(Mutex::new(Vec::new()));
    let stopper_cell = Arc::new(Mutex::new(None));
    let waits = Arc::new(Mutex::new(0u64));

    let mut consumer = Consumer::new(
        StreamName::category("orders"),
        store,
        Settings::default(),
        StopWhenIdle { stopper: stopper_cell.clone(), waits: waits.clone() },
        StoppingHandler { stopper: stopper_cell.clone(), seen: seen.clone() },
    );
    stopper_cell.lock().unwrap().replace(consumer.stopper());

    consumer.start(1000).unwrap();

    // The stop arrived during the first record, yet the whole batch was
    // handled; the loop then exited after a single wait.
    assert_eq!(vec![0, 1, 2], *seen.lock().unwrap());
    assert_eq!(1, *waits.lock().unwrap());
}

struct RefusingHandler;

impl Handler for RefusingHandler {
    fn handles(&self, _message_type: &String) -> bool {
        true
    }

    fn handle(&mut self, _message: MessageData) -> Result<(), Error> {
        Err(Error::Handler("refused".to_owned()))
    }
}

struct NoWait;

impl BackOff for NoWait {
    fn wait(&mut self, _messages_processed: u64) {
    }
}

#[test]
fn a_handler_error_aborts_the_batch_without_advancing_the_position() {
    let mut store = MessageStore::build();
    put_events(&mut store, "one", 2);

    let mut consumer = Consumer::new(
        StreamName::category("orders"),
        store,
        Settings::default(),
        NoWait,
        RefusingHandler,
    );

    let result = consumer.start(10);
    assert!(matches!(result, Err(Error::Handler(_))));

    // No progress was recorded: a restart redelivers the batch.
    let store = consumer.into_store();
    let recorded =
        position_store::get_last(&store, &StreamName::category("orders"), None).unwrap();
    assert!(recorded.is_none());
}

#[test]
fn a_consumer_on_a_malformed_category_fails_with_a_stream_name_error() {
    let store = MessageStore::build();
    let seen = Arc::new(Mutex::new(Vec::new()));

    let mut consumer = Consumer::new(
        StreamName::identified("orders", "not-a-category"),
        store,
        Settings::default(),
        NoWait,
        RecordingHandler { seen },
    );

    let result = consumer.start(10);
    assert!(matches!(result, Err(Error::StreamName)));
}

#[test]
fn a_category_read_does_not_deliver_the_derived_position_stream() {
    let mut store = MessageStore::build();
    put_events(&mut store, "one", 2);
    // Another consumer's progress already sits on a derived stream: its
    // records share the category text but carry the reserved type tag.
    let other = "other".to_owned();
    position_store::update(&mut store, &StreamName::category("orders"), Some(&other), 99).unwrap();

    let seen = Arc::new(Mutex::new(Vec::new()));
    let stopper_cell = Arc::new(Mutex::new(None));
    let waits = Arc::new(Mutex::new(0u64));

    let mut consumer = Consumer::new(
        StreamName::category("orders"),
        store,
        Settings::default(),
        StopWhenIdle { stopper: stopper_cell.clone(), waits },
        StoppingHandler { stopper: Arc::new(Mutex::new(None)), seen: seen.clone() },
    );
    stopper_cell.lock().unwrap().replace(consumer.stopper());

    consumer.start(100).unwrap();

    // The position record sits at global 2 and was not delivered, even to
    // a handler that takes every type tag.
    assert_eq!(vec![0, 1], *seen.lock().unwrap());
}

#[test]
fn position_stream_names_derive_from_the_category() {
    let category = StreamName::category("orders");

    let bare = position_stream_name(&category, None).unwrap();
    assert_eq!("orders+position", bare.render());

    let consumer = "groupA".to_owned();
    let named = position_stream_name(&category, Some(&consumer)).unwrap();
    assert_eq!("orders+position-groupA", named.render());

    let already = position_stream_name(&named, Some(&consumer));
    assert!(matches!(already, Err(Error::StreamName)));

    let repeated = position_stream_name(&bare, None).unwrap();
    assert_eq!("orders+position", repeated.render());
}

#[test]
fn position_records_round_trip_through_their_payload() {
    let p = Position { position: -1 };
    assert_eq!("-1", p.to_data());
    assert_eq!(p, Position::from_data("-1").unwrap());

    let q = Position { position: 9_007_199_254_740_993 };
    assert_eq!(q, Position::from_data(q.to_data().as_str()).unwrap());

    assert!(Position::from_data("007").is_none());
    assert!(Position::from_data("").is_none());
    assert!(Position::from_data("position").is_none());
}

#[test]
fn update_then_get_last_reads_the_recorded_position() {
    let mut store = MessageStore::build();
    let category = StreamName::category("orders");

    assert_eq!(None, position_store::get_last(&store, &category, None).unwrap());

    position_store::update(&mut store, &category, None, 41).unwrap();
    assert_eq!(Some(41), position_store::get_last(&store, &category, None).unwrap());

    position_store::update(&mut store, &category, None, 55).unwrap();
    assert_eq!(Some(55), position_store::get_last(&store, &category, None).unwrap());

    let named = "member".to_owned();
    assert_eq!(None, position_store::get_last(&store, &category, Some(&named)).unwrap());
}

#[test]
fn update_refuses_a_malformed_category() {
    let mut store = MessageStore::build();
    let not_category = StreamName::identified("orders", "one");

    let result = position_store::update(&mut store, &not_category, None, 3);
    assert!(matches!(result, Err(Error::StreamName)));
    assert_eq!(0, store.record_count());
}
