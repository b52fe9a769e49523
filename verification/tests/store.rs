//! Tests of the message store: append under optimistic concurrency,
//! batch atomicity, and paginated reads.
use message_log::controls;
use message_log::error::Error;
use message_log::message_store::{initial, is_expected_version_conflict, MessageData, MessageStore, Settings};
use message_log::stream_name::StreamName;

fn unique_example() -> StreamName {
    StreamName::identified("testCategory", "abc123")
}

#[test]
fn puts_message_data_into_stream_storage() {
    let mut store = MessageStore::build();

    let data = controls::new_example();
    let stream_name = unique_example();

    let result = store.put(&data, &stream_name, initial()).unwrap();

    assert_eq!(0, result.position.unwrap());
    assert!(result.id.is_some());

    let id = result.id;
    let written = store.get_last(&stream_name).unwrap().unwrap();

    assert_eq!(id, written.id);
    assert_eq!(stream_name.render(), written.stream_name.unwrap());
    assert_eq!(data.message_type, written.message_type);
    assert_eq!(data.data, written.data);
    assert_eq!(data.metadata, written.metadata);
}

#[test]
fn put_will_assign_a_new_id_if_one_is_not_provided() {
    let mut store = MessageStore::build();
    let data = controls::new_example();
    let stream_name = unique_example();

    assert!(data.id.is_none());

    let result = store.put(&data, &stream_name, None).unwrap();

    assert!(result.id.is_some());
}

#[test]
fn put_results_in_expected_version_error_when_stream_is_not_at_expected_version() {
    let mut store = MessageStore::build();
    let data = controls::new_example();
    let stream_name = unique_example();

    let expected = format!(
        "ERROR: Wrong expected version: 10 (Stream: {}, Stream Version: -1)",
        stream_name.render()
    );

    let result = store.put(&data, &stream_name, Some(10));

    assert!(result.is_err());

    if let Err(Error::ExpectedVersion(e)) = result {
        assert_eq!(expected, e);
    }
}

#[test]
fn put_many_will_put_many_data_into_stream_storage() {
    let mut store = MessageStore::build();
    let stream_name = unique_example();

    let data: Vec<MessageData> = (0..10).map(|_| controls::new_example()).collect();

    let results: Vec<MessageData> = store.put_many(&data, &stream_name, None).unwrap();

    assert_eq!(10, results.len());

    for i in 0..results.len() {
        let result = results.get(i).unwrap();

        assert!(result.id.is_some());
        assert_eq!(i as i64, result.position.unwrap());
    }
}

#[test]
fn put_many_will_put_many_data_into_stream_storage_with_expected_version() {
    let mut store = MessageStore::build();
    let stream_name = unique_example();

    let data: Vec<MessageData> = (0..10).map(|_| controls::new_example()).collect();

    let results: Vec<MessageData> = store.put_many(&data, &stream_name, initial()).unwrap();

    assert_eq!(10, results.len());

    for i in 0..results.len() {
        let result = results.get(i).unwrap();

        assert!(result.id.is_some());
        assert_eq!(i as i64, result.position.unwrap());
    }
}

#[test]
fn appending_twice_with_same_identity_gives_distinct_positions() {
    let mut store = MessageStore::build();
    let stream_name = unique_example();

    let mut data = controls::new_example();
    data.id = controls::id();

    let first = store.put(&data, &stream_name, None).unwrap();
    let second = store.put(&data, &stream_name, None).unwrap();

    assert_eq!(first.id, second.id);
    assert_eq!(0, first.position.unwrap());
    assert_eq!(1, second.position.unwrap());
}

#[test]
fn version_conflict_at_position_two() {
    let mut store = MessageStore::build();
    let stream_name = unique_example();

    for _ in 0..3 {
        store.put(&controls::new_example(), &stream_name, None).unwrap();
    }

    let conflict = store.put(&controls::new_example(), &stream_name, Some(0));
    assert!(matches!(conflict, Err(Error::ExpectedVersion(_))));

    let accepted = store.put(&controls::new_example(), &stream_name, Some(2)).unwrap();
    assert_eq!(3, accepted.position.unwrap());
}

#[test]
fn put_many_is_atomic_on_conflict() {
    let mut store = MessageStore::build();
    let stream_name = unique_example();

    store.put(&controls::new_example(), &stream_name, None).unwrap();
    let before = store.record_count();

    let data: Vec<MessageData> = (0..10).map(|_| controls::new_example()).collect();

    let conflicted = store.put_many(&data, &stream_name, initial());
    assert!(matches!(conflicted, Err(Error::ExpectedVersion(_))));
    assert_eq!(before, store.record_count());

    let results = store.put_many(&data, &stream_name, Some(0)).unwrap();
    assert_eq!(10, results.len());
    assert_eq!(before + 10, store.record_count());
    for i in 0..results.len() {
        assert_eq!(1 + i as i64, results[i].position.unwrap());
    }
}

#[test]
fn read_pages_by_position_and_signals_exhaustion_by_short_pages() {
    let mut settings = Settings::default();
    settings.batch_size = Some(3);
    let mut store = MessageStore::build_with_settings(settings);
    let stream_name = unique_example();

    for _ in 0..7 {
        store.put(&controls::new_example(), &stream_name, None).unwrap();
    }

    let first = store.get(&stream_name, None).unwrap();
    assert_eq!(3, first.len());
    assert_eq!(0, first[0].position.unwrap());
    assert_eq!(2, first[2].position.unwrap());

    let second = store.get(&stream_name, Some(first[2].position.unwrap())).unwrap();
    assert_eq!(3, second.len());
    assert_eq!(5, second[2].position.unwrap());

    let third = store.get(&stream_name, Some(second[2].position.unwrap())).unwrap();
    assert_eq!(1, third.len());
    assert_eq!(6, third[0].position.unwrap());
}

#[test]
fn category_read_aggregates_identifier_streams_in_global_order() {
    let mut store = MessageStore::build();
    let one = StreamName::identified("orders", "one");
    let two = StreamName::identified("orders", "two");
    let other = StreamName::identified("shipments", "one");

    store.put(&controls::new_example(), &one, None).unwrap();
    store.put(&controls::new_example(), &other, None).unwrap();
    store.put(&controls::new_example(), &two, None).unwrap();
    store.put(&controls::new_example(), &one, None).unwrap();

    let category = StreamName::category("orders");
    let page = store.get(&category, None).unwrap();

    assert_eq!(3, page.len());
    assert_eq!(0, page[0].global_position.unwrap());
    assert_eq!(2, page[1].global_position.unwrap());
    assert_eq!(3, page[2].global_position.unwrap());
    assert_eq!("orders-one", page[0].stream_name.clone().unwrap());

    let after = store.get(&category, Some(2)).unwrap();
    assert_eq!(1, after.len());
    assert_eq!(3, after[0].global_position.unwrap());
}

#[test]
fn get_last_returns_highest_position_record() {
    let mut store = MessageStore::build();
    let stream_name = unique_example();

    assert!(store.get_last(&stream_name).unwrap().is_none());

    for _ in 0..4 {
        store.put(&controls::new_example(), &stream_name, None).unwrap();
    }

    let last = store.get_last(&stream_name).unwrap().unwrap();
    assert_eq!(3, last.position.unwrap());
}

#[test]
fn conflict_diagnostics_are_recognized_by_their_prefix() {
    assert!(is_expected_version_conflict(
        "ERROR: Wrong expected version: 10 (Stream: a-b, Stream Version: -1)"
    ));
    assert!(!is_expected_version_conflict("connection refused"));
    assert!(!is_expected_version_conflict(""));
}

#[test]
fn stores_are_built_empty() {
    let store = MessageStore::build();
    assert_eq!(0, store.record_count());
    let with_settings = MessageStore::build_with_settings(Settings::default());
    assert_eq!(0, with_settings.record_count());
}
