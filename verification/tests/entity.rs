//! Tests of the entity store: replay determinism, pagination boundaries,
//! and cache independence.
use message_log::controls;
use message_log::controls::EventSummary;
use message_log::entity_store::{fetch, get, DontCache, EntityCache, InMemoryCache};
use message_log::error::Error;
use message_log::handler::Handler;
use message_log::message_store::{MessageStore, Settings};
use message_log::stream_name::StreamName;

fn write_events(store: &mut MessageStore, identity: &str, count: usize) {
    let stream = StreamName::identified("summary", identity);
    for _ in 0..count {
        store.put(&controls::new_example(), &stream, None).unwrap();
    }
}

#[test]
fn replay_is_deterministic_between_cold_runs() {
    let mut store = MessageStore::build();
    write_events(&mut store, "one", 7);

    let mut first_cache: InMemoryCache<EventSummary> = InMemoryCache::new();
    let first = fetch(&store, &mut first_cache, "summary", "one").unwrap();

    let mut second_cache: InMemoryCache<EventSummary> = InMemoryCache::new();
    let second = fetch(&store, &mut second_cache, "summary", "one").unwrap();

    assert_eq!(first, second);
    assert_eq!(7, first.applied);
}

#[test]
fn warm_cache_from_a_prefix_matches_a_cold_full_replay() {
    let mut store = MessageStore::build();
    let mut cache: InMemoryCache<EventSummary> = InMemoryCache::new();

    write_events(&mut store, "two", 3);
    let prefix = fetch(&store, &mut cache, "summary", "two").unwrap();
    assert_eq!(3, prefix.applied);

    write_events(&mut store, "two", 4);
    let warm = fetch(&store, &mut cache, "summary", "two").unwrap();

    let mut cold = DontCache;
    let full: EventSummary = fetch(&store, &mut cold, "summary", "two").unwrap();

    assert_eq!(full, warm);
    assert_eq!(7, warm.applied);
}

#[test]
fn records_of_unhandled_types_are_ignored_not_errors() {
    let mut store = MessageStore::build();
    let stream = StreamName::identified("summary", "three");
    let mut other = controls::new_example();
    other.message_type = "Unknown".to_owned();

    store.put(&controls::new_example(), &stream, None).unwrap();
    store.put(&other, &stream, None).unwrap();
    store.put(&controls::new_example(), &stream, None).unwrap();

    let mut cache = DontCache;
    let entity: EventSummary = fetch(&store, &mut cache, "summary", "three").unwrap();
    assert_eq!(2, entity.applied);
}

#[test]
fn pagination_boundary_reads_one_more_empty_page() {
    let mut settings = Settings::default();
    settings.batch_size = Some(1000);
    let mut store = MessageStore::build_with_settings(settings);
    write_events(&mut store, "pag", 1000);

    let stream = StreamName::identified("summary", "pag");
    let first = store.get(&stream, None).unwrap();
    assert_eq!(1000, first.len());
    let second = store.get(&stream, Some(first[999].position.unwrap())).unwrap();
    assert_eq!(0, second.len());

    let mut cache = DontCache;
    let paged: EventSummary = fetch(&store, &mut cache, "summary", "pag").unwrap();

    let mut wide_settings = Settings::default();
    wide_settings.batch_size = Some(10000);
    let mut wide_store = MessageStore::build_with_settings(wide_settings);
    write_events(&mut wide_store, "pag", 1000);
    let single: EventSummary = fetch(&wide_store, &mut cache, "summary", "pag").unwrap();

    assert_eq!(single, paged);
    assert_eq!(1000, paged.applied);
}

#[test]
fn the_always_miss_cache_changes_no_entity_value() {
    let mut store = MessageStore::build();
    write_events(&mut store, "four", 5);

    let mut memo: InMemoryCache<EventSummary> = InMemoryCache::new();
    let with_memo = fetch(&store, &mut memo, "summary", "four").unwrap();
    let warm_again = fetch(&store, &mut memo, "summary", "four").unwrap();

    let mut none = DontCache;
    let without: EventSummary = fetch(&store, &mut none, "summary", "four").unwrap();

    assert_eq!(with_memo, without);
    assert_eq!(warm_again, without);
    assert_eq!(5, without.applied);
}

#[test]
fn get_tells_never_existed_from_existing_with_initial_state() {
    let mut store = MessageStore::build();
    let mut cache = DontCache;

    let missing: Option<EventSummary> = get(&store, &mut cache, "summary", "five").unwrap();
    assert!(missing.is_none());

    let mut unknown = controls::new_example();
    unknown.message_type = "Unknown".to_owned();
    let stream = StreamName::identified("summary", "five");
    store.put(&unknown, &stream, None).unwrap();

    let present: Option<EventSummary> = get(&store, &mut cache, "summary", "five").unwrap();
    assert_eq!(0, present.unwrap().applied);
}

#[test]
fn the_cache_returns_what_was_set() {
    let mut cache: InMemoryCache<EventSummary> = InMemoryCache::new();
    assert!(cache.get_from_cache("summary", "six").is_none());

    cache.set_in_cache("summary", "six", 4, EventSummary { applied: 5 });
    let (position, entity) = cache.get_from_cache("summary", "six").unwrap();
    assert_eq!(4, position);
    assert_eq!(5, entity.applied);

    cache.set_in_cache("summary", "six", 9, EventSummary { applied: 10 });
    let (position, entity) = cache.get_from_cache("summary", "six").unwrap();
    assert_eq!(9, position);
    assert_eq!(10, entity.applied);
}

#[test]
fn inherent_cache_lookups_always_hit_after_a_save() {
    let mut cache: InMemoryCache<EventSummary> = InMemoryCache::new();
    assert!(cache.lookup("summary", "eight").is_none());

    cache.save("summary", "eight", 2, EventSummary { applied: 3 });
    let (position, entity) = cache.lookup("summary", "eight").unwrap();
    assert_eq!(2, position);
    assert_eq!(3, entity.applied);
    assert!(cache.lookup("summary", "other").is_none());
}

#[test]
fn a_handler_write_with_a_wrong_version_conflicts_and_changes_nothing() {
    let mut handler: Handler<EventSummary> = Handler::build("summary".to_owned());
    let stream = StreamName::identified("summary", "nine");

    handler.write(&controls::event(), &stream).unwrap();

    let expected = format!(
        "ERROR: Wrong expected version: 5 (Stream: {}, Stream Version: 0)",
        stream.render()
    );
    let conflicted = handler.write_position(&controls::event(), &stream, 5);
    match conflicted {
        Err(Error::ExpectedVersion(e)) => assert_eq!(expected, e),
        other => panic!("{:?}", other),
    }

    let stale = handler.initial(&controls::event(), &stream);
    assert!(matches!(stale, Err(Error::ExpectedVersion(_))));

    assert_eq!(1, handler.fetch("nine").unwrap().applied);
}

#[test]
fn a_handler_context_fetches_and_writes_under_its_category() {
    let mut handler: Handler<EventSummary> = Handler::build("summary".to_owned());
    let stream = StreamName::identified("summary", "seven");

    let msg = controls::event();
    handler.initial(&msg, &stream).unwrap();
    handler.write(&controls::event(), &stream).unwrap();
    handler.write_position(&controls::event(), &stream, 1).unwrap();

    let entity = handler.fetch("seven").unwrap();
    assert_eq!(3, entity.applied);

    let again = handler.fetch("seven").unwrap();
    assert_eq!(entity, again);

    assert!(handler.get("absent").unwrap().is_none());
    assert_eq!(3, handler.get("seven").unwrap().unwrap().applied);
}
