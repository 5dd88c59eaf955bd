use chrono::{TimeZone, Utc};
use evnt::dir::EventsDir;
use evnt::error::Error;
use evnt::event::{generate_id, get_ids, read_events, Event};
use evnt::ids::id_to_name;
use evnt::time::Timestamp;
use evnt::App;

fn ts(y: i32, mo: u32, d: u32, h: u32, mi: u32, s: u32) -> Timestamp {
    let secs = Utc.with_ymd_and_hms(y, mo, d, h, mi, s).unwrap().timestamp();
    Timestamp { secs, nanos: 0 }
}

fn fresh_dir() -> EventsDir {
    let app = App::new("/tmp/evnt-data");
    let mut dir = EventsDir::new(&app.events_dir);
    dir.create_dirs();
    dir
}

#[test]
fn generates_unique_ids() {
    let mut dir = fresh_dir();

    let mut ids = Vec::new();

    for _ in 0..1000 {
        let id = generate_id(&dir).unwrap();
        assert!(!ids.contains(&id));

        ids.push(id);

        dir.write_file(&id_to_name(id), Vec::new()).unwrap();
    }
}

#[test]
fn event_serializes_and_deserializes() {
    let mut dir = fresh_dir();

    let event = Event::new(
        "Test Event",
        Some("Event description"),
        ts(1000, 10, 10, 14, 30, 0),
        &dir,
    )
    .unwrap();
    event.store(&mut dir).unwrap();

    let events = read_events(&dir).unwrap();
    let read_event = events.get(0).unwrap();

    assert!(event == *read_event);
}

#[test]
fn serializes_and_deserializes_lots_of_events() {
    let mut dir = fresh_dir();

    let mut original_events = Vec::new();

    for n in 0..100 {
        let event = Event::new(&n.to_string(), None, ts(2000, 10, 10, 15, 15, 0), &dir).unwrap();

        event.store(&mut dir).unwrap();

        original_events.push(event);
    }

    let read_back = read_events(&dir).unwrap();
    assert_eq!(read_back.len(), 100);

    for event in original_events {
        assert!(read_back.contains(&event));
    }
}

#[test]
fn deletes_events() {
    let mut dir = fresh_dir();

    let event = Event::new(
        "Event Name",
        Some("Event description"),
        ts(2000, 2, 4, 20, 10, 0),
        &dir,
    )
    .unwrap();

    event.store(&mut dir).unwrap();
    assert!(dir.contains_file(&id_to_name(event.id())));

    event.delete_file(&mut dir).unwrap();
    assert!(!dir.contains_file(&id_to_name(event.id())));
}

#[test]
fn creates_required_dirs() {
    let app = App::new("/tmp/evnt-data");
    let mut dir = EventsDir::new(&app.events_dir);
    assert!(!dir.present());

    dir.create_dirs();
    assert!(dir.present());
    assert_eq!(dir.file_count(), 0);

    dir.create_dirs();
    assert!(dir.present());
    assert_eq!(dir.file_count(), 0);
}

#[test]
fn deleting_missing_event_fails() {
    let mut dir = fresh_dir();

    let event = Event::new("One-off", None, ts(1999, 1, 1, 0, 0, 0), &dir).unwrap();
    event.store(&mut dir).unwrap();
    event.delete_file(&mut dir).unwrap();

    let err = event.delete_file(&mut dir).unwrap_err();
    assert!(matches!(err, Error::Filesystem { .. }));
}

#[test]
fn operations_fail_without_directory() {
    let dir = EventsDir::new("/tmp/evnt-data/events/");

    assert!(matches!(
        Event::new("Early", None, ts(2020, 5, 5, 5, 5, 5), &dir),
        Err(Error::Filesystem { .. })
    ));
    assert!(matches!(generate_id(&dir), Err(Error::Filesystem { .. })));
    assert!(matches!(get_ids(&dir), Err(Error::Filesystem { .. })));
    assert!(matches!(read_events(&dir), Err(Error::Filesystem { .. })));
}

#[test]
fn foreign_files_are_ignored_by_id_scan() {
    let mut dir = fresh_dir();

    dir.write_file("notes.txt", vec![1, 2, 3]).unwrap();
    assert_eq!(get_ids(&dir).unwrap(), Vec::<u128>::new());

    dir.write_file("17", Vec::new()).unwrap();
    assert_eq!(get_ids(&dir).unwrap(), vec![17u128]);
}

#[test]
fn read_all_accepts_foreign_name_with_valid_record() {
    let mut dir = fresh_dir();

    let event = Event::new("Kept", Some("under a foreign name"), ts(2010, 7, 1, 9, 0, 0), &dir)
        .unwrap();
    let bytes = evnt::event::encode_event(&event);
    dir.write_file("backup.bin", bytes).unwrap();

    let events = read_events(&dir).unwrap();
    assert_eq!(events.len(), 1);
    assert!(event == events[0]);
}

#[test]
fn read_all_rejects_numeric_name_with_invalid_record() {
    let mut dir = fresh_dir();

    let event = Event::new("Good", None, ts(2010, 7, 1, 9, 0, 0), &dir).unwrap();
    event.store(&mut dir).unwrap();

    dir.write_file("12345", vec![0xff, 0xff, 0xff]).unwrap();

    let err = read_events(&dir).unwrap_err();
    assert!(matches!(err, Error::Deserialization { .. }));
}

#[test]
fn storing_twice_overwrites_one_file() {
    let mut dir = fresh_dir();

    let event = Event::new("Repeat", None, ts(2001, 3, 3, 3, 3, 3), &dir).unwrap();
    event.store(&mut dir).unwrap();
    event.store(&mut dir).unwrap();

    assert_eq!(dir.file_count(), 1);
    let events = read_events(&dir).unwrap();
    assert_eq!(events.len(), 1);
    assert!(event == events[0]);
}

#[test]
fn generated_id_avoids_stored_ids() {
    let mut dir = fresh_dir();

    let mut stored = Vec::new();
    for n in 0..50 {
        let event = Event::new(&n.to_string(), None, ts(2022, 1, 1, 0, 0, 0), &dir).unwrap();
        event.store(&mut dir).unwrap();
        stored.push(event.id());
    }

    let in_use = get_ids(&dir).unwrap();
    for id in &stored {
        assert!(in_use.contains(id));
    }

    let fresh = generate_id(&dir).unwrap();
    assert!(!in_use.contains(&fresh));
}

#[test]
fn app_composes_event_directory_path() {
    let app = App::new("/home/someone/.local/share/evnt");
    assert_eq!(app.data_dir, "/home/someone/.local/share/evnt");
    assert_eq!(app.events_dir, "/home/someone/.local/share/evnt/events/");
}
