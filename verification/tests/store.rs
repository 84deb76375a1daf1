use yeehaw::args::YeeArgs;
use yeehaw::store::{classify, Store};
use yeehaw::yee_file::YeeFile;

fn record(name: &str, group: &str, hash: Option<&str>) -> YeeFile {
    YeeFile {
        filename: name.to_string(),
        extension: "txt".to_string(),
        source_filename: name.to_string(),
        source_full_path: format!("/in/{}", group),
        destination_full_path: format!("/out/{}", group),
        source_local_path: group.to_string(),
        destination_local_path: group.to_string(),
        hash: hash.map(|text| text.to_string()),
        group_id: group.to_string(),
    }
}

fn names(files: &Vec<YeeFile>) -> Vec<String> {
    files.iter().map(|file| file.filename.clone()).collect()
}

#[test]
fn new_store_is_empty() {
    let store = Store::new();
    assert_eq!(store.original_count(), 0);
    assert_eq!(store.duplicate_count(), 0);
    assert_eq!(store.total_count(), 0);
    assert!(store.originals().is_empty());
    assert!(store.duplicates().is_empty());
}

#[test]
fn first_file_with_a_hash_is_an_original() {
    let mut store = Store::new();
    assert!(!store.insert(record("one", "a", Some("aaaaaaaaaaaaaaaa"))));
    assert_eq!(names(store.originals()), vec!["one"]);
    assert!(store.duplicates().is_empty());
}

#[test]
fn later_file_with_the_same_hash_is_a_duplicate() {
    let mut store = Store::new();
    assert!(!store.insert(record("one", "a", Some("aaaaaaaaaaaaaaaa"))));
    assert!(store.insert(record("two", "b", Some("aaaaaaaaaaaaaaaa"))));
    assert!(store.insert(record("three", "c", Some("aaaaaaaaaaaaaaaa"))));
    assert_eq!(names(store.originals()), vec!["one"]);
    assert_eq!(names(store.duplicates()), vec!["two", "three"]);
    assert_eq!(store.original_count(), 1);
    assert_eq!(store.duplicate_count(), 2);
    assert_eq!(store.total_count(), 3);
}

#[test]
fn file_without_a_hash_is_always_an_original() {
    let mut store = Store::new();
    assert!(!store.insert(record("one", "a", None)));
    assert!(!store.insert(record("two", "a", None)));
    assert!(!store.insert(record("one", "a", None)));
    assert_eq!(names(store.originals()), vec!["one", "two", "one"]);
    assert!(store.duplicates().is_empty());
}

#[test]
fn same_name_and_place_with_another_hash_is_an_original() {
    let mut store = Store::new();
    assert!(!store.insert(record("one", "a", Some("aaaaaaaaaaaaaaaa"))));
    assert!(!store.insert(record("one", "a", Some("bbbbbbbbbbbbbbbb"))));
    assert_eq!(store.original_count(), 2);
}

#[test]
fn duplicate_is_kept_as_it_came_in() {
    let mut store = Store::new();
    store.insert(record("one", "a", Some("aaaaaaaaaaaaaaaa")));
    let twin = record("two", "b", Some("aaaaaaaaaaaaaaaa"));
    store.insert(twin.clone());
    assert_eq!(store.duplicates()[0], twin);
}

#[test]
fn insert_batch_classifies_in_order() {
    let mut store = Store::new();
    store.insert_batch(vec![
        record("r0", "a", Some("1111111111111111")),
        record("r1", "a", None),
        record("r2", "b", Some("2222222222222222")),
        record("r3", "b", Some("1111111111111111")),
        record("r4", "c", Some("2222222222222222")),
        record("r5", "c", None),
        record("r6", "c", Some("3333333333333333")),
        record("r7", "a", Some("1111111111111111")),
    ]);
    assert_eq!(names(store.originals()), vec!["r0", "r1", "r2", "r5", "r6"]);
    assert_eq!(names(store.duplicates()), vec!["r3", "r4", "r7"]);
    assert_eq!(store.total_count(), 8);
}

#[test]
fn insert_batch_is_insert_one_after_the_other() {
    let files = vec![
        record("r0", "a", Some("1111111111111111")),
        record("r1", "b", Some("1111111111111111")),
        record("r2", "b", None),
        record("r3", "c", Some("2222222222222222")),
    ];
    let mut batch = Store::new();
    batch.insert_batch(files.clone());
    let mut single = Store::new();
    let mut verdicts = Vec::new();
    for file in files {
        verdicts.push(single.insert(file));
    }
    assert_eq!(verdicts, vec![false, true, false, false]);
    assert_eq!(batch.originals(), single.originals());
    assert_eq!(batch.duplicates(), single.duplicates());
}

#[test]
fn insert_batch_goes_on_from_what_the_store_holds() {
    let mut store = Store::new();
    store.insert(record("r0", "a", Some("1111111111111111")));
    store.insert_batch(vec![
        record("r1", "b", Some("1111111111111111")),
        record("r2", "b", Some("2222222222222222")),
    ]);
    assert_eq!(names(store.originals()), vec!["r0", "r2"]);
    assert_eq!(names(store.duplicates()), vec!["r1"]);
}

#[test]
fn insert_batch_of_nothing_changes_nothing() {
    let mut store = Store::new();
    store.insert(record("r0", "a", Some("1111111111111111")));
    store.insert_batch(Vec::new());
    assert_eq!(store.original_count(), 1);
    assert_eq!(store.duplicate_count(), 0);
}

#[test]
fn every_file_is_in_exactly_one_list() {
    let mut files = Vec::new();
    for number in 0..60 {
        let hash = format!("{:016x}", number % 7);
        let hash = if number % 5 == 0 { None } else { Some(hash) };
        files.push(record(&format!("r{}", number), "g", hash.as_deref()));
    }
    let mut store = Store::new();
    store.insert_batch(files.clone());
    assert_eq!(store.original_count() + store.duplicate_count(), files.len());
    for (position, file) in files.iter().enumerate() {
        let repeats = file.hash.is_some()
            && files[..position].iter().any(|earlier| earlier.hash == file.hash);
        assert_eq!(store.duplicates().contains(file), repeats);
        assert_eq!(store.originals().contains(file), !repeats);
    }
}

#[test]
fn original_with_finds_the_original_of_a_hash() {
    let mut store = Store::new();
    store.insert_batch(vec![
        record("r0", "a", None),
        record("r1", "a", Some("1111111111111111")),
        record("r2", "b", Some("2222222222222222")),
        record("r3", "b", Some("1111111111111111")),
    ]);
    assert_eq!(store.original_with(&"1111111111111111".to_string()), Some(1));
    assert_eq!(store.original_with(&"2222222222222222".to_string()), Some(2));
    assert_eq!(store.original_with(&"3333333333333333".to_string()), None);
    assert_eq!(Store::new().original_with(&"1111111111111111".to_string()), None);
}

#[test]
fn originals_have_hashes_that_differ() {
    let mut store = Store::new();
    for number in 0..40 {
        let hash = format!("{:016x}", number % 9);
        store.insert(record(&format!("r{}", number), "g", Some(&hash)));
    }
    assert_eq!(store.original_count(), 9);
    assert_eq!(store.duplicate_count(), 31);
    for (position, file) in store.originals().iter().enumerate() {
        assert_eq!(store.original_with(file.hash.as_ref().unwrap()), Some(position));
    }
    for file in store.duplicates() {
        assert!(store.original_with(file.hash.as_ref().unwrap()).is_some());
    }
}

fn tracking(track_duplicates: bool) -> YeeArgs {
    let mut args = YeeArgs::default();
    args.track_duplicates = track_duplicates;
    args
}

fn batch() -> Vec<YeeFile> {
    vec![
        record("r0", "a", Some("1111111111111111")),
        record("r1", "a", None),
        record("r2", "b", Some("1111111111111111")),
        record("r3", "b", Some("2222222222222222")),
        record("r4", "c", Some("1111111111111111")),
    ]
}

#[test]
fn classify_splits_by_hash_where_duplicates_are_tracked() {
    let (originals, duplicates) = classify(&tracking(true), batch());
    assert_eq!(names(&originals), vec!["r0", "r1", "r3"]);
    assert_eq!(names(&duplicates), vec!["r2", "r4"]);
    let mut store = Store::new();
    store.insert_batch(batch());
    assert_eq!(&originals, store.originals());
    assert_eq!(&duplicates, store.duplicates());
}

#[test]
fn classify_sets_nothing_apart_where_duplicates_are_not_tracked() {
    let (originals, duplicates) = classify(&tracking(false), batch());
    assert_eq!(originals, batch());
    assert!(duplicates.is_empty());
}

#[test]
fn classify_of_nothing() {
    for track in [true, false] {
        let (originals, duplicates) = classify(&tracking(track), Vec::new());
        assert!(originals.is_empty());
        assert!(duplicates.is_empty());
    }
}

#[test]
fn into_parts_hands_out_both_lists() {
    let mut store = Store::new();
    store.insert_batch(batch());
    let (originals, duplicates) = store.into_parts();
    assert_eq!(names(&originals), vec!["r0", "r1", "r3"]);
    assert_eq!(names(&duplicates), vec!["r2", "r4"]);
}
