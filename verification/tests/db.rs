use clipmgr::clipboard::{image_entry, text_entry};
use clipmgr::db::{Database, ImportReport, InsertOutcome, StoreError, MAX_ID};
use clipmgr::model::{Entry, Timestamp};

fn at(secs: i64) -> Timestamp {
    Timestamp::new(secs, 0).unwrap()
}

fn text(s: &str, secs: i64) -> Entry {
    text_entry(String::from(s), at(secs))
}

fn tagged(s: &str, secs: i64, tags: &[&str]) -> Entry {
    let mut e = text(s, secs);
    e.tags = tags.iter().map(|t| t.to_string()).collect();
    e
}

fn previews(entries: &[Entry]) -> Vec<String> {
    entries.iter().map(|e| e.text.clone().unwrap_or_default()).collect()
}

fn ids(entries: &[Entry]) -> Vec<u64> {
    entries.iter().map(|e| e.id.unwrap()).collect()
}

fn stored(id: u64, evicted: &[u64]) -> Result<InsertOutcome, StoreError> {
    Ok(InsertOutcome::Stored { id, evicted: evicted.to_vec() })
}

#[test]
fn a_new_store_is_empty() {
    let db = Database::open(10);
    assert_eq!(db.len(), 0);
    assert_eq!(db.max_entries(), 10);
    assert_eq!(db.last_id(), 0);
    assert!(db.list_recent(10).is_empty());
    assert!(db.export_to_json().is_empty());
    assert!(db.search("", 10).is_empty());
}

#[test]
fn hello_hello_world_with_room_for_one() {
    let mut db = Database::open(1);
    assert_eq!(db.insert_entry(&text("hello", 1)), stored(1, &[]));
    assert_eq!(db.len(), 1);
    assert_eq!(ids(&db.list_recent(10)), vec![1]);
    assert_eq!(db.insert_entry(&text("hello", 2)), Ok(InsertOutcome::Duplicate));
    assert_eq!(db.len(), 1);
    assert_eq!(ids(&db.list_recent(10)), vec![1]);
    assert_eq!(db.list_recent(10)[0].created_at, at(1));
    assert_eq!(db.insert_entry(&text("world", 3)), stored(2, &[1]));
    assert_eq!(db.len(), 1);
    let recent = db.list_recent(10);
    assert_eq!(previews(&recent), vec!["world"]);
    assert_eq!(ids(&recent), vec![2]);
    assert!(!db.contains_hash(&text("hello", 0).hash));
    assert!(db.contains_hash(&text("world", 0).hash));
}

#[test]
fn a_duplicate_changes_nothing() {
    let mut db = Database::open(5);
    db.insert_entry(&tagged("a", 1, &["x"])).unwrap();
    db.insert_entry(&text("b", 2)).unwrap();
    let before = db.export_to_json();
    let again = tagged("a", 9, &["y", "z"]);
    assert_eq!(db.insert_entry(&again), Ok(InsertOutcome::Duplicate));
    assert_eq!(db.export_to_json(), before);
    assert_eq!(db.len(), 2);
    assert_eq!(db.last_id(), 2);
}

#[test]
fn the_stored_row_is_the_entry_under_its_key() {
    let mut db = Database::open(5);
    let mut e = image_entry(vec![1, 2, 3], at(5));
    e.source_process = Some(String::from("paint.exe"));
    e.tags = vec![String::from("pic")];
    e.id = Some(77);
    db.insert_entry(&e).unwrap();
    let mut expected = e.clone();
    expected.id = Some(1);
    assert_eq!(db.list_recent(1), vec![expected]);
}

#[test]
fn the_store_never_exceeds_its_bound() {
    let mut db = Database::open(3);
    for i in 0..20u64 {
        let out = db.insert_entry(&text(&format!("entry {}", i), i as i64)).unwrap();
        let evicted = if i < 3 { vec![] } else { vec![i - 2] };
        assert_eq!(out, InsertOutcome::Stored { id: i + 1, evicted });
        assert!(db.len() <= 3);
    }
    assert_eq!(previews(&db.list_recent(10)), vec!["entry 19", "entry 18", "entry 17"]);
    assert_eq!(ids(&db.export_to_json()), vec![18, 19, 20]);
}

#[test]
fn eviction_goes_by_capture_time_not_by_key() {
    let mut db = Database::open(2);
    db.insert_entry(&text("new", 30)).unwrap();
    db.insert_entry(&text("old", 10)).unwrap();
    assert_eq!(previews(&db.export_to_json()), vec!["old", "new"]);
    assert_eq!(db.insert_entry(&text("mid", 20)), stored(3, &[2]));
    assert_eq!(previews(&db.export_to_json()), vec!["mid", "new"]);
    assert_eq!(db.insert_entry(&text("older", 5)), stored(4, &[4]));
    assert_eq!(previews(&db.export_to_json()), vec!["mid", "new"]);
    assert_eq!(db.insert_entry(&text("older", 5)), stored(5, &[5]));
    assert_eq!(db.len(), 2);
}

#[test]
fn a_store_with_no_room_keeps_nothing() {
    let mut db = Database::open(0);
    assert_eq!(db.insert_entry(&text("a", 1)), stored(1, &[1]));
    assert_eq!(db.len(), 0);
    assert_eq!(db.insert_entry(&text("a", 1)), stored(2, &[2]));
    assert_eq!(db.len(), 0);
    assert_eq!(db.last_id(), 2);
}

#[test]
fn keys_are_never_handed_out_twice() {
    let mut db = Database::open(1);
    db.insert_entry(&text("a", 1)).unwrap();
    db.insert_entry(&text("b", 2)).unwrap();
    assert_eq!(db.insert_entry(&text("a", 3)), stored(3, &[2]));
    assert_eq!(ids(&db.list_recent(5)), vec![3]);
}

#[test]
fn rows_of_one_instant_keep_the_order_of_arrival() {
    let mut db = Database::open(10);
    db.insert_entry(&text("first", 7)).unwrap();
    db.insert_entry(&text("second", 7)).unwrap();
    db.insert_entry(&text("third", 7)).unwrap();
    assert_eq!(previews(&db.list_recent(10)), vec!["third", "second", "first"]);
    assert_eq!(previews(&db.export_to_json()), vec!["first", "second", "third"]);
}

#[test]
fn list_recent_is_newest_first_and_limited() {
    let mut db = Database::open(10);
    db.insert_entry(&text("b", 20)).unwrap();
    db.insert_entry(&text("a", 10)).unwrap();
    db.insert_entry(&text("c", 30)).unwrap();
    assert_eq!(previews(&db.list_recent(10)), vec!["c", "b", "a"]);
    assert_eq!(previews(&db.list_recent(2)), vec!["c", "b"]);
    assert_eq!(previews(&db.list_recent(3)), vec!["c", "b", "a"]);
    assert!(db.list_recent(0).is_empty());
}

#[test]
fn search_for_nothing_is_list_recent() {
    let mut db = Database::open(10);
    db.insert_entry(&text("b", 20)).unwrap();
    db.insert_entry(&image_entry(vec![1], at(25))).unwrap();
    db.insert_entry(&tagged("a", 10, &["t"])).unwrap();
    for limit in 0..5 {
        assert_eq!(db.search("", limit), db.list_recent(limit));
    }
}

#[test]
fn search_matches_the_preview_text() {
    let mut db = Database::open(10);
    db.insert_entry(&text("alpha beta", 1)).unwrap();
    db.insert_entry(&text("beta gamma", 2)).unwrap();
    db.insert_entry(&text("gamma delta", 3)).unwrap();
    db.insert_entry(&image_entry(vec![0; 4], at(4))).unwrap();
    assert_eq!(previews(&db.search("beta", 10)), vec!["beta gamma", "alpha beta"]);
    assert_eq!(previews(&db.search("gamma", 10)), vec!["gamma delta", "beta gamma"]);
    assert_eq!(previews(&db.search("gamma", 1)), vec!["gamma delta"]);
    assert_eq!(previews(&db.search("image", 10)), vec!["<image 4 bytes>"]);
    assert!(db.search("epsilon", 10).is_empty());
    assert!(db.search("beta", 0).is_empty());
}

#[test]
fn search_tells_upper_from_lower_case() {
    let mut db = Database::open(10);
    db.insert_entry(&text("Hello", 1)).unwrap();
    assert_eq!(db.search("Hello", 10).len(), 1);
    assert!(db.search("hello", 10).is_empty());
    assert!(db.search("HELLO", 10).is_empty());
}

#[test]
fn search_takes_a_query_literally() {
    let mut db = Database::open(10);
    db.insert_entry(&text("100% sure", 1)).unwrap();
    db.insert_entry(&text("a_b", 2)).unwrap();
    db.insert_entry(&text("axb", 3)).unwrap();
    assert_eq!(previews(&db.search("%", 10)), vec!["100% sure"]);
    assert_eq!(previews(&db.search("a_b", 10)), vec!["a_b"]);
}

#[test]
fn search_matches_the_serialised_tags() {
    let mut db = Database::open(10);
    db.insert_entry(&tagged("one", 1, &["work", "todo"])).unwrap();
    db.insert_entry(&tagged("two", 2, &["home"])).unwrap();
    db.insert_entry(&text("three", 3)).unwrap();
    assert_eq!(previews(&db.search("work", 10)), vec!["one"]);
    assert_eq!(previews(&db.search("[\"work\",\"todo\"]", 10)), vec!["one"]);
    assert_eq!(previews(&db.search("\"home\"", 10)), vec!["two"]);
    assert_eq!(previews(&db.search("[]", 10)), vec!["three"]);
    assert_eq!(previews(&db.search("\"", 10)), vec!["two", "one"]);
    assert_eq!(previews(&db.search("o", 10)), vec!["two", "one"]);
}

#[test]
fn add_tag_puts_the_tag_at_the_end_once() {
    let mut db = Database::open(10);
    db.insert_entry(&tagged("a", 1, &["x"])).unwrap();
    db.insert_entry(&text("b", 2)).unwrap();
    assert_eq!(db.add_tag(1, "y"), Ok(()));
    assert_eq!(db.export_to_json()[0].tags, vec!["x", "y"]);
    assert_eq!(db.add_tag(1, "y"), Ok(()));
    assert_eq!(db.export_to_json()[0].tags, vec!["x", "y"]);
    assert_eq!(db.add_tag(1, "x"), Ok(()));
    assert_eq!(db.export_to_json()[0].tags, vec!["x", "y"]);
    assert!(db.export_to_json()[1].tags.is_empty());
    assert_eq!(previews(&db.search("\"y\"", 10)), vec!["a"]);
}

#[test]
fn add_tag_twice_is_add_tag_once() {
    let mut once = Database::open(10);
    once.insert_entry(&text("a", 1)).unwrap();
    once.add_tag(1, "t").unwrap();
    let mut twice = Database::open(10);
    twice.insert_entry(&text("a", 1)).unwrap();
    twice.add_tag(1, "t").unwrap();
    twice.add_tag(1, "t").unwrap();
    assert_eq!(once.export_to_json(), twice.export_to_json());
    assert_eq!(twice.export_to_json()[0].tags.iter().filter(|t| *t == "t").count(), 1);
}

#[test]
fn remove_tag_takes_every_occurrence() {
    let mut db = Database::open(10);
    db.insert_entry(&tagged("a", 1, &["x", "y", "x", "z"])).unwrap();
    assert_eq!(db.remove_tag(1, "x"), Ok(()));
    assert_eq!(db.export_to_json()[0].tags, vec!["y", "z"]);
    assert!(db.search("\"x\"", 10).is_empty());
}

#[test]
fn remove_tag_of_an_absent_tag_changes_nothing() {
    let mut db = Database::open(10);
    db.insert_entry(&tagged("a", 1, &["x", "y"])).unwrap();
    let before = db.export_to_json();
    assert_eq!(db.remove_tag(1, "q"), Ok(()));
    assert_eq!(db.export_to_json(), before);
    assert_eq!(previews(&db.search("[\"x\",\"y\"]", 10)), vec!["a"]);
}

#[test]
fn tagging_a_missing_row_is_an_error() {
    let mut db = Database::open(10);
    db.insert_entry(&text("a", 1)).unwrap();
    let before = db.export_to_json();
    assert_eq!(db.add_tag(2, "t"), Err(StoreError::NotFound));
    assert_eq!(db.remove_tag(0, "t"), Err(StoreError::NotFound));
    assert_eq!(db.export_to_json(), before);
}

#[test]
fn tagging_an_evicted_row_is_an_error() {
    let mut db = Database::open(1);
    db.insert_entry(&text("a", 1)).unwrap();
    db.insert_entry(&text("b", 2)).unwrap();
    assert_eq!(db.add_tag(1, "t"), Err(StoreError::NotFound));
    assert_eq!(db.add_tag(2, "t"), Ok(()));
}

#[test]
fn export_is_oldest_first_and_in_full() {
    let mut db = Database::open(10);
    let mut img = image_entry(vec![9, 8, 7], at(20));
    img.source_process = Some(String::from("p.exe"));
    db.insert_entry(&img).unwrap();
    db.insert_entry(&tagged("t", 10, &["k"])).unwrap();
    let out = db.export_to_json();
    assert_eq!(previews(&out), vec!["t", "<image 3 bytes>"]);
    assert_eq!(out[1].data, Some(vec![9, 8, 7]));
    assert_eq!(out[1].source_process.as_deref(), Some("p.exe"));
    assert_eq!(out[1].id, Some(1));
    assert_eq!(out[0].tags, vec!["k"]);
    assert_eq!(out[0].id, Some(2));
}

#[test]
fn import_of_an_export_restores_the_rows() {
    let mut db = Database::open(5);
    db.insert_entry(&tagged("c", 30, &["z"])).unwrap();
    db.insert_entry(&tagged("a", 10, &["x", "y"])).unwrap();
    db.insert_entry(&image_entry(vec![1, 2], at(20))).unwrap();
    db.add_tag(3, "pic").unwrap();
    let file = db.export_to_json();
    let mut copy = Database::open(5);
    assert_eq!(copy.import_from_json(&file), Ok(ImportReport { imported: 3, skipped: 0 }));
    let back = copy.export_to_json();
    assert_eq!(back.len(), file.len());
    for (i, (b, f)) in back.iter().zip(file.iter()).enumerate() {
        let mut expected = f.clone();
        expected.id = Some(i as u64 + 1);
        assert_eq!(*b, expected);
    }
    assert_eq!(copy.search("pic", 10).len(), 1);
}

#[test]
fn import_of_its_own_export_changes_nothing() {
    let mut db = Database::open(5);
    db.insert_entry(&text("a", 1)).unwrap();
    db.insert_entry(&tagged("b", 2, &["t"])).unwrap();
    let file = db.export_to_json();
    assert_eq!(db.import_from_json(&file), Ok(ImportReport { imported: 0, skipped: 2 }));
    assert_eq!(db.export_to_json(), file);
    assert_eq!(db.last_id(), 2);
}

#[test]
fn import_counts_stored_and_skipped() {
    let mut db = Database::open(10);
    db.insert_entry(&text("a", 1)).unwrap();
    let file = vec![text("a", 5), text("b", 6), text("b", 7), text("c", 8)];
    assert_eq!(db.import_from_json(&file), Ok(ImportReport { imported: 2, skipped: 2 }));
    assert_eq!(previews(&db.list_recent(10)), vec!["c", "b", "a"]);
    assert_eq!(db.import_from_json(&Vec::new()), Ok(ImportReport { imported: 0, skipped: 0 }));
}

#[test]
fn import_evicts_like_any_insert() {
    let mut db = Database::open(2);
    let file = vec![text("a", 1), text("b", 2), text("c", 3)];
    assert_eq!(db.import_from_json(&file), Ok(ImportReport { imported: 3, skipped: 0 }));
    assert_eq!(previews(&db.list_recent(10)), vec!["c", "b"]);
}

fn keyed(s: &str, secs: i64, id: u64) -> Entry {
    let mut e = text(s, secs);
    e.id = Some(id);
    e
}

#[test]
fn restore_takes_rows_as_they_were_kept() {
    let rows = vec![keyed("a", 1, 4), keyed("b", 2, 2), keyed("c", 3, 9)];
    let mut db = Database::restore(rows.clone(), 9, 5).unwrap();
    assert_eq!(db.export_to_json(), rows);
    assert_eq!(db.last_id(), 9);
    assert_eq!(db.max_entries(), 5);
    assert_eq!(db.insert_entry(&text("d", 4)), stored(10, &[]));
    assert_eq!(db.add_tag(2, "t"), Ok(()));
    assert_eq!(previews(&db.search("\"t\"", 5)), vec!["b"]);
    let empty = Database::restore(Vec::new(), 0, 5).unwrap();
    assert_eq!(empty.len(), 0);
}

#[test]
fn restore_leaves_out_the_oldest_surplus() {
    let rows = vec![keyed("a", 1, 1), keyed("b", 2, 2), keyed("c", 3, 3)];
    let db = Database::restore(rows, 3, 2).unwrap();
    assert_eq!(previews(&db.export_to_json()), vec!["b", "c"]);
    assert_eq!(db.last_id(), 3);
}

#[test]
fn restore_refuses_rows_that_make_no_store() {
    let unkeyed = vec![text("a", 1)];
    assert_eq!(Database::restore(unkeyed, 5, 5).err(), Some(StoreError::Corrupt));
    let zero_key = vec![keyed("a", 1, 0)];
    assert_eq!(Database::restore(zero_key, 5, 5).err(), Some(StoreError::Corrupt));
    let key_too_high = vec![keyed("a", 1, 6)];
    assert_eq!(Database::restore(key_too_high, 5, 5).err(), Some(StoreError::Corrupt));
    let same_key = vec![keyed("a", 1, 1), keyed("b", 2, 1)];
    assert_eq!(Database::restore(same_key, 5, 5).err(), Some(StoreError::Corrupt));
    let same_hash = vec![keyed("a", 1, 1), keyed("a", 2, 2)];
    assert_eq!(Database::restore(same_hash, 5, 5).err(), Some(StoreError::Corrupt));
    let out_of_order = vec![keyed("a", 2, 1), keyed("b", 1, 2)];
    assert_eq!(Database::restore(out_of_order, 5, 5).err(), Some(StoreError::Corrupt));
    assert_eq!(Database::restore(Vec::new(), MAX_ID + 1, 5).err(), Some(StoreError::Corrupt));
}

#[test]
fn a_store_out_of_keys_refuses_new_rows() {
    let rows = vec![keyed("a", 1, MAX_ID)];
    let mut db = Database::restore(rows.clone(), MAX_ID, 5).unwrap();
    assert_eq!(db.insert_entry(&text("b", 2)), Err(StoreError::IdsExhausted));
    assert_eq!(db.insert_entry(&text("a", 2)), Ok(InsertOutcome::Duplicate));
    assert_eq!(db.export_to_json(), rows);
    assert_eq!(db.import_from_json(&vec![text("a", 3), text("c", 3)]), Err(StoreError::IdsExhausted));
    assert_eq!(db.export_to_json(), rows);
}

#[test]
fn remove_tag_undoes_add_tag() {
    let mut db = Database::open(5);
    db.insert_entry(&tagged("a", 1, &["x", "y"])).unwrap();
    db.insert_entry(&text("b", 2)).unwrap();
    let before = db.export_to_json();
    assert_eq!(db.add_tag(1, "z"), Ok(()));
    assert_eq!(db.export_to_json()[0].tags, vec!["x", "y", "z"]);
    assert_eq!(db.remove_tag(1, "z"), Ok(()));
    assert_eq!(db.export_to_json(), before);
    assert_eq!(db.len(), 2);
}

#[test]
fn tags_with_odd_characters_are_stored() {
    let mut db = Database::open(5);
    let odd = ["", "\"", "\\", "\n\t\u{0}", "\u{1f600}", "a,b", "[]"];
    db.insert_entry(&tagged("a", 1, &odd)).unwrap();
    assert_eq!(db.export_to_json()[0].tags, odd);
    assert_eq!(db.add_tag(1, "\u{7f}\u{2028}"), Ok(()));
    assert_eq!(db.remove_tag(1, "\""), Ok(()));
    assert_eq!(db.export_to_json()[0].tags, vec!["", "\\", "\n\t\u{0}", "\u{1f600}", "a,b", "[]", "\u{7f}\u{2028}"]);
    assert_eq!(db.search("\\u0000", 5).len(), 1);
}

#[test]
fn an_import_of_duplicates_goes_through_even_without_keys() {
    let rows = vec![keyed("a", 1, MAX_ID - 1), keyed("b", 2, MAX_ID)];
    let mut db = Database::restore(rows.clone(), MAX_ID, 5).unwrap();
    let file = vec![text("b", 9), text("a", 9), text("b", 9)];
    assert_eq!(db.import_from_json(&file), Ok(ImportReport { imported: 0, skipped: 3 }));
    assert_eq!(db.export_to_json(), rows);
}

#[test]
fn an_import_stops_where_the_keys_run_out() {
    let rows = vec![keyed("a", 1, 1)];
    let mut db = Database::restore(rows, MAX_ID - 1, 5).unwrap();
    let file = vec![text("b", 2), text("a", 3), text("c", 4), text("d", 5)];
    assert_eq!(db.import_from_json(&file), Err(StoreError::IdsExhausted));
    assert_eq!(previews(&db.export_to_json()), vec!["a", "b"]);
    assert_eq!(db.last_id(), MAX_ID);
}
