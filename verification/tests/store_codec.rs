use movie_shortlist::model::StoredMovie;
use movie_shortlist::store::{Document, InsertOutcome, DeleteOutcome};

fn movie(id: u64, title: &str) -> StoredMovie {
    StoredMovie {
        id,
        title: title.to_string(),
        original_title: title.to_string(),
        poster_path: None,
        release_date: None,
    }
}

fn full_movie(id: u64) -> StoredMovie {
    StoredMovie {
        id,
        title: format!("Фильм \"{}\" \\ тест", id),
        original_title: format!("Movie {}", id),
        poster_path: Some(format!("/p{}.jpg", id)),
        release_date: Some("2021-05-01".to_string()),
    }
}

#[test]
fn get_on_empty_store_is_empty() {
    let doc = Document::empty();
    assert!(doc.get(7).is_empty());
}

#[test]
fn insert_appends_in_order() {
    let mut doc = Document::empty();
    assert_eq!(doc.add_movie(1, movie(10, "a")), InsertOutcome::Inserted);
    assert_eq!(doc.add_movie(1, movie(20, "b")), InsertOutcome::Inserted);
    let list = doc.get(1);
    assert_eq!(list.len(), 2);
    assert_eq!(list[0].id, 10);
    assert_eq!(list[1].id, 20);
}

#[test]
fn insert_duplicate_id_leaves_list_unchanged() {
    let mut doc = Document::empty();
    assert_eq!(doc.add_movie(1, movie(10, "a")), InsertOutcome::Inserted);
    assert_eq!(doc.add_movie(1, movie(20, "b")), InsertOutcome::Inserted);
    let before = doc.get(1);
    assert_eq!(doc.add_movie(1, movie(10, "other title")), InsertOutcome::AlreadyPresent);
    let after = doc.get(1);
    assert_eq!(before, after);
}

#[test]
fn insert_into_full_list_is_rejected() {
    let mut doc = Document::empty();
    for id in 1..=10u64 {
        assert_eq!(doc.add_movie(5, movie(id, "m")), InsertOutcome::Inserted);
    }
    assert_eq!(doc.add_movie(5, movie(11, "late")), InsertOutcome::Full);
    assert_eq!(doc.get(5).len(), 10);
}

#[test]
fn get_never_exceeds_ten_after_mixed_operations() {
    let mut doc = Document::empty();
    for id in 1..=12u64 {
        doc.add_movie(9, movie(id, "m"));
    }
    doc.delete_movie(9, 3);
    doc.add_movie(9, movie(30, "n"));
    doc.add_movie(9, movie(31, "o"));
    let list = doc.get(9);
    assert!(list.len() <= 10);
    for a in 0..list.len() {
        for b in (a + 1)..list.len() {
            assert_ne!(list[a].id, list[b].id);
        }
    }
}

#[test]
fn replace_with_twelve_keeps_first_ten_in_order() {
    let mut doc = Document::empty();
    let mut entries = Vec::new();
    for id in 1..=12u64 {
        entries.push(movie(id, &format!("t{}", id)));
    }
    doc.put(3, entries);
    let list = doc.get(3);
    assert_eq!(list.len(), 10);
    for (k, m) in list.iter().enumerate() {
        assert_eq!(m.id, (k + 1) as u64);
        assert_eq!(m.title, format!("t{}", k + 1));
    }
}

#[test]
fn delete_removes_only_that_id() {
    let mut doc = Document::empty();
    doc.add_movie(1, movie(10, "a"));
    doc.add_movie(1, movie(20, "b"));
    doc.add_movie(1, movie(30, "c"));
    assert_eq!(doc.delete_movie(1, 20), DeleteOutcome::Removed);
    let list = doc.get(1);
    assert_eq!(list.len(), 2);
    assert_eq!(list[0].id, 10);
    assert_eq!(list[1].id, 30);
    assert_eq!(doc.delete_movie(1, 20), DeleteOutcome::NotFound);
}

#[test]
fn remove_chat_clears_only_that_conversation() {
    let mut doc = Document::empty();
    doc.add_movie(1, movie(10, "a"));
    doc.add_movie(2, movie(20, "b"));
    doc.remove_chat(1);
    assert!(doc.get(1).is_empty());
    assert_eq!(doc.get(2).len(), 1);
}

#[test]
fn operations_stay_in_their_conversation() {
    let mut doc = Document::empty();
    doc.add_movie(1, movie(10, "a"));
    doc.add_movie(2, movie(10, "b"));
    assert_eq!(doc.delete_movie(1, 10), DeleteOutcome::Removed);
    assert_eq!(doc.get(2).len(), 1);
}

#[test]
fn encode_of_empty_document_is_canonical() {
    let doc = Document::empty();
    assert_eq!(doc.encode(), "{\"version\":1,\"chats\":{}}");
}

#[test]
fn encode_decode_reconstructs_identical_document() {
    let mut doc = Document::empty();
    doc.add_movie(77, full_movie(1));
    doc.add_movie(77, full_movie(2));
    doc.add_movie(-42, movie(5, "плёнка с юникодом 😀"));
    doc.add_movie(i64::MIN, movie(6, ""));
    let text = doc.encode();
    let reloaded = Document::decode(&text).expect("snapshot must parse");
    assert_eq!(reloaded, doc);
}

#[test]
fn load_from_missing_or_garbage_yields_fresh_document() {
    let fresh = Document::load_from_text(None);
    assert_eq!(fresh.version, 1);
    assert!(fresh.chats.is_empty());
    let bad = Document::load_from_text(Some("{not a snapshot"));
    assert_eq!(bad.version, 1);
    assert!(bad.chats.is_empty());
}

#[test]
fn load_upgrades_zero_version_in_place() {
    let text = "{\"version\":0,\"chats\":{}}";
    let doc = Document::load_from_text(Some(text));
    assert_eq!(doc.version, 1);
    assert!(doc.chats.is_empty());
}

#[test]
fn load_after_flush_reconstructs_last_flushed_state() {
    let mut doc = Document::empty();
    doc.add_movie(8, full_movie(3));
    doc.put(9, vec![movie(1, "x"), movie(2, "y")]);
    let flushed = doc.encode();
    doc.add_movie(8, full_movie(4));
    let reloaded = Document::load_from_text(Some(&flushed));
    assert_eq!(reloaded.get(9).len(), 2);
    assert_eq!(reloaded.get(8).len(), 1);
    assert_eq!(reloaded.get(8)[0].id, 3);
}

#[test]
fn escaped_titles_survive_the_round_trip() {
    let mut doc = Document::empty();
    doc.add_movie(1, movie(9, "a\"b\\c"));
    let text = doc.encode();
    let reloaded = Document::decode(&text).expect("snapshot must parse");
    assert_eq!(reloaded.get(1)[0].title, "a\"b\\c");
}
