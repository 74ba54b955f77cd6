use clipboard_manager::database::Database;
use clipboard_manager::models::{ClipboardItem, ClipboardItemType, Collection};

fn item(id: &str, content: &str, created_at: &str, pinned: bool) -> ClipboardItem {
    ClipboardItem {
        id: id.to_string(),
        content: content.to_string(),
        item_type: ClipboardItemType::Text,
        source_app: None,
        preview: None,
        is_pinned: pinned,
        created_at: created_at.to_string(),
        collection_color: None,
        title: None,
    }
}

fn ts(n: u32) -> String {
    format!("2024-01-01T00:00:{:02}+00:00", n)
}

fn ids(v: &[ClipboardItem]) -> Vec<String> {
    v.iter().map(|i| i.id.clone()).collect()
}

fn collection(id: &str, name: &str, color: &str, created_at: &str) -> Collection {
    Collection {
        id: id.to_string(),
        name: name.to_string(),
        color: color.to_string(),
        created_at: created_at.to_string(),
    }
}

#[test]
fn new_store_is_empty() {
    let db = Database::new();
    assert!(db.get_items(50, 0).unwrap().is_empty());
    assert_eq!(db.get_last_content().unwrap(), None);
    assert!(db.get_collections().unwrap().is_empty());
}

#[test]
fn history_keeps_twenty_newest_unpinned() {
    let mut db = Database::new();
    for n in 0..25 {
        db.insert_item(&item(&format!("i{}", n), &format!("text {}", n), &ts(n), false)).unwrap();
    }
    let all = db.get_items(100, 0).unwrap();
    assert_eq!(all.len(), 20);
    assert_eq!(all[0].id, "i24");
    assert_eq!(all[19].id, "i5");
    assert_eq!(db.get_last_content().unwrap(), Some("text 24".to_string()));
}

#[test]
fn pinned_items_survive_pruning_and_list_first() {
    let mut db = Database::new();
    db.insert_item(&item("p", "pinned one", &ts(0), true)).unwrap();
    for n in 1..30 {
        db.insert_item(&item(&format!("i{}", n), "x", &ts(n), false)).unwrap();
    }
    let all = db.get_items(100, 0).unwrap();
    assert_eq!(all.len(), 20);
    assert_eq!(all[0].id, "p");
    assert!(all[0].is_pinned);
    assert_eq!(all[1].id, "i29");
    assert_eq!(all[19].id, "i11");
}

#[test]
fn many_pinned_items_drop_every_unpinned() {
    let mut db = Database::new();
    for n in 0..21 {
        db.insert_item(&item(&format!("p{}", n), "x", &ts(n), true)).unwrap();
    }
    db.insert_item(&item("u", "y", &ts(40), false)).unwrap();
    let all = db.get_items(100, 0).unwrap();
    assert_eq!(all.len(), 21);
    assert!(all.iter().all(|i| i.is_pinned));
}

#[test]
fn insert_replaces_same_id() {
    let mut db = Database::new();
    db.insert_item(&item("a", "old", &ts(1), false)).unwrap();
    db.insert_item(&item("b", "other", &ts(2), false)).unwrap();
    db.insert_item(&item("a", "new", &ts(3), false)).unwrap();
    let all = db.get_items(10, 0).unwrap();
    assert_eq!(ids(&all), vec!["a", "b"]);
    assert_eq!(all[0].content, "new");
}

#[test]
fn get_items_pages() {
    let mut db = Database::new();
    for n in 0..5 {
        db.insert_item(&item(&format!("i{}", n), "x", &ts(n), false)).unwrap();
    }
    assert_eq!(ids(&db.get_items(2, 1).unwrap()), vec!["i3", "i2"]);
    assert_eq!(ids(&db.get_items(10, 3).unwrap()), vec!["i1", "i0"]);
    assert!(db.get_items(3, 5).unwrap().is_empty());
    assert!(db.get_items(0, 0).unwrap().is_empty());
}

#[test]
fn toggle_pin_flips_and_reports() {
    let mut db = Database::new();
    db.insert_item(&item("a", "x", &ts(1), false)).unwrap();
    db.insert_item(&item("b", "y", &ts(2), false)).unwrap();
    assert_eq!(db.toggle_pin("a").unwrap(), true);
    assert_eq!(ids(&db.get_items(10, 0).unwrap()), vec!["a", "b"]);
    assert_eq!(db.toggle_pin("a").unwrap(), false);
    assert_eq!(ids(&db.get_items(10, 0).unwrap()), vec!["b", "a"]);
    let err = db.toggle_pin("missing").unwrap_err();
    assert_eq!(err, "Pin durumu okunamadı: Query returned no rows");
}

#[test]
fn clear_history_keeps_pinned_and_counts() {
    let mut db = Database::new();
    db.insert_item(&item("a", "x", &ts(1), true)).unwrap();
    db.insert_item(&item("b", "y", &ts(2), false)).unwrap();
    db.insert_item(&item("c", "z", &ts(3), false)).unwrap();
    assert_eq!(db.clear_history().unwrap(), 2);
    assert_eq!(ids(&db.get_items(10, 0).unwrap()), vec!["a"]);
    assert_eq!(db.clear_history().unwrap(), 0);
}

#[test]
fn delete_and_update_item() {
    let mut db = Database::new();
    db.insert_item(&item("a", "x", &ts(1), false)).unwrap();
    db.insert_item(&item("b", "y", &ts(2), false)).unwrap();
    db.update_item_content("a", "edited").unwrap();
    db.update_item_content("zzz", "nothing").unwrap();
    let all = db.get_items(10, 0).unwrap();
    assert_eq!(all[1].content, "edited");
    db.delete_item("b").unwrap();
    assert_eq!(ids(&db.get_items(10, 0).unwrap()), vec!["a"]);
}

#[test]
fn search_is_like_contains() {
    let mut db = Database::new();
    db.insert_item(&item("a", "Hello World", &ts(1), false)).unwrap();
    db.insert_item(&item("b", "goodbye", &ts(2), false)).unwrap();
    db.insert_item(&item("c", "HELLO again", &ts(3), true)).unwrap();
    assert_eq!(ids(&db.search_items("hello").unwrap()), vec!["c", "a"]);
    assert_eq!(ids(&db.search_items("o_d").unwrap()), vec!["b"]);
    assert_eq!(ids(&db.search_items("H%W").unwrap()), vec!["a"]);
    assert!(db.search_items("xyz").unwrap().is_empty());
    assert_eq!(ids(&db.search_items("").unwrap()), vec!["c", "b", "a"]);
}

#[test]
fn search_is_case_exact_beyond_ascii() {
    let mut db = Database::new();
    db.insert_item(&item("a", "Şeker", &ts(1), false)).unwrap();
    assert!(db.search_items("şeker").unwrap().is_empty());
    assert_eq!(ids(&db.search_items("Şek").unwrap()), vec!["a"]);
    assert_eq!(ids(&db.search_items("EKER").unwrap()), vec!["a"]);
}

#[test]
fn search_reads_text_up_to_nul() {
    let mut db = Database::new();
    db.insert_item(&item("a", "abc\0def", &ts(1), false)).unwrap();
    assert!(db.search_items("def").unwrap().is_empty());
    assert_eq!(ids(&db.search_items("bc").unwrap()), vec!["a"]);
}

#[test]
fn search_with_too_long_pattern_finds_nothing() {
    let mut db = Database::new();
    db.insert_item(&item("a", "x", &ts(1), false)).unwrap();
    let long = "x".repeat(49_999);
    assert!(db.search_items(&long).unwrap().is_empty());
    assert!(db.search_all(&long, None).unwrap().is_empty());
    let fits = "%".repeat(49_998);
    assert_eq!(ids(&db.search_items(&fits).unwrap()), vec!["a"]);
}

#[test]
fn search_limits_to_fifty() {
    let mut db = Database::new();
    for n in 0..21 {
        db.insert_item(&item(&format!("p{}", n), "match", &ts(n), true)).unwrap();
    }
    for n in 0..40 {
        db.add_to_collection_at("c", &format!("e{}", n), "match", "text", None, &ts(n)).unwrap();
    }
    db.create_collection(&collection("c", "C", "#fff", "t")).unwrap();
    assert_eq!(db.search_items("match").unwrap().len(), 21);
    assert_eq!(db.search_all("match", Some("#fff")).unwrap().len(), 40);
    assert_eq!(db.search_all("match", None).unwrap().len(), 50);
}

#[test]
fn search_all_covers_history_and_collections() {
    let mut db = Database::new();
    db.create_collection(&collection("red", "Red", "#f00", "2024-01-01")).unwrap();
    db.insert_item(&item("h1", "note one", "2024-01-01 00:00:01", false)).unwrap();
    db.insert_item(&item("h2", "note two", "2024-01-01 00:00:03", false)).unwrap();
    db.add_to_collection_at("red", "h1", "note one", "text", None, "2024-01-01 00:00:02").unwrap();
    db.add_to_collection_at("red", "s1", "saved note", "text", None, "2024-01-01 00:00:04").unwrap();
    db.add_to_collection_at("gone", "s2", "lost note", "text", None, "2024-01-01 00:00:05").unwrap();
    let all = db.search_all("note", None).unwrap();
    assert_eq!(ids(&all), vec!["s1", "h2", "h1", "h1"]);
    assert_eq!(all[2].created_at, "2024-01-01 00:00:02");
    assert_eq!(all[3].collection_color, Some("#f00".to_string()));
    let red = db.search_all("note", Some("#f00")).unwrap();
    assert_eq!(ids(&red), vec!["s1", "h1", "h1"]);
    assert_eq!(red[2].created_at, "2024-01-01 00:00:01");
    let only_saved = db.search_all("saved", None).unwrap();
    assert_eq!(ids(&only_saved), vec!["s1"]);
}

#[test]
fn search_all_without_color_orders_by_time_only() {
    let mut db = Database::new();
    db.insert_item(&item("old_pinned", "note", &ts(1), true)).unwrap();
    db.insert_item(&item("new", "note", &ts(2), false)).unwrap();
    assert_eq!(ids(&db.search_items("note").unwrap()), vec!["old_pinned", "new"]);
    assert_eq!(ids(&db.search_all("note", None).unwrap()), vec!["new", "old_pinned"]);
    db.create_collection(&collection("c", "C", "#1", "2024")).unwrap();
    db.add_to_collection_at("c", "kept", "a note", "text", None, &ts(3)).unwrap();
    assert_eq!(ids(&db.search_all("note", None).unwrap()), vec!["kept", "new", "old_pinned"]);
}

#[test]
fn search_all_with_color_looks_in_collections() {
    let mut db = Database::new();
    db.create_collection(&collection("red", "Red", "#f00", "2024-01-01")).unwrap();
    db.create_collection(&collection("blue", "Blue", "#00f", "2024-01-02")).unwrap();
    db.add_to_collection_at("red", "r1", "apple pie", "link", Some("pv"), "2024-02-01 10:00:00").unwrap();
    db.add_to_collection_at("blue", "b1", "apple juice", "text", None, "2024-02-01 11:00:00").unwrap();
    db.add_to_collection_at("gone", "g1", "apple tart", "text", None, "2024-02-01 12:00:00").unwrap();
    let hits = db.search_all("APPLE", Some("#f00")).unwrap();
    assert_eq!(ids(&hits), vec!["r1"]);
    assert_eq!(hits[0].item_type, ClipboardItemType::Link);
    assert_eq!(hits[0].collection_color, Some("#f00".to_string()));
    assert_eq!(hits[0].preview, Some("pv".to_string()));
    assert_eq!(hits[0].created_at, "2024-02-01 10:00:00");
    assert!(!hits[0].is_pinned);
    assert!(db.search_all("apple", Some("#0f0")).unwrap().is_empty());
}

#[test]
fn listing_shows_collection_color() {
    let mut db = Database::new();
    db.insert_item(&item("a", "x", &ts(1), false)).unwrap();
    db.insert_item(&item("b", "y", &ts(2), false)).unwrap();
    db.create_collection(&collection("c1", "Work", "#123456", "2024-01-01")).unwrap();
    db.add_to_collection_at("c1", "a", "x", "text", None, "2024-01-05 00:00:00").unwrap();
    let all = db.get_items(10, 0).unwrap();
    assert_eq!(all[0].collection_color, None);
    assert_eq!(all[1].collection_color, Some("#123456".to_string()));
    db.delete_collection("c1").unwrap();
    let all = db.get_items(10, 0).unwrap();
    assert_eq!(all[1].collection_color, None);
}

#[test]
fn collections_listed_oldest_first_and_unique() {
    let mut db = Database::new();
    db.create_collection(&collection("b", "B", "#1", "2024-01-02")).unwrap();
    db.create_collection(&collection("a", "A", "#2", "2024-01-01")).unwrap();
    let err = db.create_collection(&collection("a", "A2", "#3", "2024-01-03")).unwrap_err();
    assert_eq!(err, "Koleksiyon oluşturulamadı: UNIQUE constraint failed: collections.id");
    let cs = db.get_collections().unwrap();
    assert_eq!(cs.len(), 2);
    assert_eq!(cs[0].id, "a");
    assert_eq!(cs[1].id, "b");
    db.rename_collection("a", "Renamed").unwrap();
    db.update_collection_color("b", "#999").unwrap();
    let cs = db.get_collections().unwrap();
    assert_eq!(cs[0].name, "Renamed");
    assert_eq!(cs[1].color, "#999");
}

#[test]
fn collection_items_and_counts() {
    let mut db = Database::new();
    db.create_collection(&collection("c", "C", "#abc", "2024")).unwrap();
    db.add_to_collection_at("c", "x", "first", "image", None, "2024-01-01 00:00:01").unwrap();
    db.add_to_collection_at("c", "y", "second", "weird", None, "2024-01-01 00:00:02").unwrap();
    db.add_to_collection_at("orphan", "z", "third", "text", None, "2024-01-01 00:00:03").unwrap();
    let items = db.get_collection_items("c").unwrap();
    assert_eq!(ids(&items), vec!["y", "x"]);
    assert_eq!(items[0].item_type, ClipboardItemType::Text);
    assert_eq!(items[1].item_type, ClipboardItemType::Image);
    assert_eq!(items[0].source_app, None);
    assert_eq!(db.get_collection_item_count("c").unwrap(), 2);
    assert_eq!(db.get_collection_item_count("orphan").unwrap(), 1);
    assert!(db.get_collection_items("orphan").unwrap().is_empty());
    db.update_collection_item_content("x", "changed").unwrap();
    assert_eq!(db.get_collection_items("c").unwrap()[1].content, "changed");
    db.add_to_collection_at("c", "x", "again", "text", None, "2024-01-01 00:00:00").unwrap();
    assert_eq!(ids(&db.get_collection_items("c").unwrap()), vec!["y", "x"]);
    db.remove_from_collection("y").unwrap();
    assert_eq!(ids(&db.get_collection_items("c").unwrap()), vec!["x"]);
    db.delete_collection("c").unwrap();
    assert_eq!(db.get_collection_item_count("c").unwrap(), 0);
    assert_eq!(db.get_collection_item_count("orphan").unwrap(), 1);
}

#[test]
fn add_to_collection_uses_clock() {
    let mut db = Database::new();
    db.create_collection(&collection("c", "C", "#abc", "2024")).unwrap();
    db.add_to_collection("c", "x", "content", "text", Some("p")).unwrap();
    let items = db.get_collection_items("c").unwrap();
    assert_eq!(items.len(), 1);
    assert_eq!(items[0].created_at.len(), 19);
}

#[test]
fn restore_puts_rows_back_in_order() {
    let mut db = Database::new();
    db.restore_item(&item("old", "o", &ts(1), false));
    db.restore_item(&item("new", "n", &ts(5), false));
    db.restore_item(&item("mid", "m", &ts(3), false));
    assert_eq!(ids(&db.stored_items()), vec!["new", "mid", "old"]);
    db.restore_collection(&collection("c", "C", "#1", "2024"));
    db.restore_collection(&collection("c", "C2", "#2", "2024"));
    assert_eq!(db.get_collections().unwrap().len(), 1);
    assert_eq!(db.get_collections().unwrap()[0].name, "C2");
    db.add_to_collection_at("c", "e", "content", "text", None, "t").unwrap();
    assert_eq!(db.stored_entries().len(), 1);
    assert_eq!(db.stored_entries()[0].item_id, "e");
}

#[test]
fn newest_insert_is_read_back_first() {
    let mut db = Database::new();
    db.insert_item(&item("p", "pinned", &ts(1), true)).unwrap();
    db.insert_item(&item("a", "older", &ts(2), false)).unwrap();
    db.insert_item(&item("b", "newest", &ts(3), false)).unwrap();
    let stored = db.stored_items();
    assert_eq!(stored[0].id, "b");
    assert_eq!(stored[0].content, "newest");
    assert_eq!(db.get_last_content().unwrap(), Some("newest".to_string()));
    assert_eq!(ids(&db.get_items(10, 0).unwrap()), vec!["p", "b", "a"]);
}

#[test]
fn created_collection_is_listed() {
    let mut db = Database::new();
    db.create_collection(&collection("late", "Late", "#1", "2024-05-01")).unwrap();
    db.create_collection(&collection("early", "Early", "#2", "2023-01-01")).unwrap();
    let cs = db.get_collections().unwrap();
    assert!(cs.iter().any(|c| c.id == "early" && c.name == "Early" && c.color == "#2"));
    assert!(cs.iter().any(|c| c.id == "late"));
}

#[test]
fn saved_entry_is_stored_as_given_or_trimmed() {
    let mut db = Database::new();
    for n in 10..30 {
        db.insert_item(&item(&format!("i{}", n), "x", &ts(n), false)).unwrap();
    }
    db.insert_item(&item("a", "pinned text", &ts(1), true)).unwrap();
    assert!(db.stored_items().iter().any(|r| r.id == "a" && r.content == "pinned text" && r.is_pinned));
    assert_eq!(db.stored_items().len(), 20);
    db.insert_item(&item("a", "unpinned text", &ts(2), false)).unwrap();
    assert!(db.stored_items().iter().any(|r| r.id == "a" && r.content == "unpinned text" && !r.is_pinned));
    assert_eq!(db.stored_items().len(), 20);
    db.insert_item(&item("b", "y", &ts(40), false)).unwrap();
    assert!(!db.stored_items().iter().any(|r| r.id == "a"));
    assert_eq!(db.stored_items().len(), 20);
}
