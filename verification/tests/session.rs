use clipboard_manager::commands::{
    collection_entry_content, create_collection, create_collection_with, full_sync_snapshot,
    get_clipboard_items,
    update_clipboard_content,
};
use clipboard_manager::database::Database;
use clipboard_manager::layout::{monitor_at, taskbar_panel, MonitorArea, PanelRect};
use clipboard_manager::models::{ClipboardItem, ClipboardItemType};
use clipboard_manager::settings::{AppSettings, SettingsManager};
use clipboard_manager::sync::{offline_entry, HttpMethod, RequestBody, SyncManager, SyncState};

fn json(text: &str) -> serde_json::Value {
    serde_json::from_str(text).unwrap()
}

fn text(v: serde_json::Value) -> String {
    v.to_string()
}

fn req_parts(r: &clipboard_manager::sync::SyncRequest) -> (HttpMethod, String, String) {
    (r.method, r.url.clone(), r.authorization.clone())
}

#[test]
fn settings_default_and_update() {
    assert_eq!(AppSettings::default().shortcut, "ctrl+alt+v");
    let mut m = SettingsManager::new(None);
    assert_eq!(m.get().shortcut, "ctrl+alt+v");
    m.set_shortcut("ctrl+shift+x").unwrap();
    assert_eq!(m.get().shortcut, "ctrl+shift+x");
    let loaded = SettingsManager::new(Some(AppSettings { shortcut: "alt+c".to_string() }));
    assert_eq!(loaded.get().shortcut, "alt+c");
}

#[test]
fn sync_session_sign_in_and_out() {
    let mut s = SyncManager::new();
    assert!(!s.is_logged_in());
    let st: SyncState = s.get_state();
    assert_eq!(st.api_url, "http://localhost:3456/api");
    s.set_auth("tok".to_string(), "a@b.c".to_string(), Some(7));
    assert!(s.is_logged_in());
    let st = s.get_state();
    assert_eq!(st.token, Some("tok".to_string()));
    assert_eq!(st.user_email, Some("a@b.c".to_string()));
    assert_eq!(st.device_id, Some(7));
    s.clear_auth();
    assert!(!s.is_logged_in());
    assert_eq!(s.get_state().device_id, None);
}

#[test]
fn sync_queue_drains_in_order() {
    let mut s = SyncManager::new();
    s.enqueue("create_collection", r#"{"local_id": "1"}"#.to_string());
    s.enqueue("delete_collection", r#"{"local_id": "2"}"#.to_string());
    let items = s.drain_queue();
    assert_eq!(items.len(), 2);
    assert_eq!(items[0].action, "create_collection");
    assert_eq!(json(&items[1].payload)["local_id"], "2");
    assert!(s.drain_queue().is_empty());
}

#[test]
fn sync_routes_when_signed_in() {
    let mut s = SyncManager::new();
    let payload = text(json(r#"{"local_id": "abc", "content": "c"}"#));
    assert!(s.send_or_queue("push_clipboard", &payload).is_none());
    s.set_auth("T".to_string(), "e".to_string(), None);
    let r = s.send_or_queue("delete_collection", &payload).unwrap();
    assert_eq!(
        req_parts(&r),
        (HttpMethod::Delete, "http://localhost:3456/api/collections/local/abc".to_string(), "Bearer T".to_string())
    );
    assert!(matches!(r.body, RequestBody::Empty));
    let r = s.send_or_queue("add_to_collection", &payload).unwrap();
    assert_eq!(r.url, "http://localhost:3456/api/collections/local/abc/items");
    assert!(matches!(r.body, RequestBody::Payload));
    let r = s.send_or_queue("edit_sync_item", &payload).unwrap();
    assert_eq!((r.method, r.url.as_str()), (HttpMethod::Put, "http://localhost:3456/api/sync/item"));
    assert!(s.send_or_queue("edit_item", &payload).is_none());
    let r = s.process_action("add_to_collection", &payload).unwrap();
    assert_eq!((r.method, r.url.as_str()), (HttpMethod::Post, "http://localhost:3456/api/collections"));
    match r.body {
        RequestBody::CollectionItem { local_id } => assert_eq!(local_id, "abc"),
        _ => panic!("wrong body"),
    }
    assert!(s.process_action("edit_sync_item", &payload).is_none());
    let r = s.send_or_queue("rename_collection", r#"{"name": "n"}"#).unwrap();
    assert_eq!(r.url, "http://localhost:3456/api/collections/local/");
    let r = s.send_or_queue("update_color", r#"{"local_id": 5}"#).unwrap();
    assert_eq!(r.url, "http://localhost:3456/api/collections/local/");
    let r = s.send_or_queue("delete_collection", "not json").unwrap();
    assert_eq!(r.url, "http://localhost:3456/api/collections/local/");
}

#[test]
fn sync_routes_follow_payload_collection() {
    let mut s = SyncManager::new();
    s.set_auth("tok".to_string(), "a@b.c".to_string(), None);
    let payload = text(json(r#"{"local_id": "c1", "content": "hi", "item_type": "text"}"#));
    let r = s.send_or_queue("add_to_collection", &payload).unwrap();
    assert_eq!(
        req_parts(&r),
        (HttpMethod::Post, "http://localhost:3456/api/collections/local/c1/items".to_string(), "Bearer tok".to_string())
    );
    let r = s.send_or_queue("remove_from_collection", &payload).unwrap();
    assert_eq!((r.method, r.url.as_str()), (HttpMethod::Delete, "http://localhost:3456/api/collections/local/c1/items"));
    let r = s.send_or_queue("edit_collection_item", &payload).unwrap();
    assert_eq!((r.method, r.url.as_str()), (HttpMethod::Put, "http://localhost:3456/api/collections/local/c1/items"));
    let r = s.process_action("rename_collection", r#"{"local_id": "zz", "name": "n"}"#).unwrap();
    assert_eq!((r.method, r.url.as_str()), (HttpMethod::Put, "http://localhost:3456/api/collections/local/zz"));
    let r = s.process_action("delete_collection", r#"{"local_id": "q"}"#).unwrap();
    assert_eq!((r.method, r.url.as_str()), (HttpMethod::Delete, "http://localhost:3456/api/collections/local/q"));
    assert!(matches!(r.body, RequestBody::Empty));
    assert_eq!(s.get_state().token, Some("tok".to_string()));
}

#[test]
fn undelivered_changes_are_kept_offline() {
    assert!(offline_entry("push_clipboard", "{}", true).is_none());
    let e = offline_entry("push_clipboard", r#"{"content":"x"}"#, false).unwrap();
    assert_eq!(e.action, "push_clipboard");
    assert_eq!(e.payload, r#"{"content":"x"}"#);
}

#[test]
fn login_registers_then_full_syncs() {
    let mut db = Database::new();
    db.insert_item(&ClipboardItem {
        id: "i".to_string(),
        content: "hello".to_string(),
        item_type: ClipboardItemType::Text,
        source_app: None,
        preview: None,
        is_pinned: false,
        created_at: "t1".to_string(),
        collection_color: None,
        title: None,
    })
    .unwrap();
    let mut s = SyncManager::new();
    let r = s.login("tok".to_string(), "a@b.c".to_string(), "pc");
    assert_eq!(
        req_parts(&r),
        (HttpMethod::Post, "http://localhost:3456/api/devices".to_string(), "Bearer tok".to_string())
    );
    match r.body {
        RequestBody::Device { device_name } => assert_eq!(device_name, "pc"),
        _ => panic!("wrong body"),
    }
    assert_eq!(s.get_state().user_email, Some("a@b.c".to_string()));
    let (full, reply) = s.finish_login(&db);
    assert_eq!(
        req_parts(&full),
        (HttpMethod::Post, "http://localhost:3456/api/sync/full".to_string(), "Bearer tok".to_string())
    );
    assert_eq!(reply, "Giriş yapıldı, veriler senkronize edildi");
    match full.body {
        RequestBody::FullSync { snapshot, device_id } => {
            assert_eq!(device_id, 0);
            assert_eq!(snapshot.clipboard_items.len(), 1);
            assert_eq!(snapshot.clipboard_items[0].content, "hello");
        }
        _ => panic!("wrong body"),
    }
    s.device_registered(true, Ok(9)).unwrap();
    match s.finish_login(&db).0.body {
        RequestBody::FullSync { device_id, .. } => assert_eq!(device_id, 9),
        _ => panic!("wrong body"),
    }
}

#[test]
fn device_registration() {
    let mut s = SyncManager::new();
    assert_eq!(s.register_device("pc").unwrap_err(), "Giriş yapılmamış");
    s.set_auth("T".to_string(), "e".to_string(), None);
    let r = s.register_device("pc").unwrap();
    assert_eq!(r.url, "http://localhost:3456/api/devices");
    assert_eq!(r.method, HttpMethod::Post);
    assert_eq!(s.device_registered(false, Ok(3)).unwrap_err(), "Device kaydedilemedi");
    assert_eq!(
        s.device_registered(true, Err("bad json".to_string())).unwrap_err(),
        "Parse hatası: bad json"
    );
    assert_eq!(s.get_state().device_id, None);
    assert_eq!(s.device_registered(true, Ok(42)).unwrap(), 42);
    assert_eq!(s.get_state().device_id, Some(42));
}

#[test]
fn commands_default_page_and_edits() {
    let mut db = Database::new();
    for n in 0..3 {
        db.insert_item(&ClipboardItem {
            id: format!("i{}", n),
            content: "x".to_string(),
            item_type: ClipboardItemType::Text,
            source_app: None,
            preview: None,
            is_pinned: false,
            created_at: format!("t{}", n),
            collection_color: None,
            title: None,
        })
        .unwrap();
    }
    assert_eq!(get_clipboard_items(&db, None, None).unwrap().len(), 3);
    assert_eq!(get_clipboard_items(&db, Some(1), Some(1)).unwrap()[0].id, "i1");
    update_clipboard_content(&mut db, "i0", "new", false).unwrap();
    assert_eq!(db.get_items(1, 2).unwrap()[0].content, "new");
}

#[test]
fn commands_collections() {
    let mut db = Database::new();
    let c = create_collection_with(&mut db, "id1".to_string(), "Name", None, "2024".to_string()).unwrap();
    assert_eq!(c.color, "#6c5ce7");
    assert!(create_collection_with(&mut db, "id1".to_string(), "Dup", Some("#1"), "2025".to_string()).is_err());
    let c2 = create_collection(&mut db, "Other", Some("#00ff00")).unwrap();
    assert_eq!(c2.color, "#00ff00");
    assert_eq!(c2.id.len(), 36);
    assert_eq!(db.get_collections().unwrap().len(), 2);
    db.add_to_collection_at("id1", "e1", "saved text", "text", None, "2024-05-05 00:00:00").unwrap();
    update_clipboard_content(&mut db, "e1", "edited text", true).unwrap();
    assert_eq!(
        collection_entry_content(&db, "e1", Some("id1")),
        Some("edited text".to_string())
    );
    assert_eq!(collection_entry_content(&db, "e1", None), None);
    assert_eq!(collection_entry_content(&db, "nope", Some("id1")), None);
}

#[test]
fn monitor_under_cursor_and_panel() {
    let ms = vec![
        MonitorArea { x: 0, y: 0, width: 1920, height: 1080 },
        MonitorArea { x: 1920, y: 0, width: 2560, height: 1440 },
    ];
    assert_eq!(monitor_at(100, 100, &ms), Some(0));
    assert_eq!(monitor_at(1920, 1439, &ms), Some(1));
    assert_eq!(monitor_at(5000, 0, &ms), None);
    assert_eq!(
        taskbar_panel(ms[1]),
        PanelRect { x: 1920, y: 970, width: 2560, height: 470 }
    );
}

#[test]
fn full_sync_snapshot_lists_history_and_collections() {
    let mut db = Database::new();
    for n in 0..25 {
        db.insert_item(&ClipboardItem {
            id: format!("i{}", n),
            content: format!("c{}", n),
            item_type: if n % 2 == 0 { ClipboardItemType::Link } else { ClipboardItemType::FilePath },
            source_app: None,
            preview: None,
            is_pinned: false,
            created_at: format!("t{:02}", n),
            collection_color: None,
            title: None,
        })
        .unwrap();
    }
    create_collection_with(&mut db, "k".to_string(), "K", Some("#1"), "2024".to_string()).unwrap();
    db.add_to_collection_at("k", "e", "saved", "image", None, "2024-01-01 00:00:00").unwrap();
    let snap = full_sync_snapshot(&db);
    assert_eq!(snap.clipboard_items.len(), 20);
    assert_eq!(snap.clipboard_items[0].content, "c24");
    assert_eq!(snap.clipboard_items[0].item_type, "link");
    assert_eq!(snap.clipboard_items[1].item_type, "filepath");
    assert_eq!(snap.collections.len(), 1);
    assert_eq!(snap.collections[0].name, "K");
    assert_eq!(snap.collections[0].items.len(), 1);
    assert_eq!(snap.collections[0].items[0].item_type, "image");
}
