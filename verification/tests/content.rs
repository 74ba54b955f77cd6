use clipboard_manager::content::{create_preview, detect_content_type, ClipboardWatcher};
use clipboard_manager::database::Database;
use clipboard_manager::models::ClipboardItemType;
use clipboard_manager::text::{decimal_string, text_less, trim_str};

#[test]
fn kind_names_round_trip() {
    for t in [
        ClipboardItemType::Text,
        ClipboardItemType::Image,
        ClipboardItemType::Link,
        ClipboardItemType::FilePath,
    ] {
        assert_eq!(ClipboardItemType::from_str(t.as_str()), t);
    }
    assert_eq!(ClipboardItemType::Text.as_str(), "text");
    assert_eq!(ClipboardItemType::Image.as_str(), "image");
    assert_eq!(ClipboardItemType::Link.as_str(), "link");
    assert_eq!(ClipboardItemType::FilePath.as_str(), "filepath");
    assert_eq!(ClipboardItemType::from_str("IMAGE"), ClipboardItemType::Text);
    assert_eq!(ClipboardItemType::from_str(""), ClipboardItemType::Text);
}

#[test]
fn detects_links_paths_and_text() {
    assert_eq!(detect_content_type("https://example.com"), ClipboardItemType::Link);
    assert_eq!(detect_content_type("  http://a.b  "), ClipboardItemType::Link);
    assert_eq!(detect_content_type("www.rust-lang.org"), ClipboardItemType::Link);
    assert_eq!(detect_content_type("C:\\Users\\me\\a.txt"), ClipboardItemType::FilePath);
    assert_eq!(detect_content_type("\\\\server\\share"), ClipboardItemType::FilePath);
    assert_eq!(detect_content_type("C:"), ClipboardItemType::Text);
    assert_eq!(detect_content_type("hello https://x"), ClipboardItemType::Text);
    assert_eq!(detect_content_type("ftp://x"), ClipboardItemType::Text);
    assert_eq!(detect_content_type("\n\tHTTPS://X"), ClipboardItemType::Text);
}

#[test]
fn previews_by_kind() {
    assert_eq!(
        create_preview("https://github.com/user/repo", &ClipboardItemType::Link),
        Some("github.com".to_string())
    );
    assert_eq!(
        create_preview("http://host", &ClipboardItemType::Link),
        Some("host".to_string())
    );
    let long_link = format!("www.{}", "a".repeat(60));
    assert_eq!(
        create_preview(&long_link, &ClipboardItemType::Link),
        Some(long_link.chars().take(50).collect::<String>())
    );
    assert_eq!(
        create_preview("C:\\dir\\file.txt", &ClipboardItemType::FilePath),
        Some("file.txt".to_string())
    );
    assert_eq!(
        create_preview("/home/u/notes.md", &ClipboardItemType::FilePath),
        Some("notes.md".to_string())
    );
    assert_eq!(create_preview("plain", &ClipboardItemType::FilePath), Some("plain".to_string()));
    assert_eq!(create_preview("short", &ClipboardItemType::Text), None);
    let hundred = "b".repeat(100);
    assert_eq!(create_preview(&hundred, &ClipboardItemType::Text), None);
    let long = "a".repeat(150);
    assert_eq!(
        create_preview(&long, &ClipboardItemType::Text),
        Some(format!("{}...", "a".repeat(100)))
    );
    let wide = "ş".repeat(60);
    assert_eq!(
        create_preview(&wide, &ClipboardItemType::Text),
        Some(format!("{}...", wide))
    );
    assert_eq!(create_preview("x", &ClipboardItemType::Image), Some("Resim".to_string()));
}

#[test]
fn watcher_records_new_text_once() {
    let mut db = Database::new();
    let mut w = ClipboardWatcher::new();
    assert!(w.observe_with(&mut db, "   ", "i0".to_string(), "t0".to_string()).is_none());
    let first = w
        .observe_with(&mut db, "  https://example.com/x ", "i1".to_string(), "t1".to_string())
        .unwrap();
    assert_eq!(first.id, "i1");
    assert_eq!(first.content, "https://example.com/x");
    assert_eq!(first.item_type, ClipboardItemType::Link);
    assert_eq!(first.preview, Some("example.com".to_string()));
    assert!(!first.is_pinned);
    assert!(w.observe_with(&mut db, "https://example.com/x", "i2".to_string(), "t2".to_string()).is_none());
    assert!(w.observe_with(&mut db, "other", "i3".to_string(), "t3".to_string()).is_some());
    assert_eq!(db.get_items(10, 0).unwrap().len(), 2);
}

#[test]
fn watcher_skips_text_already_stored_at_start() {
    let mut db = Database::new();
    let mut w = ClipboardWatcher::new();
    w.observe_with(&mut db, "same", "a".to_string(), "2000-01-01T00:00:00+00:00".to_string()).unwrap();
    let mut fresh = ClipboardWatcher::new();
    assert!(fresh.observe_with(&mut db, "same", "b".to_string(), "t2".to_string()).is_none());
    assert!(fresh.observe(&mut db, "different").is_some());
    let all = db.get_items(10, 0).unwrap();
    assert_eq!(all.len(), 2);
    assert_eq!(all[0].content, "different");
    assert_eq!(all[0].id.len(), 36);
}

#[test]
fn trims_unicode_whitespace() {
    assert_eq!(trim_str("\u{3000} a b \u{2029}"), "a b");
    assert_eq!(trim_str("   "), "");
}

#[test]
fn orders_text_like_bytes() {
    assert!(text_less("2024-01-01", "2024-01-02"));
    assert!(text_less("abc", "abcd"));
    assert!(!text_less("b", "abc"));
    assert!(!text_less("same", "same"));
    assert!(text_less("z", "ş"));
}

#[test]
fn writes_decimals() {
    assert_eq!(decimal_string(0), "0");
    assert_eq!(decimal_string(4294967296), "4294967296");
    assert_eq!(decimal_string(u64::MAX), u64::MAX.to_string());
}
