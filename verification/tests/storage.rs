use lf_blog::page::{Page, PageType, StoredAttachment};
use lf_blog::storage::{get_mime_type, StorageDB};

fn page(slug: &str, page_type: PageType, title: &str, content: &str, category: Option<&str>) -> Page {
    Page {
        id: format!("id-{}", slug),
        slug: slug.to_string(),
        page_type,
        title: title.to_string(),
        content: content.to_string(),
        category: category.map(|c| c.to_string()),
        updated_at: "never".to_string(),
    }
}

fn attachment(slug: &str, filename: &str, data: &[u8]) -> StoredAttachment {
    StoredAttachment {
        id: format!("attachment-{}", filename),
        slug: slug.to_string(),
        filename: filename.to_string(),
        original_name: format!("orig-{}", filename),
        mime_type: get_mime_type(filename).to_string(),
        file_data: data.to_vec(),
        file_size: data.len(),
        updated_at: "never".to_string(),
    }
}

fn slugs(pages: &[Page]) -> Vec<&str> {
    pages.iter().map(|p| p.slug.as_str()).collect()
}

#[test]
fn test_storage_creation() {
    let db = StorageDB::new();
    assert!(db.get_all_pages().is_empty());
    assert!(db.get_all_attachments().is_empty());
    assert_eq!(db.get_last_compiled(), Some(String::new()));
}

#[test]
fn test_save_and_get_page() {
    let mut db = StorageDB::new();

    let page = Page {
        id: "test-1".to_string(),
        slug: "test-page".to_string(),
        page_type: PageType::Item,
        title: "Test Page".to_string(),
        content: "<h1>Hello</h1>".to_string(),
        category: Some("test".to_string()),
        updated_at: "2024-01-01T00:00:00+00:00".to_string(),
    };

    db.save_page(&page);
    assert!(db.get_page("test-page").is_some());
    let got = db.get_page("test-page").unwrap();
    assert_eq!(got.id, "test-1");
    assert_eq!(got.title, "Test Page");
    assert_eq!(got.content, "<h1>Hello</h1>");
    assert_eq!(got.category.as_deref(), Some("test"));
    assert_eq!(got.page_type, PageType::Item);
    assert!(got.updated_at.len() >= 20);
    assert_ne!(got.updated_at, "2024-01-01T00:00:00+00:00");
}

#[test]
fn test_save_and_get_attachment() {
    let mut db = StorageDB::new();

    let attachment = StoredAttachment {
        id: "att-1".to_string(),
        slug: "test-item".to_string(),
        filename: "test_image.jpg".to_string(),
        original_name: "my_photo.jpg".to_string(),
        mime_type: "image/jpeg".to_string(),
        file_data: vec![0x89, 0x50, 0x4E, 0x47],
        file_size: 4,
        updated_at: "2024-01-01T00:00:00+00:00".to_string(),
    };

    db.save_attachment(&attachment);
    assert!(db.get_attachment("test_image.jpg").is_some());
    let got = db.get_attachment("test_image.jpg").unwrap();
    assert_eq!(got.original_name, "my_photo.jpg");
    assert_eq!(got.file_data, vec![0x89, 0x50, 0x4E, 0x47]);
    assert_eq!(got.file_size, 4);
    assert_eq!(got.slug, "test-item");
}

#[test]
fn a_page_under_a_taken_slug_is_replaced() {
    let mut db = StorageDB::new();
    db.save_page_at(&page("a", PageType::Item, "old", "old body", Some("c")), "t1");
    db.save_page_at(&page("b", PageType::Category, "b", "b body", None), "t1");
    db.save_page_at(&page("a", PageType::Item, "new", "new body", Some("c")), "t2");
    assert_eq!(slugs(&db.get_all_pages()), vec!["a", "b"]);
    let a = db.get_page("a").unwrap();
    assert_eq!(a.title, "new");
    assert_eq!(a.content, "new body");
    assert_eq!(a.updated_at, "t2");
    assert_eq!(db.get_page("b").unwrap().updated_at, "t1");
    assert!(db.get_page("c").is_none());
    assert!(db.get_page("").is_none());
}

#[test]
fn pages_come_out_in_the_order_of_their_slugs() {
    let mut db = StorageDB::new();
    for s in ["pear", "apple", "zoo", "Apple", "apple-pie", "b", "a", ""] {
        db.save_page_at(&page(s, PageType::Item, s, "", None), "t");
    }
    assert_eq!(slugs(&db.get_all_pages()), vec!["", "Apple", "a", "apple", "apple-pie", "b", "pear", "zoo"]);
}

#[test]
fn pages_are_selected_by_type_and_category() {
    let mut db = StorageDB::new();
    db.save_page_at(&page("index", PageType::Index, "Home", "", None), "t");
    db.save_page_at(&page("fruit", PageType::Category, "fruit", "", None), "t");
    db.save_page_at(&page("veg", PageType::Category, "veg", "", None), "t");
    db.save_page_at(&page("fruit-pear", PageType::Item, "Pear", "", Some("fruit")), "t");
    db.save_page_at(&page("fruit-apple", PageType::Item, "Apple", "", Some("fruit")), "t");
    db.save_page_at(&page("veg-leek", PageType::Item, "Leek", "", Some("veg")), "t");
    db.save_page_at(&page("odd", PageType::Category, "odd", "", Some("fruit")), "t");
    assert_eq!(slugs(&db.get_pages_by_type(PageType::Index)), vec!["index"]);
    assert_eq!(slugs(&db.get_pages_by_type(PageType::Category)), vec!["fruit", "odd", "veg"]);
    assert_eq!(slugs(&db.get_pages_by_type(PageType::Item)), vec!["fruit-apple", "fruit-pear", "veg-leek"]);
    assert_eq!(slugs(&db.get_items_by_category("fruit")), vec!["fruit-apple", "fruit-pear"]);
    assert!(db.get_items_by_category("none").is_empty());
    let stats = db.get_stats();
    assert_eq!(stats.total_categories, 3);
    assert_eq!(stats.total_items, 3);
    assert_eq!(stats.total_attachments, 0);
    assert_eq!(stats.last_compiled, Some(String::new()));
}

#[test]
fn pages_can_be_deleted() {
    let mut db = StorageDB::new();
    db.save_page_at(&page("a", PageType::Item, "a", "", None), "t");
    db.save_page_at(&page("b", PageType::Item, "b", "", None), "t");
    assert!(db.delete_page("a"));
    assert!(!db.delete_page("a"));
    assert!(!db.delete_page("zzz"));
    assert_eq!(slugs(&db.get_all_pages()), vec!["b"]);
    db.clear_pages();
    assert!(db.get_all_pages().is_empty());
}

#[test]
fn attachments_are_kept_by_file_name() {
    let mut db = StorageDB::new();
    db.save_attachment_at(&attachment("b-item", "b_1.png", b"one"), "t1");
    db.save_attachment_at(&attachment("a-item", "z_1.png", b"two"), "t1");
    db.save_attachment_at(&attachment("a-item", "a_2.pdf", b"three"), "t1");
    db.save_attachment_at(&attachment("a-item", "a_1.pdf", b"four"), "t1");
    db.save_attachment_at(&attachment("b-item", "b_1.png", b"five!"), "t2");
    let names = |list: Vec<StoredAttachment>| -> Vec<String> { list.into_iter().map(|a| a.filename).collect() };
    assert_eq!(names(db.get_attachments_by_slug("a-item")), vec!["a_1.pdf", "a_2.pdf", "z_1.png"]);
    assert_eq!(names(db.get_attachments_by_slug("b-item")), vec!["b_1.png"]);
    assert_eq!(names(db.get_all_attachments()), vec!["a_1.pdf", "a_2.pdf", "z_1.png", "b_1.png"]);
    let b = db.get_attachment("b_1.png").unwrap();
    assert_eq!(b.file_data, b"five!".to_vec());
    assert_eq!(b.file_size, 5);
    assert_eq!(b.updated_at, "t2");
    assert_eq!(db.get_stats().total_attachments, 4);
    assert!(db.delete_attachment("a_2.pdf"));
    assert!(!db.delete_attachment("a_2.pdf"));
    assert_eq!(db.delete_attachments_by_slug("a-item"), 2);
    assert_eq!(db.delete_attachments_by_slug("a-item"), 0);
    assert_eq!(names(db.get_all_attachments()), vec!["b_1.png"]);
    db.clear_attachments();
    assert!(db.get_all_attachments().is_empty());
}

#[test]
fn metadata_is_kept_by_key() {
    let mut db = StorageDB::new();
    assert_eq!(db.get_metadata("last_compiled"), Some(String::new()));
    assert_eq!(db.get_metadata("other"), None);
    db.set_metadata("other", "1");
    db.set_metadata("other", "2");
    db.set_metadata("another", "x");
    assert_eq!(db.get_metadata("other"), Some("2".to_string()));
    assert_eq!(db.get_metadata("another"), Some("x".to_string()));
    db.update_compile_time_at("2024-06-01T12:00:00+00:00");
    assert_eq!(db.get_last_compiled(), Some("2024-06-01T12:00:00+00:00".to_string()));
    db.update_compile_time();
    let now = db.get_last_compiled().unwrap();
    assert!(now.contains('T') && now.len() >= 20);
    db.clear_all();
    assert_eq!(db.get_last_compiled(), Some(String::new()));
    assert_eq!(db.get_metadata("other"), None);
}

#[test]
fn batches_write_every_row() {
    let mut db = StorageDB::new();
    db.save_page_at(&page("keep", PageType::Item, "keep", "kept", None), "t0");
    let pages = vec![
        page("b", PageType::Item, "first b", "", None),
        page("a", PageType::Item, "a", "", None),
        page("b", PageType::Item, "second b", "", None),
    ];
    db.save_pages_batch_at(&pages, "t1");
    assert_eq!(slugs(&db.get_all_pages()), vec!["a", "b", "keep"]);
    assert_eq!(db.get_page("b").unwrap().title, "second b");
    assert_eq!(db.get_page("b").unwrap().updated_at, "t1");
    assert_eq!(db.get_page("keep").unwrap().updated_at, "t0");
    db.save_pages_batch(&pages);
    assert_eq!(slugs(&db.get_all_pages()), vec!["a", "b", "keep"]);
    assert_ne!(db.get_page("a").unwrap().updated_at, "t1");
    db.save_pages_batch_at(&[], "t2");
    assert_eq!(db.get_all_pages().len(), 3);
    let files = vec![attachment("a", "a_1.png", b"1"), attachment("a", "a_2.png", b"2")];
    db.save_attachments_batch_at(&files, "t3");
    db.save_attachments_batch(&files);
    assert_eq!(db.get_all_attachments().len(), 2);
}

#[test]
fn search_finds_titles_and_content_but_no_index() {
    let mut db = StorageDB::new();
    db.save_page_at(&page("index", PageType::Index, "Apple home", "apple apple", None), "t9");
    db.save_page_at(&page("a", PageType::Item, "Apple", "red", Some("fruit")), "t1");
    db.save_page_at(&page("b", PageType::Item, "Pear", "not an APPLE", Some("fruit")), "t2");
    db.save_page_at(&page("c", PageType::Category, "Pineapple juice", "", None), "t3");
    db.save_page_at(&page("d", PageType::Item, "Apple pie", "", Some("fruit")), "t4");
    db.save_page_at(&page("e", PageType::Item, "Leek", "green", Some("veg")), "t5");
    assert_eq!(slugs(&db.search_pages("apple", 10)), vec!["a", "d", "c", "b"]);
    assert_eq!(slugs(&db.search_pages("APPLE", 10)), vec!["a", "d", "c", "b"]);
    assert_eq!(slugs(&db.search_pages("apple", 2)), vec!["a", "d"]);
    assert_eq!(slugs(&db.search_pages("apple", 0)), Vec::<&str>::new());
    assert_eq!(db.search_pages_count("apple"), 4);
    assert_eq!(db.search_pages_count("leek"), 1);
    assert_eq!(db.search_pages_count("nothing"), 0);
    assert!(db.search_pages("nothing", 10).is_empty());
    assert_eq!(slugs(&db.search_pages("", 10)), vec!["e", "d", "c", "b", "a"]);
    assert_eq!(slugs(&db.search_pages("%", 10)), Vec::<&str>::new());
}

#[test]
fn an_exact_title_ranks_above_a_match_in_the_body() {
    let mut db = StorageDB::new();
    db.save_page_at(&page("body", PageType::Item, "Something else", "all about rust", None), "2024-12-31");
    db.save_page_at(&page("exact", PageType::Item, "Rust", "nothing", None), "2020-01-01");
    db.save_page_at(&page("prefix", PageType::Item, "Rusty nails", "", None), "2021-01-01");
    db.save_page_at(&page("later", PageType::Item, "Trust", "", None), "2025-01-01");
    assert_eq!(slugs(&db.search_pages("rust", 10)), vec!["exact", "prefix", "later", "body"]);
}

#[test]
fn mime_types_go_by_the_end_of_the_name() {
    assert_eq!(get_mime_type("a.jpg"), "image/jpeg");
    assert_eq!(get_mime_type("a.jpeg"), "image/jpeg");
    assert_eq!(get_mime_type("a.png"), "image/png");
    assert_eq!(get_mime_type("a.gif"), "image/gif");
    assert_eq!(get_mime_type("a.svg"), "image/svg+xml");
    assert_eq!(get_mime_type("a.webp"), "image/webp");
    assert_eq!(get_mime_type("a.pdf"), "application/pdf");
    assert_eq!(get_mime_type("a.zip"), "application/zip");
    assert_eq!(get_mime_type("a.mp4"), "video/mp4");
    assert_eq!(get_mime_type("a.mp3"), "audio/mpeg");
    assert_eq!(get_mime_type("a.txt"), "text/plain");
    assert_eq!(get_mime_type("a.JPG"), "application/octet-stream");
    assert_eq!(get_mime_type("jpg"), "application/octet-stream");
    assert_eq!(get_mime_type(".jpg"), "image/jpeg");
    assert_eq!(get_mime_type(""), "application/octet-stream");
}

#[test]
fn page_types_have_names() {
    assert_eq!(PageType::Index.as_str(), "index");
    assert_eq!(PageType::Category.as_str(), "category");
    assert_eq!(PageType::Item.as_str(), "item");
    assert_eq!(PageType::from_name("index"), PageType::Index);
    assert_eq!(PageType::from_name("category"), PageType::Category);
    assert_eq!(PageType::from_name("item"), PageType::Item);
    assert_eq!(PageType::from_name("anything"), PageType::Item);
}
