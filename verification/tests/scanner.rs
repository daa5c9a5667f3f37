use lf_blog::attachments::{
    get_mime_type, make_attachment, mime_type_of_lowered, scan_attachments,
};
use lf_blog::content::{Category, ContentItem, SiteContent};
use lf_blog::error::{CompileError, ParseError};
use lf_blog::scanner::{decode_text, Scanner};
use lf_blog::source::{extension, file_stem, hidden, Listing, Node};

fn file(name: &str, text: &str) -> Node {
    Node::File { name: name.to_string(), content: Ok(text.as_bytes().to_vec()) }
}

fn unreadable(name: &str, why: &str) -> Node {
    Node::File { name: name.to_string(), content: Err(why.to_string()) }
}

fn dir(name: &str, entries: Vec<Node>) -> Node {
    Node::Dir { name: name.to_string(), listing: Listing { entries, failure: None } }
}

fn listing(entries: Vec<Node>) -> Listing {
    Listing { entries, failure: None }
}

fn scan(root: &Listing) -> Result<SiteContent, CompileError> {
    Scanner::new("content".to_string()).scan(root)
}

fn names(site: &SiteContent) -> Vec<String> {
    site.categories.iter().map(|c: &Category| c.name.clone()).collect()
}

fn item_names(category: &Category) -> Vec<String> {
    category.items.iter().map(|i: &ContentItem| i.item_name.clone()).collect()
}

#[test]
fn test_url_generation() {
    assert_eq!(format!("{}-{}", "grape", "tizi"), "grape-tizi");
    let root = listing(vec![dir("grape", vec![dir("tizi", vec![file("tizi.md", "# Tizi")])])]);
    let site = scan(&root).ok().unwrap();
    assert_eq!(site.categories[0].items[0].url, "grape-tizi");
    assert_eq!(site.categories[0].url, "grape");
}

#[test]
fn names_have_extensions_and_stems() {
    assert_eq!(extension("a.md"), Some("md".to_string()));
    assert_eq!(extension("a.b.c"), Some("c".to_string()));
    assert_eq!(extension("a."), Some(String::new()));
    assert_eq!(extension(".hidden"), None);
    assert_eq!(extension(".hidden.md"), Some("md".to_string()));
    assert_eq!(extension("plain"), None);
    assert_eq!(extension(""), None);
    assert_eq!(file_stem("a.md"), "a");
    assert_eq!(file_stem("a.b.c"), "a.b");
    assert_eq!(file_stem(".hidden"), ".hidden");
    assert_eq!(file_stem("plain"), "plain");
    assert!(hidden(".x"));
    assert!(!hidden("x."));
    assert!(!hidden(""));
}

#[test]
fn mime_types_go_by_extension() {
    assert_eq!(get_mime_type("jpg"), "image/jpeg");
    assert_eq!(get_mime_type("JPEG"), "image/jpeg");
    assert_eq!(get_mime_type("Png"), "image/png");
    assert_eq!(get_mime_type("gif"), "image/gif");
    assert_eq!(get_mime_type("svg"), "image/svg+xml");
    assert_eq!(get_mime_type("webp"), "image/webp");
    assert_eq!(get_mime_type("pdf"), "application/pdf");
    assert_eq!(get_mime_type("zip"), "application/zip");
    assert_eq!(get_mime_type("mp4"), "video/mp4");
    assert_eq!(get_mime_type("mp3"), "audio/mpeg");
    assert_eq!(get_mime_type("txt"), "text/plain");
    assert_eq!(get_mime_type("css"), "text/css");
    assert_eq!(get_mime_type("js"), "application/javascript");
    assert_eq!(get_mime_type("html"), "text/html");
    assert_eq!(get_mime_type(""), "application/octet-stream");
    assert_eq!(get_mime_type("jpgx"), "application/octet-stream");
    assert_eq!(mime_type_of_lowered("png"), "image/png");
    assert_eq!(mime_type_of_lowered("PNG"), "application/octet-stream");
}

#[test]
fn attachments_get_numbered_names() {
    let a = make_attachment("apple", 12, "Photo One.JPG", &vec![1, 2, 3]);
    assert_eq!(a.original_name, "Photo One.JPG");
    assert_eq!(a.new_name, "apple_12.JPG");
    assert_eq!(a.file_type, "JPG");
    assert_eq!(a.path, "attachment/apple_12.JPG");
    assert_eq!(a.file_data, vec![1, 2, 3]);
    assert_eq!(a.file_size, 3);
    assert_eq!(a.mime_type, "image/jpeg");
    let b = make_attachment("apple", 0, "README", &Vec::new());
    assert_eq!(b.new_name, "apple_0.");
    assert_eq!(b.file_type, "");
    assert_eq!(b.mime_type, "application/octet-stream");
    let c = make_attachment("d", 1234567890, "x.y.png", &vec![0]);
    assert_eq!(c.new_name, "d_1234567890.png");
}

#[test]
fn attachment_names_are_distinct_and_counted_from_one() {
    let l = listing(vec![
        file("a.png", "1"),
        dir("nested", vec![file("n.png", "n")]),
        file(".DS_Store", "x"),
        file("b.png", "22"),
        file("c", "333"),
        file("a.jpg", "4444"),
    ]);
    let list = scan_attachments("item", &l).ok().unwrap();
    let got: Vec<&str> = list.iter().map(|a| a.new_name.as_str()).collect();
    assert_eq!(got, vec!["item_1.png", "item_2.png", "item_3.", "item_4.jpg"]);
    let originals: Vec<&str> = list.iter().map(|a| a.original_name.as_str()).collect();
    assert_eq!(originals, vec!["a.png", "b.png", "c", "a.jpg"]);
    assert_eq!(list[3].file_size, 4);
    for i in 0..list.len() {
        for j in 0..i {
            assert_ne!(list[i].new_name, list[j].new_name);
        }
    }
}

#[test]
fn unreadable_attachment_is_an_error() {
    let l = listing(vec![file("a.png", "1"), unreadable("b.png", "denied"), unreadable("c", "later")]);
    assert!(matches!(scan_attachments("item", &l), Err(CompileError::Io(m)) if m == "denied"));
    let hidden_only = listing(vec![unreadable(".secret", "denied")]);
    assert!(scan_attachments("item", &hidden_only).ok().unwrap().is_empty());
    let cut = Listing { entries: vec![file("a.png", "1")], failure: Some("cut short".to_string()) };
    assert!(matches!(scan_attachments("item", &cut), Err(CompileError::Io(m)) if m == "cut short"));
}

#[test]
fn bytes_are_read_as_utf8() {
    assert_eq!(decode_text(&"héllo ✓".as_bytes().to_vec()), Some("héllo ✓".to_string()));
    assert_eq!(decode_text(&vec![0xff, 0xfe]), None);
    assert_eq!(decode_text(&Vec::new()), Some(String::new()));
}

#[test]
fn categories_come_out_in_the_order_of_their_names() {
    let root = listing(vec![
        dir("pear", vec![file("index.md", "---\ndescription: pears\n---\n")]),
        file("README.md", "not a category"),
        dir(".git", vec![file("index.md", "x")]),
        dir("apple", vec![file("index.md", "no metadata")]),
        dir("Zebra", vec![file("index.md", "")]),
        dir("empty", vec![file("notes.txt", "nothing here")]),
        dir("fig", vec![dir("one", vec![file("one.md", "# One")])]),
    ]);
    let site = scan(&root).ok().unwrap();
    assert_eq!(names(&site), vec!["Zebra", "apple", "fig", "pear"]);
    assert_eq!(site.categories[3].description.as_deref(), Some("pears"));
    assert_eq!(site.categories[1].description, None);
    assert_eq!(site.categories[1].index_path, "content/apple/index.md");
    assert!(site.categories[1].items.is_empty());
    for i in 1..site.categories.len() {
        assert!(site.categories[i - 1].name < site.categories[i].name);
    }
}

#[test]
fn items_with_a_day_come_first_latest_first() {
    let doc = |date: &str| format!("---\ndate: {}\n---\nbody", date);
    let root = listing(vec![dir(
        "c",
        vec![
            dir("zeta", vec![file("zeta.md", "no date")]),
            dir("old", vec![file("old.md", &doc("2020-05-05"))]),
            dir("alpha", vec![file("alpha.md", "also no date")]),
            dir("new", vec![file("new.md", &doc("2024-01-01"))]),
            dir("mid", vec![file("mid.md", "---\ntime: 2022-02-02T00:00:00Z\n---\n")]),
            dir("twin", vec![file("twin.md", &doc("2022-02-02"))]),
            dir(".hidden", vec![file("h.md", "x")]),
            dir("attachment", vec![file("a.md", "x")]),
        ],
    )]);
    let site = scan(&root).ok().unwrap();
    let c = &site.categories[0];
    assert_eq!(item_names(c), vec!["new", "mid", "twin", "old", "alpha", "zeta"]);
    assert_eq!(c.items[0].date.as_deref(), Some("2024-01-01"));
    assert_eq!(c.items[1].date.as_deref(), Some("2022-02-02"));
    assert_eq!(c.items[4].date, None);
}

#[test]
fn an_item_directory_gives_an_item_for_every_document() {
    let root = listing(vec![dir(
        "fruit",
        vec![dir(
            "basket",
            vec![
                file("b.md", "---\ntitle: B\nauthor: me\ntags: [x, y]\ndescription: d\n---\n# ignored"),
                file("notes.txt", "skip"),
                file("a.md", "# A heading"),
                dir("attachment", vec![file("p.png", "png"), file("q.pdf", "pdf")]),
            ],
        )],
    )]);
    let site = scan(&root).ok().unwrap();
    let items = &site.categories[0].items;
    assert_eq!(items.len(), 2);
    assert_eq!(items[0].item_name, "a");
    assert_eq!(items[0].title, "A heading");
    assert_eq!(items[0].url, "fruit-a");
    assert_eq!(items[0].dir_name, "basket");
    assert_eq!(items[0].category, "fruit");
    assert_eq!(items[0].file_path, "content/fruit/basket/a.md");
    assert_eq!(items[0].html_content, "<h1>A heading</h1>\n");
    assert!(items[0].tags.is_empty());
    assert_eq!(items[1].item_name, "b");
    assert_eq!(items[1].title, "B");
    assert_eq!(items[1].author.as_deref(), Some("me"));
    assert_eq!(items[1].description.as_deref(), Some("d"));
    assert_eq!(items[1].tags, vec!["x".to_string(), "y".to_string()]);
    for item in items.iter() {
        let got: Vec<&str> = item.attachments.iter().map(|a| a.new_name.as_str()).collect();
        assert_eq!(got, vec!["basket_1.png", "basket_2.pdf"]);
        assert_eq!(item.attachments[1].mime_type, "application/pdf");
        assert_eq!(item.attachments[0].path, "attachment/basket_1.png");
    }
}

#[test]
fn the_first_failure_ends_the_scan() {
    let bad = "---\ntitle: never closed";
    let root = listing(vec![
        dir("a", vec![dir("x", vec![file("x.md", bad)])]),
        dir("b", vec![dir("y", vec![unreadable("y.md", "gone")])]),
    ]);
    assert!(matches!(scan(&root), Err(CompileError::Parse(ParseError::UnclosedFrontmatter))));
    let root = listing(vec![
        dir("b", vec![dir("y", vec![unreadable("y.md", "gone")])]),
        dir("a", vec![dir("x", vec![file("x.md", bad)])]),
    ]);
    assert!(matches!(scan(&root), Err(CompileError::Io(m)) if m == "gone"));
    let root = listing(vec![dir(
        "c",
        vec![dir("z", vec![Node::File { name: "z.md".to_string(), content: Ok(vec![0xc3, 0x28]) }])],
    )]);
    assert!(matches!(scan(&root), Err(CompileError::Parse(ParseError::Encoding))));
    let root = listing(vec![dir(
        "c",
        vec![dir("z", vec![file("z.md", "fine"), dir("attachment", vec![unreadable("f.bin", "io")])])],
    )]);
    assert!(matches!(scan(&root), Err(CompileError::Io(m)) if m == "io"));
    let root = listing(vec![dir("c", vec![dir("z", vec![dir("z.md", vec![])])])]);
    assert!(matches!(scan(&root), Err(CompileError::Io(m)) if m == "is a directory: z.md"));
}

#[test]
fn a_listing_that_ended_early_is_an_error() {
    let root = Listing { entries: vec![dir("a", vec![file("index.md", "x")])], failure: Some("read_dir failed".to_string()) };
    assert!(matches!(scan(&root), Err(CompileError::Io(m)) if m == "read_dir failed"));
    let inner = Node::Dir {
        name: "a".to_string(),
        listing: Listing { entries: vec![file("index.md", "x")], failure: Some("inner".to_string()) },
    };
    assert!(matches!(scan(&listing(vec![inner])), Err(CompileError::Io(m)) if m == "inner"));
}

#[test]
fn an_index_that_does_not_parse_says_nothing() {
    let root = listing(vec![dir("a", vec![file("index.md", "---\nnever closed")])]);
    let site = scan(&root).ok().unwrap();
    assert_eq!(names(&site), vec!["a"]);
    assert_eq!(site.categories[0].description, None);
    let root = listing(vec![dir("a", vec![unreadable("index.md", "locked")])]);
    assert!(matches!(scan(&root), Err(CompileError::Io(m)) if m == "locked"));
}

#[test]
fn nothing_to_scan_gives_an_empty_site() {
    let site = scan(&listing(Vec::new())).ok().unwrap();
    assert!(site.categories.is_empty());
    assert!(site.all_items().is_empty());
}

#[test]
fn all_items_go_category_by_category() {
    let root = listing(vec![
        dir("b", vec![dir("two", vec![file("two.md", "2")]), dir("three", vec![file("three.md", "3")])]),
        dir("a", vec![dir("one", vec![file("one.md", "1")])]),
    ]);
    let site = scan(&root).ok().unwrap();
    let all: Vec<&str> = site.all_items().iter().map(|i| i.url.as_str()).collect();
    assert_eq!(all, vec!["a-one", "b-three", "b-two"]);
}

#[test]
fn entries_without_a_unicode_name_are_passed_over_where_they_are_not_needed() {
    let nameless = |directory: bool, markdown: bool| Node::Nameless { directory, markdown };
    let root = listing(vec![
        nameless(false, false),
        nameless(false, true),
        dir(
            "a",
            vec![
                nameless(false, true),
                file("index.md", "x"),
                dir("one", vec![nameless(false, false), nameless(true, false), file("one.md", "1")]),
            ],
        ),
    ]);
    let site = scan(&root).ok().unwrap();
    assert_eq!(names(&site), vec!["a"]);
    assert_eq!(item_names(&site.categories[0]), vec!["one"]);

    let root = listing(vec![dir("a", vec![file("index.md", "x")]), nameless(true, false)]);
    assert!(matches!(scan(&root), Err(CompileError::Io(m)) if m == "Invalid category name"));
    let root = listing(vec![dir("a", vec![nameless(true, true)])]);
    assert!(matches!(scan(&root), Err(CompileError::Io(m)) if m == "Invalid item name"));
    let root = listing(vec![dir("a", vec![dir("one", vec![nameless(false, true)])])]);
    assert!(matches!(scan(&root), Err(CompileError::Io(m)) if m == "Invalid item name"));
    let root = listing(vec![dir("a", vec![dir("one", vec![nameless(true, true)])])]);
    assert!(matches!(scan(&root), Err(CompileError::Io(m)) if m == "Invalid item name"));

    let files = listing(vec![file("a.png", "1"), nameless(true, false), nameless(false, false)]);
    assert!(matches!(scan_attachments("item", &files), Err(CompileError::Io(m)) if m == "Invalid file name"));
    let files = listing(vec![nameless(true, true), file("a.png", "1")]);
    assert_eq!(scan_attachments("item", &files).ok().unwrap().len(), 1);
}
