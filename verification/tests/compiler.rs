use lf_blog::compiler::{
    build_item_page, build_snapshot, CompileTimes, Compiler, Rendered, RenderedCategory, Renderer,
};
use lf_blog::config::Config;
use lf_blog::content::{Category, ContentItem, SiteContent};
use lf_blog::error::{CompileError, ParseError};
use lf_blog::page::PageType;
use lf_blog::scanner::Scanner;
use lf_blog::source::{Listing, Node};
use lf_blog::storage::StorageDB;

struct Plain;

impl Renderer for Plain {
    fn render_index(&self, site: &SiteContent) -> Result<String, String> {
        Ok(format!("<index categories={}>", site.categories.len()))
    }

    fn render_category(&self, category: &Category) -> Result<String, String> {
        Ok(format!("<category {} items={}>", category.name, category.items.len()))
    }

    fn render_item(&self, item: &ContentItem) -> Result<String, String> {
        Ok(format!("<item {}>{}</item>", item.title, item.html_content))
    }
}

struct FailsOn(&'static str);

impl Renderer for FailsOn {
    fn render_index(&self, _site: &SiteContent) -> Result<String, String> {
        Ok("index".to_string())
    }

    fn render_category(&self, category: &Category) -> Result<String, String> {
        Ok(category.name.clone())
    }

    fn render_item(&self, item: &ContentItem) -> Result<String, String> {
        if item.item_name == self.0 {
            Err(format!("no template for {}", item.item_name))
        } else {
            Ok(item.title.clone())
        }
    }
}

fn file(name: &str, text: &str) -> Node {
    Node::File { name: name.to_string(), content: Ok(text.as_bytes().to_vec()) }
}

fn dir(name: &str, entries: Vec<Node>) -> Node {
    Node::Dir { name: name.to_string(), listing: Listing { entries, failure: None } }
}

fn fruit() -> Listing {
    Listing {
        entries: vec![dir(
            "fruit",
            vec![
                file("index.md", "---\ndescription: fruits\n---\n"),
                dir(
                    "apple",
                    vec![
                        file(
                            "apple.md",
                            "---\ntitle: \"Apple\"\ndate: \"2024-01-01\"\n---\n\n![pic](attachment/pic.jpg)\n",
                        ),
                        dir("attachment", vec![file("pic.jpg", "JPEGDATA")]),
                    ],
                ),
            ],
        )],
        failure: None,
    }
}

fn compiler<R: Renderer>(renderer: R) -> Compiler<R> {
    Compiler::new(Config::default(), renderer, StorageDB::new())
}

#[test]
fn compile_end_to_end() {
    let mut c = compiler(Plain);
    let result = c.compile(&fruit()).ok().unwrap();
    assert!(result.success);
    assert!(result.generated_files.is_empty());
    assert_eq!(result.total_categories, 1);
    assert_eq!(result.total_items, 1);
    assert_eq!(result.total_attachments, 1);

    let pages = c.storage.get_all_pages();
    let ids: Vec<&str> = pages.iter().map(|p| p.id.as_str()).collect();
    assert_eq!(ids, vec!["category-fruit", "item-fruit-apple", "index"]);
    let slugs: Vec<&str> = pages.iter().map(|p| p.slug.as_str()).collect();
    assert_eq!(slugs, vec!["fruit", "fruit-apple", "index"]);

    let index = c.storage.get_page("index").unwrap();
    assert_eq!(index.page_type, PageType::Index);
    assert_eq!(index.title, "My Collections");
    assert_eq!(index.content, "<index categories=1>");
    assert_eq!(index.category, None);

    let category = c.storage.get_page("fruit").unwrap();
    assert_eq!(category.page_type, PageType::Category);
    assert_eq!(category.title, "fruit");
    assert_eq!(category.content, "<category fruit items=1>");

    let item = c.storage.get_page("fruit-apple").unwrap();
    assert_eq!(item.page_type, PageType::Item);
    assert_eq!(item.title, "Apple");
    assert_eq!(item.category.as_deref(), Some("fruit"));
    assert!(item.content.contains("attachment/apple_1.jpg"));
    assert!(!item.content.contains("attachment/pic.jpg"));
    assert_eq!(
        item.content,
        "<item Apple><p><img src=\"attachment/apple_1.jpg\" alt=\"pic\" /></p>\n</item>"
    );

    let files = c.storage.get_all_attachments();
    assert_eq!(files.len(), 1);
    assert_eq!(files[0].filename, "apple_1.jpg");
    assert_eq!(files[0].id, "attachment-apple_1.jpg");
    assert_eq!(files[0].slug, "fruit-apple");
    assert_eq!(files[0].original_name, "pic.jpg");
    assert_eq!(files[0].mime_type, "image/jpeg");
    assert_eq!(files[0].file_data, b"JPEGDATA".to_vec());
    assert_eq!(files[0].file_size, 8);

    let stats = c.storage.get_stats();
    assert_eq!(stats.total_categories, 1);
    assert_eq!(stats.total_items, 1);
    assert_eq!(stats.total_attachments, 1);
    assert!(stats.last_compiled.unwrap().len() >= 20);
}

#[test]
fn compiling_twice_changes_no_content() {
    let mut c = compiler(Plain);
    c.compile(&fruit()).ok().unwrap();
    let first_pages = c.storage.get_all_pages();
    let first_files = c.storage.get_all_attachments();
    c.compile(&fruit()).ok().unwrap();
    let second_pages = c.storage.get_all_pages();
    let second_files = c.storage.get_all_attachments();
    assert_eq!(first_pages.len(), second_pages.len());
    for (a, b) in first_pages.iter().zip(second_pages.iter()) {
        assert_eq!(a.slug, b.slug);
        assert_eq!(a.content, b.content);
        assert_eq!(a.title, b.title);
    }
    let names = |list: &[lf_blog::page::StoredAttachment]| -> Vec<String> { list.iter().map(|a| a.filename.clone()).collect() };
    assert_eq!(names(&first_files), names(&second_files));
}

#[test]
fn removed_content_stays_in_the_store() {
    let mut c = compiler(Plain);
    c.compile(&fruit()).ok().unwrap();
    let empty = Listing { entries: Vec::new(), failure: None };
    let result = c.compile(&empty).ok().unwrap();
    assert_eq!(result.total_categories, 0);
    assert_eq!(result.total_items, 0);
    assert_eq!(result.total_attachments, 0);
    assert!(c.storage.get_page("fruit-apple").is_some());
    assert!(c.storage.get_attachment("apple_1.jpg").is_some());
    assert_eq!(c.storage.get_page("index").unwrap().content, "<index categories=0>");
}

#[test]
fn a_failed_render_writes_nothing() {
    let mut c = compiler(FailsOn("apple"));
    let r = c.compile(&fruit());
    assert!(matches!(r, Err(CompileError::Render(m)) if m == "no template for apple"));
    assert!(c.storage.get_all_pages().is_empty());
    assert!(c.storage.get_all_attachments().is_empty());
    assert_eq!(c.storage.get_last_compiled(), Some(String::new()));
}

#[test]
fn a_failed_scan_writes_nothing() {
    let mut c = compiler(Plain);
    let root = Listing {
        entries: vec![dir("a", vec![dir("x", vec![file("x.md", "---\nopen")])])],
        failure: None,
    };
    let r = c.compile(&root);
    assert!(matches!(r, Err(CompileError::Parse(ParseError::UnclosedFrontmatter))));
    assert!(c.storage.get_all_pages().is_empty());
    let e = c.compile(&root).err().unwrap();
    assert_eq!(e.message(), "No closing frontmatter separator");
}

#[test]
fn compile_at_is_exact() {
    let mut c = compiler(Plain);
    let rendered = Rendered {
        index: "I".to_string(),
        categories: vec![RenderedCategory { page: "C".to_string(), items: vec!["see ./attachment/pic.jpg".to_string()] }],
    };
    let times = CompileTimes {
        built: "t1".to_string(),
        pages: "t2".to_string(),
        attachments: "t3".to_string(),
        finished: "t4".to_string(),
    };
    let result = c.compile_at(&fruit(), &rendered, &times).ok().unwrap();
    assert_eq!((result.total_categories, result.total_items, result.total_attachments), (1, 1, 1));
    assert_eq!(c.storage.get_page("index").unwrap().content, "I");
    assert_eq!(c.storage.get_page("index").unwrap().updated_at, "t2");
    assert_eq!(c.storage.get_page("fruit").unwrap().content, "C");
    assert_eq!(c.storage.get_page("fruit-apple").unwrap().content, "see attachment/apple_1.jpg");
    assert_eq!(c.storage.get_attachment("apple_1.jpg").unwrap().updated_at, "t3");
    assert_eq!(c.storage.get_last_compiled(), Some("t4".to_string()));

    let wrong = Rendered { index: "I".to_string(), categories: Vec::new() };
    let r = c.compile_at(&fruit(), &wrong, &times);
    assert!(matches!(r, Err(CompileError::Render(m)) if m == "rendered pages do not match the content"));
    assert_eq!(c.storage.get_page("index").unwrap().content, "I");
}

#[test]
fn snapshots_hold_a_page_for_everything() {
    let site = Scanner::new("content".to_string()).scan(&fruit()).ok().unwrap();
    let rendered = Rendered {
        index: "I".to_string(),
        categories: vec![RenderedCategory { page: "C".to_string(), items: vec!["X".to_string()] }],
    };
    let s = build_snapshot(&site, "Site", &rendered, "now").unwrap();
    assert_eq!(s.pages.len(), 3);
    assert_eq!(s.pages[0].id, "index");
    assert_eq!(s.pages[0].title, "Site");
    assert_eq!(s.pages[1].id, "category-fruit");
    assert_eq!(s.pages[2].id, "item-fruit-apple");
    assert_eq!(s.pages[2].updated_at, "now");
    assert_eq!(s.attachments.len(), 1);
    let short = Rendered { index: "I".to_string(), categories: vec![RenderedCategory { page: "C".to_string(), items: Vec::new() }] };
    assert!(build_snapshot(&site, "Site", &short, "now").is_none());
    let page = build_item_page(&site.categories[0].items[0], "a attachment/pic.jpg b", "t");
    assert_eq!(page.content, "a attachment/apple_1.jpg b");
    assert_eq!(page.slug, "fruit-apple");
}

#[test]
fn errors_have_messages() {
    assert_eq!(CompileError::Io("x".to_string()).message(), "io error: x");
    assert_eq!(CompileError::Render("y".to_string()).message(), "render error: y");
    assert_eq!(CompileError::Storage("z".to_string()).message(), "storage error: z");
    assert_eq!(CompileError::Parse(ParseError::Encoding).message(), "document is not valid UTF-8");
    assert_eq!(ParseError::Field("tags".to_string()).message(), "invalid frontmatter field: tags");
    assert_eq!(ParseError::Metadata("bad".to_string()).message(), "invalid frontmatter: bad");
    assert!(matches!(ParseError::Field("a".to_string()).duplicate(), ParseError::Field(k) if k == "a"));
}

#[test]
fn a_scanned_site_is_stored_with_its_rendered_pages() {
    let mut c = compiler(Plain);
    let site = c.scanner.scan(&fruit()).ok().unwrap();
    let rendered = c.render_site(&site).ok().unwrap();
    assert_eq!(rendered.index, "<index categories=1>");
    assert_eq!(rendered.categories.len(), 1);
    assert_eq!(rendered.categories[0].items.len(), 1);
    let times = CompileTimes {
        built: "b".to_string(),
        pages: "p".to_string(),
        attachments: "a".to_string(),
        finished: "f".to_string(),
    };
    let result = c.store_site(&site, &rendered, &times).ok().unwrap();
    assert_eq!((result.total_categories, result.total_items, result.total_attachments), (1, 1, 1));
    assert_eq!(c.storage.get_page("fruit-apple").unwrap().updated_at, "p");
    assert_eq!(c.storage.get_attachment("apple_1.jpg").unwrap().updated_at, "a");
    assert_eq!(c.storage.get_last_compiled(), Some("f".to_string()));
    let again = c.store_site(&site, &rendered, &times).ok().unwrap();
    assert_eq!(again.total_items, 1);
    assert_eq!(c.storage.get_all_pages().len(), 3);
    assert_eq!(c.storage.get_all_attachments().len(), 1);
}
