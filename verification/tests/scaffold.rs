use lf_blog::scaffold::{new_category_document, new_page_document, slug_from_lower, to_slug};

#[test]
fn slugs_keep_letters_numbers_dashes_and_underscores() {
    assert_eq!(to_slug("Hello World!"), "helloworld");
    assert_eq!(to_slug("My_First-Post 2"), "my_first-post2");
    assert_eq!(to_slug("ÉCOLE d'été"), "écoledété");
    assert_eq!(to_slug("提子 Grape"), "提子grape");
    assert_eq!(to_slug("  --  "), "--");
    assert_eq!(to_slug(""), "");
    assert_eq!(slug_from_lower("a b/c_d-e.f"), "abc_d-ef");
    assert_eq!(slug_from_lower("Kept As Is"), "KeptAsIs");
}

#[test]
fn new_categories_start_with_an_index_document() {
    let doc = new_category_document("Fruit", "2024-01-01T00:00:00+00:00");
    assert_eq!(
        doc,
        "---\ntitle: Fruit\ndate: 2024-01-01T00:00:00+00:00\n---\n\n# Fruit\n\n欢迎来到分类页面。\n\n你可以在这里添加分类的介绍内容。\n"
    );
    let parsed = lf_blog::markdown::parse_markdown(&doc).ok().unwrap();
    assert_eq!(parsed.frontmatter.title.as_deref(), Some("Fruit"));
    assert_eq!(parsed.get_date().as_deref(), Some("2024-01-01"));
}

#[test]
fn new_pages_start_with_a_document() {
    let doc = new_page_document("T", "N");
    assert!(doc.starts_with("---\ntitle: T\ndate: N\nauthor: \ntags: []\ndescription: \n---\n\n# T\n\n"));
    assert!(doc.ends_with("```rust\nfn main() {\n    println!(\"Hello, World!\");\n}\n```\n"));
    let parsed = lf_blog::markdown::parse_markdown(&doc).ok().unwrap();
    assert_eq!(parsed.get_title(), "T");
    assert_eq!(parsed.frontmatter.tags, Some(Vec::new()));
    assert_eq!(parsed.frontmatter.author, None);
}
