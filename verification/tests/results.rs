use lf_blog::page::{Page, PageType};
use lf_blog::results::{convert_pages_to_site_content, cut_snippet, extract_snippet};

fn page(slug: &str, page_type: PageType, title: &str, content: &str, category: Option<&str>) -> Page {
    Page {
        id: format!("id-{}", slug),
        slug: slug.to_string(),
        page_type,
        title: title.to_string(),
        content: content.to_string(),
        category: category.map(|c| c.to_string()),
        updated_at: "t".to_string(),
    }
}

#[test]
fn snippets_show_the_surroundings_of_the_query() {
    let long: String = (0..30).map(|i| format!("w{:02} ", i)).collect();
    assert_eq!(long.len(), 120);
    let s = extract_snippet(&long, "W15");
    assert_eq!(s, format!("...{}", &long[20..120]));
    let s = extract_snippet(&long, "w05 ");
    assert_eq!(s, format!("{}...", &long[0..84]));
    let s = extract_snippet(&long, "w00");
    assert_eq!(s, format!("{}...", &long[0..63]));
    let s = extract_snippet(&long, "w29");
    assert_eq!(s, format!("...{}", &long[76..120]));
    assert_eq!(extract_snippet("short Text here", "text"), "short Text here");
    assert_eq!(extract_snippet("", ""), "");
    assert_eq!(extract_snippet("abc", ""), "abc");
}

#[test]
fn snippets_without_the_query_show_the_beginning() {
    let long = "x".repeat(150);
    assert_eq!(extract_snippet(&long, "y"), format!("{}...", "x".repeat(100)));
    assert_eq!(extract_snippet(&"x".repeat(100), "y"), "x".repeat(100));
    assert_eq!(extract_snippet("", "y"), "");
    assert_eq!(extract_snippet("\u{e9}t\u{e9} tr\u{e8}s long", "zz"), "\u{e9}t\u{e9} tr\u{e8}s long");
}

#[test]
fn snippets_are_cut_within_the_content() {
    assert_eq!(cut_snippet("abcdef", Some(2), 2), "abcdef");
    assert_eq!(cut_snippet("abcdef", Some(50), 2), "...");
    assert_eq!(cut_snippet("abcdef", Some(43), 2), "...def");
    assert_eq!(cut_snippet("abcdef", Some(usize::MAX), usize::MAX), "...");
    assert_eq!(cut_snippet("abcdef", None, 0), "abcdef");
    let long = "0123456789".repeat(20);
    assert_eq!(cut_snippet(&long, Some(100), 5), format!("...{}...", &long[60..165]));
}

#[test]
fn pages_are_grouped_by_category() {
    let pages = vec![
        page("index", PageType::Index, "Home", "", None),
        page("veg-leek", PageType::Item, "Leek", "<p>leek</p>", Some("veg")),
        page("fruit", PageType::Category, "fruit", "", Some("fruit")),
        page("fruit-apple", PageType::Item, "Apple", "<p>apple</p>", Some("fruit")),
        page("loose", PageType::Item, "Loose", "", None),
        page("veg-kale", PageType::Item, "Kale", "", Some("veg")),
        page("fruit-pear", PageType::Item, "Pear", "", Some("fruit")),
    ];
    let site = convert_pages_to_site_content(&pages);
    let names: Vec<&str> = site.categories.iter().map(|c| c.name.as_str()).collect();
    assert_eq!(names, vec!["veg", "fruit"]);
    let veg: Vec<&str> = site.categories[0].items.iter().map(|i| i.url.as_str()).collect();
    assert_eq!(veg, vec!["veg-leek", "veg-kale"]);
    let fruit: Vec<&str> = site.categories[1].items.iter().map(|i| i.url.as_str()).collect();
    assert_eq!(fruit, vec!["fruit-apple", "fruit-pear"]);
    let leek = &site.categories[0].items[0];
    assert_eq!(leek.category, "veg");
    assert_eq!(leek.item_name, "veg-leek");
    assert_eq!(leek.dir_name, "veg-leek");
    assert_eq!(leek.title, "Leek");
    assert_eq!(leek.html_content, "<p>leek</p>");
    assert_eq!(leek.file_path, "");
    assert!(leek.date.is_none() && leek.author.is_none() && leek.description.is_none());
    assert!(leek.attachments.is_empty() && leek.tags.is_empty());
    assert_eq!(site.categories[0].url, "veg");
    assert_eq!(site.categories[0].index_path, "");
    assert!(site.categories[0].description.is_none());
    assert!(convert_pages_to_site_content(&[]).categories.is_empty());
}
