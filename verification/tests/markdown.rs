use lf_blog::error::ParseError;
use lf_blog::markdown::{
    choose_day, choose_title, first_heading, parse_frontmatter, parse_markdown,
    process_image_links, replace_attachment_links, rewrite_link, split_frontmatter, FieldValue,
    Frontmatter, MarkdownEvent, ParsedMarkdown, Split,
};

fn doc(title: Option<&str>, body: &str) -> ParsedMarkdown {
    let mut frontmatter = Frontmatter::empty();
    frontmatter.title = title.map(|t| t.to_string());
    ParsedMarkdown { frontmatter, html_content: String::new(), raw_content: body.to_string() }
}

#[test]
fn test_parse_markdown() {
    let content = r#"---
title: Test Post
date: 2026-01-08
author: Test Author
---

# Hello World

This is a test post."#;

    let parsed = parse_markdown(content).ok().unwrap();
    assert_eq!(parsed.frontmatter.title, Some("Test Post".to_string()));
    assert_eq!(parsed.frontmatter.author, Some("Test Author".to_string()));
    assert!(parsed.html_content.contains("<h1>Hello World</h1>"));
}

#[test]
fn test_parse_without_frontmatter() {
    let content = "# Hello World\n\nThis is a test post.";
    let parsed = parse_markdown(content).ok().unwrap();
    assert!(parsed.frontmatter.title.is_none());
    assert!(parsed.html_content.contains("<h1>Hello World</h1>"));
}

#[test]
fn parse_keeps_body_and_renders_html() {
    let parsed = parse_markdown("---\ntitle: A\n---\n\n  *hi* there\n").ok().unwrap();
    assert_eq!(parsed.raw_content, "*hi* there\n");
    assert_eq!(parsed.html_content, "<p><em>hi</em> there</p>\n");
    let plain = parse_markdown("plain text").ok().unwrap();
    assert_eq!(plain.raw_content, "plain text");
    assert_eq!(plain.html_content, "<p>plain text</p>\n");
    assert!(plain.frontmatter.extra.is_empty());
}

#[test]
fn unclosed_frontmatter_is_refused() {
    let r = parse_markdown("---\ntitle: never closed\n\nbody");
    assert!(matches!(r, Err(ParseError::UnclosedFrontmatter)));
    assert!(matches!(split_frontmatter("---"), Split::Unclosed));
    assert!(matches!(split_frontmatter("---\n"), Split::Unclosed));
    assert!(matches!(split_frontmatter("---\ntitle: a --- b\n ---\n----\n--- \nbody"), Split::Unclosed));
}

#[test]
fn only_a_line_of_three_dashes_closes_the_block() {
    let parsed = parse_markdown("---\ntitle: a---b\n---\nBody").ok().unwrap();
    assert_eq!(parsed.frontmatter.title, Some("a---b".to_string()));
    assert_eq!(parsed.raw_content, "Body");
    assert_eq!(parsed.frontmatter.source, "title: a---b\n");
    match split_frontmatter("---\na: 1\nb: x --- y\n---\n\n body --- more\n---\nlast") {
        Split::Block { meta, body } => {
            assert_eq!(meta, "a: 1\nb: x --- y\n");
            assert_eq!(body, "body --- more\n---\nlast");
        }
        _ => panic!("expected a block"),
    }
    match split_frontmatter("---\r\na: 1\r\n---\r\nbody") {
        Split::Block { meta, body } => {
            assert_eq!(meta, "a: 1\r\n");
            assert_eq!(body, "body");
        }
        _ => panic!("expected a block"),
    }
    match split_frontmatter("---\n---") {
        Split::Block { meta, body } => {
            assert_eq!(meta, "");
            assert_eq!(body, "");
        }
        _ => panic!("expected a block"),
    }
}

#[test]
fn a_text_whose_first_line_is_not_the_mark_is_all_body() {
    assert!(matches!(split_frontmatter("no marks"), Split::Plain));
    assert!(matches!(split_frontmatter(" ---\n---"), Split::Plain));
    assert!(matches!(split_frontmatter(""), Split::Plain));
    assert!(matches!(split_frontmatter("--- title\n---\n"), Split::Plain));
    assert!(matches!(split_frontmatter("------rest"), Split::Plain));
    assert!(matches!(split_frontmatter("----\n---\n"), Split::Plain));
    assert!(matches!(split_frontmatter("\n---\na: 1\n---\n"), Split::Plain));
    let plain = parse_markdown("--- not a block ---\n\ntext").ok().unwrap();
    assert_eq!(plain.raw_content, "--- not a block ---\n\ntext");
    assert!(plain.frontmatter.title.is_none());
}

#[test]
fn frontmatter_fields_are_read_by_kind() {
    let text = "---\ntitle: T\ntime: 2024-05-06T10:00:00Z\ntags:\n  - a\n  - b\ndescription: D\nweight: 3\ndraft: true\n---\nbody";
    let (f, body) = parse_frontmatter(text).ok().unwrap();
    assert_eq!(body, "body");
    assert_eq!(f.title.as_deref(), Some("T"));
    assert_eq!(f.time.as_deref(), Some("2024-05-06T10:00:00Z"));
    assert_eq!(f.date, None);
    assert_eq!(f.author, None);
    assert_eq!(f.tags, Some(vec!["a".to_string(), "b".to_string()]));
    assert_eq!(f.description.as_deref(), Some("D"));
    assert_eq!(f.extra.len(), 2);
    assert_eq!(f.extra[0].0, "draft");
    assert!(matches!(&f.extra[0].1, FieldValue::Bool(true)));
    assert_eq!(f.extra[1].0, "weight");
    assert!(matches!(&f.extra[1].1, FieldValue::Number));
    assert!(f.source.contains("weight: 3\ndraft: true\n"));
    let (g, _) = parse_frontmatter("---\nmap: {a: 1}\nnone:\nlist: [1]\n---\n").ok().unwrap();
    assert!(matches!(&g.extra[0].1, FieldValue::List(items) if items.len() == 1 && items[0].is_none()));
    assert!(matches!(&g.extra[1].1, FieldValue::Mapping));
    assert!(matches!(&g.extra[2].1, FieldValue::Null));
}

#[test]
fn empty_frontmatter_is_empty_metadata() {
    let (f, body) = parse_frontmatter("---\n---\nhello").ok().unwrap();
    assert_eq!(body, "hello");
    assert!(f.title.is_none() && f.date.is_none() && f.tags.is_none() && f.extra.is_empty());
    let (g, _) = parse_frontmatter("---\ntitle:\n---\nx").ok().unwrap();
    assert!(g.title.is_none());
}

#[test]
fn wrong_kinds_and_bad_yaml_are_refused() {
    let r = parse_frontmatter("---\ntitle: [a, b]\n---\nx");
    assert!(matches!(r, Err(ParseError::Field(k)) if k == "title"));
    let r = parse_frontmatter("---\ntitle: ok\ntags: nope\n---\nx");
    assert!(matches!(r, Err(ParseError::Field(k)) if k == "tags"));
    let r = parse_frontmatter("---\ntags: [a, 3]\n---\nx");
    assert!(matches!(r, Err(ParseError::Field(k)) if k == "tags"));
    let r = parse_frontmatter("---\ndate: 2024-01-01\ntitle: 7\n---\nx");
    assert!(matches!(r, Err(ParseError::Field(k)) if k == "title"));
    let r = parse_frontmatter("---\n- just\n- a list\n---\nx");
    assert!(matches!(r, Err(ParseError::Metadata(_))));
    let r = parse_frontmatter("---\ntitle: \"open\n---\nx");
    assert!(matches!(r, Err(ParseError::Metadata(_))));
}

#[test]
fn from_entries_takes_the_first_entry_of_a_key() {
    let entries = vec![
        ("title".to_string(), FieldValue::Text("one".to_string())),
        ("title".to_string(), FieldValue::Text("two".to_string())),
        ("tags".to_string(), FieldValue::List(vec![Some("x".to_string())])),
        ("other".to_string(), FieldValue::Null),
    ];
    let f = Frontmatter::from_entries(&entries, "as written").ok().unwrap();
    assert_eq!(f.source, "as written");
    assert_eq!(f.title.as_deref(), Some("one"));
    assert_eq!(f.tags, Some(vec!["x".to_string()]));
    assert_eq!(f.extra.len(), 1);
    assert_eq!(f.extra[0].0, "other");
}

#[test]
fn declared_title_wins_over_heading() {
    let d = doc(Some("Declared"), "# Heading\n\ntext");
    assert_eq!(d.get_title(), "Declared");
    let e = doc(Some(""), "# Heading");
    assert_eq!(e.get_title(), "");
}

#[test]
fn title_falls_back_to_heading_line_and_untitled() {
    assert_eq!(doc(None, "intro\n\n# The *Real* `Title`\n\nmore").get_title(), "The Real Title");
    assert_eq!(doc(None, "## second level\nnext").get_title(), "## second level");
    assert_eq!(doc(None, "first line\r\nsecond").get_title(), "first line");
    assert_eq!(doc(None, "only\r").get_title(), "only\r");
    assert_eq!(doc(None, "\nsecond").get_title(), "");
    assert_eq!(doc(None, "").get_title(), "Untitled");
}

#[test]
fn choose_title_on_given_events() {
    let events = vec![
        MarkdownEvent::Other,
        MarkdownEvent::HeadingStart(2),
        MarkdownEvent::Text("no".to_string()),
        MarkdownEvent::HeadingEnd(2),
        MarkdownEvent::HeadingStart(1),
        MarkdownEvent::Text("a".to_string()),
        MarkdownEvent::Other,
        MarkdownEvent::Code("b".to_string()),
        MarkdownEvent::HeadingEnd(1),
        MarkdownEvent::Text("c".to_string()),
    ];
    assert_eq!(first_heading(&events), Some("ab".to_string()));
    assert_eq!(choose_title(&None, &events, "line"), "ab");
    assert_eq!(choose_title(&Some("t".to_string()), &events, "line"), "t");
    assert_eq!(choose_title(&None, &vec![MarkdownEvent::Other], "line\nrest"), "line");
    assert_eq!(first_heading(&vec![MarkdownEvent::HeadingStart(1)]), Some(String::new()));
    assert_eq!(first_heading(&Vec::new()), None);
}

#[test]
fn dates_read_time_before_date_and_rfc3339_before_plain() {
    let mut d = doc(None, "");
    assert_eq!(d.get_date(), None);
    d.frontmatter.date = Some("2024-01-01".to_string());
    assert_eq!(d.get_date(), Some("2024-01-01".to_string()));
    d.frontmatter.time = Some("2023-12-31T23:30:00-02:00".to_string());
    assert_eq!(d.get_date(), Some("2024-01-01".to_string()));
    d.frontmatter.time = Some("2022-02-03T04:05:06Z".to_string());
    assert_eq!(d.get_date(), Some("2022-02-03".to_string()));
    d.frontmatter.time = Some("yesterday".to_string());
    assert_eq!(d.get_date(), None);
    d.frontmatter.time = None;
    d.frontmatter.date = Some("2024-02-30".to_string());
    assert_eq!(d.get_date(), None);
    d.frontmatter.date = Some("2024-3-5".to_string());
    assert_eq!(d.get_date(), Some("2024-03-05".to_string()));
}

#[test]
fn choose_day_prefers_the_first_reading() {
    assert_eq!(choose_day(Some("a".to_string()), Some("b".to_string())), Some("a".to_string()));
    assert_eq!(choose_day(None, Some("b".to_string())), Some("b".to_string()));
    assert_eq!(choose_day(None, None), None);
}

#[test]
fn image_links_get_the_base_path() {
    assert_eq!(
        process_image_links("<img src=\"./attachment/a.png\"> ./attachment/b", "/fruit"),
        "<img src=\"/fruit/attachment/a.png\"> /fruit/attachment/b"
    );
    assert_eq!(process_image_links("attachment/a.png", "/x"), "attachment/a.png");
}

#[test]
fn link_rewrite_replaces_every_reference() {
    let map = vec![("photo.png".to_string(), "item_1.png".to_string())];
    let html = "<img src=\"attachment/photo.png\"><a href=\"./attachment/photo.png\">x</a>";
    let out = replace_attachment_links(html, &map);
    assert_eq!(out, "<img src=\"attachment/item_1.png\"><a href=\"attachment/item_1.png\">x</a>");
    assert!(out.contains("attachment/item_1.png"));
    assert!(!out.contains("attachment/photo.png"));
}

#[test]
fn link_rewrite_takes_longer_names_first() {
    let map = vec![
        ("photo.png".to_string(), "item_1.png".to_string()),
        ("photo.png.bak".to_string(), "item_2.bak".to_string()),
    ];
    let html = "attachment/photo.png.bak and attachment/photo.png";
    assert_eq!(replace_attachment_links(html, &map), "attachment/item_2.bak and attachment/item_1.png");
    let map = vec![
        ("photo.png".to_string(), "item_1.png".to_string()),
        ("photo_large.png".to_string(), "item_2.png".to_string()),
    ];
    let html = "<img src=\"attachment/photo_large.png\"><img src=\"attachment/photo.png\">";
    assert_eq!(
        replace_attachment_links(html, &map),
        "<img src=\"attachment/item_2.png\"><img src=\"attachment/item_1.png\">"
    );
}

#[test]
fn link_rewrite_without_links_changes_nothing() {
    assert_eq!(replace_attachment_links("<p>attachment/a.png</p>", &[]), "<p>attachment/a.png</p>");
    assert_eq!(rewrite_link("x ./attachment/a y", "a", "b"), "x attachment/b y");
}
