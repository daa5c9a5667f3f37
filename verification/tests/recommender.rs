use lf_blog::content::{Category, ContentItem, SiteContent};
use lf_blog::recommender::{split_words, Recommender};

fn item(category: &str, name: &str, title: &str, description: Option<&str>) -> ContentItem {
    ContentItem {
        category: category.to_string(),
        item_name: name.to_string(),
        dir_name: name.to_string(),
        url: format!("{}-{}", category, name),
        file_path: String::new(),
        title: title.to_string(),
        date: None,
        author: None,
        description: description.map(|d| d.to_string()),
        html_content: String::new(),
        attachments: Vec::new(),
        tags: Vec::new(),
    }
}

fn site() -> SiteContent {
    SiteContent {
        categories: vec![
            Category {
                name: "Fruit".to_string(),
                url: "fruit".to_string(),
                index_path: String::new(),
                items: vec![
                    item("fruit", "apple", "Red Apple a", Some("A  sweet\tapple")),
                    item("fruit", "pear", "Pear", None),
                ],
                description: None,
            },
            Category {
                name: "Veg".to_string(),
                url: "veg".to_string(),
                index_path: String::new(),
                items: vec![item("veg", "leek", "é x Leek", Some(""))],
                description: None,
            },
        ],
    }
}

#[test]
fn words_stand_between_white_space() {
    assert_eq!(split_words("  a bc\t\nd  "), vec!["a", "bc", "d"]);
    assert_eq!(split_words(""), Vec::<String>::new());
    assert_eq!(split_words(" \u{3000} "), Vec::<String>::new());
    assert_eq!(split_words("one"), vec!["one"]);
    for s in ["a b", " a  b ", "\u{a0}x\u{2003}y", "tab\tsep", "", "  "] {
        let expected: Vec<String> = s.split_whitespace().map(|w| w.to_string()).collect();
        assert_eq!(split_words(s), expected);
    }
}

#[test]
fn keywords_are_long_words_and_the_category() {
    let s = site();
    assert_eq!(
        Recommender::extract_keywords(&s.categories[0].items[0]),
        vec!["Red", "Apple", "sweet", "apple", "fruit"]
    );
    assert_eq!(Recommender::extract_keywords(&s.categories[0].items[1]), vec!["Pear", "fruit"]);
    assert_eq!(Recommender::extract_keywords(&s.categories[1].items[0]), vec!["é", "Leek", "veg"]);
}

#[test]
fn items_and_categories_are_found_by_slug() {
    let r = Recommender::new(site());
    assert_eq!(r.find_item_by_url("fruit-pear").unwrap().title, "Pear");
    assert_eq!(r.find_item_by_url("veg-leek").unwrap().item_name, "leek");
    assert!(r.find_item_by_url("fruit").is_none());
    assert!(r.find_item_by_url("").is_none());
    assert_eq!(r.get_category_name("fruit"), "Fruit");
    assert_eq!(r.get_category_name("veg"), "Veg");
    assert_eq!(r.get_category_name("Fruit"), "Fruit");
    assert_eq!(r.get_category_name("none"), "none");
    let empty = Recommender::new(SiteContent { categories: Vec::new() });
    assert!(empty.find_item_by_url("x").is_none());
    assert_eq!(empty.get_category_name("x"), "x");
}

#[test]
fn items_are_noted_under_their_keywords_in_lower_case() {
    let r = Recommender::new(site());
    assert_eq!(r.items_with_keyword("apple"), Some(vec![0, 0]));
    assert_eq!(r.items_with_keyword("fruit"), Some(vec![0, 1]));
    assert_eq!(r.items_with_keyword("pear"), Some(vec![1]));
    assert_eq!(r.items_with_keyword("leek"), Some(vec![2]));
    assert_eq!(r.items_with_keyword("é"), Some(vec![2]));
    assert_eq!(r.items_with_keyword("veg"), Some(vec![2]));
    assert_eq!(r.items_with_keyword("Apple"), None);
    assert_eq!(r.items_with_keyword("a"), None);
    assert_eq!(r.items_with_keyword(""), None);
}
