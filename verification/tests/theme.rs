use lf_blog::theme::Theme;

#[test]
fn test_theme_default() {
    let theme = Theme::default();
    assert_eq!(theme.name, "default");
}

#[test]
fn test_theme_to_css() {
    let theme = Theme::default();
    let css = theme.to_css();
    assert!(css.contains("var(--bg-color)"));
    assert!(css.contains("var(--fg-color)"));
}

#[test]
fn css_is_written_out_in_full() {
    let css = Theme::default().to_css();
    let expected = r#"
:root {
    --bg-color: #ffffff;
    --fg-color: #333333;
    --primary-color: #3498db;
    --secondary-color: #2c3e50;
    --accent-color: #e74c3c;
    --border-color: #e0e0e0;
    --muted-color: #666666;
}

@media (prefers-color-scheme: dark) {
    :root {
        --bg-color: #1a1a1a;
        --fg-color: #e0e0e0;
        --primary-color: #5dade2;
        --secondary-color: #34495e;
        --accent-color: #ec7063;
        --border-color: #333333;
        --muted-color: #999999;
    }
}

body {
    background-color: var(--bg-color);
    color: var(--fg-color);
}
"#;
    assert_eq!(css, expected);
}
