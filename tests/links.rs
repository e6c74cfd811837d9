use dwd_dl::links::{links_in_text, year_links_in_text};

#[test]
fn test_links_in_text() {
    let text = r#"<a href="./test1">test1</a><a href="test2">test2</a>"#;
    let regex = r#"test\d"#;
    let links = links_in_text(text, regex);
    assert_eq!(links, vec!["test1", "test2"]);
}

#[test]
fn year_test_links_in_text() {
    let text = r#"<a href="./2000">2000</a><a href="2001">2001</a>  <a href="2020">2020</a> <a href="./2008/"> gfhjjhg </a>"#;
    let links = year_links_in_text(text);
    assert_eq!(links, vec![2000, 2001, 2020, 2008]);
}

#[test]
fn links_with_invalid_pattern_are_empty() {
    let text = r#"<a href="./test1">test1</a>"#;
    assert!(links_in_text(text, "test(").is_empty());
}
