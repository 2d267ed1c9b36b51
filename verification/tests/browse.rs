use localagent::browse::{
    browse_result, extract_text, page_content, text_char_budget, title_and_text,
};

#[test]
fn text_char_budget_follows_context_size() {
    assert_eq!(text_char_budget(None), 7788);
    assert_eq!(text_char_budget(Some(4096)), 7788);
    assert_eq!(text_char_budget(Some(1000)), 1000);
    assert_eq!(text_char_budget(Some(1800)), 1000);
    assert_eq!(text_char_budget(Some(2000)), 1500);
    assert_eq!(text_char_budget(Some(131072)), 12000);
}

#[test]
fn extract_text_takes_title_and_content_lines() {
    let html = "<html><head><title>  My \n Page </title></head><body>\
        <h1>Main   heading</h1><p>First <b>bold</b> text.</p><p>abc</p>\
        <p>First bold text.</p><ul><li>Item one</li></ul><div>not taken</div></body></html>";
    let (title, text) = extract_text(html);
    assert_eq!(title, "My Page");
    assert_eq!(text, "Main heading\nFirst bold text.\nItem one");
}

#[test]
fn extract_text_of_page_without_title() {
    let (title, text) = extract_text("<p>Hello there</p>");
    assert_eq!(title, "");
    assert_eq!(text, "Hello there");
}

#[test]
fn extract_text_drops_short_multibyte_lines_by_bytes() {
    // "é" is two bytes; "éé" is four bytes and is kept, "é" alone is dropped
    let (_, text) = extract_text("<p>é</p><p>éé</p>");
    assert_eq!(text, "éé");
}

#[test]
fn page_content_keeps_plain_bodies_as_text() {
    let (title, text) = page_content("application/json", "{\"a\": 1}", 4);
    assert_eq!(title, "");
    assert_eq!(text, "{\"a\"");
}

#[test]
fn page_content_parses_html_and_truncates_text() {
    let (title, text) = page_content("text/html; charset=utf-8", "<title>T</title><p>Hello world</p>", 5);
    assert_eq!(title, "T");
    assert_eq!(text, "Hello");
    let (title, text) = page_content("", "<title>T</title><p>Hello world</p>", 100);
    assert_eq!(title, "T");
    assert_eq!(text, "Hello world");
}

#[test]
fn browse_result_reports_error_with_empty_text() {
    let r = browse_result("http://x".into(), Err("HTTP 404 Not Found".into()));
    assert_eq!(r.url, "http://x");
    assert_eq!(r.title, "");
    assert_eq!(r.text, "");
    assert_eq!(r.error.as_deref(), Some("HTTP 404 Not Found"));
    let r = browse_result("http://y".into(), Ok(("T".into(), "B".into())));
    assert_eq!(r.title, "T");
    assert_eq!(r.text, "B");
    assert!(r.error.is_none());
}

fn texts(els: &[&[&str]]) -> Option<Vec<Vec<String>>> {
    Some(els.iter().map(|e| e.iter().map(|t| t.to_string()).collect()).collect())
}

#[test]
fn title_and_text_from_selected_element_texts() {
    let (title, text) = title_and_text(
        texts(&[&["  A ", "\n title"], &["second"]]),
        texts(&[&["One ", " two"], &["abc"], &["One two"], &[" Three", "  four "]]),
    );
    assert_eq!(title, "A title");
    assert_eq!(text, "One two\nThree four");
    let (title, text) = title_and_text(None, texts(&[]));
    assert_eq!(title, "");
    assert_eq!(text, "");
}
