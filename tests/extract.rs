use royalroad_dl::extract::{chapter_links, chapter_record, main_title, page_title, PageLayoutError};

const MAIN: &str = r#"<html><head><title>My Serial | Royal Road</title></head><body>
<table id="chapters">
<tr data-url="/fiction/1/my-serial/chapter/10/one"><td>One</td></tr>
<tr data-url="/fiction/1/my-serial/chapter/11/two"><td>Two</td></tr>
<tr data-url="/other/12"><td>Not a unit</td></tr>
</table></body></html>"#;

#[test]
fn main_title_is_read() {
    assert_eq!(main_title(MAIN), Ok(b"My Serial | Royal Road".to_vec()));
    assert_eq!(page_title("<html><head></head><body></body></html>"), None);
    assert_eq!(main_title("<html><body><p>x</p></body></html>"), Err(PageLayoutError::MainTitle));
}

#[test]
fn unit_links_are_resolved_in_order() {
    let units = chapter_links(MAIN, "https://www.royalroad.com/fiction/1/my-serial").unwrap();
    assert_eq!(units.len(), 2);
    assert_eq!(
        units[0].href().as_slice(),
        b"https://www.royalroad.com/fiction/1/my-serial/chapter/10/one"
    );
    assert_eq!(
        units[1].href().as_slice(),
        b"https://www.royalroad.com/fiction/1/my-serial/chapter/11/two"
    );
}

#[test]
fn missing_unit_list_is_a_layout_error() {
    let page = "<html><head><title>t</title></head><body><p>none</p></body></html>";
    assert_eq!(
        chapter_links(page, "https://www.royalroad.com/").map(|v| v.len()),
        Err(PageLayoutError::ChapterLinks)
    );
}

#[test]
fn unit_record_strips_title_and_warnings() {
    let page = r#"<html><head><title>One - My Serial</title></head><body>
<div class="chapter-content"><p>Hello</p><p class="cjAbc">stolen</p></div></body></html>"#;
    let r = chapter_record(page, b"https://x.org/c/1", b"My Serial").unwrap();
    assert_eq!(
        String::from_utf8(r).unwrap(),
        r#"<h1><a class="chapter" href="https://x.org/c/1">One</a></h1><div class="chapter-content"><p>Hello</p></div>"#
    );
}

#[test]
fn unit_record_layout_errors() {
    let no_title = r#"<html><body><div class="chapter-content">x</div></body></html>"#;
    assert_eq!(chapter_record(no_title, b"u", b"s"), Err(PageLayoutError::ChapterTitle));
    let no_body = r#"<html><head><title>t</title></head><body><p>x</p></body></html>"#;
    assert_eq!(chapter_record(no_body, b"u", b"s"), Err(PageLayoutError::ChapterBody));
}
