use royalroad_dl::ChapterUrl;

fn url(s: &str) -> ChapterUrl {
    ChapterUrl::parse(s.as_bytes()).unwrap()
}

#[test]
fn chapter_url_partial_eq() {
    let chapter_1 = url("https://www.royalroad.com/fiction/12345/the-title/chapter/1234567/chapter_title");
    let chapter_2 = url("https://www.royalroad.com/fiction/12345/the-title-but-different/chapter/1234567/chapter_title");
    assert_eq!(chapter_1, chapter_2);
    assert_ne!(chapter_1.href(), chapter_2.href());
}

#[test]
fn identity_differs_outside_label() {
    let a = url("https://example.com/fiction/1/title/chapter/10/x");
    let b = url("https://example.com/fiction/1/title/chapter/11/x");
    let c = url("https://example.com/fiction/2/title/chapter/10/x");
    assert_ne!(a, b);
    assert_ne!(a, c);
    assert!(!a.same_unit_as(&b));
}

#[test]
fn identity_needs_same_segment_count() {
    let a = url("https://example.com/fiction/1/title/chapter/10");
    let b = url("https://example.com/fiction/1/title/chapter/10/extra");
    assert_ne!(a, b);
    assert_ne!(b, a);
}

#[test]
fn identity_reflexive_and_symmetric() {
    let a = url("https://example.com/fiction/1/old-name/chapter/10/x");
    let b = url("https://example.com/fiction/1/new-name/chapter/10/x");
    assert_eq!(a, a);
    assert_eq!(a, b);
    assert_eq!(b, a);
}

#[test]
fn parse_rejects_relative_and_keeps_serialization() {
    assert!(ChapterUrl::parse(b"/fiction/1/x").is_none());
    let a = url("HTTPS://Example.com/a/b");
    assert_eq!(a.href().as_slice(), b"https://example.com/a/b");
}

#[test]
fn addresses_without_path_segments_compare_whole() {
    let a = url("mailto:someone@example.com");
    let b = url("mailto:someone@example.com");
    let c = url("mailto:other@example.com");
    let d = url("https://example.com/someone");
    assert_eq!(a, a);
    assert_eq!(a, b);
    assert_ne!(a, c);
    assert_ne!(a, d);
    assert_ne!(d, a);
}
