//! Reading the source site's pages: the serial's title, its list of units,
//! and one unit's title and content as a document record.

use crate::document::{record, record_bytes, unit_title};
use crate::locator::ChapterUrl;
use crate::plan::locator_views;
use vstd::prelude::*;

verus! {

/// Why a page could not be read: its layout is not the expected one.
#[derive(Clone, Copy, Debug, PartialEq, Eq, Structural)]
pub enum PageLayoutError {
    MainTitle,
    ChapterLinks,
    ChapterTitle,
    ChapterBody,
}

/// The inner markup of the first element of `page` that `selector` matches,
/// as scraper gives it; nothing when none matches or the selector is invalid.
pub uninterp spec fn first_inner_html(page: Seq<char>, selector: Seq<char>) -> Option<Seq<u8>>;

/// The value of `attr` on each element of `page` that `selector` matches, in
/// document order, as scraper gives it; nothing when the selector is invalid.
pub uninterp spec fn selected_attrs(page: Seq<char>, selector: Seq<char>, attr: Seq<char>) -> Option<
    Seq<Option<Seq<char>>>,
>;

/// The markup of the first element of `page` that `content` matches, once
/// every element that `removed` matches is taken out of the page, as scraper
/// gives it; nothing when none matches or a selector is invalid.
pub uninterp spec fn content_html(page: Seq<char>, content: Seq<char>, removed: Seq<char>) -> Option<
    Seq<u8>,
>;

/// What `url::Url::join` makes of `relative` against `base`: the serialization
/// and path segments of the result, or nothing when either does not parse.
pub uninterp spec fn joined_url(base: Seq<char>, relative: Seq<char>) -> Option<
    (Seq<u8>, Option<Seq<Seq<u8>>>),
>;

/// Relies on scraper's Selector::parse, Html::parse_document, Html::select
/// and ElementRef::inner_html.
#[verifier::external_body]
fn select_first_inner_html(page: &str, selector: &str) -> (r: Option<Vec<u8>>)
    ensures
        r is None <==> first_inner_html(page@, selector@) is None,
        r matches Some(x) ==> first_inner_html(page@, selector@) == Some(x@),
{
    let selector = scraper::Selector::parse(selector).ok()?;
    let html = scraper::Html::parse_document(page);
    let first = html.select(&selector).next()?;
    Some(first.inner_html().into_bytes())
}

/// Relies on scraper's Selector::parse, Html::parse_document, Html::select
/// and ElementRef::attr.
#[verifier::external_body]
fn select_attrs(page: &str, selector: &str, attr: &str) -> (r: Option<Vec<Option<String>>>)
    ensures
        r is None <==> selected_attrs(page@, selector@, attr@) is None,
        r matches Some(v) ==> selected_attrs(page@, selector@, attr@) == Some(v.deep_view()),
{
    let selector = scraper::Selector::parse(selector).ok()?;
    let html = scraper::Html::parse_document(page);
    Some(html.select(&selector).map(|e| e.attr(attr).map(String::from)).collect())
}

/// Relies on scraper's Selector::parse, Html::parse_document, Html::select,
/// ElementRef::html, and ego-tree's NodeMut::detach to take elements out.
#[verifier::external_body]
fn select_content(page: &str, content: &str, removed: &str) -> (r: Option<Vec<u8>>)
    ensures
        r is None <==> content_html(page@, content@, removed@) is None,
        r matches Some(x) ==> content_html(page@, content@, removed@) == Some(x@),
{
    let content = scraper::Selector::parse(content).ok()?;
    let removed = scraper::Selector::parse(removed).ok()?;
    let mut html = scraper::Html::parse_document(page);
    let ids: Vec<_> = html.select(&removed).map(|e| e.id()).collect();
    for id in ids {
        html.tree.get_mut(id).map(|mut node| node.detach());
    }
    Some(html.select(&content).next()?.html().into_bytes())
}

/// Relies on url::Url::parse and Url::join, with Url::as_str and
/// Url::path_segments to read the result out as plain bytes.
#[verifier::external_body]
fn join_url(base: &str, relative: &str) -> (r: Option<(Vec<u8>, Option<Vec<Vec<u8>>>)>)
    ensures
        r is None <==> joined_url(base@, relative@) is None,
        r matches Some((h, s)) ==> joined_url(base@, relative@) == Some((h@, s.deep_view())),
{
    let u = url::Url::parse(base).ok()?.join(relative).ok()?;
    let segments = u.path_segments().map(|p| p.map(|s| s.as_bytes().to_vec()).collect());
    Some((u.as_str().as_bytes().to_vec(), segments))
}

/// The title of a page.
pub fn page_title(page: &str) -> (r: Option<Vec<u8>>)
    ensures
        r is None <==> first_inner_html(page@, "title"@) is None,
        r matches Some(t) ==> first_inner_html(page@, "title"@) == Some(t@),
{
    select_first_inner_html(page, "title")
}

/// The serial's title, from its main page.
pub fn main_title(page: &str) -> (r: Result<Vec<u8>, PageLayoutError>)
    ensures
        match first_inner_html(page@, "title"@) {
            Some(t) => r matches Ok(x) && x@ == t,
            None => r == Err::<Vec<u8>, PageLayoutError>(PageLayoutError::MainTitle),
        },
{
    match page_title(page) {
        Some(t) => Ok(t),
        None => Err(PageLayoutError::MainTitle),
    }
}

/// The selector of the table-of-contents rows that link to units.
pub open spec fn chapter_row_selector() -> Seq<char> {
    "#chapters tr[data-url^=\"/fiction/\"]"@
}

/// Whether every listed link is present and resolves against `base`.
pub open spec fn links_resolve(base: Seq<char>, links: Seq<Option<Seq<char>>>) -> bool {
    forall|i: int|
        0 <= i < links.len() ==> (#[trigger] links[i] matches Some(l) && joined_url(base, l) is Some)
}

/// The locators of the units that the main page lists, in order: the
/// `data-url` of each table-of-contents row, resolved against `base`. The
/// layout is wrong when there is no such row, or one has no usable link.
pub fn chapter_links(page: &str, base: &str) -> (r: Result<Vec<ChapterUrl>, PageLayoutError>)
    ensures
        match selected_attrs(page@, chapter_row_selector(), "data-url"@) {
            Some(links) => if links.len() > 0 && links_resolve(base@, links) {
                r matches Ok(v) && locator_views(v@) == links.map_values(
                    |l: Option<Seq<char>>| joined_url(base@, l.unwrap()).unwrap(),
                )
            } else {
                r == Err::<Vec<ChapterUrl>, PageLayoutError>(PageLayoutError::ChapterLinks)
            },
            None => r == Err::<Vec<ChapterUrl>, PageLayoutError>(PageLayoutError::ChapterLinks),
        },
{
    let links = match select_attrs(page, "#chapters tr[data-url^=\"/fiction/\"]", "data-url") {
        Some(links) => links,
        None => return Err(PageLayoutError::ChapterLinks),
    };
    if links.len() == 0 {
        return Err(PageLayoutError::ChapterLinks);
    }
    let ghost all = links.deep_view();
    let mut units: Vec<ChapterUrl> = Vec::new();
    let mut i: usize = 0;
    while i < links.len()
        invariant
            i <= links@.len(),
            all == links.deep_view(),
            all.len() == links@.len(),
            selected_attrs(page@, chapter_row_selector(), "data-url"@) == Some(all),
            forall|j: int| 0 <= j < i ==> (#[trigger] all[j] matches Some(l) && joined_url(base@, l) is Some),
            locator_views(units@) == all.take(i as int).map_values(
                |l: Option<Seq<char>>| joined_url(base@, l.unwrap()).unwrap(),
            ),
        decreases links@.len() - i,
    {
        let ghost before = units@;
        match &links[i] {
            Some(relative) => {
                assert(all[i as int] == Some(relative@));
                match join_url(base, relative.as_str()) {
                    Some((href, segments)) => {
                        let u = ChapterUrl::from_parts(href, segments);
                        let ghost uv = (u.href_view(), u.segments_view());
                        assert(uv == joined_url(base@, all[i as int].unwrap()).unwrap());
                        units.push(u);
                        assert(locator_views(units@) =~= locator_views(before).push(uv));
                        assert(all.take(i as int + 1) =~= all.take(i as int).push(all[i as int]));
                        assert(all.take(i as int + 1).map_values(
                            |l: Option<Seq<char>>| joined_url(base@, l.unwrap()).unwrap(),
                        ) =~= all.take(i as int).map_values(
                            |l: Option<Seq<char>>| joined_url(base@, l.unwrap()).unwrap(),
                        ).push(uv));
                    },
                    None => {
                        assert(!links_resolve(base@, all));
                        return Err(PageLayoutError::ChapterLinks);
                    },
                }
            },
            None => {
                assert(!links_resolve(base@, all));
                return Err(PageLayoutError::ChapterLinks);
            },
        }
        i = i + 1;
    }
    assert(all.take(i as int) =~= all);
    Ok(units)
}

/// The selector of a unit page's content.
pub open spec fn content_selector() -> Seq<char> {
    "div.chapter-content"@
}

/// The selector of the hidden warning paragraphs that are left out.
pub open spec fn warning_selector() -> Seq<char> {
    "[class^=cj],[class^=cm]"@
}

/// The record of one unit, from its page and the address it was fetched
/// from: its title without the serial's, then its content without the
/// hidden warning paragraphs.
pub fn chapter_record(page: &str, href: &[u8], serial_title: &[u8]) -> (r: Result<
    Vec<u8>,
    PageLayoutError,
>)
    ensures
        match (
            first_inner_html(page@, "title"@),
            content_html(page@, content_selector(), warning_selector()),
        ) {
            (None, _) => r == Err::<Vec<u8>, PageLayoutError>(PageLayoutError::ChapterTitle),
            (Some(_), None) => r == Err::<Vec<u8>, PageLayoutError>(PageLayoutError::ChapterBody),
            (Some(t), Some(c)) => r matches Ok(x) && x@ == record(
                href@,
                unit_title(t, serial_title@),
                c,
            ),
        },
{
    let title = match page_title(page) {
        Some(t) => t,
        None => return Err(PageLayoutError::ChapterTitle),
    };
    let content = match select_content(page, "div.chapter-content", "[class^=cj],[class^=cm]") {
        Some(c) => c,
        None => return Err(PageLayoutError::ChapterBody),
    };
    Ok(record_bytes(href, title.as_slice(), serial_title, content.as_slice()))
}

} // verus!
