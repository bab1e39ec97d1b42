//! Unit locators and the identity rule used to recognise units that were
//! already saved, even after the human-readable label in their path changed.

use vstd::prelude::*;

verus! {

/// Position of the label segment, which may change without the unit changing.
pub const LABEL_SEGMENT: usize = 2;

/// What `url::Url::parse` makes of some text: its serialization and its path
/// segments, or nothing when the text is not an absolute address.
pub uninterp spec fn parsed_url(text: Seq<u8>) -> Option<(Seq<u8>, Option<Seq<Seq<u8>>>)>;

/// Relies on url::Url::parse, with Url::as_str and Url::path_segments to read
/// the parsed address out as plain bytes.
#[verifier::external_body]
fn parse_url(text: &[u8]) -> (r: Option<(Vec<u8>, Option<Vec<Vec<u8>>>)>)
    ensures
        r is None <==> parsed_url(text@) is None,
        r matches Some((h, s)) ==> parsed_url(text@) == Some((h@, s.deep_view())),
{
    let u = url::Url::parse(std::str::from_utf8(text).ok()?).ok()?;
    let segments = u.path_segments().map(|p| p.map(|s| s.as_bytes().to_vec()).collect());
    Some((u.as_str().as_bytes().to_vec(), segments))
}

/// A locator as plain values: its serialized address and its path segments.
pub type LocatorView = (Seq<u8>, Option<Seq<Seq<u8>>>);

/// Two locators name the same unit. With path segments on both sides: they
/// have as many segments and agree everywhere but at the label position.
/// Without path segments on either side: their addresses are equal. A
/// locator with path segments never names the same unit as one without.
pub open spec fn same_unit(a: LocatorView, b: LocatorView) -> bool {
    match (a.1, b.1) {
        (Some(x), Some(y)) => {
            &&& x.len() == y.len()
            &&& forall|i: int| 0 <= i < x.len() && i != LABEL_SEGMENT ==> #[trigger] x[i] == y[i]
        },
        (None, None) => a.0 == b.0,
        _ => false,
    }
}

/// Byte-wise equality of two slices.
pub fn bytes_eq(a: &[u8], b: &[u8]) -> (r: bool)
    ensures
        r == (a@ == b@),
{
    if a.len() != b.len() {
        return false;
    }
    let mut i: usize = 0;
    while i < a.len()
        invariant
            a@.len() == b@.len(),
            i <= a@.len(),
            forall|j: int| 0 <= j < i ==> a@[j] == b@[j],
        decreases a@.len() - i,
    {
        if a[i] != b[i] {
            return false;
        }
        i = i + 1;
    }
    assert(a@ =~= b@);
    true
}

/// An absolute unit address, kept as its serialization and its path segments.
#[derive(Clone, Debug)]
pub struct ChapterUrl {
    href: Vec<u8>,
    segments: Option<Vec<Vec<u8>>>,
}

impl ChapterUrl {
    /// The serialized address.
    pub closed spec fn href_view(&self) -> Seq<u8> {
        self.href@
    }

    /// The path segments, absent for an address that cannot be a base.
    pub closed spec fn segments_view(&self) -> Option<Seq<Seq<u8>>> {
        self.segments.deep_view()
    }

    /// The locator as plain values.
    pub open spec fn locator_view(&self) -> LocatorView {
        (self.href_view(), self.segments_view())
    }

    /// Parse an absolute address.
    pub fn parse(text: &[u8]) -> (r: Option<ChapterUrl>)
        ensures
            r is None <==> parsed_url(text@) is None,
            r matches Some(u) ==> parsed_url(text@) == Some((u.href_view(), u.segments_view())),
    {
        match parse_url(text) {
            Some((href, segments)) => Some(ChapterUrl::from_parts(href, segments)),
            None => None,
        }
    }

    /// A locator from an address already parsed into its serialization and
    /// path segments.
    pub(crate) fn from_parts(href: Vec<u8>, segments: Option<Vec<Vec<u8>>>) -> (r: ChapterUrl)
        ensures
            r.href_view() == href@,
            r.segments_view() == segments.deep_view(),
    {
        ChapterUrl { href, segments }
    }

    /// The serialized address.
    pub fn href(&self) -> (r: &Vec<u8>)
        ensures
            r@ == self.href_view(),
    {
        &self.href
    }

    /// Whether both addresses name the same unit, whatever their labels say.
    pub fn same_unit_as(&self, other: &ChapterUrl) -> (r: bool)
        ensures
            r == same_unit(self.locator_view(), other.locator_view()),
    {
        match (&self.segments, &other.segments) {
            (Some(x), Some(y)) => {
                if x.len() != y.len() {
                    return false;
                }
                let mut i: usize = 0;
                while i < x.len()
                    invariant
                        x.deep_view().len() == y.deep_view().len(),
                        self.segments_view() == Some(x.deep_view()),
                        other.segments_view() == Some(y.deep_view()),
                        i <= x.len(),
                        forall|j: int|
                            0 <= j < i && j != LABEL_SEGMENT ==> #[trigger] x.deep_view()[j]
                                == y.deep_view()[j],
                    decreases x.len() - i,
                {
                    assert(x[i as int]@ == x.deep_view()[i as int]);
                    assert(y[i as int]@ == y.deep_view()[i as int]);
                    if i != LABEL_SEGMENT && !bytes_eq(x[i].as_slice(), y[i].as_slice()) {
                        assert(x.deep_view()[i as int] != y.deep_view()[i as int]);
                        return false;
                    }
                    i = i + 1;
                }
                true
            },
            (None, None) => bytes_eq(self.href.as_slice(), other.href.as_slice()),
            _ => false,
        }
    }
}

impl PartialEq for ChapterUrl {
    fn eq(&self, other: &ChapterUrl) -> (r: bool) {
        self.same_unit_as(other)
    }
}

impl vstd::std_specs::cmp::PartialEqSpecImpl for ChapterUrl {
    open spec fn obeys_eq_spec() -> bool {
        true
    }

    open spec fn eq_spec(&self, other: &ChapterUrl) -> bool {
        same_unit(self.locator_view(), other.locator_view())
    }
}

impl Eq for ChapterUrl {}

/// Unit identity is reflexive and symmetric; it ignores the label segment
/// and tells apart addresses that differ anywhere else or in their number of
/// segments.
pub proof fn lemma_identity(a: ChapterUrl, b: ChapterUrl)
    ensures
        same_unit(a.locator_view(), a.locator_view()),
        same_unit(a.locator_view(), b.locator_view()) == same_unit(
            b.locator_view(),
            a.locator_view(),
        ),
        (a.segments_view() matches Some(x) && b.segments_view() matches Some(y) && x.len()
            == y.len() && (forall|i: int| 0 <= i < x.len() && i != LABEL_SEGMENT ==> x[i] == y[i]))
            ==> same_unit(a.locator_view(), b.locator_view()),
        (a.segments_view() matches Some(x) && b.segments_view() matches Some(y) && x.len()
            != y.len()) ==> !same_unit(a.locator_view(), b.locator_view()),
        (a.segments_view() matches Some(x) && b.segments_view() matches Some(y) && exists|i: int|
            0 <= i < x.len() && i < y.len() && i != LABEL_SEGMENT && x[i] != y[i]) ==> !same_unit(
            a.locator_view(),
            b.locator_view(),
        ),
        (a.segments_view() is Some) != (b.segments_view() is Some) ==> !same_unit(
            a.locator_view(),
            b.locator_view(),
        ),
{
}

} // verus!
