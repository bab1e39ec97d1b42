//! What a resumed run can rely on: a document written record by record reads
//! back as exactly the records written, with the resume point just before
//! the end marker.

use crate::document::{
    body_close, end_marker, head_close, head_open, header, hrefs_from, last_occurrence, link_close,
    link_mid, link_open, next_quote, occurs_at, record, recorded_hrefs,
};
use crate::locator::{parsed_url, same_unit, ChapterUrl};
use crate::plan::{is_known, locator_views, parsed_hrefs, pending_positions};
use vstd::prelude::*;

verus! {

/// A unit as it stands in a document: address, title, content.
pub type UnitParts = (Seq<u8>, Seq<u8>, Seq<u8>);

/// The records of `units`, in order.
pub open spec fn records(units: Seq<UnitParts>) -> Seq<u8>
    decreases units.len(),
{
    if units.len() == 0 {
        seq![]
    } else {
        record(units[0].0, units[0].1, units[0].2) + records(units.drop_first())
    }
}

/// A document at rest: header, records, end marker.
pub open spec fn document(title: Seq<u8>, units: Seq<UnitParts>) -> Seq<u8> {
    header(title) + records(units) + end_marker()
}

/// `s` holds no record opening.
pub open spec fn no_opening(s: Seq<u8>) -> bool {
    forall|j: int| !#[trigger] occurs_at(s, j, link_open())
}

/// `s` holds no double quote.
pub open spec fn no_quote(s: Seq<u8>) -> bool {
    forall|j: int| 0 <= j < s.len() ==> #[trigger] s[j] != 34
}

/// A unit that its record can carry unambiguously: an address without double
/// quotes (as every serialized address is), and a title and content that do
/// not themselves open a record.
pub open spec fn unit_ok(u: UnitParts) -> bool {
    &&& no_quote(u.0)
    &&& no_opening(u.1)
    &&& no_opening(u.2)
}

/// No record opening can start in `x`, whatever follows it.
spec fn tail_safe(x: Seq<u8>) -> bool {
    forall|k: int|
        0 <= k < x.len() ==> #[trigger] x[k] != 60 || (k + 1 < x.len() && x[k + 1] != 104) || (k + 2
            < x.len() && x[k + 2] != 49)
}

proof fn lemma_next_quote_shift(x: Seq<u8>, y: Seq<u8>, j: int)
    requires
        0 <= j,
    ensures
        next_quote(x + y, x.len() + j) == x.len() + next_quote(y, j),
    decreases y.len() - j,
{
    if j < y.len() {
        assert((x + y)[x.len() + j] == y[j]);
        lemma_next_quote_shift(x, y, j + 1);
    }
}

proof fn lemma_shift(x: Seq<u8>, y: Seq<u8>, i: int)
    requires
        0 <= i,
    ensures
        hrefs_from(x + y, x.len() + i) == hrefs_from(y, i),
    decreases y.len() - i,
{
    let d = x + y;
    let n = x.len() as int;
    if i < y.len() {
        if i + link_open().len() <= y.len() {
            assert(d.subrange(n + i, n + i + link_open().len()) =~= y.subrange(
                i,
                i + link_open().len(),
            ));
        }
        assert(occurs_at(d, n + i, link_open()) == occurs_at(y, i, link_open()));
        if occurs_at(y, i, link_open()) {
            let b = i + link_open().len();
            lemma_next_quote_shift(x, y, b);
            let e = next_quote(y, b);
            if b <= e && e < y.len() {
                assert(d.subrange(n + b, n + e) =~= y.subrange(b, e));
                lemma_shift(x, y, e + 1);
            }
        } else {
            lemma_shift(x, y, i + 1);
        }
    }
}

proof fn lemma_skip(d: Seq<u8>, i: int, j: int)
    requires
        0 <= i <= j <= d.len(),
        forall|k: int| i <= k < j ==> !#[trigger] occurs_at(d, k, link_open()),
    ensures
        hrefs_from(d, i) == hrefs_from(d, j),
    decreases j - i,
{
    if i < j {
        assert(!occurs_at(d, i, link_open()));
        lemma_skip(d, i + 1, j);
    }
}

/// Where nothing opens a record inside `x`, the records of `x + y` are those of `y`.
proof fn lemma_prefix(x: Seq<u8>, y: Seq<u8>)
    requires
        forall|k: int| 0 <= k < x.len() ==> !#[trigger] occurs_at(x + y, k, link_open()),
    ensures
        hrefs_from(x + y, 0) == hrefs_from(y, 0),
{
    lemma_skip(x + y, 0, x.len() as int);
    lemma_shift(x, y, 0);
}

proof fn lemma_opening_bytes(d: Seq<u8>, k: int, m: int)
    requires
        occurs_at(d, k, link_open()),
        0 <= m < link_open().len(),
    ensures
        d[k + m] == link_open()[m],
{
    assert(d.subrange(k, k + link_open().len())[m] == d[k + m]);
}

proof fn lemma_tail_safe(x: Seq<u8>, y: Seq<u8>)
    requires
        tail_safe(x),
    ensures
        forall|k: int| 0 <= k < x.len() ==> !#[trigger] occurs_at(x + y, k, link_open()),
{
    assert forall|k: int| 0 <= k < x.len() implies !#[trigger] occurs_at(x + y, k, link_open()) by {
        if occurs_at(x + y, k, link_open()) {
            lemma_opening_bytes(x + y, k, 0);
            lemma_opening_bytes(x + y, k, 1);
            lemma_opening_bytes(x + y, k, 2);
            assert(x[k] != 60 || (k + 1 < x.len() && x[k + 1] != 104) || (k + 2 < x.len() && x[k
                + 2] != 49));
        }
    }
}

/// `y` is empty, or starts with `<` followed by nothing or by anything but `a`.
spec fn starts_safely(y: Seq<u8>) -> bool {
    &&& y.len() >= 1 ==> y[0] == 60
    &&& y.len() >= 2 ==> y[1] != 97
}

/// What may follow the last record: too short to hold a record opening, and
/// starting safely. Every prefix of the end marker is such a part.
spec fn end_ok(p: Seq<u8>) -> bool {
    &&& p.len() < link_open().len()
    &&& starts_safely(p)
}

proof fn lemma_marker_cut(j: int)
    requires
        0 <= j <= end_marker().len(),
    ensures
        end_ok(end_marker().take(j)),
{
}

proof fn lemma_end_ok()
    ensures
        end_ok(end_marker()),
{
}

/// Where `x` opens no record and `y` starts safely, no record opening starts
/// in `x` within `x + y`.
proof fn lemma_no_straddle(x: Seq<u8>, y: Seq<u8>)
    requires
        no_opening(x),
        starts_safely(y),
    ensures
        forall|k: int| 0 <= k < x.len() ==> !#[trigger] occurs_at(x + y, k, link_open()),
{
    assert forall|k: int| 0 <= k < x.len() implies !#[trigger] occurs_at(x + y, k, link_open()) by {
        if occurs_at(x + y, k, link_open()) {
            if k + link_open().len() <= x.len() {
                assert((x + y).subrange(k, k + link_open().len()) =~= x.subrange(
                    k,
                    k + link_open().len(),
                ));
                assert(occurs_at(x, k, link_open()));
            } else {
                let m = x.len() - k;
                lemma_opening_bytes(x + y, k, m);
                assert(link_open()[m] == 60);
                assert(m == 4);
                lemma_opening_bytes(x + y, k, m + 1);
            }
        }
    }
}

proof fn lemma_fixed_parts()
    ensures
        tail_safe(head_open()),
        tail_safe(head_close()),
        tail_safe(link_close()),
        tail_safe(end_marker()),
        tail_safe(link_mid().skip(1)),
{
    assert(link_mid().skip(1) =~= seq![62u8]);
}

/// `records(units) + p` starts safely when `p` does.
proof fn lemma_rest_head(units: Seq<UnitParts>, p: Seq<u8>)
    requires
        starts_safely(p),
    ensures
        starts_safely(records(units) + p),
{
    let r = records(units) + p;
    if units.len() == 0 {
        assert(r =~= p);
    } else {
        let first = record(units[0].0, units[0].1, units[0].2);
        assert(r[0] == first[0]);
        assert(r[1] == first[1]);
    }
}

#[verifier::rlimit(30)]
proof fn lemma_records_scan(units: Seq<UnitParts>, p: Seq<u8>)
    requires
        forall|i: int| 0 <= i < units.len() ==> unit_ok(#[trigger] units[i]),
        end_ok(p),
    ensures
        hrefs_from(records(units) + p, 0) == units.map_values(|u: UnitParts| u.0),
    decreases units.len(),
{
    lemma_fixed_parts();
    if units.len() == 0 {
        assert(records(units) + p =~= p);
        assert forall|k: int| 0 <= k < p.len() implies !#[trigger] occurs_at(p, k, link_open()) by {}
        lemma_skip(p, 0, p.len() as int);
        assert(units.map_values(|u: UnitParts| u.0) =~= seq![]);
    } else {
        let u = units[0];
        assert(unit_ok(u));
        let tail = units.drop_first();
        assert forall|i: int| 0 <= i < tail.len() implies unit_ok(#[trigger] tail[i]) by {
            assert(tail[i] == units[i + 1]);
        }
        lemma_records_scan(tail, p);
        let rest = records(tail) + p;
        lemma_rest_head(tail, p);
        let d = records(units) + p;
        let lo = link_open();
        let n = (lo.len() + u.0.len()) as int;
        // the part after the closing quote of the address
        let after = link_mid().skip(1) + (u.1 + (link_close() + (u.2 + rest)));
        assert(d =~= lo + (u.0 + (seq![34u8] + after)));
        assert(d.subrange(0, lo.len() as int) =~= lo);
        assert(occurs_at(d, 0, lo));
        // the address ends at the first quote after the opening
        let q = u.0 + (seq![34u8] + after);
        assert(d =~= lo + q);
        lemma_next_quote_shift(lo, q, 0);
        lemma_quote_after(u.0, seq![34u8] + after);
        assert(next_quote(d, lo.len() as int) == n);
        assert(d.subrange(lo.len() as int, n) =~= u.0);
        // the rest is read from the quote on
        let head = lo + (u.0 + seq![34u8]);
        assert(d =~= head + after);
        lemma_shift(head, after, 0);
        assert(head.len() == n + 1);
        // skip the fixed and free parts up to the next record
        lemma_no_straddle(u.2, rest);
        lemma_prefix(u.2, rest);
        lemma_tail_safe(link_close(), u.2 + rest);
        lemma_prefix(link_close(), u.2 + rest);
        let lcr = link_close() + (u.2 + rest);
        assert(lcr[0] == 60 && lcr[1] != 97);
        lemma_no_straddle(u.1, lcr);
        lemma_prefix(u.1, lcr);
        lemma_tail_safe(link_mid().skip(1), u.1 + lcr);
        lemma_prefix(link_mid().skip(1), u.1 + lcr);
        assert(units.map_values(|u: UnitParts| u.0) =~= seq![u.0] + tail.map_values(
            |u: UnitParts| u.0,
        ));
    }
}

proof fn lemma_header_scan(title: Seq<u8>, rest: Seq<u8>)
    requires
        no_opening(title),
    ensures
        hrefs_from(header(title) + rest, 0) == hrefs_from(rest, 0),
{
    lemma_fixed_parts();
    let hcr = head_close() + rest;
    lemma_tail_safe(head_close(), rest);
    lemma_prefix(head_close(), rest);
    lemma_no_straddle(title, hcr);
    lemma_prefix(title, hcr);
    lemma_tail_safe(head_open(), title + hcr);
    lemma_prefix(head_open(), title + hcr);
    assert(header(title) + rest =~= head_open() + (title + hcr));
}

proof fn lemma_resume_point(x: Seq<u8>)
    ensures
        last_occurrence(x + end_marker(), body_close()) == Some(x.len() as int),
{
    let d = x + end_marker();
    let p = x.len() as int;
    let bc = body_close();
    assert(d.subrange(p, p + bc.len()) =~= bc);
    assert(occurs_at(d, p, bc));
    assert forall|q: int| p < q implies !#[trigger] occurs_at(d, q, bc) by {
        if occurs_at(d, q, bc) {
            assert(d.subrange(q, q + bc.len())[0] == d[q]);
            assert(d.subrange(q, q + bc.len())[2] == d[q + 2]);
            assert(d[q] == end_marker()[q - p]);
            assert(d[q + 2] == end_marker()[q + 2 - p]);
        }
    }
    let c = choose|c: int| occurs_at(d, c, bc) && forall|q: int| c < q ==> !occurs_at(d, q, bc);
    assert(c == p);
}

proof fn lemma_records_concat(a: Seq<UnitParts>, b: Seq<UnitParts>)
    ensures
        records(a + b) == records(a) + records(b),
    decreases a.len(),
{
    if a.len() == 0 {
        assert(a + b =~= b);
        assert(records(a) + records(b) =~= records(b));
    } else {
        lemma_records_concat(a.drop_first(), b);
        assert((a + b).drop_first() =~= a.drop_first() + b);
        assert((a + b)[0] == a[0]);
        let r0 = record(a[0].0, a[0].1, a[0].2);
        assert(r0 + (records(a.drop_first()) + records(b)) =~= (r0 + records(a.drop_first()))
            + records(b));
    }
}

/// A document written unit by unit reads back as exactly the addresses of
/// its records, in order; its resume point is where its end marker starts;
/// and writing further records from there gives the document that a run
/// without interruption writes.
pub proof fn lemma_scan_round_trip(title: Seq<u8>, units: Seq<UnitParts>, more: Seq<UnitParts>)
    requires
        no_opening(title),
        forall|i: int| 0 <= i < units.len() ==> unit_ok(#[trigger] units[i]),
    ensures
        recorded_hrefs(document(title, units)) == units.map_values(|u: UnitParts| u.0),
        last_occurrence(document(title, units), body_close()) == Some(
            document(title, units).len() - end_marker().len(),
        ),
        document(title, units).take(document(title, units).len() - end_marker().len()) + records(
            more,
        ) + end_marker() == document(title, units + more),
{
    lemma_document_scan(title, units);
    lemma_document_resume(title, units);
    lemma_document_continue(title, units, more);
}

#[verifier::rlimit(30)]
proof fn lemma_document_scan(title: Seq<u8>, units: Seq<UnitParts>)
    requires
        no_opening(title),
        forall|i: int| 0 <= i < units.len() ==> unit_ok(#[trigger] units[i]),
    ensures
        recorded_hrefs(document(title, units)) == units.map_values(|u: UnitParts| u.0),
{
    let rest = records(units) + end_marker();
    lemma_end_ok();
    lemma_records_scan(units, end_marker());
    lemma_header_scan(title, rest);
    assert(document(title, units) =~= header(title) + rest);
}

proof fn lemma_document_resume(title: Seq<u8>, units: Seq<UnitParts>)
    ensures
        last_occurrence(document(title, units), body_close()) == Some(
            document(title, units).len() - end_marker().len(),
        ),
{
    lemma_resume_point(header(title) + records(units));
}

proof fn lemma_document_continue(title: Seq<u8>, units: Seq<UnitParts>, more: Seq<UnitParts>)
    ensures
        document(title, units).take(document(title, units).len() - end_marker().len()) + records(
            more,
        ) + end_marker() == document(title, units + more),
{
    let d = document(title, units);
    lemma_records_concat(units, more);
    assert(d.take(d.len() - end_marker().len()) =~= header(title) + records(units));
    assert(d.take(d.len() - end_marker().len()) + records(more) + end_marker() =~= document(
        title,
        units + more,
    ));
}

/// A document cut anywhere after its `n`-th complete record and before the
/// next record begins (so inside or after the end marker, as an interrupted
/// run can leave it) reads back as exactly those `n` records; with the whole
/// end marker, its resume point is where the marker starts.
#[verifier::rlimit(30)]
pub proof fn lemma_interrupted_count(title: Seq<u8>, units: Seq<UnitParts>, n: int, j: int)
    requires
        no_opening(title),
        forall|i: int| 0 <= i < units.len() ==> unit_ok(#[trigger] units[i]),
        0 <= n <= units.len(),
        0 <= j <= end_marker().len(),
    ensures
        recorded_hrefs(header(title) + records(units.take(n)) + end_marker().take(j))
            == units.take(n).map_values(|u: UnitParts| u.0),
        j == end_marker().len() ==> last_occurrence(document(title, units.take(n)), body_close())
            == Some(document(title, units.take(n)).len() - end_marker().len()),
{
    let q = units.take(n);
    assert forall|i: int| 0 <= i < q.len() implies unit_ok(#[trigger] q[i]) by {
        assert(q[i] == units[i]);
    }
    let cut = end_marker().take(j);
    lemma_marker_cut(j);
    lemma_records_scan(q, cut);
    lemma_header_scan(title, records(q) + cut);
    assert(header(title) + records(q) + cut =~= header(title) + (records(q) + cut));
    lemma_scan_round_trip(title, q, seq![]);
}

proof fn lemma_parsed_all(hs: Seq<Seq<u8>>, views: Seq<(Seq<u8>, Option<Seq<Seq<u8>>>)>)
    requires
        hs.len() == views.len(),
        forall|i: int| 0 <= i < hs.len() ==> parsed_url(#[trigger] hs[i]) == Some(views[i]),
    ensures
        parsed_hrefs(hs) == views,
    decreases hs.len(),
{
    if hs.len() == 0 {
        assert(views =~= seq![]);
    } else {
        let hd = hs.drop_last();
        let vd = views.drop_last();
        assert forall|i: int| 0 <= i < hd.len() implies parsed_url(#[trigger] hd[i]) == Some(vd[i]) by {
            assert(hd[i] == hs[i]);
        }
        lemma_parsed_all(hd, vd);
        assert(parsed_url(hs.last()) == Some(views.last()));
        assert(views =~= vd.push(views.last()));
    }
}

proof fn lemma_all_known(listed: Seq<ChapterUrl>, known: Seq<ChapterUrl>, n: int)
    requires
        0 <= n <= listed.len(),
        forall|i: int| 0 <= i < listed.len() ==> is_known(#[trigger] listed[i].locator_view(), known),
    ensures
        pending_positions(listed, known, n) == Seq::<usize>::empty(),
    decreases n,
{
    if n > 0 {
        assert(is_known(listed[n - 1].locator_view(), known));
        lemma_all_known(listed, known, n - 1);
    }
}

proof fn lemma_listed_known(hs: Seq<Seq<u8>>, listed: Seq<ChapterUrl>, known: Seq<ChapterUrl>)
    requires
        listed.len() == hs.len(),
        forall|i: int| 0 <= i < hs.len() ==> parsed_url(#[trigger] hs[i]) == Some(listed[i].locator_view()),
        locator_views(known) == parsed_hrefs(hs),
    ensures
        pending_positions(listed, known, listed.len() as int) == Seq::<usize>::empty(),
{
    let views = Seq::new(hs.len(), |i: int| listed[i].locator_view());
    lemma_parsed_all(hs, views);
    assert forall|i: int| 0 <= i < listed.len() implies is_known(
        #[trigger] listed[i].locator_view(),
        known,
    ) by {
        assert(locator_views(known).len() == known.len());
        assert(locator_views(known)[i] == known[i].locator_view());
        assert(locator_views(known)[i] == views[i]);
        assert(known[i].locator_view() == listed[i].locator_view());
        assert(same_unit(listed[i].locator_view(), known[i].locator_view()));
    }
    lemma_all_known(listed, known, listed.len() as int);
}

/// Resuming a complete document with the unit list it was written from
/// (each listed locator is what its record's address parses to) fetches
/// nothing, and its resume point leaves every byte in place.
#[verifier::rlimit(30)]
pub proof fn lemma_resume_is_idempotent(
    title: Seq<u8>,
    units: Seq<UnitParts>,
    listed: Seq<ChapterUrl>,
    known: Seq<ChapterUrl>,
)
    requires
        no_opening(title),
        forall|i: int| 0 <= i < units.len() ==> unit_ok(#[trigger] units[i]),
        listed.len() == units.len(),
        forall|i: int|
            0 <= i < units.len() ==> parsed_url(#[trigger] units[i].0) == Some(
                listed[i].locator_view(),
            ),
        locator_views(known) == parsed_hrefs(recorded_hrefs(document(title, units))),
    ensures
        pending_positions(listed, known, listed.len() as int) == Seq::<usize>::empty(),
        last_occurrence(document(title, units), body_close()) == Some(
            document(title, units).len() - end_marker().len(),
        ),
        document(title, units).take(document(title, units).len() - end_marker().len())
            + end_marker() == document(title, units),
{
    let empty: Seq<UnitParts> = seq![];
    lemma_scan_round_trip(title, units, empty);
    let hs = units.map_values(|u: UnitParts| u.0);
    assert forall|i: int| 0 <= i < hs.len() implies parsed_url(#[trigger] hs[i]) == Some(
        listed[i].locator_view(),
    ) by {
        assert(hs[i] == units[i].0);
    }
    lemma_listed_known(hs, listed, known);
    assert(units + empty =~= units);
    assert(records(empty) =~= Seq::<u8>::empty());
}

proof fn lemma_quote_after(x: Seq<u8>, y: Seq<u8>)
    requires
        no_quote(x),
        y.len() > 0,
        y[0] == 34,
    ensures
        next_quote(x + y, 0) == x.len(),
{
    lemma_quote_from(x + y, 0, x.len() as int);
}

proof fn lemma_quote_from(s: Seq<u8>, j: int, n: int)
    requires
        0 <= j <= n < s.len(),
        s[n] == 34,
        forall|k: int| j <= k < n ==> #[trigger] s[k] != 34,
    ensures
        next_quote(s, j) == n,
    decreases n - j,
{
    if j < n {
        lemma_quote_from(s, j + 1, n);
    }
}

} // verus!
