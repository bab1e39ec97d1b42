//! The output document: a fixed header, unit records, and an end marker that
//! is always the suffix of the file at rest.

use vstd::prelude::*;
use crate::locator::bytes_eq;
use vstd::slice::{slice_subrange, slice_to_vec};

verus! {

/// The length of the end marker in bytes.
pub const END_MARKER_LEN: usize = 14;

/// `</body></html>`: closes the document.
pub open spec fn end_marker() -> Seq<u8> {
    seq![60u8, 47, 98, 111, 100, 121, 62, 60, 47, 104, 116, 109, 108, 62]
}

/// `</body>`: where new records go when a document is resumed.
pub open spec fn body_close() -> Seq<u8> {
    seq![60u8, 47, 98, 111, 100, 121, 62]
}

/// `<html><head><meta charset="UTF-8"><title>`
pub open spec fn head_open() -> Seq<u8> {
    seq![
        60u8, 104, 116, 109, 108, 62, 60, 104, 101, 97, 100, 62, 60, 109,
        101, 116, 97, 32, 99, 104, 97, 114, 115, 101, 116, 61, 34, 85,
        84, 70, 45, 56, 34, 62, 60, 116, 105, 116, 108, 101, 62,
    ]
}

/// `</title></head><body>`
pub open spec fn head_close() -> Seq<u8> {
    seq![
        60u8, 47, 116, 105, 116, 108, 101, 62, 60, 47, 104, 101, 97, 100,
        62, 60, 98, 111, 100, 121, 62,
    ]
}

/// `<h1><a class="chapter" href="`: opens a unit record.
pub open spec fn link_open() -> Seq<u8> {
    seq![
        60u8, 104, 49, 62, 60, 97, 32, 99, 108, 97, 115, 115, 61, 34,
        99, 104, 97, 112, 116, 101, 114, 34, 32, 104, 114, 101, 102, 61,
        34,
    ]
}

/// `">`: ends the record's address.
pub open spec fn link_mid() -> Seq<u8> {
    seq![34u8, 62]
}

/// `</a></h1>`: ends the record's heading.
pub open spec fn link_close() -> Seq<u8> {
    seq![60u8, 47, 97, 62, 60, 47, 104, 49, 62]
}

/// ` - `: separates a unit's own title from the serial's title.
pub open spec fn title_separator() -> Seq<u8> {
    seq![32u8, 45, 32]
}

/// The document header for a serial title.
pub open spec fn header(title: Seq<u8>) -> Seq<u8> {
    head_open() + title + head_close()
}

/// One unit record: a heading linking to the unit, then its content.
pub open spec fn record(href: Seq<u8>, title: Seq<u8>, content: Seq<u8>) -> Seq<u8> {
    link_open() + href + link_mid() + title + link_close() + content
}

/// A unit's title with the trailing ` - <serial title>` taken off, when present.
pub open spec fn unit_title(raw: Seq<u8>, serial: Seq<u8>) -> Seq<u8> {
    let n = raw.len() - serial.len() - title_separator().len();
    if n >= 0 && raw.subrange(n + title_separator().len(), raw.len() as int) == serial
        && raw.subrange(n, n + title_separator().len()) == title_separator() {
        raw.take(n)
    } else {
        raw
    }
}

/// Whether `pat` occurs in `s` starting at `i`.
pub open spec fn occurs_at(s: Seq<u8>, i: int, pat: Seq<u8>) -> bool {
    0 <= i && i + pat.len() <= s.len() && s.subrange(i, i + pat.len()) == pat
}

fn end_marker_bytes() -> (r: Vec<u8>)
    ensures
        r@ == end_marker(),
{
    let r = vec![60u8, 47, 98, 111, 100, 121, 62, 60, 47, 104, 116, 109, 108, 62];
    assert(r@ =~= end_marker());
    r
}

/// First position at or after `j` that holds a double quote, or the length
/// of `s` when there is none.
pub open spec fn next_quote(s: Seq<u8>, j: int) -> int
    decreases s.len() - j,
{
    if j < 0 || j >= s.len() {
        s.len() as int
    } else if s[j] == 34 {
        j
    } else {
        next_quote(s, j + 1)
    }
}

/// The addresses of the unit records found in `s` from position `i` on: each
/// record opening is followed by its address, which runs up to the next
/// double quote. Only the exact form that `record` writes is recognised: an
/// anchor written otherwise (other attribute order, other spacing) is not a
/// record, and character references in an address are kept as they stand.
pub open spec fn hrefs_from(s: Seq<u8>, i: int) -> Seq<Seq<u8>>
    decreases s.len() - i,
{
    if i < 0 || i >= s.len() {
        seq![]
    } else if occurs_at(s, i, link_open()) {
        let b = i + link_open().len();
        let e = next_quote(s, b);
        if b <= e && e < s.len() {
            seq![s.subrange(b, e)] + hrefs_from(s, e + 1)
        } else {
            seq![]
        }
    } else {
        hrefs_from(s, i + 1)
    }
}

/// The addresses of all unit records in a document, in document order, in
/// the exact form that `record` writes (see `hrefs_from`).
pub open spec fn recorded_hrefs(s: Seq<u8>) -> Seq<Seq<u8>> {
    hrefs_from(s, 0)
}

/// The position of the last occurrence of `pat` in `s`, if any.
pub open spec fn last_occurrence(s: Seq<u8>, pat: Seq<u8>) -> Option<int> {
    if exists|p: int| occurs_at(s, p, pat) {
        Some(choose|p: int| occurs_at(s, p, pat) && forall|q: int| p < q ==> !occurs_at(s, q, pat))
    } else {
        None
    }
}

fn body_close_bytes() -> (r: Vec<u8>)
    ensures
        r@ == body_close(),
{
    let r = vec![60u8, 47, 98, 111, 100, 121, 62];
    assert(r@ =~= body_close());
    r
}

fn head_open_bytes() -> (r: Vec<u8>)
    ensures
        r@ == head_open(),
{
    let r = vec![
        60u8, 104, 116, 109, 108, 62, 60, 104, 101, 97, 100, 62, 60, 109,
        101, 116, 97, 32, 99, 104, 97, 114, 115, 101, 116, 61, 34, 85,
        84, 70, 45, 56, 34, 62, 60, 116, 105, 116, 108, 101, 62,
    ];
    assert(r@ =~= head_open());
    r
}

fn head_close_bytes() -> (r: Vec<u8>)
    ensures
        r@ == head_close(),
{
    let r = vec![
        60u8, 47, 116, 105, 116, 108, 101, 62, 60, 47, 104, 101, 97, 100,
        62, 60, 98, 111, 100, 121, 62,
    ];
    assert(r@ =~= head_close());
    r
}

fn link_open_bytes() -> (r: Vec<u8>)
    ensures
        r@ == link_open(),
{
    let r = vec![
        60u8, 104, 49, 62, 60, 97, 32, 99, 108, 97, 115, 115, 61, 34,
        99, 104, 97, 112, 116, 101, 114, 34, 32, 104, 114, 101, 102, 61,
        34,
    ];
    assert(r@ =~= link_open());
    r
}

fn link_mid_bytes() -> (r: Vec<u8>)
    ensures
        r@ == link_mid(),
{
    let r = vec![34u8, 62];
    assert(r@ =~= link_mid());
    r
}

fn link_close_bytes() -> (r: Vec<u8>)
    ensures
        r@ == link_close(),
{
    let r = vec![60u8, 47, 97, 62, 60, 47, 104, 49, 62];
    assert(r@ =~= link_close());
    r
}

fn title_separator_bytes() -> (r: Vec<u8>)
    ensures
        r@ == title_separator(),
{
    let r = vec![32u8, 45, 32];
    assert(r@ =~= title_separator());
    r
}

/// Whether `pat` occurs in `s` at position `i`.
pub fn matches_at(s: &[u8], i: usize, pat: &[u8]) -> (r: bool)
    ensures
        r == occurs_at(s@, i as int, pat@),
{
    if pat.len() > s.len() || i > s.len() - pat.len() {
        return false;
    }
    let mut k: usize = 0;
    while k < pat.len()
        invariant
            i + pat@.len() <= s@.len(),
            s@.len() <= usize::MAX,
            k <= pat@.len(),
            forall|j: int| 0 <= j < k ==> s@[i + j] == pat@[j],
        decreases pat@.len() - k,
    {
        if s[i + k] != pat[k] {
            assert(s@.subrange(i as int, i + pat@.len())[k as int] != pat@[k as int]);
            return false;
        }
        k = k + 1;
    }
    assert(s@.subrange(i as int, i + pat@.len()) =~= pat@);
    true
}

/// The position of the last occurrence of `pat` in `s`.
pub fn rfind(s: &[u8], pat: &[u8]) -> (r: Option<usize>)
    ensures
        r matches Some(p) ==> occurs_at(s@, p as int, pat@) && forall|q: int|
            p < q ==> !#[trigger] occurs_at(s@, q, pat@),
        r is None ==> forall|q: int| !#[trigger] occurs_at(s@, q, pat@),
        r matches Some(p) ==> last_occurrence(s@, pat@) == Some(p as int),
        r is None ==> last_occurrence(s@, pat@) is None,
{
    if pat.len() > s.len() {
        return None;
    }
    let mut i: usize = s.len() - pat.len();
    loop
        invariant
            i + pat@.len() <= s@.len(),
            forall|q: int| i < q ==> !#[trigger] occurs_at(s@, q, pat@),
        decreases i,
    {
        if matches_at(s, i, pat) {
            proof {
                let c = choose|c: int| occurs_at(s@, c, pat@) && forall|q: int| c < q ==> !occurs_at(s@, q, pat@);
                assert(occurs_at(s@, i as int, pat@));
                if c != i {
                    assert(!occurs_at(s@, c, pat@) || !occurs_at(s@, i as int, pat@));
                }
            }
            return Some(i);
        }
        if i == 0 {
            assert(forall|q: int| !#[trigger] occurs_at(s@, q, pat@));
            return None;
        }
        i = i - 1;
    }
}

/// The first double quote at or after `j`, or the length of `s`.
fn find_quote(s: &[u8], j: usize) -> (r: usize)
    requires
        j <= s@.len(),
    ensures
        r as int == next_quote(s@, j as int),
        j <= r <= s@.len(),
{
    let mut k: usize = j;
    while k < s.len()
        invariant
            j <= k <= s@.len(),
            next_quote(s@, k as int) == next_quote(s@, j as int),
        decreases s@.len() - k,
    {
        if s[k] == 34 {
            return k;
        }
        k = k + 1;
    }
    k
}

/// The addresses of all unit records in a document, in document order. Only
/// records in the exact form that `record_bytes` writes are recognised, and
/// their addresses are taken byte for byte, without decoding.
pub fn scan_hrefs(doc: &[u8]) -> (r: Vec<Vec<u8>>)
    ensures
        r.deep_view() == recorded_hrefs(doc@),
{
    let open = link_open_bytes();
    let mut out: Vec<Vec<u8>> = Vec::new();
    let mut i: usize = 0;
    while i < doc.len()
        invariant
            i <= doc@.len(),
            open@ == link_open(),
            out.deep_view() + hrefs_from(doc@, i as int) == recorded_hrefs(doc@),
        decreases doc@.len() - i,
    {
        if matches_at(doc, i, open.as_slice()) {
            let b = i + open.len();
            let e = find_quote(doc, b);
            if e < doc.len() {
                let href = slice_to_vec(slice_subrange(doc, b, e));
                let ghost before = out.deep_view();
                assert(href.deep_view() =~= href@);
                out.push(href);
                proof {
                    assert(out.deep_view() =~= before + seq![doc@.subrange(b as int, e as int)]);
                }
                i = e + 1;
            } else {
                return out;
            }
        } else {
            i = i + 1;
        }
    }
    out
}

/// The document header for a serial title.
pub fn header_bytes(title: &[u8]) -> (r: Vec<u8>)
    ensures
        r@ == header(title@),
{
    let mut r = head_open_bytes();
    push_all(&mut r, title);
    let close = head_close_bytes();
    push_all(&mut r, close.as_slice());
    r
}

/// A unit's title without a trailing ` - <serial title>`.
pub fn strip_unit_title(raw: &[u8], serial: &[u8]) -> (r: Vec<u8>)
    ensures
        r@ == unit_title(raw@, serial@),
{
    let sep = title_separator_bytes();
    if raw.len() >= serial.len() && raw.len() - serial.len() >= sep.len() {
        let n = raw.len() - serial.len() - sep.len();
        let tail = slice_subrange(raw, n + sep.len(), raw.len());
        let mid = slice_subrange(raw, n, n + sep.len());
        if bytes_eq(tail, serial) && bytes_eq(mid, sep.as_slice()) {
            return slice_to_vec(slice_subrange(raw, 0, n));
        }
    }
    slice_to_vec(raw)
}

/// One unit record: the heading that links to `href` under the unit's own
/// title, then the unit's content.
pub fn record_bytes(href: &[u8], raw_title: &[u8], serial_title: &[u8], content: &[u8]) -> (r: Vec<
    u8,
>)
    ensures
        r@ == record(href@, unit_title(raw_title@, serial_title@), content@),
{
    let mut r = link_open_bytes();
    push_all(&mut r, href);
    let mid = link_mid_bytes();
    push_all(&mut r, mid.as_slice());
    let title = strip_unit_title(raw_title, serial_title);
    push_all(&mut r, title.as_slice());
    let close = link_close_bytes();
    push_all(&mut r, close.as_slice());
    push_all(&mut r, content);
    r
}

/// What a previously written document says about where to resume.
pub struct ResumeScan {
    /// Where the last `</body>` starts, if there is one.
    pub offset: Option<usize>,
    /// The addresses of the unit records, in document order.
    pub hrefs: Vec<Vec<u8>>,
}

/// Read a previously written document: where to write new records, and
/// which units it already holds.
pub fn scan_document(doc: &[u8]) -> (r: ResumeScan)
    ensures
        match r.offset {
            Some(p) => last_occurrence(doc@, body_close()) == Some(p as int),
            None => last_occurrence(doc@, body_close()) is None,
        },
        r.hrefs.deep_view() == recorded_hrefs(doc@),
{
    let close = body_close_bytes();
    let offset = rfind(doc, close.as_slice());
    let hrefs = scan_hrefs(doc);
    ResumeScan { offset, hrefs }
}

/// A positioned write: `bytes` go to the file starting at `offset`.
pub struct WriteOp {
    pub offset: usize,
    pub bytes: Vec<u8>,
}

/// The file after a positioned write.
pub open spec fn written(file: Seq<u8>, offset: int, bytes: Seq<u8>) -> Seq<u8> {
    if offset + bytes.len() < file.len() {
        file.take(offset) + bytes + file.skip(offset + bytes.len())
    } else {
        file.take(offset) + bytes
    }
}

/// Appends unit records one at a time so that, between writes, the file
/// always reads as header, complete records, end marker.
pub struct AppendWriter {
    cursor: usize,
    committed: Ghost<Seq<u8>>,
}

impl AppendWriter {
    /// What the file holds before the end marker.
    pub closed spec fn committed(&self) -> Seq<u8> {
        self.committed@
    }

    /// Where the next record goes.
    pub closed spec fn position(&self) -> nat {
        self.cursor as nat
    }

    /// The document as it stands between writes.
    pub open spec fn image(&self) -> Seq<u8> {
        self.committed() + end_marker()
    }

    pub open spec fn wf(&self) -> bool {
        &&& self.position() == self.committed().len()
        &&& self.position() + end_marker().len() <= usize::MAX
    }

    /// Start a new document: the header, closed by the end marker, written
    /// from the start of the file.
    pub fn fresh(title: &[u8]) -> (r: (AppendWriter, WriteOp))
        requires
            header(title@).len() + end_marker().len() <= usize::MAX,
        ensures
            r.0.wf(),
            r.0.committed() == header(title@),
            r.1.offset == 0,
            r.1.bytes@ == r.0.image(),
    {
        let mut bytes = header_bytes(title);
        let cursor = bytes.len();
        let end = end_marker_bytes();
        push_all(&mut bytes, end.as_slice());
        (AppendWriter { cursor, committed: Ghost(header(title@)) }, WriteOp { offset: 0, bytes })
    }

    /// Continue a document whose records end at `offset`: what comes after
    /// is overwritten by the next record.
    pub fn resume(doc: &[u8], offset: usize) -> (r: AppendWriter)
        requires
            offset <= doc@.len(),
            offset + end_marker().len() <= usize::MAX,
        ensures
            r.wf(),
            r.committed() == doc@.take(offset as int),
    {
        AppendWriter { cursor: offset, committed: Ghost(doc@.take(offset as int)) }
    }

    /// Where the next record goes.
    pub fn cursor(&self) -> (r: usize)
        ensures
            r == self.position(),
    {
        self.cursor
    }

    /// The length of the finished document.
    pub fn end(&self) -> (r: usize)
        requires
            self.wf(),
        ensures
            r == self.image().len(),
    {
        self.cursor + END_MARKER_LEN
    }

    /// The write that adds one record: the record and the end marker at the
    /// cursor, which then moves to the start of the marker.
    pub fn append(&mut self, unit: &[u8]) -> (op: WriteOp)
        requires
            old(self).wf(),
            old(self).position() + unit@.len() + end_marker().len() <= usize::MAX,
        ensures
            final(self).wf(),
            final(self).committed() == old(self).committed() + unit@,
            op.offset == old(self).position(),
            op.bytes@ == unit@ + end_marker(),
            forall|file: Seq<u8>|
                file.take(op.offset as int) == old(self).committed() ==> #[trigger] written(
                    file,
                    op.offset as int,
                    op.bytes@,
                ).take(final(self).image().len() as int) == final(self).image(),
    {
        let mut bytes = slice_to_vec(unit);
        let end = end_marker_bytes();
        push_all(&mut bytes, end.as_slice());
        let offset = self.cursor;
        self.cursor = self.cursor + unit.len();
        self.committed = Ghost(self.committed@ + unit@);
        let op = WriteOp { offset, bytes };
        assert forall|file: Seq<u8>|
            file.take(op.offset as int) == old(self).committed() implies #[trigger] written(
                file,
                op.offset as int,
                op.bytes@,
            ).take(self.image().len() as int) == self.image() by {
            let w = written(file, op.offset as int, op.bytes@);
            assert(w.take(self.image().len() as int) =~= self.image());
        }
        op
    }
}

/// Append every byte of `s` to `v`.
fn push_all(v: &mut Vec<u8>, s: &[u8])
    ensures
        final(v)@ == old(v)@ + s@,
{
    let mut i: usize = 0;
    while i < s.len()
        invariant
            i <= s@.len(),
            v@ == old(v)@ + s@.take(i as int),
        decreases s@.len() - i,
    {
        v.push(s[i]);
        i = i + 1;
        assert(v@ =~= old(v)@ + s@.take(i as int));
    }
    assert(s@.take(i as int) =~= s@);
}

} // verus!
