//! The decisions around a run: whether an existing file may be used, whether
//! it can be continued, and which units still have to be fetched.

use crate::document::ResumeScan;
use crate::locator::{parsed_url, same_unit, ChapterUrl, LocatorView};
use vstd::prelude::*;

verus! {

/// How the output file is to be opened.
#[derive(Debug, PartialEq, Eq, Structural)]
pub enum OpenMode {
    /// Create it (or replace it) and write a new document.
    Create,
    /// Open it for reading and writing and look for a resume point.
    Resume,
}

/// Why a run cannot start.
#[derive(Debug, PartialEq, Eq, Structural)]
pub enum StartError {
    /// The output file exists and resuming was not asked for.
    PathExists,
}

/// Choose how to open the output file.
pub fn open_mode(resume_requested: bool, exists: bool) -> (r: Result<OpenMode, StartError>)
    ensures
        r == (if !exists {
            Ok(OpenMode::Create)
        } else if resume_requested {
            Ok(OpenMode::Resume)
        } else {
            Err(StartError::PathExists)
        }),
{
    if !exists {
        Ok(OpenMode::Create)
    } else if resume_requested {
        Ok(OpenMode::Resume)
    } else {
        Err(StartError::PathExists)
    }
}

/// The parsed forms of the addresses that parse, in order.
pub open spec fn parsed_hrefs(hrefs: Seq<Seq<u8>>) -> Seq<(Seq<u8>, Option<Seq<Seq<u8>>>)>
    decreases hrefs.len(),
{
    if hrefs.len() == 0 {
        seq![]
    } else {
        let rest = parsed_hrefs(hrefs.drop_last());
        match parsed_url(hrefs.last()) {
            Some(p) => rest.push(p),
            None => rest,
        }
    }
}

/// The views of a list of locators.
pub open spec fn locator_views(v: Seq<ChapterUrl>) -> Seq<LocatorView> {
    v.map_values(|u: ChapterUrl| u.locator_view())
}

/// The locators of the addresses that parse, in order.
pub fn known_units(hrefs: &Vec<Vec<u8>>) -> (r: Vec<ChapterUrl>)
    ensures
        locator_views(r@) == parsed_hrefs(hrefs.deep_view()),
{
    let mut r: Vec<ChapterUrl> = Vec::new();
    let mut i: usize = 0;
    while i < hrefs.len()
        invariant
            i <= hrefs@.len(),
            locator_views(r@) == parsed_hrefs(hrefs.deep_view().take(i as int)),
        decreases hrefs@.len() - i,
    {
        let ghost before = r@;
        let parsed = ChapterUrl::parse(hrefs[i].as_slice());
        proof {
            let t = hrefs.deep_view().take(i as int + 1);
            assert(t.drop_last() =~= hrefs.deep_view().take(i as int));
            assert(t.last() == hrefs[i as int]@);
        }
        match parsed {
            Some(u) => {
                r.push(u);
                assert(locator_views(r@) =~= locator_views(before).push(
                    (u.href_view(), u.segments_view()),
                ));
            },
            None => {},
        }
        i = i + 1;
    }
    assert(hrefs.deep_view().take(i as int) =~= hrefs.deep_view());
    r
}

/// Whether a unit is among `known`.
pub open spec fn is_known(u: LocatorView, known: Seq<ChapterUrl>) -> bool {
    exists|j: int| 0 <= j < known.len() && same_unit(u, #[trigger] known[j].locator_view())
}

/// The positions, in ascending order, of the first `n` units that are not
/// known.
pub open spec fn pending_positions(units: Seq<ChapterUrl>, known: Seq<ChapterUrl>, n: int) -> Seq<
    usize,
>
    decreases n,
{
    if n <= 0 {
        seq![]
    } else {
        let rest = pending_positions(units, known, n - 1);
        if is_known(units[n - 1].locator_view(), known) {
            rest
        } else {
            rest.push((n - 1) as usize)
        }
    }
}

/// Whether `u` names the same unit as one of `known`.
pub fn contains_unit(known: &Vec<ChapterUrl>, u: &ChapterUrl) -> (r: bool)
    ensures
        r == is_known(u.locator_view(), known@),
{
    let mut j: usize = 0;
    while j < known.len()
        invariant
            j <= known@.len(),
            forall|k: int| 0 <= k < j ==> !same_unit(u.locator_view(), #[trigger] known@[k].locator_view()),
        decreases known@.len() - j,
    {
        if u.same_unit_as(&known[j]) {
            return true;
        }
        j = j + 1;
    }
    false
}

/// The positions of the units still to fetch: every unit whose identity is
/// not among `known`, in list order. Units that are known but no longer
/// listed are simply not fetched again.
pub fn pending_units(units: &Vec<ChapterUrl>, known: &Vec<ChapterUrl>) -> (r: Vec<usize>)
    ensures
        r@ == pending_positions(units@, known@, units@.len() as int),
{
    let mut r: Vec<usize> = Vec::new();
    let mut i: usize = 0;
    while i < units.len()
        invariant
            i <= units@.len(),
            r@ == pending_positions(units@, known@, i as int),
        decreases units@.len() - i,
    {
        if !contains_unit(known, &units[i]) {
            r.push(i);
        }
        i = i + 1;
    }
    r
}

/// What to do with an existing document.
pub enum ResumePlan {
    /// Write new records from `offset` on, skipping the `known` units.
    Continue { offset: usize, known: Vec<ChapterUrl> },
    /// Nothing usable was found: keep a backup, then write a new document.
    Restart,
}

/// Decide from a scan whether the document can be continued: it can when it
/// has a resume point and at least one recognisable unit record.
pub fn plan_resume(scan: &ResumeScan) -> (r: ResumePlan)
    ensures
        match r {
            ResumePlan::Continue { offset, known } => {
                &&& scan.offset == Some(offset)
                &&& locator_views(known@) == parsed_hrefs(scan.hrefs.deep_view())
                &&& known@.len() > 0
            },
            ResumePlan::Restart => scan.offset is None || parsed_hrefs(scan.hrefs.deep_view()).len()
                == 0,
        },
{
    let known = known_units(&scan.hrefs);
    match scan.offset {
        Some(offset) => {
            if known.len() > 0 {
                ResumePlan::Continue { offset, known }
            } else {
                ResumePlan::Restart
            }
        },
        None => ResumePlan::Restart,
    }
}

} // verus!
