use royalroad_dl::document::{
    header_bytes, matches_at, record_bytes, rfind, scan_document, scan_hrefs, strip_unit_title,
    AppendWriter, WriteOp,
};
use royalroad_dl::plan::{known_units, open_mode, pending_units, plan_resume, OpenMode, ResumePlan, StartError};
use royalroad_dl::ChapterUrl;

const END: &[u8] = b"</body></html>";

fn apply(file: &mut Vec<u8>, op: &WriteOp) {
    let end = op.offset + op.bytes.len();
    if file.len() < end {
        file.resize(end, 0);
    }
    file[op.offset..end].copy_from_slice(&op.bytes);
}

fn unit(href: &str, content: &str) -> Vec<u8> {
    record_bytes(href.as_bytes(), format!("{} - Serial", href).as_bytes(), b"Serial", content.as_bytes())
}

fn url(s: &str) -> ChapterUrl {
    ChapterUrl::parse(s.as_bytes()).unwrap()
}

/// Writes a fresh document with the given units and returns the file.
fn write_all(units: &[(&str, &str)]) -> Vec<u8> {
    let mut file = Vec::new();
    let (mut w, op) = AppendWriter::fresh(b"Serial");
    apply(&mut file, &op);
    for (h, c) in units {
        let op = w.append(&unit(h, c));
        apply(&mut file, &op);
    }
    file.truncate(w.end());
    file
}

/// Resumes `file` with `all`, writing only the units it does not hold.
fn resume(mut file: Vec<u8>, all: &[(&str, &str)]) -> (Vec<u8>, Vec<usize>) {
    let scan = scan_document(&file);
    match plan_resume(&scan) {
        ResumePlan::Continue { offset, known } => {
            let units: Vec<ChapterUrl> = all.iter().map(|(h, _)| url(h)).collect();
            let pending = pending_units(&units, &known);
            let mut w = AppendWriter::resume(&file, offset);
            for &p in &pending {
                let op = w.append(&unit(all[p].0, all[p].1));
                apply(&mut file, &op);
            }
            file.truncate(w.end());
            (file, pending)
        }
        ResumePlan::Restart => panic!("expected a resume point"),
    }
}

const A: &str = "https://example.com/fiction/1/serial/chapter/1/a";
const B: &str = "https://example.com/fiction/1/serial/chapter/2/b";
const C: &str = "https://example.com/fiction/1/serial/chapter/3/c";

#[test]
fn header_and_record_layout() {
    assert_eq!(
        header_bytes(b"My <Serial>"),
        b"<html><head><meta charset=\"UTF-8\"><title>My <Serial></title></head><body>".to_vec()
    );
    assert_eq!(
        record_bytes(b"https://x.org/a", b"One - My Serial", b"My Serial", b"<p>hi</p>"),
        b"<h1><a class=\"chapter\" href=\"https://x.org/a\">One</a></h1><p>hi</p>".to_vec()
    );
}

#[test]
fn unit_title_suffix_is_stripped_only_when_whole() {
    assert_eq!(strip_unit_title(b"Ch 1 - Serial", b"Serial"), b"Ch 1".to_vec());
    assert_eq!(strip_unit_title(b"Ch 1 Serial", b"Serial"), b"Ch 1 Serial".to_vec());
    assert_eq!(strip_unit_title(b"Ch 1 - Other", b"Serial"), b"Ch 1 - Other".to_vec());
    assert_eq!(strip_unit_title(b"Serial", b"Serial"), b"Serial".to_vec());
    assert_eq!(strip_unit_title(b" - Serial", b"Serial"), b"".to_vec());
}

#[test]
fn search_helpers() {
    assert!(matches_at(b"abcabc", 3, b"abc"));
    assert!(!matches_at(b"abcabc", 4, b"abc"));
    assert_eq!(rfind(b"abcabc", b"abc"), Some(3));
    assert_eq!(rfind(b"abcabc", b"x"), None);
    assert_eq!(rfind(b"ab", b"abc"), None);
}

#[test]
fn fresh_document_is_closed_between_writes() {
    let mut file = Vec::new();
    let (mut w, op) = AppendWriter::fresh(b"Serial");
    apply(&mut file, &op);
    assert!(file.ends_with(END));
    assert_eq!(w.end(), file.len());
    let op = w.append(&unit(A, "<p>a</p>"));
    apply(&mut file, &op);
    assert!(file.ends_with(END));
    assert_eq!(w.end(), file.len());
    assert_eq!(w.cursor(), file.len() - END.len());
}

#[test]
fn scan_recovers_written_units_in_order() {
    let file = write_all(&[(A, "<p>a</p>"), (B, "<p>b</p>"), (C, "<p>c</p>")]);
    let scan = scan_document(&file);
    assert_eq!(scan.offset, Some(file.len() - END.len()));
    assert_eq!(scan.hrefs, vec![A.as_bytes().to_vec(), B.as_bytes().to_vec(), C.as_bytes().to_vec()]);
}

#[test]
fn scan_of_header_only_document() {
    let file = write_all(&[]);
    let scan = scan_document(&file);
    assert_eq!(scan.offset, Some(file.len() - END.len()));
    assert!(scan.hrefs.is_empty());
    assert!(matches!(plan_resume(&scan), ResumePlan::Restart));
}

#[test]
fn resume_after_interruption_fetches_only_missing() {
    let all = [(A, "<p>a</p>"), (B, "<p>b</p>"), (C, "<p>c</p>")];
    let partial = write_all(&all[..2]);
    let (file, fetched) = resume(partial, &all);
    assert_eq!(fetched, vec![2]);
    assert_eq!(file, write_all(&all));
    assert_eq!(scan_hrefs(&file).len(), 3);
}

#[test]
fn resume_of_complete_document_changes_nothing() {
    let all = [(A, "<p>a</p>"), (B, "<p>b</p>")];
    let done = write_all(&all);
    let (file, fetched) = resume(done.clone(), &all);
    assert!(fetched.is_empty());
    assert_eq!(file, done);
}

#[test]
fn truncation_after_a_record_keeps_count() {
    let all = [(A, "<p>a</p>"), (B, "<p>b</p>"), (C, "<p>c</p>")];
    for n in 0..=all.len() {
        let file = write_all(&all[..n]);
        assert_eq!(scan_hrefs(&file).len(), n);
        assert!(file.ends_with(END));
        for j in 0..=END.len() {
            let cut = &file[..file.len() - END.len() + j];
            let hrefs = scan_hrefs(cut);
            assert_eq!(hrefs.len(), n);
            for (h, (a, _)) in hrefs.iter().zip(all.iter()) {
                assert_eq!(h.as_slice(), a.as_bytes());
            }
        }
    }
}

#[test]
fn resume_skips_units_with_renamed_label() {
    let partial = write_all(&[(A, "<p>a</p>")]);
    let renamed = "https://example.com/fiction/1/new-name/chapter/1/a";
    let (_, fetched) = resume(partial, &[(renamed, "<p>a</p>"), (B, "<p>b</p>")]);
    assert_eq!(fetched, vec![1]);
}

#[test]
fn removed_units_do_not_block_progress() {
    let partial = write_all(&[(A, "<p>a</p>"), (B, "<p>b</p>")]);
    let (_, fetched) = resume(partial, &[(B, "<p>b</p>"), (C, "<p>c</p>")]);
    assert_eq!(fetched, vec![1]);
}

#[test]
fn corrupted_document_is_restarted() {
    let scan = scan_document(b"<html><body><p>something else</p></body></html>");
    assert_eq!(scan.offset, Some(33));
    assert!(scan.hrefs.is_empty());
    assert!(matches!(plan_resume(&scan), ResumePlan::Restart));
    let cut = scan_document(b"<html><head><title>x</title></head><body><h1><a class=\"chapter\" href=\"https://e.org/a\">a</a></h1>");
    assert_eq!(cut.offset, None);
    assert_eq!(cut.hrefs.len(), 1);
    assert!(matches!(plan_resume(&cut), ResumePlan::Restart));
    let units = vec![url(A), url(B), url(C)];
    assert_eq!(pending_units(&units, &Vec::new()), vec![0, 1, 2]);
}

#[test]
fn unparsable_addresses_are_not_known() {
    let known = known_units(&vec![b"not a url".to_vec(), A.as_bytes().to_vec()]);
    assert_eq!(known.len(), 1);
    assert_eq!(known[0].href().as_slice(), A.as_bytes());
}

#[test]
fn open_mode_choices() {
    assert_eq!(open_mode(false, false), Ok(OpenMode::Create));
    assert_eq!(open_mode(true, false), Ok(OpenMode::Create));
    assert_eq!(open_mode(true, true), Ok(OpenMode::Resume));
    assert_eq!(open_mode(false, true), Err(StartError::PathExists));
}
