use oxbow::offset::{Chunk, VirtualOffset};
use oxbow::record::{select, Record};
use oxbow::region::Interval;
use oxbow::scan::{Scan, Step};

fn record(reference: &str, start: u64, end: u64) -> Record {
    Record {
        reference: reference.as_bytes().to_vec(),
        start,
        end,
        payload: format!("{}\t{}\t{}", reference, start, end).into_bytes(),
    }
}

fn spans(records: &[Record]) -> Vec<(u64, u64)> {
    records.iter().map(|r| (r.start, r.end)).collect()
}

fn chunk(start: u64, end: u64) -> Chunk {
    Chunk { start: VirtualOffset::from_packed(start), end: VirtualOffset::from_packed(end) }
}

fn at(packed: u64) -> VirtualOffset {
    VirtualOffset::from_packed(packed)
}

const WINDOW: Interval = Interval { start: 100, end: 200 };

#[test]
fn records_inside_the_window_are_returned() {
    let records = vec![record("chr1", 100, 200), record("chr1", 120, 130), record("chr1", 199, 200)];
    assert_eq!(spans(&select(records, b"chr1", WINDOW)), vec![(100, 200), (120, 130), (199, 200)]);
}

#[test]
fn records_outside_the_window_are_not_returned() {
    let records = vec![record("chr1", 0, 50), record("chr1", 300, 400)];
    assert!(select(records, b"chr1", WINDOW).is_empty());
}

#[test]
fn records_that_touch_the_window_are_not_returned() {
    let records = vec![record("chr1", 50, 100), record("chr1", 200, 250)];
    assert!(select(records, b"chr1", WINDOW).is_empty());
}

#[test]
fn records_across_a_boundary_are_returned() {
    let records = vec![record("chr1", 50, 101), record("chr1", 199, 250), record("chr1", 0, 1000)];
    assert_eq!(spans(&select(records, b"chr1", WINDOW)), vec![(50, 101), (199, 250), (0, 1000)]);
}

#[test]
fn records_of_other_references_are_not_returned() {
    let records = vec![record("chr2", 120, 130), record("chr1", 120, 130), record("chr11", 120, 130)];
    let kept = select(records, b"chr1", WINDOW);
    assert_eq!(kept.len(), 1);
    assert_eq!(kept[0].reference, b"chr1".to_vec());
    assert_eq!(kept[0].payload, b"chr1\t120\t130".to_vec());
}

#[test]
fn order_of_the_file_is_kept() {
    let records = vec![
        record("chr1", 150, 160),
        record("chr1", 0, 5),
        record("chr1", 110, 120),
        record("chr1", 190, 300),
    ];
    assert_eq!(spans(&select(records, b"chr1", WINDOW)), vec![(150, 160), (110, 120), (190, 300)]);
}

#[test]
fn empty_window_returns_nothing() {
    let records = vec![record("chr1", 0, 1000), record("chr1", 100, 101)];
    assert!(select(records, b"chr1", Interval { start: 100, end: 100 }).is_empty());
    let records = vec![record("chr1", 0, 1000)];
    assert!(select(records, b"chr1", Interval { start: 200, end: 100 }).is_empty());
}

#[test]
fn single_record_selection() {
    assert!(record("chr1", 500, 600).is_selected(b"chr1", Interval { start: 99, end: 1000 }));
    assert!(!record("chr1", 500, 600).is_selected(b"chr1", Interval { start: 600, end: 1000 }));
    assert!(!record("chr1", 500, 600).is_selected(b"chr1", Interval { start: 0, end: 500 }));
    assert!(!record("chr1", 500, 600).is_selected(b"chr2", Interval { start: 99, end: 1000 }));
}

#[test]
fn scan_seeks_each_chunk_and_reads_to_its_end() {
    let mut scan = Scan::new(vec![chunk(100, 200), chunk(300, 400)]);
    assert_eq!(scan.step(at(0)), Step::Seek(at(100)));
    assert_eq!(scan.step(at(100)), Step::Read);
    assert_eq!(scan.step(at(150)), Step::Read);
    assert_eq!(scan.step(at(200)), Step::Seek(at(300)));
    assert_eq!(scan.step(at(300)), Step::Read);
    assert_eq!(scan.step(at(400)), Step::Done);
    assert_eq!(scan.step(at(400)), Step::Done);
}

#[test]
fn scan_always_seeks_the_first_chunk() {
    let mut scan = Scan::new(vec![chunk(100, 200)]);
    assert_eq!(scan.step(at(5000)), Step::Seek(at(100)));
    assert_eq!(scan.step(at(100)), Step::Read);
}

#[test]
fn scan_does_not_go_back_over_what_was_read() {
    let mut scan = Scan::new(vec![chunk(100, 200), chunk(150, 260), chunk(210, 220), chunk(500, 600)]);
    assert_eq!(scan.step(at(0)), Step::Seek(at(100)));
    assert_eq!(scan.step(at(100)), Step::Read);
    // A record carried the stream past the end of the first chunk.
    assert_eq!(scan.step(at(230)), Step::Read);
    // The third chunk lies behind the stream: it is passed over.
    assert_eq!(scan.step(at(260)), Step::Seek(at(500)));
    assert_eq!(scan.step(at(500)), Step::Read);
    assert_eq!(scan.step(at(600)), Step::Done);
}

#[test]
fn scan_of_no_chunks_is_over_at_once() {
    let mut scan = Scan::new(Vec::new());
    assert_eq!(scan.step(at(0)), Step::Done);
}

#[test]
fn scan_of_one_range() {
    let mut scan = Scan::over_range(at(10), at(20)).unwrap();
    assert_eq!(scan.step(at(0)), Step::Seek(at(10)));
    assert_eq!(scan.step(at(19)), Step::Read);
    assert_eq!(scan.step(at(20)), Step::Done);
    assert!(Scan::over_range(at(20), at(10)).is_none());
    assert!(Scan::over_range(at(20), at(20)).is_some());
}
