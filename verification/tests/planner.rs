use oxbow::bins::is_candidate;
use oxbow::error::Error;
use oxbow::index::{Bin, FileIndex, ReferenceIndex};
use oxbow::merge::{coalesce, optimize_chunks, prune, sort};
use oxbow::offset::{Chunk, VirtualOffset};
use oxbow::region::{Interval, Region};

fn chunk(start: u64, end: u64) -> Chunk {
    Chunk { start: VirtualOffset::from_packed(start), end: VirtualOffset::from_packed(end) }
}

fn sample_index() -> FileIndex {
    // Bin 4681 is the first finest bin: positions 0..16384. Bin 4682 is the next one.
    let bins = vec![
        Bin { id: 0, chunks: vec![chunk(900, 1000)] },
        Bin { id: 4681, chunks: vec![chunk(100, 200), chunk(150, 300)] },
        Bin { id: 4682, chunks: vec![chunk(400, 500)] },
    ];
    let linear = vec![VirtualOffset::from_packed(100), VirtualOffset::from_packed(400)];
    FileIndex {
        min_shift: 14,
        depth: 5,
        references: vec![
            ReferenceIndex { name: b"chr1".to_vec(), bins, linear, lowest: Vec::new() },
            ReferenceIndex { name: b"chrX".to_vec(), bins: Vec::new(), linear: Vec::new(), lowest: Vec::new() },
        ],
        layout: None,
    }
}

fn region(name: &str, interval: Option<(u64, u64)>) -> Region {
    Region {
        name: name.as_bytes().to_vec(),
        interval: interval.map(|(start, end)| Interval { start, end }),
    }
}

#[test]
fn overlapping_chunks_are_merged() {
    let chunks = vec![chunk(2, 3), chunk(5, 8), chunk(7, 13), chunk(21, 34)];
    let merged = optimize_chunks(&chunks, VirtualOffset::zero());
    assert_eq!(merged, vec![chunk(2, 3), chunk(5, 13), chunk(21, 34)]);
}

#[test]
fn touching_chunks_are_merged() {
    let chunks = vec![chunk(2, 5), chunk(3, 4), chunk(5, 7), chunk(9, 12), chunk(10, 15), chunk(16, 21)];
    let merged = optimize_chunks(&chunks, VirtualOffset::zero());
    assert_eq!(merged, vec![chunk(2, 7), chunk(9, 15), chunk(16, 21)]);
}

#[test]
fn chunks_that_end_before_the_minimum_are_dropped() {
    let chunks = vec![chunk(2, 5), chunk(3, 4), chunk(5, 7), chunk(9, 12), chunk(10, 15), chunk(16, 21)];
    let merged = optimize_chunks(&chunks, VirtualOffset::from_packed(10));
    assert_eq!(merged, vec![chunk(9, 15), chunk(16, 21)]);
}

#[test]
fn chunk_that_ends_at_the_minimum_is_kept() {
    let chunks = vec![chunk(2, 10), chunk(1, 9)];
    assert_eq!(prune(&chunks, VirtualOffset::from_packed(10)), vec![chunk(2, 10)]);
}

#[test]
fn unordered_input_comes_out_in_ascending_order() {
    let chunks = vec![chunk(50, 60), chunk(10, 20), chunk(30, 40), chunk(10, 15)];
    assert_eq!(sort(&chunks), vec![chunk(10, 15), chunk(10, 20), chunk(30, 40), chunk(50, 60)]);
    let merged = optimize_chunks(&chunks, VirtualOffset::zero());
    assert_eq!(merged, vec![chunk(10, 20), chunk(30, 40), chunk(50, 60)]);
    for pair in merged.windows(2) {
        assert!(pair[0].start.precedes(pair[1].start));
        assert!(pair[0].end.precedes(pair[1].start));
    }
}

#[test]
fn no_chunks_give_no_chunks() {
    assert!(optimize_chunks(&Vec::new(), VirtualOffset::zero()).is_empty());
    assert!(coalesce(&Vec::new()).is_empty());
}

#[test]
fn equal_chunks_collapse_into_one() {
    let chunks = vec![chunk(5, 8), chunk(5, 8), chunk(5, 8)];
    assert_eq!(optimize_chunks(&chunks, VirtualOffset::zero()), vec![chunk(5, 8)]);
}

#[test]
fn root_bin_is_a_candidate_for_every_position() {
    assert!(is_candidate(0, 0, 1, 14, 5));
    assert!(is_candidate(0, (1 << 29) - 1, 1 << 29, 14, 5));
    assert!(!is_candidate(0, 1 << 29, (1 << 29) + 10, 14, 5));
}

#[test]
fn finest_bins_follow_their_windows() {
    // The finest level starts at bin 4681 and each bin spans 16384 positions.
    assert!(is_candidate(4681, 0, 16384, 14, 5));
    assert!(!is_candidate(4682, 0, 16384, 14, 5));
    assert!(is_candidate(4682, 16383, 16385, 14, 5));
    assert!(is_candidate(4682, 16384, 16385, 14, 5));
    assert!(!is_candidate(4681, 16384, 16385, 14, 5));
    // Level 1 starts at bin 1 and each bin spans 2^26 positions.
    assert!(is_candidate(1, 100, 200, 14, 5));
    assert!(!is_candidate(2, 100, 200, 14, 5));
    assert!(is_candidate(2, 1 << 26, (1 << 26) + 1, 14, 5));
}

#[test]
fn no_bin_is_a_candidate_for_an_empty_interval() {
    assert!(!is_candidate(0, 5, 5, 14, 5));
    assert!(!is_candidate(4681, 10, 3, 14, 5));
}

#[test]
fn bin_numbers_beyond_the_hierarchy_are_no_candidates() {
    // With depth 5 the last bin is 37448.
    assert!(is_candidate(37448, (1 << 29) - 1, 1 << 29, 14, 5));
    assert!(!is_candidate(37449, 0, 1 << 29, 14, 5));
}

#[test]
fn small_hierarchy_is_addressed_too() {
    // min_shift 4, depth 2: level 1 starts at bin 1, level 2 at bin 9.
    assert!(is_candidate(9, 7, 8, 4, 2));
    assert!(is_candidate(1, 7, 8, 4, 2));
    assert!(is_candidate(0, 7, 8, 4, 2));
    assert!(!is_candidate(10, 7, 8, 4, 2));
    assert!(is_candidate(10, 7, 17, 4, 2));
}

#[test]
fn query_collects_and_merges_the_chunks_of_candidate_bins() {
    let index = sample_index();
    let chunks = index.query(&region("chr1", Some((99, 1000)))).unwrap();
    assert_eq!(chunks, vec![chunk(100, 300), chunk(900, 1000)]);
}

#[test]
fn query_across_two_windows_reads_both_bins() {
    let index = sample_index();
    let chunks = index.query(&region("chr1", Some((16000, 17000)))).unwrap();
    assert_eq!(chunks, vec![chunk(100, 300), chunk(400, 500), chunk(900, 1000)]);
}

#[test]
fn linear_index_prunes_what_lies_before_the_window() {
    let index = sample_index();
    let chunks = index.query(&region("chr1", Some((16384, 17000)))).unwrap();
    assert_eq!(chunks, vec![chunk(400, 500), chunk(900, 1000)]);
}

#[test]
fn query_without_interval_covers_the_whole_sequence() {
    let index = sample_index();
    let chunks = index.query(&region("chr1", None)).unwrap();
    assert_eq!(chunks, vec![chunk(100, 300), chunk(400, 500), chunk(900, 1000)]);
    assert_eq!(index.resolve(None), Interval { start: 0, end: 1 << 29 });
}

#[test]
fn query_for_an_unknown_reference_fails() {
    let index = sample_index();
    assert_eq!(index.query(&region("chr2", Some((0, 100)))), Err(Error::ReferenceNotFound));
    assert_eq!(index.find_reference(b"chr2"), None);
    assert_eq!(index.find_reference(b"chrX"), Some(1));
}

#[test]
fn query_for_an_empty_interval_gives_no_chunk() {
    let index = sample_index();
    assert_eq!(index.query(&region("chr1", Some((500, 500)))), Ok(Vec::new()));
    assert_eq!(index.query(&region("chr1", Some((600, 500)))), Ok(Vec::new()));
}

#[test]
fn query_on_a_reference_without_bins_gives_no_chunk() {
    let index = sample_index();
    assert_eq!(index.query(&region("chrX", Some((0, 100)))), Ok(Vec::new()));
}

#[test]
fn query_on_a_hierarchy_that_cannot_be_addressed_fails() {
    let mut index = sample_index();
    index.depth = 16;
    assert_eq!(index.query(&region("chr1", Some((0, 100)))), Err(Error::MalformedIndex));
}

#[test]
fn same_query_twice_gives_the_same_plan() {
    let index = sample_index();
    let r = region("chr1", Some((99, 1000)));
    assert_eq!(index.query(&r), index.query(&r));
}

#[test]
fn minimum_offset_comes_from_the_window_of_the_start() {
    let index = sample_index();
    let reference = &index.references[0];
    assert_eq!(reference.min_offset(0, 14, 5), VirtualOffset::from_packed(100));
    assert_eq!(reference.min_offset(16383, 14, 5), VirtualOffset::from_packed(100));
    assert_eq!(reference.min_offset(16384, 14, 5), VirtualOffset::from_packed(400));
    assert_eq!(reference.min_offset(1 << 20, 14, 5), VirtualOffset::zero());
}

fn noted_index() -> FileIndex {
    // Offsets are noted for the finest bin 4681, for bin 73 of the level
    // three above it, and for the root.
    let lowest = vec![
        (4681, VirtualOffset::from_packed(100)),
        (73, VirtualOffset::from_packed(50)),
        (0, VirtualOffset::from_packed(7)),
    ];
    let bins = vec![
        Bin { id: 0, chunks: vec![chunk(7, 30)] },
        Bin { id: 73, chunks: vec![chunk(50, 90)] },
        Bin { id: 4681, chunks: vec![chunk(100, 200)] },
        Bin { id: 4682, chunks: vec![chunk(40, 45)] },
    ];
    FileIndex {
        min_shift: 14,
        depth: 5,
        references: vec![ReferenceIndex { name: b"chr1".to_vec(), bins, linear: Vec::new(), lowest }],
        layout: None,
    }
}

#[test]
fn minimum_offset_comes_from_the_finest_noted_bin() {
    let index = noted_index();
    let reference = &index.references[0];
    assert_eq!(reference.lowest_for(73), Some(VirtualOffset::from_packed(50)));
    assert_eq!(reference.lowest_for(74), None);
    // Position 0 lies in bin 4681.
    assert_eq!(reference.min_offset(0, 14, 5), VirtualOffset::from_packed(100));
    // Position 16384 lies in bin 4682, below 585, 73, 9, 1 and 0: 73 is the nearest noted.
    assert_eq!(reference.min_offset(16384, 14, 5), VirtualOffset::from_packed(50));
    // Position 2^26 lies below bin 2: only the root is noted above it.
    assert_eq!(reference.min_offset(1 << 26, 14, 5), VirtualOffset::from_packed(7));
    // Beyond the span nothing is noted.
    assert_eq!(reference.min_offset(1 << 29, 14, 5), VirtualOffset::zero());
}

#[test]
fn noted_offsets_prune_what_lies_before_the_window() {
    let index = noted_index();
    let plan = index.query(&region("chr1", Some((0, 100)))).unwrap();
    assert_eq!(plan, vec![chunk(100, 200)]);
    let plan = index.query(&region("chr1", Some((16384, 16400)))).unwrap();
    assert_eq!(plan, vec![chunk(50, 90)]);
}
