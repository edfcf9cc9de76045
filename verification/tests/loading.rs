use std::io::{BufRead, Cursor, Write};

use noodles::bgzf;
use noodles::csi;
use noodles::csi::binning_index::index::header::Builder as HeaderBuilder;
use noodles::csi::binning_index::index::reference_sequence::bin::Chunk as NoodlesChunk;
use noodles::csi::binning_index::index::reference_sequence::index::BinnedIndex;
use noodles::csi::BinningIndex;
use noodles::tabix;

use oxbow::error::Error;
use oxbow::index::{FileIndex, Layout, LineFormat};
use oxbow::load::{decode, index_from_reader, is_csi_magic, is_tabix_magic};
use oxbow::offset::{Chunk, VirtualOffset};
use oxbow::raw::RawIndex;
use oxbow::record::Record;
use oxbow::region::parse_region;
use oxbow::scan::{Scan, Step};

/// One line of an interval file: name, 0-based start, end, and where the line lies in the stream.
struct Line {
    name: &'static str,
    start: usize,
    end: usize,
    low: u64,
    high: u64,
}

fn position(n: usize) -> noodles::core::Position {
    noodles::core::Position::new(n).unwrap()
}

fn noodles_chunk(low: u64, high: u64) -> NoodlesChunk {
    NoodlesChunk::new(bgzf::VirtualPosition::from(low), bgzf::VirtualPosition::from(high))
}

fn tabix_index(lines: &[Line]) -> tabix::Index {
    let mut indexer = tabix::index::Indexer::default();
    indexer.set_header(HeaderBuilder::bed().build());
    for line in lines {
        indexer
            .add_record(line.name, position(line.start + 1), position(line.end), noodles_chunk(line.low, line.high))
            .unwrap();
    }
    indexer.build()
}

fn tabix_bytes(index: &tabix::Index) -> Vec<u8> {
    let mut writer = tabix::io::Writer::new(Vec::new());
    writer.write_index(index).unwrap();
    writer.into_inner().finish().unwrap()
}

fn csi_bytes(names: &[&str], lines: &[(usize, usize, usize, u64, u64)]) -> Vec<u8> {
    let index = csi_index(names, lines);
    let mut writer = csi::io::Writer::new(Vec::new());
    writer.write_index(&index).unwrap();
    writer.into_inner().finish().unwrap()
}

fn csi_index(names: &[&str], lines: &[(usize, usize, usize, u64, u64)]) -> csi::Index {
    let mut header = HeaderBuilder::bed().build();
    for name in names {
        header.reference_sequence_names_mut().insert((*name).into());
    }
    let mut indexer = csi::binning_index::Indexer::<BinnedIndex>::new(14, 5).unwrap().set_header(header);
    for (id, start, end, low, high) in lines {
        indexer
            .add_record(Some((*id, position(start + 1), position(*end), true)), noodles_chunk(*low, *high))
            .unwrap();
    }
    indexer.build(names.len())
}

#[test]
fn plan_on_a_hierarchical_index_agrees_with_the_plan_of_the_index_library() {
    let lines = [
        (0, 500, 600, 0, 13),
        (0, 20000, 20100, 13, 30),
        (0, 900000, 900010, 30, 49),
        (1, 5, 10, 49, 59),
    ];
    let theirs = csi_index(&["chr1", "chr3"], &lines);
    let index = index_from_reader(&csi_bytes(&["chr1", "chr3"], &lines)).unwrap();
    for (text, id, start, end) in [
        ("chr1:100-1000", 0, 100, 1000),
        ("chr1:19000-21000", 0, 19000, 21000),
        ("chr1:600-900001", 0, 600, 900001),
        ("chr1:900001-900002", 0, 900001, 900002),
        ("chr3:1-100", 1, 1, 100),
    ] {
        let region = parse_region(text).unwrap();
        let plan = index.query(&region).unwrap();
        let interval = noodles::core::region::Interval::from(position(start)..=position(end));
        let expected: Vec<(u64, u64)> = theirs
            .query(id, interval)
            .unwrap()
            .iter()
            .map(|c| (u64::from(c.start()), u64::from(c.end())))
            .collect();
        assert_eq!(packed(&plan), expected, "{}", text);
    }
}

fn sample_lines() -> Vec<Line> {
    vec![
        Line { name: "chr1", start: 500, end: 600, low: 0, high: 13 },
        Line { name: "chr1", start: 20000, end: 20100, low: 13, high: 30 },
        Line { name: "chr1", start: 900000, end: 900010, low: 30, high: 49 },
        Line { name: "chr3", start: 5, end: 10, low: 49, high: 59 },
    ]
}

fn packed(chunks: &[Chunk]) -> Vec<(u64, u64)> {
    chunks.iter().map(|c| (c.start.to_packed(), c.end.to_packed())).collect()
}

fn noodles_plan(index: &tabix::Index, id: usize, start: usize, end: usize) -> Vec<(u64, u64)> {
    let interval = noodles::core::region::Interval::from(position(start)..=position(end));
    index
        .query(id, interval)
        .unwrap()
        .iter()
        .map(|c| (u64::from(c.start()), u64::from(c.end())))
        .collect()
}

#[test]
fn tabix_index_is_loaded_with_names_bins_and_linear_index() {
    let noodles_index = tabix_index(&sample_lines());
    let index = index_from_reader(&tabix_bytes(&noodles_index)).unwrap();
    assert_eq!(index.min_shift, 14);
    assert_eq!(index.depth, 5);
    assert_eq!(index.references.len(), 2);
    assert_eq!(index.references[0].name, b"chr1".to_vec());
    assert_eq!(index.references[1].name, b"chr3".to_vec());
    assert_eq!(
        index.layout,
        Some(Layout {
            format: LineFormat::Bed,
            name_column: 0,
            start_column: 1,
            end_column: Some(2),
            comment: b'#',
            skip: 0,
        })
    );
    let theirs = &noodles_index.reference_sequences()[0];
    assert_eq!(index.references[0].bins.len(), theirs.bins().len());
    assert!(!index.references[0].bins.is_empty());
    for bin in &index.references[0].bins {
        let expected: Vec<(u64, u64)> = theirs.bins()[&(bin.id as usize)]
            .chunks()
            .iter()
            .map(|c| (u64::from(c.start()), u64::from(c.end())))
            .collect();
        assert_eq!(packed(&bin.chunks), expected);
    }
    let linear: Vec<u64> = index.references[0].linear.iter().map(|v| v.to_packed()).collect();
    let expected: Vec<u64> = theirs.index().iter().map(|v| u64::from(*v)).collect();
    assert_eq!(linear, expected);
    assert!(!linear.is_empty());
}

#[test]
fn plan_agrees_with_the_plan_of_the_index_library() {
    let noodles_index = tabix_index(&sample_lines());
    let index = index_from_reader(&tabix_bytes(&noodles_index)).unwrap();
    for (text, id, start, end) in [
        ("chr1:100-1000", 0, 100, 1000),
        ("chr1:1-100", 0, 1, 100),
        ("chr1:19000-21000", 0, 19000, 21000),
        ("chr1:600-900001", 0, 600, 900001),
        ("chr1:1-536870912", 0, 1, 536870912),
        ("chr3:1-100", 1, 1, 100),
    ] {
        let region = parse_region(text).unwrap();
        let plan = index.query(&region).unwrap();
        assert_eq!(packed(&plan), noodles_plan(&noodles_index, id, start, end), "{}", text);
    }
}

#[test]
fn csi_index_is_loaded_without_linear_index() {
    let bytes = csi_bytes(&["chr1", "chr2"], &[(0, 500, 600, 0, 13), (1, 70000, 70010, 13, 30)]);
    let index = index_from_reader(&bytes).unwrap();
    assert_eq!(index.min_shift, 14);
    assert_eq!(index.depth, 5);
    assert_eq!(index.references.len(), 2);
    assert_eq!(index.references[0].name, b"chr1".to_vec());
    assert_eq!(index.references[1].name, b"chr2".to_vec());
    assert!(index.references[0].linear.is_empty());
    assert!(index.references[1].linear.is_empty());
    assert!(!index.references[0].lowest.is_empty());
    assert!(!index.references[1].lowest.is_empty());
    let plan = index.query(&parse_region("chr1:100-1000").unwrap()).unwrap();
    assert_eq!(packed(&plan), vec![(0, 13)]);
    let plan = index.query(&parse_region("chr2:1-1000").unwrap()).unwrap();
    assert!(plan.is_empty());
    let plan = index.query(&parse_region("chr2:70001-70001").unwrap()).unwrap();
    assert_eq!(packed(&plan), vec![(13, 30)]);
}

#[test]
fn magic_chooses_the_format() {
    assert!(is_tabix_magic(b"TBI\x01"));
    assert!(!is_tabix_magic(b"CSI\x01"));
    assert!(!is_tabix_magic(b"TBI\x02"));
    assert!(is_csi_magic(b"CSI\x01"));
    assert!(!is_csi_magic(b"TBI\x01"));
    assert!(!is_csi_magic(b"CSI\x02"));
    let raw = decode(&tabix_bytes(&tabix_index(&sample_lines()))).unwrap();
    assert!(!raw.linear.is_empty());
    assert!(raw.lowest.is_empty());
    let raw = decode(&csi_bytes(&["chr1"], &[(0, 500, 600, 0, 13)])).unwrap();
    assert!(raw.linear.is_empty());
    assert_eq!(raw.lowest.len(), 1);
    assert!(!raw.lowest[0].is_empty());
    assert_eq!(raw.names, Some(vec![b"chr1".to_vec()]));
}

#[test]
fn truncated_index_is_malformed() {
    let bytes = tabix_bytes(&tabix_index(&sample_lines()));
    assert_eq!(index_from_reader(&bytes[..3]).err(), Some(Error::MalformedIndex));
    assert_eq!(index_from_reader(&bytes[..bytes.len() / 2]).err(), Some(Error::MalformedIndex));
    assert_eq!(index_from_reader(&[]).err(), Some(Error::MalformedIndex));
}

#[test]
fn bytes_that_are_no_index_are_malformed() {
    assert_eq!(index_from_reader(b"not an index at all").err(), Some(Error::MalformedIndex));
    let mut writer = bgzf::io::Writer::new(Vec::new());
    writer.write_all(b"TBI\x01").unwrap();
    let bytes = writer.finish().unwrap();
    assert_eq!(index_from_reader(&bytes).err(), Some(Error::MalformedIndex));
    let mut writer = bgzf::io::Writer::new(Vec::new());
    writer.write_all(b"XYZ\x01 and some more").unwrap();
    let bytes = writer.finish().unwrap();
    assert_eq!(index_from_reader(&bytes).err(), Some(Error::MalformedIndex));
    assert!(decode(&bytes).is_none());
}

fn raw_index() -> RawIndex {
    RawIndex {
        min_shift: 14,
        depth: 5,
        names: Some(vec![b"chr1".to_vec()]),
        bins: vec![vec![(4681, vec![(5, 8), (9, 9)])]],
        linear: vec![vec![5, 9]],
        lowest: Vec::new(),
        layout: None,
    }
}

#[test]
fn decoded_index_is_unpacked() {
    let index = FileIndex::from_raw(&raw_index()).unwrap();
    assert_eq!(index.references.len(), 1);
    assert_eq!(index.references[0].bins[0].id, 4681);
    assert_eq!(packed(&index.references[0].bins[0].chunks), vec![(5, 8), (9, 9)]);
    assert_eq!(index.references[0].linear, vec![VirtualOffset::from_packed(5), VirtualOffset::from_packed(9)]);
}

#[test]
fn decoded_index_with_a_chunk_that_ends_before_it_starts_is_malformed() {
    let mut raw = raw_index();
    raw.bins[0][0].1.push((9, 8));
    assert_eq!(FileIndex::from_raw(&raw).err(), Some(Error::MalformedIndex));
}

#[test]
fn references_without_names_go_by_their_numbers() {
    let mut raw = raw_index();
    raw.names = None;
    for _ in 0..11 {
        raw.bins.push(Vec::new());
        raw.linear.push(Vec::new());
    }
    let index = FileIndex::from_raw(&raw).unwrap();
    assert_eq!(index.references.len(), 12);
    assert_eq!(index.references[0].name, b"0".to_vec());
    assert_eq!(index.references[9].name, b"9".to_vec());
    assert_eq!(index.references[11].name, b"11".to_vec());
    assert_eq!(index.find_reference(b"10"), Some(10));
    assert_eq!(oxbow::raw::number_name(4096), b"4096".to_vec());
}

#[test]
fn decoded_index_with_too_few_names_is_malformed() {
    let mut raw = raw_index();
    raw.names = Some(Vec::new());
    assert_eq!(FileIndex::from_raw(&raw).err(), Some(Error::MalformedIndex));
}

#[test]
fn decoded_index_whose_linear_index_goes_back_is_malformed() {
    let mut raw = raw_index();
    raw.linear = vec![vec![5, 9, 8]];
    assert_eq!(FileIndex::from_raw(&raw).err(), Some(Error::MalformedIndex));
    raw.linear = vec![vec![5, 9, 9, 12]];
    assert!(FileIndex::from_raw(&raw).is_ok());
}

#[test]
fn decoded_index_keeps_the_offsets_noted_for_bins() {
    let mut raw = raw_index();
    raw.linear.clear();
    raw.lowest = vec![vec![(4681, 5), (0, 3)]];
    let index = FileIndex::from_raw(&raw).unwrap();
    assert_eq!(
        index.references[0].lowest,
        vec![(4681, VirtualOffset::from_packed(5)), (0, VirtualOffset::from_packed(3))]
    );
    raw.lowest.push(Vec::new());
    assert_eq!(FileIndex::from_raw(&raw).err(), Some(Error::MalformedIndex));
}

#[test]
fn decoded_index_with_too_deep_a_hierarchy_is_malformed() {
    let mut raw = raw_index();
    raw.depth = 16;
    assert_eq!(FileIndex::from_raw(&raw).err(), Some(Error::MalformedIndex));
    let mut raw = raw_index();
    raw.min_shift = 15;
    raw.depth = 15;
    assert!(FileIndex::from_raw(&raw).is_ok());
}

#[test]
fn decoded_index_with_stray_linear_indexes_is_malformed() {
    let mut raw = raw_index();
    raw.linear.push(Vec::new());
    assert_eq!(FileIndex::from_raw(&raw).err(), Some(Error::MalformedIndex));
    let mut raw = raw_index();
    raw.linear.clear();
    assert!(FileIndex::from_raw(&raw).unwrap().references[0].linear.is_empty());
}

/// Writes lines to a block-compressed stream and indexes them.
fn compressed_file(lines: &[(&'static str, usize, usize)]) -> (Vec<u8>, Vec<u8>) {
    let mut writer = bgzf::io::Writer::new(Vec::new());
    let mut indexed = Vec::new();
    for (name, start, end) in lines {
        let low = u64::from(writer.virtual_position());
        writer.write_all(format!("{}\t{}\t{}\n", name, start, end).as_bytes()).unwrap();
        let high = u64::from(writer.virtual_position());
        indexed.push(Line { name, start: *start, end: *end, low, high });
    }
    let data = writer.finish().unwrap();
    (data, tabix_bytes(&tabix_index(&indexed)))
}

/// Runs a query as a program would: the library decides, this function moves the stream.
fn run_query(data: &[u8], index_bytes: &[u8], text: &str) -> Result<Vec<(String, u64, u64)>, Error> {
    let region = parse_region(text)?;
    let index = index_from_reader(index_bytes)?;
    let mut scan = Scan::new(index.query(&region)?);
    let window = index.resolve(region.interval);
    let mut reader = bgzf::io::Reader::new(Cursor::new(data.to_vec()));
    let mut found = Vec::new();
    loop {
        let cursor = VirtualOffset::from_packed(u64::from(reader.virtual_position()));
        match scan.step(cursor) {
            Step::Seek(offset) => {
                reader
                    .seek(bgzf::VirtualPosition::from(offset.to_packed()))
                    .map_err(|_| Error::CorruptStream)?;
            }
            Step::Read => {
                let mut line = String::new();
                if reader.read_line(&mut line).map_err(|_| Error::CorruptStream)? == 0 {
                    return Ok(found);
                }
                let fields: Vec<&str> = line.trim_end().split('\t').collect();
                let record = Record {
                    reference: fields[0].as_bytes().to_vec(),
                    start: fields[1].parse().map_err(|_| Error::CorruptStream)?,
                    end: fields[2].parse().map_err(|_| Error::CorruptStream)?,
                    payload: line.trim_end().as_bytes().to_vec(),
                };
                if record.is_selected(&region.name, window) {
                    found.push((fields[0].to_string(), record.start, record.end));
                }
            }
            Step::Done => return Ok(found),
        }
    }
}

#[test]
fn query_returns_the_record_that_overlaps_the_region() {
    let (data, index) = compressed_file(&[("chr1", 500, 600)]);
    assert_eq!(run_query(&data, &index, "chr1:100-1000"), Ok(vec![("chr1".to_string(), 500, 600)]));
}

#[test]
fn query_for_a_reference_that_the_index_lacks_fails() {
    let (data, index) = compressed_file(&[("chr1", 500, 600)]);
    assert_eq!(run_query(&data, &index, "chr2:1-100"), Err(Error::ReferenceNotFound));
}

#[test]
fn query_with_a_truncated_index_fails() {
    let (data, index) = compressed_file(&[("chr1", 500, 600)]);
    assert_eq!(run_query(&data, &index[..3], "chr1:100-1000"), Err(Error::MalformedIndex));
}

#[test]
fn query_with_a_malformed_region_fails_before_the_index_is_read() {
    let (data, _) = compressed_file(&[("chr1", 500, 600)]);
    assert_eq!(run_query(&data, &[], "chr1:100-"), Err(Error::InvalidRegionSyntax));
}

#[test]
fn query_for_the_first_position_alone_returns_nothing_here() {
    let (data, index) = compressed_file(&[("chr1", 500, 600)]);
    assert_eq!(run_query(&data, &index, "chr1:1-1"), Ok(Vec::new()));
}

#[test]
fn query_keeps_to_the_half_open_window() {
    let lines = [("chr1", 100, 200), ("chr1", 500, 600), ("chr1", 600, 700), ("chr1", 20000, 20100), ("chr2", 500, 600)];
    let (data, index) = compressed_file(&lines);
    // Positions 501 to 600, that is [500, 600).
    assert_eq!(run_query(&data, &index, "chr1:501-600"), Ok(vec![("chr1".to_string(), 500, 600)]));
    // Positions 601 to 601, that is [600, 601): the record that ends at 600 is left out.
    assert_eq!(run_query(&data, &index, "chr1:601-601"), Ok(vec![("chr1".to_string(), 600, 700)]));
    // Positions 201 to 500, that is [200, 500): both neighbours only touch it.
    assert_eq!(run_query(&data, &index, "chr1:201-500"), Ok(Vec::new()));
    assert_eq!(
        run_query(&data, &index, "chr1"),
        Ok(vec![
            ("chr1".to_string(), 100, 200),
            ("chr1".to_string(), 500, 600),
            ("chr1".to_string(), 600, 700),
            ("chr1".to_string(), 20000, 20100),
        ])
    );
    assert_eq!(run_query(&data, &index, "chr2:1-1000"), Ok(vec![("chr2".to_string(), 500, 600)]));
}

#[test]
fn same_query_twice_returns_the_same_records() {
    let lines = [("chr1", 100, 200), ("chr1", 500, 600), ("chr1", 20000, 20100)];
    let (data, index) = compressed_file(&lines);
    let first = run_query(&data, &index, "chr1:150-20001");
    assert_eq!(first, run_query(&data, &index, "chr1:150-20001"));
    assert_eq!(first.unwrap().len(), 3);
}

#[test]
fn query_without_end_reaches_the_last_record() {
    let lines = [("chr1", 100, 200), ("chr1", 500, 600), ("chr1", 20000, 20100)];
    let (data, index) = compressed_file(&lines);
    assert_eq!(
        run_query(&data, &index, "chr1:501"),
        Ok(vec![("chr1".to_string(), 500, 600), ("chr1".to_string(), 20000, 20100)])
    );
    assert_eq!(run_query(&data, &index, "chr1:").map(|found| found.len()), Ok(3));
}
