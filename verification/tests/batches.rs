use std::io::Cursor;

use arrow::array::{Array, DictionaryArray, Float32Array, Int32Array, StringArray};
use arrow::datatypes::{DataType, Int32Type};
use arrow::ipc::reader::FileReader;
use arrow::record_batch::RecordBatch;

use oxbow::error::Error;
use oxbow::region::Interval;
use oxbow::tabix::{all_to_ipc, collect, records_to_ipc, TabixBatchBuilder, TabixRecord};
use oxbow::vcf::chosen_to_ipc;
use oxbow::vcf::{lines_to_ipc, VcfBatchBuilder};

fn read_back(bytes: Vec<u8>) -> RecordBatch {
    let mut reader = FileReader::try_new(Cursor::new(bytes), None).unwrap();
    let batch = reader.next().unwrap().unwrap();
    assert!(reader.next().is_none());
    batch
}

fn texts(batch: &RecordBatch, column: usize) -> Vec<Option<String>> {
    let array = batch.column(column).as_any().downcast_ref::<StringArray>().unwrap();
    array.iter().map(|v| v.map(|s| s.to_string())).collect()
}

fn ints(batch: &RecordBatch, column: usize) -> Vec<Option<i32>> {
    let array = batch.column(column).as_any().downcast_ref::<Int32Array>().unwrap();
    array.iter().collect()
}

fn reals(batch: &RecordBatch, column: usize) -> Vec<Option<f32>> {
    let array = batch.column(column).as_any().downcast_ref::<Float32Array>().unwrap();
    array.iter().collect()
}

fn categories(batch: &RecordBatch, column: usize) -> Vec<Option<String>> {
    let array = batch.column(column).as_any().downcast_ref::<DictionaryArray<Int32Type>>().unwrap();
    let values = array.values().as_any().downcast_ref::<StringArray>().unwrap();
    array.keys().iter().map(|k| k.map(|k| values.value(k as usize).to_string())).collect()
}

fn names(batch: &RecordBatch) -> Vec<String> {
    batch.schema().fields().iter().map(|f| f.name().clone()).collect()
}

fn some(text: &str) -> Option<String> {
    Some(text.to_string())
}

fn interval_records() -> Vec<TabixRecord> {
    vec![
        TabixRecord::new("chr1".to_string(), 501, 600, "chr1\t500\t600".to_string()),
        TabixRecord::new("chr1".to_string(), 701, 800, "chr1\t700\t800\tname".to_string()),
        TabixRecord::new("chrX".to_string(), 1, 2, "chrX\t0\t2".to_string()),
    ]
}

#[test]
fn interval_batch_has_four_columns_and_a_row_for_each_record() {
    let batch = read_back(all_to_ipc(&interval_records()).unwrap());
    assert_eq!(names(&batch), vec!["chrom", "start", "end", "rest"]);
    assert_eq!(batch.num_rows(), 3);
    assert_eq!(texts(&batch, 0), vec![some("chr1"), some("chr1"), some("chrX")]);
    assert_eq!(ints(&batch, 1), vec![Some(501), Some(701), Some(1)]);
    assert_eq!(ints(&batch, 2), vec![Some(600), Some(800), Some(2)]);
    assert_eq!(texts(&batch, 3), vec![some("chr1\t500\t600"), some("chr1\t700\t800\tname"), some("chrX\t0\t2")]);
}

#[test]
fn interval_batch_of_no_records_has_no_rows() {
    let batch = read_back(all_to_ipc(&Vec::new()).unwrap());
    assert_eq!(names(&batch), vec!["chrom", "start", "end", "rest"]);
    assert_eq!(batch.num_rows(), 0);
}

#[test]
fn interval_builder_takes_records_one_by_one() {
    let mut builder = TabixBatchBuilder::new();
    for record in interval_records() {
        builder.push(&record);
    }
    let batch = read_back(builder.finish_ipc().unwrap());
    assert_eq!(batch.num_rows(), 3);
    let same = read_back(all_to_ipc(&interval_records()).unwrap());
    assert_eq!(batch, same);
    assert!(collect(&interval_records()).is_some());
}

#[test]
fn same_records_give_the_same_bytes() {
    assert_eq!(all_to_ipc(&interval_records()), all_to_ipc(&interval_records()));
}

const VARIANTS: &[u8] = b"sq0\t8\trs1\tA\tC\t29.5\tPASS\tDP=5\tGT\nsq1\t13\t.\tG\tGA,T\t.\tq10\tDP=7\tGT:GQ\r\nsq0\t21\trs3\tT\t.\t1e3\t.\t.\tGT";

#[test]
fn variant_batch_has_nine_columns_and_a_row_for_each_line() {
    let batch = read_back(lines_to_ipc(1024, vec!["sq0", "sq1"], VARIANTS).unwrap());
    assert_eq!(names(&batch), vec!["chrom", "pos", "id", "ref", "alt", "qual", "filter", "info", "format"]);
    assert_eq!(batch.num_rows(), 3);
    assert_eq!(
        batch.schema().field(0).data_type(),
        &DataType::Dictionary(Box::new(DataType::Int32), Box::new(DataType::Utf8))
    );
    assert_eq!(batch.schema().field(5).data_type(), &DataType::Float32);
    assert_eq!(categories(&batch, 0), vec![some("sq0"), some("sq1"), some("sq0")]);
    assert_eq!(ints(&batch, 1), vec![Some(8), Some(13), Some(21)]);
    assert_eq!(texts(&batch, 2), vec![some("rs1"), some("."), some("rs3")]);
    assert_eq!(texts(&batch, 3), vec![some("A"), some("G"), some("T")]);
    assert_eq!(texts(&batch, 4), vec![some("C"), some("GA,T"), some(".")]);
    assert_eq!(reals(&batch, 5), vec![Some(29.5), None, Some(1000.0)]);
    assert_eq!(texts(&batch, 6), vec![some("PASS"), some("q10"), some(".")]);
    assert_eq!(texts(&batch, 7), vec![some("DP=5"), some("DP=7"), some(".")]);
    assert_eq!(texts(&batch, 8), vec![some("GT"), some("GT:GQ"), some("GT")]);
}

#[test]
fn missing_fields_become_nulls() {
    let batch = read_back(lines_to_ipc(16, Vec::new(), b"sq0\t8\trs1\n\nsq2\n").unwrap());
    assert_eq!(batch.num_rows(), 3);
    assert_eq!(categories(&batch, 0), vec![some("sq0"), some(""), some("sq2")]);
    assert_eq!(ints(&batch, 1), vec![Some(8), None, None]);
    assert_eq!(texts(&batch, 2), vec![some("rs1"), None, None]);
    for column in [3, 4, 6, 7, 8] {
        assert_eq!(texts(&batch, column), vec![None, None, None]);
    }
    assert_eq!(reals(&batch, 5), vec![None, None, None]);
}

#[test]
fn fields_that_cannot_be_read_become_nulls() {
    let mut builder = VcfBatchBuilder::new(16, vec!["sq0"]).unwrap();
    builder.push(b"sq0\teight\trs1\tA\tC\thigh\tPASS");
    builder.push(b"sq0\t-5\t\xff\xfe\tA\tC\t-0.5\tPASS");
    builder.push(b"\xff\t99999999999\trs3\tA\tC\t inf\tPASS");
    let batch = read_back(builder.finish_ipc().unwrap());
    assert_eq!(categories(&batch, 0), vec![some("sq0"), some("sq0"), None]);
    assert_eq!(ints(&batch, 1), vec![None, Some(-5), None]);
    assert_eq!(texts(&batch, 2), vec![some("rs1"), None, some("rs3")]);
    assert_eq!(reals(&batch, 5), vec![None, Some(-0.5), None]);
    assert_eq!(texts(&batch, 6), vec![some("PASS"), some("PASS"), some("PASS")]);
}

#[test]
fn fields_beyond_the_ninth_are_left_out() {
    let batch = read_back(lines_to_ipc(16, Vec::new(), b"a\t1\tc\td\te\t2\tg\th\ti\tj\tk\n").unwrap());
    assert_eq!(batch.num_columns(), 9);
    assert_eq!(texts(&batch, 8), vec![some("i")]);
}

#[test]
fn lines_are_counted() {
    let mut builder = VcfBatchBuilder::new(16, Vec::new()).unwrap();
    assert_eq!(builder.push_lines(VARIANTS), Ok(3));
    assert_eq!(builder.push_lines(b""), Ok(0));
    assert_eq!(builder.push_lines(b"\n\n"), Ok(2));
    let batch = read_back(builder.finish_ipc().unwrap());
    assert_eq!(batch.num_rows(), 5);
}

#[test]
fn variant_batch_of_no_lines_has_no_rows() {
    let batch = read_back(lines_to_ipc(16, vec!["sq0"], b"").unwrap());
    assert_eq!(batch.num_rows(), 0);
    assert_eq!(batch.num_columns(), 9);
}

#[test]
fn builder_is_made_whatever_room_is_asked_for() {
    assert!(VcfBatchBuilder::new(0, Vec::new()).is_some());
    assert!(VcfBatchBuilder::new(5, vec!["a", "b"]).is_some());
}

fn keys(batch: &RecordBatch, column: usize) -> Vec<Option<i32>> {
    let array = batch.column(column).as_any().downcast_ref::<DictionaryArray<Int32Type>>().unwrap();
    array.keys().iter().collect()
}

fn dictionary(batch: &RecordBatch, column: usize) -> Vec<String> {
    let array = batch.column(column).as_any().downcast_ref::<DictionaryArray<Int32Type>>().unwrap();
    let values = array.values().as_any().downcast_ref::<StringArray>().unwrap();
    values.iter().map(|v| v.unwrap().to_string()).collect()
}

#[test]
fn contig_at_place_j_gets_key_j() {
    let text = b"sq2\t1\nsq0\t2\nsq1\t3\nsq9\t4\nsq2\t5\nsq9\t6\n";
    let batch = read_back(lines_to_ipc(16, vec!["sq0", "sq1", "sq2"], text).unwrap());
    assert_eq!(dictionary(&batch, 0), vec!["sq0", "sq1", "sq2", "sq9"]);
    assert_eq!(keys(&batch, 0), vec![Some(2), Some(0), Some(1), Some(3), Some(2), Some(3)]);
}

#[test]
fn repeated_contig_is_found_at_its_first_place() {
    let batch = read_back(lines_to_ipc(16, vec!["a", "b", "a"], b"a\t1\nb\t2\n").unwrap());
    assert_eq!(dictionary(&batch, 0), vec!["a", "b", "a"]);
    assert_eq!(keys(&batch, 0), vec![Some(0), Some(1)]);
}

#[test]
fn different_dictionaries_give_different_bytes() {
    let one = lines_to_ipc(16, vec!["sq0"], b"").unwrap();
    let other = lines_to_ipc(16, vec!["sq1"], b"").unwrap();
    assert_ne!(one, other);
}

#[test]
fn full_line_fills_every_column() {
    let batch = read_back(lines_to_ipc(1024, Vec::new(), b"chr1\t100\trs1\tA\tT\t50\tPASS\tDP=3\tGT").unwrap());
    assert_eq!(batch.num_rows(), 1);
    assert_eq!(categories(&batch, 0), vec![some("chr1")]);
    assert_eq!(ints(&batch, 1), vec![Some(100)]);
    assert_eq!(texts(&batch, 2), vec![some("rs1")]);
    assert_eq!(texts(&batch, 3), vec![some("A")]);
    assert_eq!(texts(&batch, 4), vec![some("T")]);
    assert_eq!(reals(&batch, 5), vec![Some(50.0)]);
    assert_eq!(texts(&batch, 6), vec![some("PASS")]);
    assert_eq!(texts(&batch, 7), vec![some("DP=3")]);
    assert_eq!(texts(&batch, 8), vec![some("GT")]);
    for column in 0..9 {
        assert_eq!(batch.column(column).null_count(), 0);
    }
}

#[test]
fn texts_of_one_real_give_one_cell() {
    let batch = read_back(lines_to_ipc(16, Vec::new(), b"a\t1\t.\t.\t.\t50\na\t1\t.\t.\t.\t50.0\na\t1\t.\t.\t.\t5e1\n").unwrap());
    assert_eq!(reals(&batch, 5), vec![Some(50.0), Some(50.0), Some(50.0)]);
}

#[test]
fn dot_writes_no_real() {
    let batch = read_back(lines_to_ipc(16, Vec::new(), b"chr1\t100\trs1\tA\tT\t.\tPASS\tDP=3\tGT").unwrap());
    assert_eq!(reals(&batch, 5), vec![None]);
    assert_eq!(categories(&batch, 0), vec![some("chr1")]);
}

#[test]
fn line_of_two_fields_gives_a_row_with_seven_nulls() {
    let batch = read_back(lines_to_ipc(16, Vec::new(), b"chr1\t100").unwrap());
    assert_eq!(batch.num_rows(), 1);
    assert_eq!(categories(&batch, 0), vec![some("chr1")]);
    assert_eq!(ints(&batch, 1), vec![Some(100)]);
    for column in [2, 3, 4, 6, 7, 8] {
        assert_eq!(texts(&batch, column), vec![None]);
    }
    assert_eq!(reals(&batch, 5), vec![None]);
}

#[test]
fn text_with_a_line_that_is_not_utf8_gives_no_batch() {
    assert_eq!(lines_to_ipc(16, Vec::new(), b"a\t1\nb\xff\t2\nc\t3\n"), Err(Error::CorruptStream));
    let mut builder = VcfBatchBuilder::new(16, Vec::new()).unwrap();
    assert_eq!(builder.push_lines(b"a\t1\nb\xff\t2\nc\t3\n"), Err(Error::CorruptStream));
    let batch = read_back(builder.finish_ipc().unwrap());
    assert_eq!(ints(&batch, 1), vec![Some(1)]);
}

#[test]
fn only_the_records_of_the_region_are_batched() {
    let records = vec![
        TabixRecord::new("chr1".to_string(), 501, 600, "chr1\t500\t600".to_string()),
        TabixRecord::new("chr1".to_string(), 601, 700, "chr1\t600\t700".to_string()),
        TabixRecord::new("chr2".to_string(), 501, 600, "chr2\t500\t600".to_string()),
        TabixRecord::new("chr1".to_string(), 401, 500, "chr1\t400\t500".to_string()),
        TabixRecord::new("chr1".to_string(), 0, 600, "chr1\t-1\t600".to_string()),
        TabixRecord::new("chr1".to_string(), 551, 560, "chr1\t550\t560".to_string()),
    ];
    let window = Interval { start: 500, end: 600 };
    let batch = read_back(records_to_ipc(&records, b"chr1", window).unwrap());
    assert_eq!(names(&batch), vec!["chrom", "start", "end", "rest"]);
    assert_eq!(ints(&batch, 1), vec![Some(501), Some(551)]);
    assert_eq!(ints(&batch, 2), vec![Some(600), Some(560)]);
    assert_eq!(texts(&batch, 3), vec![some("chr1\t500\t600"), some("chr1\t550\t560")]);
    let batch = read_back(records_to_ipc(&records, b"chr1", Interval { start: 600, end: 600 }).unwrap());
    assert_eq!(batch.num_rows(), 0);
}

#[test]
fn record_of_the_file_becomes_a_half_open_record() {
    let record = TabixRecord::new("chr1".to_string(), 501, 600, "chr1\t500\t600".to_string());
    let seen = record.to_record().unwrap();
    assert_eq!(seen.reference, b"chr1".to_vec());
    assert_eq!((seen.start, seen.end), (500, 600));
    assert_eq!(seen.payload, b"chr1\t500\t600".to_vec());
    assert!(record.is_chosen(b"chr1", Interval { start: 599, end: 700 }));
    assert!(!record.is_chosen(b"chr1", Interval { start: 600, end: 700 }));
    assert!(!record.is_chosen(b"chr1", Interval { start: 0, end: 500 }));
    assert!(TabixRecord::new("chr1".to_string(), 0, 5, String::new()).to_record().is_none());
    assert!(TabixRecord::new("chr1".to_string(), 1, -5, String::new()).to_record().is_none());
}

#[test]
fn name_that_the_dictionary_holds_always_gets_its_key() {
    let mut text = Vec::new();
    for i in 0..2000 {
        text.extend_from_slice(format!("chr1\t{}\n", i + 1).as_bytes());
    }
    let batch = read_back(lines_to_ipc(16, vec!["chr1"], &text).unwrap());
    assert_eq!(dictionary(&batch, 0), vec!["chr1"]);
    assert_eq!(keys(&batch, 0), vec![Some(0); 2000]);
    assert_eq!(batch.column(0).null_count(), 0);
}

#[test]
fn lines_of_the_chosen_records_are_batched() {
    let records = vec![
        TabixRecord::new("sq0".to_string(), 8, 8, "sq0\t8\trs1\tA\tC\t29.5".to_string()),
        TabixRecord::new("sq1".to_string(), 9, 9, "sq1\t9\trs2\tA\tC\t1".to_string()),
        TabixRecord::new("sq0".to_string(), 13, 14, "sq0\t13\trs3\tGT\tG\t.".to_string()),
        TabixRecord::new("sq0".to_string(), 21, 21, "sq0\t21\trs4\tT\tA\t7".to_string()),
    ];
    let window = Interval { start: 7, end: 14 };
    let bytes = chosen_to_ipc(16, vec!["sq0", "sq1"], &records, b"sq0", window).unwrap();
    let batch = read_back(bytes);
    assert_eq!(batch.num_columns(), 9);
    assert_eq!(ints(&batch, 1), vec![Some(8), Some(13)]);
    assert_eq!(texts(&batch, 2), vec![some("rs1"), some("rs3")]);
    assert_eq!(reals(&batch, 5), vec![Some(29.5), None]);
    assert_eq!(keys(&batch, 0), vec![Some(0), Some(0)]);
    let none = chosen_to_ipc(16, vec!["sq0"], &records, b"sq7", window).unwrap();
    assert_eq!(read_back(none).num_rows(), 0);
}
