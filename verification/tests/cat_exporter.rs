use memmap2::MmapMut;
use rafce::cat_exporter::{encode_csv_record, CatExporter, MAX_RECORD_LEN};
use rafce::types::AuditRecord;

fn rec(trade_id: u32, dec: u64, dcse: u64, ts: u64) -> AuditRecord {
    AuditRecord { trade_id, dec_volume: dec, dcse_settled_volume: dcse, timestamp_ns: ts }
}

#[test]
fn csv_line_format() {
    assert_eq!(encode_csv_record(&rec(42, 100, 100, 123456789)), b"42,100,100,123456789\n".to_vec());
    assert_eq!(encode_csv_record(&rec(0, 0, 0, 0)), b"0,0,0,0\n".to_vec());
}

#[test]
fn longest_csv_line_is_within_bound() {
    let line = encode_csv_record(&rec(u32::MAX, u64::MAX, u64::MAX, u64::MAX));
    assert_eq!(line, b"4294967295,18446744073709551615,18446744073709551615,18446744073709551615\n".to_vec());
    assert!(line.len() <= MAX_RECORD_LEN);
}

#[test]
fn part_file_names() {
    let mut exporter = CatExporter::new("cat_events", 4096);
    assert_eq!(exporter.next_part_file_name(), "cat_events_part_1.csv");
    exporter.install_segment(MmapMut::map_anon(4096).unwrap());
    assert_eq!(exporter.next_part_file_name(), "cat_events_part_2.csv");
}

#[test]
fn writes_lines_back_to_back() {
    let mut exporter = CatExporter::new("x", 4096);
    exporter.install_segment(MmapMut::map_anon(4096).unwrap());
    let a = rec(1, 2, 3, 4);
    let b = rec(10, 20, 30, 40);
    assert!(exporter.record_fits(&a));
    exporter.write_record(&a);
    exporter.write_record(&b);
    assert_eq!(exporter.offset(), 8 + 12);
    let segment = exporter.current_segment().unwrap();
    assert_eq!(&segment[..20], b"1,2,3,4\n10,20,30,40\n");
    assert!(segment[20..].iter().all(|&b| b == 0));
}

#[test]
fn roll_needed_near_the_end() {
    let mut exporter = CatExporter::new("x", 150);
    assert!(!exporter.needs_roll());
    exporter.install_segment(MmapMut::map_anon(150).unwrap());
    assert!(!exporter.needs_roll());
    exporter.write_record(&rec(1, 1, 1, 1));
    assert_eq!(exporter.offset(), 8);
    assert!(!exporter.needs_roll());
    exporter.write_record(&rec(123456789, 1, 1, 1));
    assert_eq!(exporter.offset(), 8 + 16);
    assert!(!exporter.needs_roll());
    exporter.write_record(&rec(123456789, 123456789, 1, 1));
    assert_eq!(exporter.offset(), 8 + 16 + 24);
    assert!(!exporter.needs_roll());
    exporter.write_record(&rec(1, 1, 1, 1));
    assert_eq!(exporter.offset(), 56);
    assert!(exporter.needs_roll());
    exporter.install_segment(MmapMut::map_anon(150).unwrap());
    assert_eq!(exporter.offset(), 0);
    assert_eq!(exporter.next_part_file_name(), "x_part_3.csv");
}

#[test]
fn small_parts_do_not_fit_long_lines() {
    let mut exporter = CatExporter::new("x", 10);
    exporter.install_segment(MmapMut::map_anon(10).unwrap());
    assert!(exporter.needs_roll());
    assert!(exporter.record_fits(&rec(1, 1, 1, 1)));
    assert!(exporter.record_fits(&rec(111, 1, 1, 1)));
    assert!(!exporter.record_fits(&rec(1111, 1, 1, 1)));
}

#[test]
fn no_part_writes_nothing() {
    let mut exporter = CatExporter::new("x", 4096);
    exporter.write_record(&rec(1, 1, 1, 1));
    assert_eq!(exporter.offset(), 0);
    assert!(exporter.current_segment().is_none());
    assert_eq!(exporter.max_size(), 4096);
}

#[test]
fn csv_fields_read_back() {
    let r = rec(7, 18446744073709551615, 1000000, 1234567890123);
    let line = encode_csv_record(&r);
    let text = String::from_utf8(line).unwrap();
    let fields: Vec<&str> = text.trim_end_matches('\n').split(',').collect();
    assert_eq!(fields.len(), 4);
    assert_eq!(fields[0].parse::<u32>().unwrap(), r.trade_id);
    assert_eq!(fields[1].parse::<u64>().unwrap(), r.dec_volume);
    assert_eq!(fields[2].parse::<u64>().unwrap(), r.dcse_settled_volume);
    assert_eq!(fields[3].parse::<u64>().unwrap(), r.timestamp_ns);
}
