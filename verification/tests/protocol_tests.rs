use dbi_backend::files::FileList;
use dbi_backend::protocol::{
    build_header, chunk_size, list_payload, parse_file_range, parse_header,
    should_report_progress, CommandHeader,
};

#[test]
fn header_layout() {
    let h = build_header(1, 3, 0x01020304);
    assert_eq!(h, vec![0x44, 0x42, 0x49, 0x30, 1, 0, 0, 0, 3, 0, 0, 0, 4, 3, 2, 1]);
    assert_eq!(&h[0..4], b"DBI0");
}

#[test]
fn header_roundtrip() {
    let h = build_header(2, 2, 1234567);
    assert_eq!(
        parse_header(&h),
        Some(CommandHeader { cmd_type: 2, cmd_id: 2, data_size: 1234567 })
    );
}

#[test]
fn header_needs_magic_and_length() {
    let mut h = build_header(0, 0, 0);
    h[3] = b'1';
    assert_eq!(parse_header(&h), None);
    let short = build_header(0, 0, 0);
    assert_eq!(parse_header(&short[0..15]), None);
}

#[test]
fn file_range_request_fields() {
    let mut b = Vec::new();
    b.extend_from_slice(&4096u32.to_le_bytes());
    b.extend_from_slice(&0x1_0000_0000u64.to_le_bytes());
    b.extend_from_slice(&9u32.to_le_bytes());
    b.extend_from_slice(b"game.nsp");
    let r = parse_file_range(&b).unwrap();
    assert_eq!(r.range_size, 4096);
    assert_eq!(r.range_offset, 0x1_0000_0000);
    assert_eq!(r.name, "game.nsp");
}

#[test]
fn file_range_request_too_short() {
    assert!(parse_file_range(&[0u8; 15]).is_none());
    let r = parse_file_range(&[0u8; 16]).unwrap();
    assert_eq!(r.name, "");
}

#[test]
fn file_range_name_is_decoded_lossily() {
    let mut b = vec![0u8; 16];
    b.extend_from_slice(&[b'a', 0xff, b'b']);
    let r = parse_file_range(&b).unwrap();
    assert_eq!(r.name, "a\u{fffd}b");
}

#[test]
fn list_reply_names_each_file_on_a_line() {
    let mut files = FileList::new();
    assert_eq!(list_payload(&files), Vec::<u8>::new());
    files.insert("b.nsp".to_string(), "/x/b.nsp".to_string());
    files.insert("ä.xci".to_string(), "/x/ä.xci".to_string());
    assert_eq!(list_payload(&files), "b.nsp\nä.xci\n".as_bytes().to_vec());
}

#[test]
fn chunks_are_at_most_one_mebibyte() {
    assert_eq!(chunk_size(0), 0);
    assert_eq!(chunk_size(10), 10);
    assert_eq!(chunk_size(0x100000), 0x100000);
    assert_eq!(chunk_size(0x100001), 0x100000);
}

#[test]
fn progress_every_four_mebibytes_and_at_the_end() {
    assert!(should_report_progress(0x400000, 5));
    assert!(!should_report_progress(0x300000, 5));
    assert!(should_report_progress(0x300000, 0));
    assert!(should_report_progress(0x80000, 5));
}

#[test]
fn read_header_rebuilds_to_the_same_bytes() {
    let bytes = vec![0x44, 0x42, 0x49, 0x30, 9, 8, 7, 6, 5, 4, 3, 2, 1, 0, 255, 128];
    let h = parse_header(&bytes).unwrap();
    assert_eq!(h.cmd_type, 0x06070809);
    assert_eq!(h.cmd_id, 0x02030405);
    assert_eq!(h.data_size, 0x80ff0001);
    assert_eq!(build_header(h.cmd_type, h.cmd_id, h.data_size), bytes);
}
