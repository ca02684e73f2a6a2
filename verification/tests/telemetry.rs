use regex_renamer::telemetry::{Logger, MemoryLogger, MemoryWriter};

#[test]
fn logs_returns_written_lines() {
    let mut writer = MemoryWriter::default();
    writer.write_bytes(b"first\nsecond\n");
    assert_eq!(writer.logs(), vec!["first", "second"]);
}

#[test]
fn logs_of_an_empty_buffer_are_empty() {
    let writer = MemoryWriter::new();
    assert!(writer.logs().is_empty());
}

#[test]
fn logs_strip_one_trailing_carriage_return() {
    let mut writer = MemoryWriter::new();
    writer.write_bytes(b"a\r\nb\r\n");
    assert_eq!(writer.logs(), vec!["a", "b"]);
}

#[test]
fn logs_keep_an_unterminated_final_line() {
    let mut writer = MemoryWriter::new();
    writer.write_bytes(b"done\npending");
    assert_eq!(writer.logs(), vec!["done", "pending"]);
}

#[test]
fn a_lone_newline_is_one_empty_line() {
    let mut writer = MemoryWriter::new();
    writer.write_bytes(b"\n");
    assert_eq!(writer.logs(), vec![""]);
}

#[test]
fn writes_append_to_the_same_buffer() {
    let mut writer = MemoryWriter::new();
    writer.write_bytes(b"fir");
    writer.write_bytes(b"st\nsec");
    writer.write_bytes(b"ond\n");
    assert_eq!(writer.logs(), vec!["first", "second"]);
}

#[test]
fn invalid_bytes_decode_to_replacement_characters() {
    let mut writer = MemoryWriter::new();
    writer.write_bytes(&[0xff, b'a', b'\n']);
    assert_eq!(writer.logs(), vec!["\u{fffd}a"]);
}

#[test]
fn memory_logger_records_lines_in_order() {
    let mut logger = MemoryLogger::new();
    logger.log("one");
    logger.log("two");
    assert_eq!(logger.messages, vec!["one".to_string(), "two".to_string()]);
}
