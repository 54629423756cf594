use std::io::Write;
use unic::{process_read_write, Config, ProcessError};

fn config(show_count: bool) -> Config {
    Config { in_file: "".to_string(), out_file: None, show_count }
}

fn filter(input: &[u8], show_count: bool) -> Vec<u8> {
    let mut writer: Vec<u8> = vec![];
    let res = process_read_write(input, &mut writer, &config(show_count));
    assert!(res.is_ok());
    writer
}

#[test]
fn test_read_write_default() {
    let config = Config {
        in_file: "".to_string(),
        out_file: None,
        show_count: false,
    };
    let mut reader: Vec<u8> = vec![];
    let mut writer: Vec<u8> = vec![];
    reader.write_all("a\na\nb\nb\n\n\n".as_bytes()).unwrap();

    let res = process_read_write(&reader, &mut writer, &config);
    assert!(res.is_ok());

    let actual = String::from_utf8(writer).unwrap();
    assert_eq!(actual, "a\nb\n\n")
}

#[test]
fn test_read_write_with_count() {
    let config = Config {
        in_file: "".to_string(),
        out_file: None,
        show_count: true,
    };
    let mut reader: Vec<u8> = vec![];
    let mut writer: Vec<u8> = vec![];
    reader.write_all("a\na\nb\nb\n\n\n".as_bytes()).unwrap();

    let res = process_read_write(&reader, &mut writer, &config);
    assert!(res.is_ok());

    let actual = String::from_utf8(writer).unwrap();
    assert_eq!(actual, "   2 a\n   2 b\n   2 \n")
}

#[test]
fn last_line_without_terminator_joins_its_run() {
    assert_eq!(filter(b"a\na", false), b"a\n");
    assert_eq!(filter(b"a\na", true), b"   2 a\n");
}

#[test]
fn terminator_style_does_not_part_lines() {
    assert_eq!(filter(b"a\r\na\n", false), b"a\r\n");
    assert_eq!(filter(b"a\r\na\n", true), b"   2 a\r\n");
    assert_eq!(filter(b"a\na\r\n", false), b"a\n");
}

#[test]
fn carriage_return_outside_the_terminator_is_content() {
    assert_eq!(filter(b"a\r\r\na\r\n", false), b"a\r\r\na\r\n");
    assert_eq!(filter(b"a\na\r", false), b"a\na\r");
    assert_eq!(filter(b"a\r\na\r", true), b"   1 a\r\n   1 a\r");
}

#[test]
fn other_trailing_white_space_is_content() {
    assert_eq!(filter(b"a \na\n", false), b"a \na\n");
    assert_eq!(filter(b"a\t\na\n", true), b"   1 a\t\n   1 a\n");
    assert_eq!(filter(b" \n\n", true), b"   1  \n   1 \n");
}

#[test]
fn empty_input_writes_nothing() {
    assert_eq!(filter(b"", false), b"");
    assert_eq!(filter(b"", true), b"");
}

#[test]
fn single_line_is_written_as_it_is() {
    assert_eq!(filter(b"hello\n", false), b"hello\n");
    assert_eq!(filter(b"hello\n", true), b"   1 hello\n");
    assert_eq!(filter(b"hello", false), b"hello");
    assert_eq!(filter(b"hello", true), b"   1 hello");
}

#[test]
fn blank_line_in_the_middle_is_a_run() {
    assert_eq!(filter(b"a\n\nb\n", false), b"a\n\nb\n");
    assert_eq!(filter(b"a\n\n\nb\n", true), b"   1 a\n   2 \n   1 b\n");
}

#[test]
fn blank_lines_at_the_start_keep_the_empty_line() {
    assert_eq!(filter(b"\n", false), b"");
    assert_eq!(filter(b"\n", true), b"   1 ");
    assert_eq!(filter(b"\n\r\n\na\n", true), b"   3    1 a\n");
    assert_eq!(filter(b"\n\na\n", false), b"a\n");
}

#[test]
fn distinct_lines_pass_unchanged() {
    let input = b"one\ntwo\nthree\ntwo\none";
    assert_eq!(filter(input, false), input);
}

#[test]
fn filtering_twice_changes_nothing_more() {
    let inputs: [&[u8]; 6] = [
        b"a\na\nb\nb\n\n\n",
        b"\n\na\na\r\nb",
        b"x\nx\nx\ny\nx\n",
        b"",
        b"\n",
        b"a\r\na\n\r\n\nb\nb",
    ];
    for input in inputs {
        let once = filter(input, false);
        let twice = filter(&once, false);
        assert_eq!(twice, once);
    }
}

#[test]
fn runs_come_out_in_input_order() {
    assert_eq!(filter(b"b\nb\na\nc\nc\na\n", false), b"b\na\nc\na\n");
    assert_eq!(filter(b"b\nb\na\nc\nc\na\n", true), b"   2 b\n   1 a\n   2 c\n   1 a\n");
}

#[test]
fn first_line_of_a_run_stands_for_it() {
    assert_eq!(filter(b"a\r\na\na\r\n", true), b"   3 a\r\n");
    assert_eq!(filter(b"b\na\na\r\n", false), b"b\na\n");
}

#[test]
fn wide_counts_are_written_in_full() {
    let mut input: Vec<u8> = vec![];
    for _ in 0..12345 {
        input.extend_from_slice(b"z\n");
    }
    input.extend_from_slice(b"y\n");
    assert_eq!(filter(&input, true), b"12345 z\n   1 y\n");
    assert_eq!(filter(&input[..2 * 1000], true), b"1000 z\n");
    assert_eq!(filter(&input[..2 * 999], true), b" 999 z\n");
    assert_eq!(filter(&input[..2 * 10], true), b"  10 z\n");
}

#[test]
fn output_is_appended_to_the_writer() {
    let mut writer: Vec<u8> = b"head\n".to_vec();
    let res = process_read_write(b"a\na\n", &mut writer, &config(false));
    assert_eq!(res, Ok(()));
    assert_eq!(writer, b"head\na\n");
}

#[test]
fn multibyte_text_is_compared_byte_for_byte() {
    let input = "é\né\r\nè\n".as_bytes();
    assert_eq!(filter(input, true), "   2 é\n   1 è\n".as_bytes());
}

#[test]
fn ill_formed_line_stops_the_pass() {
    let mut writer: Vec<u8> = vec![];
    let res = process_read_write(b"a\na\nb\n\xff\nc\n", &mut writer, &config(true));
    assert_eq!(res, Err(ProcessError::InvalidUtf8 { line_index: 3 }));
    assert_eq!(writer, b"   2 a\n");
}

#[test]
fn ill_formed_first_line_writes_nothing() {
    let mut writer: Vec<u8> = vec![];
    let res = process_read_write(b"\xc3\n", &mut writer, &config(false));
    assert_eq!(res, Err(ProcessError::InvalidUtf8 { line_index: 0 }));
    assert_eq!(writer, b"");
}

#[test]
fn sequence_cut_by_a_line_feed_is_ill_formed() {
    let mut writer: Vec<u8> = vec![];
    let res = process_read_write(b"ok\n\xe2\x82\n\xac\n", &mut writer, &config(false));
    assert_eq!(res, Err(ProcessError::InvalidUtf8 { line_index: 1 }));
    assert_eq!(writer, b"");
}
