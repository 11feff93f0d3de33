use headcat::head::{format_header, head_byte_text, head_line_prefix, parse_positive_int, Config};

#[test]
fn test_parse_positive_int() {
    let res = parse_positive_int("3");
    assert!(res.is_ok());
    assert_eq!(res.unwrap(), 3);

    let res = parse_positive_int("foo");
    assert!(res.is_err());
    assert_eq!(res.unwrap_err().to_string(), "foo".to_string());

    let res = parse_positive_int("0");
    assert!(res.is_err());
    assert_eq!(res.unwrap_err().to_string(), "0".to_string());
}

#[test]
fn parse_accepts_sign_and_leading_zeros() {
    assert_eq!(parse_positive_int("+7").unwrap(), 7);
    assert_eq!(parse_positive_int("010").unwrap(), 10);
}

#[test]
fn parse_rejects_overflow_empty_and_sign_only() {
    let res = parse_positive_int("99999999999999999999999999");
    assert_eq!(res.unwrap_err(), "99999999999999999999999999");
    assert_eq!(parse_positive_int("").unwrap_err(), "");
    assert_eq!(parse_positive_int("+").unwrap_err(), "+");
    assert_eq!(parse_positive_int("1 2").unwrap_err(), "1 2");
    assert_eq!(parse_positive_int("-3").unwrap_err(), "-3");
}

#[test]
fn line_prefix_takes_first_n_lines_with_terminators() {
    let content: Vec<u8> = b"one\ntwo\r\nthree\n".to_vec();
    assert_eq!(head_line_prefix(&content, 1), b"one\n".to_vec());
    assert_eq!(head_line_prefix(&content, 2), b"one\ntwo\r\n".to_vec());
    assert_eq!(head_line_prefix(&content, 3), content);
    assert_eq!(head_line_prefix(&content, 10), content);
    assert_eq!(head_line_prefix(&content, 0), Vec::<u8>::new());
}

#[test]
fn line_prefix_keeps_unterminated_last_line() {
    let content: Vec<u8> = b"alpha\nbeta".to_vec();
    assert_eq!(head_line_prefix(&content, 2), content);
    assert_eq!(head_line_prefix(&content, 1), b"alpha\n".to_vec());
}

#[test]
fn byte_text_takes_min_of_limit_and_length() {
    let content: Vec<u8> = b"abc".to_vec();
    assert_eq!(head_byte_text(&content, 2), "ab");
    assert_eq!(head_byte_text(&content, 3), "abc");
    assert_eq!(head_byte_text(&content, 10), "abc");
    assert_eq!(head_byte_text(&content, 0), "");
}

#[test]
fn byte_text_replaces_invalid_utf8() {
    let content: Vec<u8> = vec![0x61, 0xff, 0x62];
    assert_eq!(head_byte_text(&content, 3), "a\u{fffd}b");
    // a multi-byte character cut in half decodes to a replacement
    let euro: Vec<u8> = "€x".as_bytes().to_vec();
    assert_eq!(head_byte_text(&euro, 2), "\u{fffd}");
}

#[test]
fn headers_for_first_and_later_files() {
    assert_eq!(format_header("a", true), "==> a <==\n");
    assert_eq!(format_header("b", false), "\n==> b <==\n");
    let output = format!(
        "{}{}{}{}",
        format_header("a", true),
        "line\n",
        format_header("b", false),
        "rest\n"
    );
    assert_eq!(output, "==> a <==\nline\n\n==> b <==\nrest\n");
}

#[test]
fn resolve_defaults_to_stdin_and_ten_lines() {
    let config = Config::resolve(Vec::new(), None, None).unwrap();
    assert_eq!(config.files, vec!["-".to_string()]);
    assert_eq!(config.lines, 10);
    assert_eq!(config.bytes, None);
}

#[test]
fn resolve_parses_lines_and_bytes() {
    let files = vec!["f1".to_string(), "f2".to_string()];
    let config = Config::resolve(files.clone(), Some("3"), None).unwrap();
    assert_eq!(config.files, files);
    assert_eq!(config.lines, 3);
    assert_eq!(config.bytes, None);

    let config = Config::resolve(files.clone(), Some("10"), Some("4")).unwrap();
    assert_eq!(config.lines, 10);
    assert_eq!(config.bytes, Some(4));
}

#[test]
fn resolve_rejects_bad_counts_naming_the_value() {
    let err = Config::resolve(Vec::new(), Some("0"), None).unwrap_err();
    assert_eq!(err, "illegal line count -- 0");
    let err = Config::resolve(Vec::new(), Some("foo"), None).unwrap_err();
    assert_eq!(err, "illegal line count -- foo");
    let err = Config::resolve(Vec::new(), Some("10"), Some("bar")).unwrap_err();
    assert_eq!(err, "illegal byte count -- bar");
    // the line count is validated first
    let err = Config::resolve(Vec::new(), Some("x"), Some("y")).unwrap_err();
    assert_eq!(err, "illegal line count -- x");
}

#[test]
fn render_line_mode_and_byte_mode() {
    let content: Vec<u8> = b"abcd\nef\ngh\n".to_vec();
    let line_config = Config { files: vec!["-".to_string()], lines: 2, bytes: None };
    assert_eq!(line_config.render(&content), b"abcd\nef\n".to_vec());
    // byte mode wins over the line limit
    let byte_config = Config { files: vec!["-".to_string()], lines: 2, bytes: Some(2) };
    assert_eq!(byte_config.render(&content), b"ab".to_vec());
}
