use textutils::headr::head_bytes;
use textutils::headr::head_lines;
use textutils::headr::header_line;
use textutils::headr::parse_positive_int;
use textutils::headr::render_head_all;
use textutils::headr::render_head_bytes_file;
use textutils::headr::render_head_file;
use textutils::headr::HeadFile;

fn s(x: &str) -> String {
    x.to_string()
}

#[test]
fn test_parse_positive_int() {
    // 3 is an OK integer
    let res = parse_positive_int("3");
    assert!(res.is_ok());
    assert_eq!(res.unwrap(), 3);

    // Any string is an error
    let res = parse_positive_int("foo");
    assert!(res.is_err());
    assert_eq!(res.unwrap_err().to_string(), "foo".to_string());

    // A zero is an error
    let res = parse_positive_int("0");
    assert!(res.is_err());
    assert_eq!(res.unwrap_err().to_string(), "0".to_string());
}

#[test]
fn parse_accepts_leading_plus() {
    assert_eq!(parse_positive_int("+3").unwrap(), 3);
}

#[test]
fn parse_rejects_overflow_and_sign_alone() {
    let res = parse_positive_int("99999999999999999999999999");
    assert_eq!(res.unwrap_err(), "99999999999999999999999999".to_string());
    assert_eq!(parse_positive_int("+").unwrap_err(), "+".to_string());
    assert_eq!(parse_positive_int("").unwrap_err(), "".to_string());
    assert_eq!(parse_positive_int("-3").unwrap_err(), "-3".to_string());
}

#[test]
fn head_returns_available_lines_when_short() {
    let lines = vec![s("one\n"), s("two\n")];
    assert_eq!(head_lines(&lines, 10), lines);
}

#[test]
fn head_takes_first_n_lines() {
    let lines = vec![s("one\n"), s("two\n"), s("three\n")];
    assert_eq!(head_lines(&lines, 2), vec![s("one\n"), s("two\n")]);
}

#[test]
fn head_empty_input_emits_nothing() {
    let lines: Vec<String> = Vec::new();
    assert_eq!(head_lines(&lines, 10), Vec::<String>::new());
}

#[test]
fn head_bytes_cuts_at_the_byte_boundary() {
    let data = vec![b'a', b'b', b'\n', b'c'];
    assert_eq!(head_bytes(&data, 2), vec![b'a', b'b']);
    assert_eq!(head_bytes(&data, 10), data);
    // a byte limit may fall inside a multi-byte character
    let accented: Vec<u8> = "\u{e9}x".bytes().collect();
    assert_eq!(head_bytes(&accented, 1), vec![0xc3]);
    assert_eq!(head_bytes(&Vec::new(), 5), Vec::<u8>::new());
}

#[test]
fn header_names_the_file() {
    assert_eq!(header_line("blah.txt"), "==> blah.txt <==\n".to_string());
}

#[test]
fn single_file_prints_without_header() {
    let lines = vec![s("x\n")];
    let out = render_head_file("f", &lines, 10, 1, 0);
    assert_eq!(out, lines);
}

#[test]
fn byte_mode_has_the_same_header_layout() {
    let data: Vec<u8> = "abcdef".bytes().collect();
    let out = render_head_bytes_file("f1", &data, 3, 2, 0);
    assert_eq!(out.len(), 3);
    assert_eq!(out[0], "==> f1 <==\n".bytes().collect::<Vec<u8>>());
    assert_eq!(out[1], "abc".bytes().collect::<Vec<u8>>());
    assert_eq!(out[2], vec![10u8]);
    // the last file gets no separator, a single file no header
    let out_last = render_head_bytes_file("f2", &data, 3, 2, 1);
    assert_eq!(out_last.len(), 2);
    let out_single = render_head_bytes_file("f1", &data, 3, 1, 0);
    assert_eq!(out_single, vec!["abc".bytes().collect::<Vec<u8>>()]);
}

#[test]
fn two_files_have_one_header_each_and_one_separator() {
    let files = vec![
        HeadFile { name: s("f1"), lines: vec![s("x\n")] },
        HeadFile { name: s("f2"), lines: vec![s("y\n"), s("z\n")] },
    ];
    let out = render_head_all(&files, 10);
    assert_eq!(
        out,
        vec![s("==> f1 <==\n"), s("x\n"), s("\n"), s("==> f2 <==\n"), s("y\n"), s("z\n")]
    );
}
