use textutils::wcr::apply_default_selection;
use textutils::wcr::count;
use textutils::wcr::format_counts;
use textutils::wcr::format_field;
use textutils::wcr::format_file_row;
use textutils::wcr::format_total_row;
use textutils::wcr::tally_add;
use textutils::wcr::FileInfo;

#[test]
fn test_count() {
    let text = "I don't want the world. I just want your half.\r\n";
    let info = count(text);
    let expected = FileInfo { num_lines: 1, num_words: 10, num_chars: 48, num_bytes: 48 };
    assert_eq!(info, expected);
}

#[test]
fn count_empty_input_is_all_zeros() {
    let info = count("");
    let expected = FileInfo { num_lines: 0, num_words: 0, num_chars: 0, num_bytes: 0 };
    assert_eq!(info, expected);
    let row = format_counts(&info, true, true, true, false);
    assert_eq!(row, "       0       0       0".to_string());
}

#[test]
fn count_counts_trailing_partial_line() {
    let info = count("one two\nthree");
    assert_eq!(info.num_lines, 2);
    assert_eq!(info.num_words, 3);
    assert_eq!(info.num_bytes, 13);
    assert_eq!(info.num_chars, 13);
}

#[test]
fn count_multibyte_characters() {
    let info = count("d\u{e9}j\u{e0} vu\n");
    assert_eq!(info.num_lines, 1);
    assert_eq!(info.num_words, 2);
    assert_eq!(info.num_chars, 8);
    assert_eq!(info.num_bytes, 10);
}

#[test]
fn format_field_justifies_to_eight() {
    assert_eq!(format_field(3, true), "       3".to_string());
    assert_eq!(format_field(3, false), "".to_string());
    assert_eq!(format_field(123456789, true), "123456789".to_string());
}

#[test]
fn file_row_names_file_but_not_placeholder() {
    let info = FileInfo { num_lines: 1, num_words: 10, num_chars: 48, num_bytes: 48 };
    let row = format_file_row(&info, true, true, true, false, "blah.txt");
    assert_eq!(row, "       1      10      48 blah.txt".to_string());
    let row = format_file_row(&info, true, true, true, false, "_");
    assert_eq!(row, "       1      10      48".to_string());
}

#[test]
fn no_selection_defaults_to_lines_words_bytes() {
    assert_eq!(apply_default_selection(false, false, false, false), (true, true, true, false));
    assert_eq!(apply_default_selection(false, false, false, true), (false, false, false, true));
    assert_eq!(apply_default_selection(true, false, false, false), (true, false, false, false));
}

#[test]
fn total_row_sums_tallies() {
    let a = FileInfo { num_lines: 1, num_words: 2, num_chars: 9, num_bytes: 9 };
    let b = FileInfo { num_lines: 3, num_words: 4, num_chars: 11, num_bytes: 12 };
    let t = tally_add(&a, &b);
    assert_eq!(t, FileInfo { num_lines: 4, num_words: 6, num_chars: 20, num_bytes: 21 });
    let row = format_total_row(&t, true, true, true, false);
    assert_eq!(row, "       4       6      21 total".to_string());
}
