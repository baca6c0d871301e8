use textutils::catr::render_cat_lines;

fn s(x: &str) -> String {
    x.to_string()
}

#[test]
fn cat_numbers_all_lines() {
    let lines = vec![s("hello\n"), s("\n"), s("world\n")];
    let out = render_cat_lines(&lines, true, false);
    assert_eq!(out, vec![s("     1\thello\n"), s("     2\t\n"), s("     3\tworld\n")]);
}

#[test]
fn cat_numbers_nonblank_lines_only() {
    let lines = vec![s("hello\n"), s("\n"), s("world\n")];
    let out = render_cat_lines(&lines, false, true);
    assert_eq!(out, vec![s("     1\thello\n"), s("\n"), s("     2\tworld\n")]);
}

#[test]
fn cat_without_numbering_reproduces_lines_exactly() {
    let lines = vec![s("hello\r\n"), s("\r\n"), s("world")];
    let out = render_cat_lines(&lines, false, false);
    assert_eq!(out, lines);
}

#[test]
fn cat_keeps_original_line_endings_when_numbering() {
    // a "\r\n" ending and a missing final terminator both survive
    let lines = vec![s("a\r\n"), s("b")];
    let out = render_cat_lines(&lines, true, false);
    assert_eq!(out, vec![s("     1\ta\r\n"), s("     2\tb")]);
    // a line of only "\r\n" is blank in non-blank mode and stays as read
    let lines = vec![s("a\n"), s("\r\n"), s("b\n")];
    let out = render_cat_lines(&lines, false, true);
    assert_eq!(out, vec![s("     1\ta\n"), s("\r\n"), s("     2\tb\n")]);
}

#[test]
fn cat_empty_input_emits_nothing() {
    let lines: Vec<String> = Vec::new();
    assert_eq!(render_cat_lines(&lines, true, false), Vec::<String>::new());
    assert_eq!(render_cat_lines(&lines, false, true), Vec::<String>::new());
}

#[test]
fn cat_number_width_grows_past_six() {
    let mut lines: Vec<String> = Vec::new();
    let mut i: usize = 0;
    while i < 1000000 {
        lines.push(s("x\n"));
        i += 1;
    }
    let out = render_cat_lines(&lines, true, false);
    assert_eq!(out[0], s("     1\tx\n"));
    assert_eq!(out[999999], s("1000000\tx\n"));
}
