use textutils::uniqr::render_uniq;
use textutils::uniqr::uniq_runs;

fn s(x: &str) -> String {
    x.to_string()
}

#[test]
fn uniq_collapses_adjacent_runs_with_counts() {
    let lines = vec![s("a\n"), s("a\n"), s("b\n"), s("a\n")];
    let runs = uniq_runs(&lines);
    assert_eq!(runs.len(), 3);
    assert_eq!(runs[0].text, s("a\n"));
    assert_eq!(runs[0].count, 2);
    assert_eq!(runs[1].text, s("b\n"));
    assert_eq!(runs[1].count, 1);
    assert_eq!(runs[2].text, s("a\n"));
    assert_eq!(runs[2].count, 1);
    let out = render_uniq(&runs, true);
    assert_eq!(out, vec![s("   2 a\n"), s("   1 b\n"), s("   1 a\n")]);
}

#[test]
fn uniq_without_adjacent_duplicates_is_a_noop() {
    let lines = vec![s("a\n"), s("b\n"), s("a\n")];
    let out = render_uniq(&uniq_runs(&lines), false);
    assert_eq!(out, lines);
    // running it again on its own output changes nothing
    let again = render_uniq(&uniq_runs(&out), false);
    assert_eq!(again, out);
}

#[test]
fn uniq_rerun_on_output_is_a_noop() {
    let lines = vec![s("a\n"), s("a\n"), s("b\n"), s("b\n"), s("a\n")];
    let once = render_uniq(&uniq_runs(&lines), false);
    assert_eq!(once, vec![s("a\n"), s("b\n"), s("a\n")]);
    let twice = render_uniq(&uniq_runs(&once), false);
    assert_eq!(twice, once);
}

#[test]
fn uniq_strips_only_the_line_ending_when_comparing() {
    // "\n", "\r\n" and a missing final terminator all compare equal
    let lines = vec![s("a\n"), s("a\r\n"), s("a")];
    let runs = uniq_runs(&lines);
    assert_eq!(runs.len(), 1);
    // the first line of the run is kept exactly as read
    assert_eq!(runs[0].text, s("a\n"));
    assert_eq!(runs[0].count, 3);
}

#[test]
fn uniq_keeps_trailing_spaces_apart() {
    // a trailing space is content, not a line ending
    let lines = vec![s("a \n"), s("a\n")];
    let runs = uniq_runs(&lines);
    assert_eq!(runs.len(), 2);
    assert_eq!(runs[0].text, s("a \n"));
    assert_eq!(runs[0].count, 1);
    assert_eq!(runs[1].text, s("a\n"));
    assert_eq!(runs[1].count, 1);
}

#[test]
fn uniq_empty_input_emits_nothing() {
    let lines: Vec<String> = Vec::new();
    let runs = uniq_runs(&lines);
    assert_eq!(runs.len(), 0);
    assert_eq!(render_uniq(&runs, false), Vec::<String>::new());
    assert_eq!(render_uniq(&runs, true), Vec::<String>::new());
}
