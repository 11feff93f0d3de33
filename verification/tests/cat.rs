use headcat::cat::{Config, NumberingMode};

fn lines(v: &[&str]) -> Vec<String> {
    v.iter().map(|s| s.to_string()).collect()
}

#[test]
fn new_maps_flags_to_modes() {
    assert_eq!(Config::new(Vec::new(), false, false).mode, NumberingMode::Plain);
    assert_eq!(Config::new(Vec::new(), true, false).mode, NumberingMode::All);
    assert_eq!(Config::new(Vec::new(), false, true).mode, NumberingMode::NonBlank);
}

#[test]
fn new_defaults_to_stdin() {
    let config = Config::new(Vec::new(), false, false);
    assert_eq!(config.files, vec!["-".to_string()]);
    let config = Config::new(lines(&["a.txt"]), false, false);
    assert_eq!(config.files, vec!["a.txt".to_string()]);
}

#[test]
fn plain_mode_echoes_lines_verbatim() {
    let config = Config::new(Vec::new(), false, false);
    let input = lines(&["hello", "", "world"]);
    assert_eq!(config.render(&input), input);
}

#[test]
fn all_mode_numbers_every_line() {
    let config = Config::new(Vec::new(), true, false);
    let input = lines(&["hello", "", "world"]);
    let expected = lines(&["     1\thello", "     2\t", "     3\tworld"]);
    assert_eq!(config.render(&input), expected);
}

#[test]
fn nonblank_mode_skips_blanks_and_stays_contiguous() {
    let config = Config::new(Vec::new(), false, true);
    let input = lines(&["a", "", "b", "", "", "c"]);
    let expected = lines(&["     1\ta", "", "     2\tb", "", "", "     3\tc"]);
    assert_eq!(config.render(&input), expected);
}

#[test]
fn numbers_are_right_aligned_in_six_columns() {
    let config = Config::new(Vec::new(), true, false);
    let input = lines(&["a"; 12]);
    let out = config.render(&input);
    assert_eq!(out[0], "     1\ta");
    assert_eq!(out[8], "     9\ta");
    assert_eq!(out[9], "    10\ta");
    assert_eq!(out[11], "    12\ta");
}

#[test]
fn empty_input_renders_empty() {
    let config = Config::new(Vec::new(), false, true);
    assert_eq!(config.render(&Vec::new()), Vec::<String>::new());
}
