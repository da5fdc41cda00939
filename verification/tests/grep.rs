use miniutils::UtilError;
use miniutils::grep::grep_lines;

fn strings(lines: &[&str]) -> Vec<String> {
    lines.iter().map(|s| s.to_string()).collect()
}

#[test]
fn keeps_matching_lines_in_order() {
    let lines = strings(&["abc", "xyz", "aab", "cab"]);
    let got = grep_lines("ab", &lines, false).unwrap();
    assert_eq!(got, strings(&["abc", "aab", "cab"]));
}

#[test]
fn regex_syntax_is_honoured() {
    let lines = strings(&["color", "colour", "colr"]);
    let got = grep_lines("colou?r", &lines, false).unwrap();
    assert_eq!(got, strings(&["color", "colour"]));
}

#[test]
fn anchors_match_whole_lines() {
    let lines = strings(&["note", "footnote", "notebook"]);
    let got = grep_lines("^note$", &lines, false).unwrap();
    assert_eq!(got, strings(&["note"]));
}

#[test]
fn inverted_keeps_the_rest() {
    let lines = strings(&["abc", "xyz", "aab"]);
    let got = grep_lines("ab", &lines, true).unwrap();
    assert_eq!(got, strings(&["xyz"]));
}

#[test]
fn invalid_pattern_is_a_validation_error() {
    let lines = strings(&["abc"]);
    assert_eq!(grep_lines("(", &lines, false), Err(UtilError::Validation));
}

#[test]
fn empty_input_gives_empty_output() {
    let got = grep_lines("x", &Vec::new(), false).unwrap();
    assert_eq!(got, Vec::<String>::new());
}
