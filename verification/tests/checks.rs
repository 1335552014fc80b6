use envlint::checks::run;
use envlint::common::LineEntry;
use envlint::common::Warning;

#[test]
fn run_with_empty_vec_test() {
    let empty: Vec<LineEntry> = Vec::new();
    let expected: Vec<Warning> = Vec::new();
    let skip_checks: Vec<&str> = Vec::new();

    assert_eq!(expected, run(empty, &skip_checks));
}

#[test]
fn run_with_empty_line_test() {
    let line = LineEntry {
        number: 1,
        file_path: String::from(".env"),
        raw_string: String::from(""),
    };

    let lines: Vec<LineEntry> = vec![line];
    let expected: Vec<Warning> = Vec::new();
    let skip_checks: Vec<&str> = Vec::new();

    assert_eq!(expected, run(lines, &skip_checks));
}

#[test]
fn run_with_comment_line_test() {
    let line = LineEntry {
        number: 1,
        file_path: String::from(".env"),
        raw_string: String::from("# Comment"),
    };

    let lines: Vec<LineEntry> = vec![line];
    let expected: Vec<Warning> = Vec::new();
    let skip_checks: Vec<&str> = Vec::new();

    assert_eq!(expected, run(lines, &skip_checks));
}

#[test]
fn run_with_valid_line_test() {
    let line = LineEntry {
        number: 1,
        file_path: String::from(".env"),
        raw_string: String::from("FOO=BAR"),
    };

    let lines: Vec<LineEntry> = vec![line];
    let expected: Vec<Warning> = Vec::new();
    let skip_checks: Vec<&str> = Vec::new();

    assert_eq!(expected, run(lines, &skip_checks));
}

#[test]
fn run_with_invalid_line_test() {
    let line = LineEntry {
        number: 1,
        file_path: String::from(".env"),
        raw_string: String::from("FOO"),
    };
    let warning = Warning::new(
        line.clone(),
        String::from("KeyWithoutValue: The FOO key should be with a value or have an equal sign"),
    );
    let lines: Vec<LineEntry> = vec![line];
    let expected: Vec<Warning> = vec![warning];
    let skip_checks: Vec<&str> = Vec::new();

    assert_eq!(expected, run(lines, &skip_checks));
}

#[test]
fn skip_all_checks() {
    let line = LineEntry {
        number: 1,
        file_path: String::from(".env"),
        raw_string: String::from("FOO"),
    };
    let lines: Vec<LineEntry> = vec![line];
    let expected: Vec<Warning> = Vec::new();
    let skip_checks: Vec<&str> = vec!["KeyWithoutValue"];

    assert_eq!(expected, run(lines, &skip_checks));
}

#[test]
fn skip_one_check() {
    let line1 = LineEntry {
        number: 1,
        file_path: String::from(".env"),
        raw_string: String::from("FOO"),
    };
    let line2 = LineEntry {
        number: 1,
        file_path: String::from(".env"),
        raw_string: String::from("1FOO"),
    };
    let warning = Warning::new(
        line1.clone(),
        String::from("LeadingCharacter: Invalid leading character detected"),
    );
    let lines: Vec<LineEntry> = vec![line1, line2];
    let expected: Vec<Warning> = vec![warning];
    let skip_checks: Vec<&str> = vec!["KeyWithoutValue"];

    assert_eq!(expected, run(lines, &skip_checks));
}
