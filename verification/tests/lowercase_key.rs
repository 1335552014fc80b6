use envlint::checks::lowercase_key::LowercaseKeyChecker;
use envlint::common::LineEntry;
use envlint::common::Warning;

#[test]
fn working_run() {
    let mut checker = LowercaseKeyChecker::default();
    let line = LineEntry {
        number: 1,
        file_path: String::from(".env"),
        raw_string: String::from("FOO=BAR"),
    };
    assert_eq!(None, checker.run(&line));
}

#[test]
fn failing_run_with_lowercase_key() {
    let mut checker = LowercaseKeyChecker::default();
    let line = LineEntry {
        number: 1,
        file_path: String::from(".env"),
        raw_string: String::from("foo_bar=FOOBAR"),
    };
    let expected = Some(Warning::new(
        line.clone(),
        String::from("LowercaseKey: The foo_bar key should be in uppercase"),
    ));
    assert_eq!(expected, checker.run(&line));
}

#[test]
fn failing_run_with_unicode_lowercase_key() {
    let mut checker = LowercaseKeyChecker::default();
    let line = LineEntry {
        number: 1,
        file_path: String::from(".env"),
        raw_string: String::from("\u{e9}=1"),
    };
    let expected = Some(Warning::new(
        line.clone(),
        String::from("LowercaseKey: The \u{e9} key should be in uppercase"),
    ));
    assert_eq!(expected, checker.run(&line));
}

#[test]
fn working_run_with_unicode_uppercase_key() {
    let mut checker = LowercaseKeyChecker::default();
    let line = LineEntry {
        number: 1,
        file_path: String::from(".env"),
        raw_string: String::from("K\u{c9}Y=1"),
    };
    assert_eq!(None, checker.run(&line));
}

#[test]
fn failing_run_with_lowercase_letter() {
    let mut checker = LowercaseKeyChecker::default();
    let line = LineEntry {
        number: 1,
        file_path: String::from(".env"),
        raw_string: String::from("FOo_BAR=FOOBAR"),
    };
    let expected = Some(Warning::new(
        line.clone(),
        String::from("LowercaseKey: The FOo_BAR key should be in uppercase"),
    ));
    assert_eq!(expected, checker.run(&line));
}
