use envlint::checks::checklist;
use envlint::checks::run;
use envlint::common::LineEntry;
use envlint::common::Warning;

fn entry(number: usize, file_path: &str, raw: &str) -> LineEntry {
    LineEntry {
        number,
        file_path: String::from(file_path),
        raw_string: String::from(raw),
    }
}

fn messages(warnings: &[Warning]) -> Vec<String> {
    warnings.iter().map(|w| w.message.clone()).collect()
}

#[test]
fn checklist_names_come_in_registration_order() {
    let checks = checklist();
    let names: Vec<&str> = checks.iter().map(|c| c.name()).collect();
    let expected = vec![
        "DuplicatedKey",
        "IncorrectDelimiter",
        "LeadingCharacter",
        "KeyWithoutValue",
        "LowercaseKey",
        "QuoteCharacter",
        "SpaceCharacter",
        "UnorderedKey",
    ];
    assert_eq!(expected, names);
}

#[test]
fn duplicated_key_warns_once_and_resets_per_file() {
    let lines = vec![
        entry(1, ".env", "FOO=1"),
        entry(2, ".env", "FOO=2"),
        entry(1, "b.env", "FOO=3"),
    ];
    let skip_checks: Vec<&str> = Vec::new();
    let expected = vec![String::from("DuplicatedKey: The FOO key is duplicated")];
    let result = run(lines, &skip_checks);
    assert_eq!(expected, messages(&result));
    assert_eq!(2, result[0].line.number);
    assert_eq!(String::from(".env"), result[0].line.file_path);
}

#[test]
fn unordered_key_cites_the_preceding_key() {
    let lines = vec![entry(1, ".env", "B=1"), entry(2, ".env", "A=2")];
    let skip_checks: Vec<&str> = Vec::new();
    let expected = vec![String::from(
        "UnorderedKey: The A key should go before the B key",
    )];
    let result = run(lines, &skip_checks);
    assert_eq!(expected, messages(&result));
    assert_eq!(2, result[0].line.number);
}

#[test]
fn unordered_key_compares_against_immediately_preceding_key() {
    let lines = vec![
        entry(1, ".env", "A=1"),
        entry(2, ".env", "B=2"),
        entry(3, ".env", "A=3"),
    ];
    let skip_checks: Vec<&str> = Vec::new();
    let expected = vec![
        String::from("DuplicatedKey: The A key is duplicated"),
        String::from("UnorderedKey: The A key should go before the B key"),
    ];
    let result = run(lines, &skip_checks);
    assert_eq!(expected, messages(&result));
    assert_eq!(3, result[0].line.number);
    assert_eq!(3, result[1].line.number);
}

#[test]
fn unordered_key_resets_on_a_new_file() {
    let lines = vec![entry(1, ".env", "B=1"), entry(1, "b.env", "A=2")];
    let skip_checks: Vec<&str> = Vec::new();
    let expected: Vec<Warning> = Vec::new();
    assert_eq!(expected, run(lines, &skip_checks));
}

#[test]
fn comment_and_blank_lines_are_inert() {
    let plain = vec![entry(1, ".env", "FOO=1"), entry(4, ".env", "FOO=2")];
    let padded = vec![
        entry(1, ".env", "FOO=1"),
        entry(2, ".env", ""),
        entry(3, ".env", "# comment"),
        entry(4, ".env", "FOO=2"),
    ];
    let skip_checks: Vec<&str> = Vec::new();
    let expected = vec![String::from("DuplicatedKey: The FOO key is duplicated")];
    assert_eq!(expected, messages(&run(plain, &skip_checks)));
    assert_eq!(expected, messages(&run(padded, &skip_checks)));
}

#[test]
fn leading_character_warns_independently_of_skipped_checks() {
    let line = entry(1, ".env", "1FOO=BAR");
    let expected = vec![String::from(
        "LeadingCharacter: Invalid leading character detected",
    )];
    let no_skips: Vec<&str> = Vec::new();
    assert_eq!(expected, messages(&run(vec![line.clone()], &no_skips)));
    let skip_checks: Vec<&str> = vec!["KeyWithoutValue"];
    assert_eq!(expected, messages(&run(vec![line], &skip_checks)));
}

#[test]
fn warnings_follow_registration_order_on_one_line() {
    let lines = vec![entry(1, ".env", "1fo o= 'x'")];
    let skip_checks: Vec<&str> = Vec::new();
    let expected = vec![
        String::from("IncorrectDelimiter: The 1fo o key has incorrect delimiter"),
        String::from("LeadingCharacter: Invalid leading character detected"),
        String::from("LowercaseKey: The 1fo o key should be in uppercase"),
        String::from("QuoteCharacter: The value has quote characters"),
        String::from("SpaceCharacter: The line has spaces around equal sign"),
    ];
    assert_eq!(expected, messages(&run(lines, &skip_checks)));
}

#[test]
fn rerunning_the_scan_yields_identical_output() {
    let lines = vec![
        entry(1, ".env", "B=1"),
        entry(2, ".env", "a=2"),
        entry(3, ".env", "B=3"),
    ];
    let skip_checks: Vec<&str> = Vec::new();
    let first = run(lines.clone(), &skip_checks);
    let second = run(lines, &skip_checks);
    assert_eq!(messages(&first), messages(&second));
    assert_eq!(first, second);
}

#[test]
fn skipping_one_check_leaves_the_others_untouched() {
    let lines = vec![entry(1, ".env", "B=1"), entry(2, ".env", "a=2")];
    let skip_checks: Vec<&str> = vec!["UnorderedKey"];
    let expected = vec![String::from(
        "LowercaseKey: The a key should be in uppercase",
    )];
    assert_eq!(expected, messages(&run(lines, &skip_checks)));
}

#[test]
fn skipping_an_unknown_name_changes_nothing() {
    let lines = vec![entry(1, ".env", "FOO")];
    let skip_checks: Vec<&str> = vec!["NoSuchCheck"];
    let expected = vec![String::from(
        "KeyWithoutValue: The FOO key should be with a value or have an equal sign",
    )];
    assert_eq!(expected, messages(&run(lines, &skip_checks)));
}

#[test]
fn escaped_delimiter_does_not_count() {
    let lines = vec![entry(1, ".env", "FOO\\=BAR")];
    let skip_checks: Vec<&str> = Vec::new();
    let expected = vec![String::from(
        "KeyWithoutValue: The FOO\\=BAR key should be with a value or have an equal sign",
    )];
    assert_eq!(expected, messages(&run(lines, &skip_checks)));
}

#[test]
fn keys_are_trimmed_before_comparison() {
    let lines = vec![entry(1, ".env", "FOO =1"), entry(2, ".env", "FOO=2")];
    let skip_checks: Vec<&str> = Vec::new();
    let expected = vec![
        String::from("SpaceCharacter: The line has spaces around equal sign"),
        String::from("DuplicatedKey: The FOO key is duplicated"),
    ];
    assert_eq!(expected, messages(&run(lines, &skip_checks)));
}
