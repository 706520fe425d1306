use mdsite::{parse_decimal, parse_history, rename_target_of, HistoryError};

fn chars(s: &str) -> Vec<char> {
    s.chars().collect()
}

#[test]
fn rename_keeps_both_timestamps_under_final_name() {
    let log = "commit\taaa\t200\n1\t0\tnew.md\n\ncommit\tbbb\t100\n3\t0\told.md => new.md\n";
    let m = parse_history(log).unwrap();
    assert_eq!(m.lookup(&"new.md".to_string()), vec![200, 100]);
    assert_eq!(m.lookup(&"old.md".to_string()), Vec::<u64>::new());
}

#[test]
fn path_with_two_separators_is_kept_whole() {
    let log = "commit\th\t7\n1\t0\ta => b => c\n";
    let m = parse_history(log).unwrap();
    assert_eq!(m.lookup(&"a => b => c".to_string()), vec![7]);
    assert_eq!(m.lookup(&"b => c".to_string()), Vec::<u64>::new());
}

#[test]
fn several_paths_in_one_commit() {
    let log = "commit\th1\t30\n1\t1\ta.md\n2\t2\tb.md\n\ncommit\th2\t10\n1\t1\ta.md\n";
    let m = parse_history(log).unwrap();
    assert_eq!(m.lookup(&"a.md".to_string()), vec![30, 10]);
    assert_eq!(m.lookup(&"b.md".to_string()), vec![30]);
}

#[test]
fn empty_log_gives_empty_history() {
    let m = parse_history("").unwrap();
    assert_eq!(m.lookup(&"a.md".to_string()), Vec::<u64>::new());
}

#[test]
fn non_numeric_timestamp_is_an_error() {
    assert_eq!(
        parse_history("commit\th\tsoon\n1\t1\ta.md\n").err(),
        Some(HistoryError::BadTimestamp)
    );
}

#[test]
fn change_line_without_commit_is_an_error() {
    assert_eq!(
        parse_history("commit\th\t5\n\n1\t1\ta.md\n").err(),
        Some(HistoryError::NoCurrentCommit)
    );
}

#[test]
fn short_commit_line_resets_current_commit() {
    assert_eq!(
        parse_history("commit\th\t5\ncommit\th\n1\t1\ta.md\n").err(),
        Some(HistoryError::NoCurrentCommit)
    );
}

#[test]
fn decimal_values() {
    assert_eq!(parse_decimal(&chars("123")), Some(123));
    assert_eq!(parse_decimal(&chars("+5")), Some(5));
    assert_eq!(parse_decimal(&chars("0")), Some(0));
    assert_eq!(parse_decimal(&chars("")), None);
    assert_eq!(parse_decimal(&chars("+")), None);
    assert_eq!(parse_decimal(&chars("12a")), None);
    assert_eq!(parse_decimal(&chars("-1")), None);
    assert_eq!(parse_decimal(&chars("18446744073709551615")), Some(u64::MAX));
    assert_eq!(parse_decimal(&chars("18446744073709551616")), None);
}

#[test]
fn rename_targets() {
    assert_eq!(rename_target_of(&chars("old.md => new.md")), chars("new.md"));
    assert_eq!(rename_target_of(&chars("plain.md")), chars("plain.md"));
    assert_eq!(rename_target_of(&chars("a => b => c")), chars("a => b => c"));
    assert_eq!(rename_target_of(&chars("old => ")), chars(""));
    assert_eq!(rename_target_of(&chars("a=>b")), chars("a=>b"));
}
