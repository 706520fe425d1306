use mdsite::{chars_of, child_path, has_extension, is_listed, same_chars, split_chars};

#[test]
fn split_keeps_empty_pieces() {
    let s: Vec<char> = "a\tb\t".chars().collect();
    assert_eq!(split_chars(&s, '\t'), vec![vec!['a'], vec!['b'], vec![]]);
    assert_eq!(split_chars(&[], '\t'), vec![Vec::<char>::new()]);
}

#[test]
fn chars_and_strings_round_trip() {
    let s = "héllo";
    let cs = chars_of(s);
    assert_eq!(cs, vec!['h', 'é', 'l', 'l', 'o']);
    assert!(same_chars(&cs, &cs));
    assert!(!same_chars(&cs, &cs[1..]));
}

#[test]
fn extensions_match_exactly() {
    assert!(has_extension("notes.md", "md"));
    assert!(has_extension("a.b.md", "md"));
    assert!(!has_extension("a.MD", "md"));
    assert!(!has_extension(".md", "md"));
    assert!(!has_extension("md", "md"));
    assert!(!has_extension("a.mdx", "md"));
}

#[test]
fn only_files_are_listed() {
    assert!(is_listed(false, "notes.md", "md"));
    assert!(!is_listed(true, "notes.md", "md"));
    assert!(!is_listed(false, "notes.txt", "md"));
}

#[test]
fn child_paths() {
    assert_eq!(child_path(".", "a.md"), "a.md".to_string());
    assert_eq!(child_path("docs", "a.md"), "docs/a.md".to_string());
}
