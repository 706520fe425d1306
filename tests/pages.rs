use mdsite::{
    build_page, destination_path, find_title, is_site_index, parse_history,
    table_of_contents, DocEvent, HistoryMap, Page,
};

fn page(title: &str, html_path: &str) -> Page {
    Page {
        title: title.to_string(),
        html: String::new(),
        html_path: html_path.to_string(),
        size: 0,
        changes: vec![],
        created_at: None,
        last_modified_at: None,
    }
}

#[test]
fn destinations() {
    assert_eq!(destination_path("README.md"), "index.html");
    assert_eq!(destination_path("docs/README.md"), "docs/index.html");
    assert_eq!(destination_path("a/b/README.md"), "a/b/index.html");
    assert_eq!(destination_path("notes.md"), "notes.html");
    assert_eq!(destination_path("docs/index.md"), "docs/index.html");
    assert_eq!(destination_path("xREADME.md"), "xREADME.html");
    assert_eq!(destination_path("plain"), "plain.html");
}

#[test]
fn destination_is_a_function_of_the_path() {
    assert_eq!(destination_path("a/b.md"), destination_path("a/b.md"));
}

#[test]
fn title_is_last_text_in_top_heading() {
    let ev = vec![
        DocEvent::Other,
        DocEvent::HeadingStart(1),
        DocEvent::Text("One".to_string()),
        DocEvent::Other,
        DocEvent::Text("Two".to_string()),
        DocEvent::HeadingEnd(1),
        DocEvent::Text("body".to_string()),
    ];
    assert_eq!(find_title(&ev), Some("Two".to_string()));
    assert_eq!(find_title(&vec![DocEvent::Text("x".to_string())]), None);
    assert_eq!(find_title(&vec![]), None);
    let sub = vec![
        DocEvent::HeadingStart(2),
        DocEvent::Text("Sub".to_string()),
        DocEvent::HeadingEnd(2),
    ];
    assert_eq!(find_title(&sub), None);
}

#[test]
fn last_of_two_top_headings_gives_the_title() {
    let p = build_page("two.md", "# First

text

# Second
", 24, &HistoryMap::new());
    assert_eq!(p.title, "Second");
}

#[test]
fn text_of_a_lower_heading_inside_none_is_ignored() {
    let p = build_page("mix.md", "## Sub

# Top

### Deep
", 24, &HistoryMap::new());
    assert_eq!(p.title, "Top");
}

#[test]
fn one_parse_gives_title_and_markup() {
    let p = build_page("home.md", "# Home", 6, &HistoryMap::new());
    assert_eq!(p.title, "Home");
    assert_eq!(p.html, "<h1>Home</h1>\n");
    let q = build_page("sub.md", "## Sub", 6, &HistoryMap::new());
    assert_eq!(q.title, "sub.md");
    assert_eq!(q.html, "<h2>Sub</h2>\n");
}

#[test]
fn single_heading_gives_its_text() {
    let p = build_page("notes.md", "intro\n\n# My Notes\nbody", 22, &HistoryMap::new());
    assert_eq!(p.title, "My Notes");
}

#[test]
fn untitled_page_uses_source_path() {
    let p = build_page("docs/plain.md", "just text\n\n## not top", 10, &HistoryMap::new());
    assert_eq!(p.title, "docs/plain.md");
    assert_eq!(p.html_path, "docs/plain.html");
    assert_eq!(p.size, 10);
}

#[test]
fn no_history_gives_no_timestamps() {
    let p = build_page("a.md", "# A", 3, &HistoryMap::new());
    assert_eq!(p.changes, Vec::<u64>::new());
    assert_eq!(p.created_at(), None);
    assert_eq!(p.last_modified_at(), None);
    assert_eq!(p.created_at, None);
    assert_eq!(p.last_modified_at, None);
}

#[test]
fn newest_first_history_gives_both_ends() {
    let log = "commit\tc\t300\n1\t1\ta.md\n\ncommit\tb\t200\n1\t1\ta.md\n\ncommit\ta\t100\n1\t1\ta.md\n";
    let h = parse_history(log).unwrap();
    let p = build_page("a.md", "# A", 3, &h);
    assert_eq!(p.changes, vec![300, 200, 100]);
    assert_eq!(p.last_modified_at(), Some(300));
    assert_eq!(p.created_at(), Some(100));
    assert_eq!(p.last_modified_at, Some("1970-01-01 00:05:00 UTC".to_string()));
    assert_eq!(p.created_at, Some("1970-01-01 00:01:40 UTC".to_string()));
}

#[test]
fn timestamp_beyond_dates_has_no_text() {
    let log = format!("commit\tc\t{}\n1\t1\ta.md\n", u64::MAX);
    let h = parse_history(&log).unwrap();
    let p = build_page("a.md", "# A", 3, &h);
    assert_eq!(p.created_at(), Some(u64::MAX));
    assert_eq!(p.created_at, None);
}

#[test]
fn contents_skip_index_and_sort_by_title() {
    let pages = vec![
        page("Banana", "b.html"),
        page("Home", "index.html"),
        page("apple", "a.html"),
        page("Cherry", "docs/index.html"),
    ];
    let toc = table_of_contents(&pages);
    let titles: Vec<&str> = toc.iter().map(|i| pages[*i].title.as_str()).collect();
    assert_eq!(titles, vec!["Banana", "Cherry", "apple"]);
    assert!(is_site_index(&pages[1]));
    assert!(!is_site_index(&pages[3]));
}

#[test]
fn contents_keep_order_of_equal_titles() {
    let pages = vec![page("Same", "x.html"), page("A", "a.html"), page("Same", "y.html")];
    assert_eq!(table_of_contents(&pages), vec![1, 0, 2]);
    assert_eq!(table_of_contents(&vec![]), Vec::<usize>::new());
}

#[test]
fn two_file_site() {
    let h = HistoryMap::new();
    let pages = vec![
        build_page("README.md", "# Home", 6, &h),
        build_page("notes.md", "# My Notes\nbody", 15, &h),
    ];
    assert_eq!(pages[0].html_path, "index.html");
    assert_eq!(pages[1].html_path, "notes.html");
    assert_eq!(pages[0].html, "<h1>Home</h1>\n");
    assert!(is_site_index(&pages[0]));
    let toc = table_of_contents(&pages);
    assert_eq!(toc.len(), 1);
    assert_eq!(pages[toc[0]].title, "My Notes");
}
