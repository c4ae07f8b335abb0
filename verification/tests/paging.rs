use oss_cli::paging::{page_query, read_entries, read_page, ListObject};

fn raw(path: &str, date: &str) -> ListObject {
    ListObject { path: path.to_string(), date: date.to_string() }
}

fn answer() -> Vec<ListObject> {
    vec![
        raw("a/b.txt", "2024-01-01T00:00:00.000Z"),
        raw("a/c/d.txt", "2024-01-02T00:00:00.000Z"),
        raw("e.txt", "2024-01-03T00:00:00.000Z"),
    ]
}

#[test]
fn query_asks_for_thirty_keys() {
    let shown = format!("{:?}", page_query(&None, &None));
    assert!(shown.contains("\"max-keys\": \"30\""));
    assert!(!shown.contains("prefix"));
    assert!(!shown.contains("continuation-token"));
}

#[test]
fn query_names_directory_and_place_to_go_on() {
    let shown =
        format!("{:?}", page_query(&Some("photos/".to_string()), &Some("tok-1".to_string())));
    assert!(shown.contains("\"max-keys\": \"30\""));
    assert!(shown.contains("\"prefix\": \"photos/\""));
    assert!(shown.contains("\"continuation-token\": \"tok-1\""));
}

#[test]
fn query_depends_on_its_arguments_alone() {
    let a = page_query(&Some("p".to_string()), &None);
    let b = page_query(&Some("p".to_string()), &None);
    assert!(format!("{:?}", a).contains("\"prefix\": \"p\""));
    assert!(format!("{:?}", b).contains("\"prefix\": \"p\""));
    assert!(!format!("{:?}", b).contains("continuation-token"));
}

#[test]
fn entries_are_read_in_order() {
    let files = read_entries(&answer()).unwrap();
    assert_eq!(files.len(), 3);
    assert_eq!(files[0].get_path(), "a/b.txt");
    assert_eq!(files[2].get_path(), "e.txt");
    assert_eq!(files[1].date(), "2024-01-02 00:00");
}

#[test]
fn unreadable_date_makes_the_answer_unusable() {
    let mut bad = answer();
    bad.push(raw("f.txt", "not a date"));
    let e = read_entries(&bad).unwrap_err();
    assert!(!e.is_input());
    assert_eq!(e.message(), "oss-client error: unreadable date in the listing");
    assert!(read_page(&bad, None, &None).is_err());
}

#[test]
fn page_with_token_is_not_the_last() {
    let (page, state) = read_page(&answer(), Some("next".to_string()), &None).unwrap();
    assert_eq!(*page.directories(), vec!["a".to_string()]);
    assert_eq!(page.files().len(), 1);
    assert!(!state.is_last_page);
    assert_eq!(state.next_token, Some("next".to_string()));
}

#[test]
fn page_without_token_is_the_last() {
    let (page, state) = read_page(&answer(), None, &Some("a".to_string())).unwrap();
    assert_eq!(*page.directories(), vec!["c".to_string()]);
    assert_eq!(page.files()[0].get_path(), "b.txt");
    assert_eq!(*page.skipped(), vec!["e.txt".to_string()]);
    assert!(state.is_last_page);
    assert_eq!(state.next_token, None);
}

#[test]
fn same_answer_gives_same_page() {
    let (once, _) = read_page(&answer(), None, &Some("a".to_string())).unwrap();
    let (again, _) = read_page(&answer(), None, &Some("a".to_string())).unwrap();
    assert_eq!(*once.directories(), *again.directories());
    assert_eq!(*once.skipped(), *again.skipped());
    assert_eq!(once.files().len(), again.files().len());
    assert_eq!(once.files()[0].get_path(), again.files()[0].get_path());
}

#[test]
fn pages_end_after_the_page_without_token() {
    let pages: Vec<(Vec<ListObject>, Option<String>)> = vec![
        (vec![raw("a/1", "2024-01-01T00:00:00Z")], Some("t1".to_string())),
        (vec![raw("b", "2024-01-01T00:00:00Z")], Some("t2".to_string())),
        (vec![raw("c/2", "2024-01-01T00:00:00Z")], None),
    ];
    let mut calls = 0;
    let mut directories: Vec<String> = Vec::new();
    let mut files: Vec<String> = Vec::new();
    for (raw, next) in pages {
        calls += 1;
        let (page, state) = read_page(&raw, next, &None).unwrap();
        directories.extend(page.directories().clone());
        files.extend(page.files().iter().map(|f| f.get_path().to_string()));
        if state.is_last_page {
            break;
        }
    }
    assert_eq!(calls, 3);
    assert_eq!(directories, vec!["a".to_string(), "c".to_string()]);
    assert_eq!(files, vec!["b".to_string()]);
}
