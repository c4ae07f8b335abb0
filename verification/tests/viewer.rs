use oss_cli::app::{read_key, Action, App, Hint, Key, Phase};
use oss_cli::paging::ListObject;

fn raw(path: &str) -> ListObject {
    ListObject { path: path.to_string(), date: "2024-01-01T00:00:00Z".to_string() }
}

#[test]
fn viewer_starts_waiting_for_the_first_page() {
    let app = App::new();
    assert_eq!(app.phase(), Phase::Fetching);
    assert_eq!(app.next_token(), None);
    assert_eq!(app.get_list_content(), None);
    assert!(!app.is_last());
}

#[test]
fn keys_are_read_from_characters() {
    assert_eq!(read_key('s'), Key::Advance);
    assert_eq!(read_key('q'), Key::Quit);
    assert_eq!(read_key('x'), Key::Other);
    assert_eq!(read_key('S'), Key::Other);
}

#[test]
fn page_goes_on_the_screen() {
    let mut app = App::new();
    app.list(&None, &vec![raw("a/b"), raw("c")], Some("t1".to_string())).unwrap();
    assert_eq!(app.phase(), Phase::Displaying);
    assert_eq!(app.next_token(), Some("t1".to_string()));
    assert!(!app.is_last());
    assert_eq!(app.hint(), Hint::NextPage);
    assert_eq!(
        app.get_list_content(),
        Some("name   modified\n📂 a   \n📄 c   2024-01-01 00:00\n".to_string())
    );
}

#[test]
fn advance_asks_for_the_next_page_with_the_token() {
    let mut app = App::new();
    app.list(&None, &vec![raw("a")], Some("t1".to_string())).unwrap();
    match app.list_page(Key::Advance) {
        Action::Fetch(token) => assert_eq!(token, Some("t1".to_string())),
        _ => panic!("a page should be asked for"),
    }
    assert_eq!(app.phase(), Phase::Fetching);
    app.list(&None, &vec![raw("b")], None).unwrap();
    assert_eq!(app.phase(), Phase::Displaying);
    assert!(app.is_last());
    assert_eq!(app.next_token(), None);
    assert_eq!(app.hint(), Hint::EndOfList);
    assert_eq!(app.get_list_content(), Some("name   modified\n📄 b   2024-01-01 00:00\n".to_string()));
}

#[test]
fn advance_on_the_last_page_does_nothing() {
    let mut app = App::new();
    app.list(&None, &vec![raw("a")], None).unwrap();
    let before = app.get_list_content();
    assert!(matches!(app.list_page(Key::Advance), Action::Stay));
    assert_eq!(app.phase(), Phase::Displaying);
    assert!(app.is_last());
    assert_eq!(app.get_list_content(), before);
}

#[test]
fn other_keys_do_nothing() {
    let mut app = App::new();
    assert!(matches!(app.list_page(Key::Other), Action::Stay));
    assert!(matches!(app.list_page(Key::Advance), Action::Stay));
    assert!(matches!(app.list_page(Key::Quit), Action::Stay));
    assert_eq!(app.phase(), Phase::Fetching);
    app.list(&None, &vec![raw("a")], Some("t".to_string())).unwrap();
    assert!(matches!(app.list_page(Key::Other), Action::Stay));
    assert_eq!(app.phase(), Phase::Displaying);
}

#[test]
fn quit_leaves_for_good() {
    let mut app = App::new();
    app.list(&None, &vec![raw("a")], Some("t".to_string())).unwrap();
    assert!(matches!(app.list_page(Key::Quit), Action::Leave));
    assert_eq!(app.phase(), Phase::Exiting);
    assert!(matches!(app.list_page(Key::Advance), Action::Leave));
    assert!(matches!(app.list_page(Key::Other), Action::Leave));
    assert_eq!(app.phase(), Phase::Exiting);
    let e = app.list(&None, &vec![raw("b")], None).unwrap_err();
    assert!(e.is_input());
    assert_eq!(app.phase(), Phase::Exiting);
}

#[test]
fn page_that_was_not_asked_for_is_refused() {
    let mut app = App::new();
    app.list(&None, &vec![raw("a")], Some("t".to_string())).unwrap();
    let shown = app.get_list_content();
    let e = app.list(&None, &vec![raw("b")], None).unwrap_err();
    assert!(e.is_input());
    assert_eq!(e.message(), "input error: no page was asked for");
    assert_eq!(app.get_list_content(), shown);
    assert_eq!(app.next_token(), Some("t".to_string()));
    assert!(!app.is_last());
}

#[test]
fn unreadable_answer_changes_nothing() {
    let mut app = App::new();
    let bad = vec![ListObject { path: "a".to_string(), date: "?".to_string() }];
    let e = app.list(&None, &bad, None).unwrap_err();
    assert!(!e.is_input());
    assert_eq!(app.phase(), Phase::Fetching);
    assert_eq!(app.get_list_content(), None);
    assert!(!app.is_last());
}

#[test]
fn hints_have_their_words() {
    assert_eq!(Hint::NextPage.text(), "按 s 查询下一页，按 q 退出");
    assert_eq!(Hint::EndOfList.text(), "已经是最后一页了，按 q 退出");
}

#[test]
fn directory_of_the_viewer_scopes_the_page() {
    let mut app = App::new();
    let left_out = app.list(&Some("a".to_string()), &vec![raw("a/b"), raw("c")], None).unwrap();
    assert_eq!(left_out, vec!["c".to_string()]);
    assert_eq!(app.get_list_content(), Some("name   modified\n📄 b   2024-01-01 00:00\n".to_string()));
}
