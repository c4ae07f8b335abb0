use oss_cli::calendar::Timestamp;
use oss_cli::file::File;

fn dirs(key: &str) -> Vec<String> {
    File::new(key, "2022-06-26T09:53:21.000Z").get_dirs()
}

#[test]
fn new_keeps_key_and_reads_date() {
    let f = File::new("a/b.txt", "2022-06-26T09:53:21.000Z");
    assert_eq!(f.get_path(), "a/b.txt");
    assert_eq!(f.timestamp().secs(), 1656237201);
    assert_eq!(f.timestamp().nanos(), 0);
    assert_eq!(f.date(), "2022-06-26 09:53");
}

#[test]
fn date_is_shown_in_utc() {
    let f = File::new("k", "2024-03-01T01:30:00+08:00");
    assert_eq!(f.date(), "2024-02-29 17:30");
    let g = File::new("k", "2012-12-12 12:12:12Z");
    assert_eq!(g.date(), "2012-12-12 12:12");
}

#[test]
fn try_new_refuses_what_is_no_date() {
    assert!(File::try_new("a", "yesterday").is_none());
    assert!(File::try_new("a", "").is_none());
    assert!(File::try_new("a", "2024-13-01T00:00:00Z").is_none());
    let f = File::try_new("a", "2024-01-01T00:00:00.5Z").unwrap();
    assert_eq!(f.timestamp().nanos(), 500_000_000);
    assert_eq!(f.timestamp().secs(), 1704067200);
}

#[test]
fn timestamp_from_parts_checks_the_calendar() {
    let t = Timestamp::from_parts(0, 0).unwrap();
    assert_eq!(t.minute(), "1970-01-01 00:00");
    assert!(Timestamp::from_parts(i64::MAX, 0).is_none());
    assert!(Timestamp::from_parts(0, 2_000_000_000).is_none());
    assert!(Timestamp::parse("2024-01-01T00:00:00Z").is_some());
    assert!(Timestamp::parse("2024-01-01").is_none());
}

#[test]
fn timestamps_compare_by_seconds_then_nanoseconds() {
    let a = Timestamp::from_parts(5, 10).unwrap();
    let b = Timestamp::from_parts(5, 11).unwrap();
    let c = Timestamp::from_parts(6, 0).unwrap();
    assert!(a.earlier(&b) && b.earlier(&c) && a.earlier(&c));
    assert!(!b.earlier(&a) && !a.earlier(&a));
    assert!(a == a && a != b && a < b && b < c);
}

#[test]
fn sub_strips_prefix_and_one_slash() {
    let f = File::new("a/b.txt", "2024-01-01T00:00:00Z").sub("a").unwrap();
    assert_eq!(f.get_path(), "b.txt");
    assert_eq!(f.date(), "2024-01-01 00:00");
    let g = File::new("a/b/c.txt", "2024-01-01T00:00:00Z").sub("a/").unwrap();
    assert_eq!(g.get_path(), "b/c.txt");
    let h = File::new("a/b/c.txt", "2024-01-01T00:00:00Z").sub("a/b").unwrap();
    assert_eq!(h.get_path(), "c.txt");
    let marker = File::new("a/", "2024-01-01T00:00:00Z").sub("a").unwrap();
    assert_eq!(marker.get_path(), "");
}

#[test]
fn sub_counts_characters_not_bytes() {
    let f = File::new("目录/文件.txt", "2024-01-01T00:00:00Z").sub("目录").unwrap();
    assert_eq!(f.get_path(), "文件.txt");
}

#[test]
fn sub_refuses_key_outside_prefix() {
    let e = File::new("e.txt", "2024-01-01T00:00:00Z").sub("a").unwrap_err();
    assert!(e.is_input());
    assert_eq!(e.message(), "input error: key outside the listed directory");
    assert!(File::new("a", "2024-01-01T00:00:00Z").sub("a").is_err());
    assert!(File::new("ab/c", "2024-01-01T00:00:00Z").sub("a").is_err());
    assert!(File::new("", "2024-01-01T00:00:00Z").sub("a").is_err());
    assert!(File::new("a/b", "2024-01-01T00:00:00Z").sub("a/b/c/d").is_err());
}

#[test]
fn in_dir_looks_for_a_slash() {
    assert!(File::new("a/b", "2024-01-01T00:00:00Z").in_dir());
    assert!(File::new("/", "2024-01-01T00:00:00Z").in_dir());
    assert!(!File::new("ab", "2024-01-01T00:00:00Z").in_dir());
    assert!(!File::new("", "2024-01-01T00:00:00Z").in_dir());
}

#[test]
fn get_dirs_gives_all_segments_but_the_last() {
    assert_eq!(dirs("a/b/c.txt"), vec!["a".to_string(), "b".to_string()]);
    assert_eq!(dirs("c.txt"), Vec::<String>::new());
    assert_eq!(dirs(""), Vec::<String>::new());
    assert_eq!(dirs("a/"), vec!["a".to_string()]);
    assert_eq!(dirs("/a"), vec!["".to_string()]);
    assert_eq!(dirs("a//b"), vec!["a".to_string(), "".to_string()]);
    assert_eq!(dirs("目录/文件"), vec!["目录".to_string()]);
}

#[test]
fn absolute_dir_nth_joins_the_first_directories() {
    let f = File::new("a/b/c/d.txt", "2024-01-01T00:00:00Z");
    assert_eq!(f.absolute_dir_nth(0), Some(String::new()));
    assert_eq!(f.absolute_dir_nth(1), Some("a".to_string()));
    assert_eq!(f.absolute_dir_nth(2), Some("a/b".to_string()));
    assert_eq!(f.absolute_dir_nth(3), Some("a/b/c".to_string()));
    assert_eq!(f.absolute_dir_nth(4), Some("a/b/c".to_string()));
    assert_eq!(f.absolute_dir_nth(usize::MAX), Some("a/b/c".to_string()));
    assert_eq!(File::new("d.txt", "2024-01-01T00:00:00Z").absolute_dir_nth(1), None);
    assert_eq!(File::new("", "2024-01-01T00:00:00Z").absolute_dir_nth(0), None);
}

#[test]
fn precedes_orders_by_key_then_instant() {
    let a1 = File::new("a", "2024-01-01T00:00:00Z");
    let a2 = File::new("a", "2024-01-01T00:00:01Z");
    let b1 = File::new("b", "2020-01-01T00:00:00Z");
    assert!(a1.precedes(&a2) && a2.precedes(&b1) && a1.precedes(&b1));
    assert!(!a2.precedes(&a1) && !b1.precedes(&a1) && !a1.precedes(&a1));
    let same = a1.duplicate();
    assert_eq!(same.get_path(), "a");
    assert!(!same.precedes(&a1) && !a1.precedes(&same));
}

#[test]
fn derived_order_agrees_with_the_order_of_listing() {
    let files = [
        File::new("a", "2024-01-01T00:00:00Z"),
        File::new("a", "2024-01-01T00:00:00.000000001Z"),
        File::new("a/b", "2020-01-01T00:00:00Z"),
        File::new("B", "2024-01-01T00:00:00Z"),
        File::new("目", "2024-01-01T00:00:00Z"),
    ];
    for x in &files {
        for y in &files {
            assert_eq!(x.precedes(y), x < y);
            assert_eq!(!x.precedes(y) && !y.precedes(x), x == y);
        }
    }
    assert_eq!(files[0].clone(), files[0].duplicate());
}
