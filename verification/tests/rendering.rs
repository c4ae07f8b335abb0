use oss_cli::classify::classify;
use oss_cli::file::File;
use oss_cli::render::{page_cells, render, COLUMNS, COLUMN_GAP};

fn listing() -> Vec<File> {
    vec![
        File::new("a/b.txt", "2024-01-01T00:00:00Z"),
        File::new("a/c/d.txt", "2024-01-02T00:00:00Z"),
        File::new("e.txt", "2024-01-03T10:20:30Z"),
    ]
}

#[test]
fn table_has_two_columns_three_apart() {
    assert_eq!(COLUMNS, 2);
    assert_eq!(COLUMN_GAP, 3);
}

#[test]
fn cells_are_heading_then_directories_then_files() {
    let page = classify(&listing(), &None);
    let cells = page_cells(&page);
    let expected: Vec<String> =
        ["name", "modified", "📂 a", "", "📄 e.txt", "2024-01-03 10:20"]
            .iter()
            .map(|s| s.to_string())
            .collect();
    assert_eq!(cells, expected);
}

#[test]
fn cells_of_empty_page_are_the_heading() {
    let page = classify(&Vec::new(), &None);
    assert_eq!(page_cells(&page), vec!["name".to_string(), "modified".to_string()]);
    assert_eq!(render(&page), "name   modified\n");
}

#[test]
fn render_lays_cells_out_in_aligned_columns() {
    let page = classify(&listing(), &None);
    let expected = concat_lines(&[
        "name       modified",
        "📂 a       ",
        "📄 e.txt   2024-01-03 10:20",
    ]);
    assert_eq!(render(&page), expected);
}

#[test]
fn render_is_stable_for_a_page() {
    let mut turned = listing();
    turned.reverse();
    let a = render(&classify(&listing(), &Some("a".to_string())));
    let b = render(&classify(&turned, &Some("a/".to_string())));
    assert_eq!(a, b);
    let expected = concat_lines(&[
        "name       modified",
        "📂 c       ",
        "📄 b.txt   2024-01-01 00:00",
    ]);
    assert_eq!(a, expected);
}

#[test]
fn render_keeps_every_cell() {
    let page = classify(&listing(), &None);
    let text = render(&page);
    for cell in page_cells(&page) {
        assert!(text.contains(&cell));
    }
    assert_eq!(text.lines().count(), 3);
}

fn concat_lines(lines: &[&str]) -> String {
    let mut out = String::new();
    for l in lines {
        out.push_str(l);
        out.push('\n');
    }
    out
}
