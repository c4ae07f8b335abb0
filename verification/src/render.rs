//! A page as text: a table of two columns.

use crate::calendar::minute_text;
use crate::classify::{file_order, text_order, views, ClassifiedPage, PageView};
use crate::file::{File, FileView};
use crate::grid::{grid_add, grid_cells, grid_fit, grid_gap, grid_new, grid_text};
use crate::order::ascending;
use vstd::prelude::*;

verus! {

/// How many spaces stand between the two columns.
pub const COLUMN_GAP: usize = 3;

/// How many columns the table has: the label and the time of the last change.
pub const COLUMNS: usize = 2;

/// What is shown of the last change of `f`: its minute in UTC.
pub open spec fn shown_minute(f: FileView) -> Seq<char> {
    match minute_text(f.secs, f.nanos) {
        Some(t) => t,
        None => Seq::empty(),
    }
}

/// The heading row.
pub open spec fn heading_cells() -> Seq<Seq<char>> {
    seq!["name"@, "modified"@]
}

/// The row of a directory: its name behind the sign of a folder, and no
/// time.
pub open spec fn directory_row(name: Seq<char>) -> Seq<Seq<char>> {
    seq!["📂 "@ + name, Seq::<char>::empty()]
}

/// The row of a file: its key behind the sign of a document, and the minute
/// of its last change.
pub open spec fn file_row(f: FileView) -> Seq<Seq<char>> {
    seq!["📄 "@ + f.key, shown_minute(f)]
}

/// The rows of the directories, one after the other.
pub open spec fn directory_rows(names: Seq<Seq<char>>) -> Seq<Seq<char>>
    decreases names.len(),
{
    if names.len() == 0 {
        Seq::empty()
    } else {
        directory_rows(names.drop_last()) + directory_row(names.last())
    }
}

/// The rows of the files, one after the other.
pub open spec fn file_rows(files: Seq<FileView>) -> Seq<Seq<char>>
    decreases files.len(),
{
    if files.len() == 0 {
        Seq::empty()
    } else {
        file_rows(files.drop_last()) + file_row(files.last())
    }
}

/// The cells of the table, row by row: the heading, the directories, the
/// files, each kind in the order of the page.
pub open spec fn table_cells(page: PageView) -> Seq<Seq<char>> {
    heading_cells() + directory_rows(page.directories) + file_rows(page.files)
}

/// The cells of the table that shows `page`, row by row. The rows of each
/// kind come in the order of their labels.
pub fn page_cells(page: &ClassifiedPage) -> (cells: Vec<String>)
    ensures
        cells.deep_view() == table_cells(page@),
        ascending(page@.directories, text_order()),
        ascending(page@.files, file_order()),
{
    let mut cells: Vec<String> = Vec::new();
    cells.push(String::from_str("name"));
    cells.push(String::from_str("modified"));
    assert(cells.deep_view() =~= heading_cells());
    let directories = page.directories();
    let ghost names = directories.deep_view();
    let mut i: usize = 0;
    assert(names.take(0) =~= Seq::<Seq<char>>::empty());
    while i < directories.len()
        invariant
            i <= directories.len(),
            names == directories.deep_view(),
            cells.deep_view() == heading_cells() + directory_rows(names.take(i as int)),
        decreases directories.len() - i,
    {
        let ghost before = cells.deep_view();
        proof {
            assert(names.take(i + 1).drop_last() =~= names.take(i as int));
            assert(names.take(i + 1).last() == names[i as int]);
        }
        cells.push(String::from_str("📂 ").concat(directories[i].as_str()));
        cells.push(String::new());
        assert(cells.deep_view() =~= before + directory_row(names[i as int]));
        i = i + 1;
    }
    assert(names.take(i as int) =~= names);
    let listed = page.files();
    let ghost files = views(listed@);
    let ghost above = cells.deep_view();
    let mut k: usize = 0;
    assert(files.take(0) =~= Seq::<FileView>::empty());
    assert(above + file_rows(files.take(0)) =~= above);
    while k < listed.len()
        invariant
            k <= listed.len(),
            files == views(listed@),
            above == heading_cells() + directory_rows(page@.directories),
            cells.deep_view() == above + file_rows(files.take(k as int)),
        decreases listed.len() - k,
    {
        let ghost before = cells.deep_view();
        proof {
            assert(files.take(k + 1).drop_last() =~= files.take(k as int));
            assert(files.take(k + 1).last() == files[k as int]);
        }
        let file: &File = &listed[k];
        cells.push(String::from_str("📄 ").concat(file.get_path()));
        cells.push(file.date());
        assert(cells.deep_view() =~= before + file_row(files[k as int]));
        k = k + 1;
    }
    assert(files.take(k as int) =~= files);
    cells
}

/// The page as a table of two columns: a heading row, then a row for each
/// directory and each file, with the label on the left and, for a file, the
/// minute of its last change on the right. The rows of each kind come in
/// the order of their labels. The layout is `term_grid`'s.
pub fn render(page: &ClassifiedPage) -> (text: String)
    ensures
        text@ == grid_text(table_cells(page@), COLUMN_GAP, COLUMNS),
        ascending(page@.directories, text_order()),
        ascending(page@.files, file_order()),
{
    let cells = page_cells(page);
    let mut grid = grid_new(COLUMN_GAP);
    let mut i: usize = 0;
    assert(cells.deep_view().take(0) =~= Seq::<Seq<char>>::empty());
    while i < cells.len()
        invariant
            i <= cells.len(),
            grid_gap(grid) == COLUMN_GAP,
            grid_cells(grid) == cells.deep_view().take(i as int),
        decreases cells.len() - i,
    {
        grid_add(&mut grid, cells[i].clone());
        assert(cells.deep_view().take(i + 1) =~= cells.deep_view().take(i as int).push(
            cells[i as int]@,
        ));
        i = i + 1;
    }
    assert(cells.deep_view().take(i as int) =~= cells.deep_view());
    grid_fit(&grid, COLUMNS)
}

} // verus!
