//! From a flat listing of keys to one level of a directory tree.
//!
//! The store lists keys without any order or nesting. Seen from a directory,
//! each listed object is either outside of it, the directory's own marker,
//! a file directly in it, or something deeper, of which only the first
//! directory on the way is shown.

use crate::file::{file_lt, lemma_dir_nth, normalized, stripped, under, File, FileView};
use crate::order::{ascending, lemma_found, lemma_insert, lemma_unique, place_of, strict_total};
use crate::text::{
    first_segment, lemma_lex_asymmetric, lemma_lex_total, lemma_lex_transitive,
    lemma_slash_index, lex_lt, opt_view, text_before,
};
use vstd::prelude::*;

verus! {

/// Where a listed object stands, seen from a directory.
pub enum Placement {
    /// Its key does not lie under the directory.
    Outside,
    /// It is the marker of the directory itself: nothing is left of its key.
    Marker,
    /// It lies deeper: in the directory of this name, or below it.
    Directory(Seq<char>),
    /// It lies directly in the directory, under the key left of its own.
    Leaf(FileView),
}

/// The key as seen from the directory `prefix`, or from the root of the
/// bucket where there is none; nothing for a key outside the directory.
pub open spec fn relative(prefix: Option<Seq<char>>, key: Seq<char>) -> Option<Seq<char>> {
    match prefix {
        None => Some(key),
        Some(p) => if under(p, key) {
            Some(stripped(p, key))
        } else {
            None
        },
    }
}

/// Where the object `e` stands, seen from the directory `prefix`.
pub open spec fn placement(prefix: Option<Seq<char>>, e: FileView) -> Placement {
    match relative(prefix, e.key) {
        None => Placement::Outside,
        Some(r) => if r.len() == 0 {
            Placement::Marker
        } else if r.contains('/') {
            Placement::Directory(first_segment(r))
        } else {
            Placement::Leaf(FileView { key: r, ..e })
        },
    }
}

/// The directories that a listing shows from the directory `prefix`.
pub open spec fn dir_set(entries: Seq<FileView>, prefix: Option<Seq<char>>) -> Set<Seq<char>> {
    Set::new(
        |d: Seq<char>|
            exists|i: int|
                0 <= i < entries.len() && #[trigger] placement(prefix, entries[i])
                    == Placement::Directory(d),
    )
}

/// The files that a listing shows in the directory `prefix`.
pub open spec fn file_set(entries: Seq<FileView>, prefix: Option<Seq<char>>) -> Set<FileView> {
    Set::new(
        |f: FileView|
            exists|i: int|
                0 <= i < entries.len() && #[trigger] placement(prefix, entries[i])
                    == Placement::Leaf(f),
    )
}

/// The keys of a listing that lie outside the directory `prefix`, in the
/// order of the listing.
pub open spec fn skipped_keys(
    entries: Seq<FileView>,
    prefix: Option<Seq<char>>,
) -> Seq<Seq<char>>
    decreases entries.len(),
{
    if entries.len() == 0 {
        Seq::empty()
    } else {
        let before = skipped_keys(entries.drop_last(), prefix);
        if placement(prefix, entries.last()) is Outside {
            before.push(entries.last().key)
        } else {
            before
        }
    }
}

/// The order in which names are listed.
pub open spec fn text_order() -> spec_fn(Seq<char>, Seq<char>) -> bool {
    |a: Seq<char>, b: Seq<char>| lex_lt(a, b)
}

/// The order in which files are listed.
pub open spec fn file_order() -> spec_fn(FileView, FileView) -> bool {
    |a: FileView, b: FileView| file_lt(a, b)
}

/// Names and files are each listed in a strict total order.
pub proof fn lemma_orders()
    ensures
        strict_total(text_order()),
        strict_total(file_order()),
{
    let t = text_order();
    assert forall|a: Seq<char>| !#[trigger] t(a, a) by {
        lemma_lex_asymmetric(a, a);
    }
    assert forall|a: Seq<char>, b: Seq<char>, c: Seq<char>| #[trigger]
        t(a, b) && #[trigger] t(b, c) implies t(a, c) by {
        lemma_lex_transitive(a, b, c);
    }
    assert forall|a: Seq<char>, b: Seq<char>| a == b || #[trigger] t(a, b) || t(b, a) by {
        lemma_lex_total(a, b);
    }
    let f = file_order();
    assert forall|a: FileView| !#[trigger] f(a, a) by {
        lemma_lex_asymmetric(a.key, a.key);
    }
    assert forall|a: FileView, b: FileView, c: FileView| #[trigger] f(a, b) && #[trigger] f(
        b,
        c,
    ) implies f(a, c) by {
        if lex_lt(a.key, b.key) && lex_lt(b.key, c.key) {
            lemma_lex_transitive(a.key, b.key, c.key);
        }
    }
    assert forall|a: FileView, b: FileView| a == b || #[trigger] f(a, b) || f(b, a) by {
        lemma_lex_total(a.key, b.key);
    }
}

/// What a page holds: the names of its directories and its files, each in
/// the order of listing, and the keys that were left out.
pub struct PageView {
    pub directories: Seq<Seq<char>>,
    pub files: Seq<FileView>,
    pub skipped: Seq<Seq<char>>,
}

/// Whether `page` is what the listing `entries` shows from the directory
/// `prefix`: each directory and each file once, in the order of listing.
pub open spec fn classifies(
    page: PageView,
    entries: Seq<FileView>,
    prefix: Option<Seq<char>>,
) -> bool {
    &&& ascending(page.directories, text_order())
    &&& ascending(page.files, file_order())
    &&& page.directories.to_set() == dir_set(entries, prefix)
    &&& page.files.to_set() == file_set(entries, prefix)
    &&& page.skipped == skipped_keys(entries, prefix)
}

/// One level of the directory tree: the directories and the files that a
/// listing shows from one directory. Each kind is held once and in the order
/// of listing, a set with a fixed order.
#[derive(Debug)]
pub struct ClassifiedPage {
    directories: Vec<String>,
    files: Vec<File>,
    skipped: Vec<String>,
}

impl View for ClassifiedPage {
    type V = PageView;

    closed spec fn view(&self) -> PageView {
        PageView {
            directories: self.directories.deep_view(),
            files: views(self.files@),
            skipped: self.skipped.deep_view(),
        }
    }
}

impl ClassifiedPage {
    /// Directories and files each stand once and in the order of listing.
    #[verifier::type_invariant]
    spec fn listed_in_order(self) -> bool {
        &&& ascending(self.directories.deep_view(), text_order())
        &&& ascending(views(self.files@), file_order())
    }

    /// The names of the directories directly below, each once, in order.
    pub fn directories(&self) -> (r: &Vec<String>)
        ensures
            r.deep_view() == self@.directories,
            ascending(self@.directories, text_order()),
    {
        proof {
            use_type_invariant(self);
        }
        &self.directories
    }

    /// The files directly in the directory, each once, in order.
    pub fn files(&self) -> (r: &Vec<File>)
        ensures
            views(r@) == self@.files,
            ascending(self@.files, file_order()),
    {
        proof {
            use_type_invariant(self);
        }
        &self.files
    }

    /// The listed keys that lie outside the directory, as they were listed.
    pub fn skipped(&self) -> (r: &Vec<String>)
        ensures
            r.deep_view() == self@.skipped,
    {
        &self.skipped
    }

    /// Gives the page up for the keys that it left out.
    pub fn into_skipped(self) -> (r: Vec<String>)
        ensures
            r.deep_view() == self@.skipped,
    {
        self.skipped
    }
}

/// What the files of a listing hold, one by one.
pub open spec fn views(files: Seq<File>) -> Seq<FileView> {
    files.map_values(|f: File| f@)
}

/// One more entry adds to a page what its own placement says.
pub proof fn lemma_one_more(entries: Seq<FileView>, e: FileView, prefix: Option<Seq<char>>)
    ensures
        dir_set(entries.push(e), prefix) == match placement(prefix, e) {
            Placement::Directory(d) => dir_set(entries, prefix).insert(d),
            _ => dir_set(entries, prefix),
        },
        file_set(entries.push(e), prefix) == match placement(prefix, e) {
            Placement::Leaf(f) => file_set(entries, prefix).insert(f),
            _ => file_set(entries, prefix),
        },
        skipped_keys(entries.push(e), prefix) == match placement(prefix, e) {
            Placement::Outside => skipped_keys(entries, prefix).push(e.key),
            _ => skipped_keys(entries, prefix),
        },
{
    let more = entries.push(e);
    assert(more.drop_last() =~= entries);
    assert(more.last() == e);
    let dirs = match placement(prefix, e) {
        Placement::Directory(d) => dir_set(entries, prefix).insert(d),
        _ => dir_set(entries, prefix),
    };
    assert forall|d: Seq<char>| dir_set(more, prefix).contains(d) <==> dirs.contains(d) by {
        if dir_set(more, prefix).contains(d) {
            let i = choose|i: int|
                0 <= i < more.len() && #[trigger] placement(prefix, more[i])
                    == Placement::Directory(d);
            if i < entries.len() {
                assert(placement(prefix, entries[i]) == Placement::Directory(d));
            }
        }
        if dir_set(entries, prefix).contains(d) {
            let i = choose|i: int|
                0 <= i < entries.len() && #[trigger] placement(prefix, entries[i])
                    == Placement::Directory(d);
            assert(placement(prefix, more[i]) == Placement::Directory(d));
        }
        if placement(prefix, e) == Placement::Directory(d) {
            assert(placement(prefix, more[entries.len() as int]) == Placement::Directory(d));
        }
    }
    assert(dir_set(more, prefix) =~= dirs);
    let files = match placement(prefix, e) {
        Placement::Leaf(f) => file_set(entries, prefix).insert(f),
        _ => file_set(entries, prefix),
    };
    assert forall|f: FileView| file_set(more, prefix).contains(f) <==> files.contains(f) by {
        if file_set(more, prefix).contains(f) {
            let i = choose|i: int|
                0 <= i < more.len() && #[trigger] placement(prefix, more[i]) == Placement::Leaf(f);
            if i < entries.len() {
                assert(placement(prefix, entries[i]) == Placement::Leaf(f));
            }
        }
        if file_set(entries, prefix).contains(f) {
            let i = choose|i: int|
                0 <= i < entries.len() && #[trigger] placement(prefix, entries[i])
                    == Placement::Leaf(f);
            assert(placement(prefix, more[i]) == Placement::Leaf(f));
        }
        if placement(prefix, e) == Placement::Leaf(f) {
            assert(placement(prefix, more[entries.len() as int]) == Placement::Leaf(f));
        }
    }
    assert(file_set(more, prefix) =~= files);
}

/// Puts `item` where it belongs among the names, unless it is there.
fn insert_name(list: &mut Vec<String>, item: String)
    requires
        ascending(old(list).deep_view(), text_order()),
    ensures
        ascending(final(list).deep_view(), text_order()),
        final(list).deep_view().to_set() == old(list).deep_view().to_set().insert(item@),
{
    let mut i: usize = 0;
    while i < list.len() && text_before(list[i].as_str(), item.as_str())
        invariant
            i <= list.len(),
            list == old(list),
            forall|j: int| 0 <= j < i ==> #[trigger] lex_lt(list.deep_view()[j], item@),
        decreases list.len() - i,
    {
        i = i + 1;
    }
    let ghost names = list.deep_view();
    proof {
        lemma_orders();
        assert forall|j: int| 0 <= j < i implies #[trigger] text_order()(names[j], item@) by {
            assert(lex_lt(names[j], item@));
        }
        assert(place_of(names, text_order(), item@, i as int));
        lemma_found(names, text_order(), item@, i as int);
    }
    if i < list.len() && list[i] == item {
        proof {
            assert(names.to_set().contains(item@));
            assert(names.to_set().insert(item@) =~= names.to_set());
        }
    } else {
        proof {
            lemma_insert(names, text_order(), item@, i as int);
        }
        list.insert(i, item);
        assert(list.deep_view() =~= names.insert(i as int, item@));
    }
}

/// Puts `item` where it belongs among the files, unless it is there.
fn insert_file(list: &mut Vec<File>, item: File)
    requires
        ascending(views(old(list)@), file_order()),
    ensures
        ascending(views(final(list)@), file_order()),
        views(final(list)@).to_set() == views(old(list)@).to_set().insert(item@),
{
    let mut i: usize = 0;
    while i < list.len() && list[i].precedes(&item)
        invariant
            i <= list.len(),
            list == old(list),
            forall|j: int| 0 <= j < i ==> #[trigger] file_lt(views(list@)[j], item@),
        decreases list.len() - i,
    {
        i = i + 1;
    }
    let ghost held = views(list@);
    proof {
        lemma_orders();
        assert forall|j: int| 0 <= j < i implies #[trigger] file_order()(held[j], item@) by {
            assert(file_lt(held[j], item@));
        }
        assert(place_of(held, file_order(), item@, i as int));
        lemma_found(held, file_order(), item@, i as int);
    }
    if i < list.len() && !item.precedes(&list[i]) {
        proof {
            assert(file_order()(held[i as int], item@) || file_order()(item@, held[i as int])
                || held[i as int] == item@);
            assert(held.to_set().contains(item@));
            assert(held.to_set().insert(item@) =~= held.to_set());
        }
    } else {
        proof {
            if i < list.len() {
                lemma_lex_asymmetric(item@.key, held[i as int].key);
                assert(held[i as int] != item@);
            }
            lemma_insert(held, file_order(), item@, i as int);
        }
        list.insert(i, item);
        assert(views(list@) =~= held.insert(i as int, item@));
    }
}

/// What the listing `entries` shows from the directory `prefix`, or from the
/// root of the bucket where none is given: the directories directly below
/// and the files directly in it, each once. A key outside the directory
/// is left out and reported among the skipped ones.
pub fn classify(entries: &Vec<File>, prefix: &Option<String>) -> (page: ClassifiedPage)
    ensures
        classifies(page@, views(entries@), opt_view(*prefix)),
{
    let mut directories: Vec<String> = Vec::new();
    let mut files: Vec<File> = Vec::new();
    let mut skipped: Vec<String> = Vec::new();
    let ghost all = views(entries@);
    let ghost from = opt_view(*prefix);
    proof {
        assert(all.take(0) =~= Seq::<FileView>::empty());
        assert(directories.deep_view().to_set() =~= dir_set(all.take(0), from));
        assert(views(files@).to_set() =~= file_set(all.take(0), from));
        assert(skipped.deep_view() =~= skipped_keys(all.take(0), from));
    }
    let mut i: usize = 0;
    while i < entries.len()
        invariant
            i <= entries.len(),
            all == views(entries@),
            from == opt_view(*prefix),
            classifies(
                PageView {
                    directories: directories.deep_view(),
                    files: views(files@),
                    skipped: skipped.deep_view(),
                },
                all.take(i as int),
                from,
            ),
        decreases entries.len() - i,
    {
        let ghost e = all[i as int];
        let ghost left_out = skipped.deep_view();
        proof {
            assert(all.take(i + 1) =~= all.take(i as int).push(e));
            lemma_one_more(all.take(i as int), e, from);
        }
        let entry = entries[i].duplicate();
        let seen = match prefix {
            Some(p) => entry.sub(p.as_str()),
            None => Ok(entry),
        };
        match seen {
            Err(_) => {
                skipped.push(entries[i].get_path().to_owned());
                assert(skipped.deep_view() =~= left_out.push(e.key));
            },
            Ok(file) => {
                if file.in_dir() {
                    proof {
                        lemma_dir_nth(file@.key, 1);
                    }
                    match file.absolute_dir_nth(1) {
                        Some(name) => {
                            insert_name(&mut directories, name);
                        },
                        None => {},
                    }
                } else if !file.get_path().is_empty() {
                    insert_file(&mut files, file);
                }
            },
        }
        i = i + 1;
    }
    proof {
        assert(all.take(entries.len() as int) =~= all);
    }
    ClassifiedPage { directories, files, skipped }
}

/// A directory is named alike with and without a `/` at its end: from
/// `prefix` and from `prefix` followed by `/`, every key is seen the same.
pub proof fn lemma_trailing_slash(prefix: Seq<char>, key: Seq<char>)
    requires
        prefix.len() == 0 || prefix.last() != '/',
    ensures
        normalized(prefix.push('/')) == normalized(prefix),
        relative(Some(prefix.push('/')), key) == relative(Some(prefix), key),
{
}

/// A key without a `/`, seen from the directory, is a file of the page and
/// gives the page no directory.
pub proof fn lemma_leaf(page: PageView, entries: Seq<FileView>, prefix: Option<Seq<char>>, i: int)
    requires
        classifies(page, entries, prefix),
        0 <= i < entries.len(),
        relative(prefix, entries[i].key) matches Some(r) && r.len() > 0 && !r.contains('/'),
    ensures
        placement(prefix, entries[i]) == Placement::Leaf(
            FileView { key: relative(prefix, entries[i].key)->0, ..entries[i] },
        ),
        page.files.contains(FileView { key: relative(prefix, entries[i].key)->0, ..entries[i] }),
{
    let f = FileView { key: relative(prefix, entries[i].key)->0, ..entries[i] };
    assert(placement(prefix, entries[i]) == Placement::Leaf(f));
    assert(file_set(entries, prefix).contains(f));
    assert(page.files.to_set().contains(f));
}

/// A key with a `/`, seen from the directory, gives the page the directory
/// named by its first segment, a name without a `/`, and is itself no file
/// of the page: no file of a page has a `/` in its key.
pub proof fn lemma_deeper(page: PageView, entries: Seq<FileView>, prefix: Option<Seq<char>>, i: int)
    requires
        classifies(page, entries, prefix),
        0 <= i < entries.len(),
        relative(prefix, entries[i].key) matches Some(r) && r.contains('/'),
    ensures
        placement(prefix, entries[i]) == Placement::Directory(
            first_segment(relative(prefix, entries[i].key)->0),
        ),
        page.directories.contains(first_segment(relative(prefix, entries[i].key)->0)),
        !first_segment(relative(prefix, entries[i].key)->0).contains('/'),
        forall|k: int| 0 <= k < page.files.len() ==> !(#[trigger] page.files[k]).key.contains('/'),
{
    let r = relative(prefix, entries[i].key)->0;
    let d = first_segment(r);
    assert(r.len() > 0) by {
        let j = choose|j: int| 0 <= j < r.len() && r[j] == '/';
    }
    assert(placement(prefix, entries[i]) == Placement::Directory(d));
    assert(dir_set(entries, prefix).contains(d));
    assert(page.directories.to_set().contains(d));
    lemma_slash_index(r);
    if d.contains('/') {
        let j = choose|j: int| 0 <= j < d.len() && d[j] == '/';
        assert(r[j] == '/');
    }
    assert forall|k: int| 0 <= k < page.files.len() implies !(#[trigger] page.files[k]).key.contains('/')
    by {
        let f = page.files[k];
        assert(page.files.to_set().contains(f));
        assert(file_set(entries, prefix).contains(f));
    }
}

/// A page shows each listed key that lies under the directory, and is not
/// the directory's own marker, in exactly one way: among the files by what
/// is left of the key, or among the directories by its first segment. And
/// a page shows nothing else: each of its directories and files stands for
/// such a key.
pub proof fn lemma_partition(page: PageView, entries: Seq<FileView>, prefix: Option<Seq<char>>)
    requires
        classifies(page, entries, prefix),
    ensures
        forall|i: int|
            0 <= i < entries.len() ==> match #[trigger] relative(prefix, entries[i].key) {
                Some(r) => r.len() > 0 ==> (if r.contains('/') {
                    page.directories.contains(first_segment(r)) && !(placement(
                        prefix,
                        entries[i],
                    ) is Leaf)
                } else {
                    page.files.contains(FileView { key: r, ..entries[i] }) && !(placement(
                        prefix,
                        entries[i],
                    ) is Directory)
                }),
                None => true,
            },
        forall|k: int|
            0 <= k < page.directories.len() ==> exists|i: int|
                0 <= i < entries.len() && #[trigger] placement(prefix, entries[i])
                    == Placement::Directory(#[trigger] page.directories[k]),
        forall|k: int|
            0 <= k < page.files.len() ==> exists|i: int|
                0 <= i < entries.len() && #[trigger] placement(prefix, entries[i])
                    == Placement::Leaf(#[trigger] page.files[k]),
{
    assert forall|i: int| 0 <= i < entries.len() implies match #[trigger] relative(
        prefix,
        entries[i].key,
    ) {
        Some(r) => r.len() > 0 ==> (if r.contains('/') {
            page.directories.contains(first_segment(r)) && !(placement(prefix, entries[i]) is Leaf)
        } else {
            page.files.contains(FileView { key: r, ..entries[i] }) && !(placement(
                prefix,
                entries[i],
            ) is Directory)
        }),
        None => true,
    } by {
        match relative(prefix, entries[i].key) {
            Some(r) => {
                if r.len() > 0 {
                    if r.contains('/') {
                        lemma_deeper(page, entries, prefix, i);
                    } else {
                        lemma_leaf(page, entries, prefix, i);
                    }
                }
            },
            None => {},
        }
    }
    assert forall|k: int| 0 <= k < page.directories.len() implies exists|i: int|
        0 <= i < entries.len() && #[trigger] placement(prefix, entries[i]) == Placement::Directory(
            #[trigger] page.directories[k],
        ) by {
        assert(page.directories.to_set().contains(page.directories[k]));
        assert(dir_set(entries, prefix).contains(page.directories[k]));
    }
    assert forall|k: int| 0 <= k < page.files.len() implies exists|i: int|
        0 <= i < entries.len() && #[trigger] placement(prefix, entries[i]) == Placement::Leaf(
            #[trigger] page.files[k],
        ) by {
        assert(page.files.to_set().contains(page.files[k]));
        assert(file_set(entries, prefix).contains(page.files[k]));
    }
}

/// Whether no file of the listing has the name of a directory that the
/// listing shows: seen from `prefix`, no key without a `/` is the first
/// segment of a key with one.
pub open spec fn names_apart(entries: Seq<FileView>, prefix: Option<Seq<char>>) -> bool {
    forall|i: int, j: int|
        0 <= i < entries.len() && 0 <= j < entries.len() ==> match (
            #[trigger] placement(prefix, entries[i]),
            #[trigger] placement(prefix, entries[j]),
        ) {
            (Placement::Directory(d), Placement::Leaf(f)) => f.key != d,
            _ => true,
        }
}

/// Where no file of the listing has the name of one of its directories, no
/// name stands on both sides of the page: no directory has the key of a
/// file.
pub proof fn lemma_apart(page: PageView, entries: Seq<FileView>, prefix: Option<Seq<char>>)
    requires
        classifies(page, entries, prefix),
        names_apart(entries, prefix),
    ensures
        forall|k: int, m: int|
            0 <= k < page.directories.len() && 0 <= m < page.files.len()
                ==> #[trigger] page.directories[k] != (#[trigger] page.files[m]).key,
{
    assert forall|k: int, m: int|
        0 <= k < page.directories.len() && 0 <= m < page.files.len()
        implies #[trigger] page.directories[k] != (#[trigger] page.files[m]).key by {
        let d = page.directories[k];
        let f = page.files[m];
        assert(page.directories.to_set().contains(d));
        assert(page.files.to_set().contains(f));
        assert(dir_set(entries, prefix).contains(d));
        assert(file_set(entries, prefix).contains(f));
        let i = choose|i: int|
            0 <= i < entries.len() && #[trigger] placement(prefix, entries[i])
                == Placement::Directory(d);
        let j = choose|j: int|
            0 <= j < entries.len() && #[trigger] placement(prefix, entries[j])
                == Placement::Leaf(f);
        assert(f.key != d);
    }
}

/// A listing has one page: two pages that the same listing shows from the
/// same directory are the same, down to the order of their rows.
pub proof fn lemma_one_page(
    a: PageView,
    b: PageView,
    entries: Seq<FileView>,
    prefix: Option<Seq<char>>,
)
    requires
        classifies(a, entries, prefix),
        classifies(b, entries, prefix),
    ensures
        a == b,
{
    lemma_orders();
    lemma_unique(a.directories, b.directories, text_order());
    lemma_unique(a.files, b.files, file_order());
}

/// What a listing in two parts shows is what its parts show, taken
/// together: the directories and the files of both pages, and the keys left
/// out of the first and then of the second.
pub proof fn lemma_two_pages(
    first: Seq<FileView>,
    second: Seq<FileView>,
    prefix: Option<Seq<char>>,
)
    ensures
        dir_set(first + second, prefix) == dir_set(first, prefix).union(dir_set(second, prefix)),
        file_set(first + second, prefix) == file_set(first, prefix).union(
            file_set(second, prefix),
        ),
        skipped_keys(first + second, prefix) == skipped_keys(first, prefix) + skipped_keys(
            second,
            prefix,
        ),
    decreases second.len(),
{
    if second.len() == 0 {
        assert(first + second =~= first);
        assert(dir_set(second, prefix) =~= Set::<Seq<char>>::empty());
        assert(file_set(second, prefix) =~= Set::<FileView>::empty());
        assert(dir_set(first, prefix).union(dir_set(second, prefix)) =~= dir_set(first, prefix));
        assert(file_set(first, prefix).union(file_set(second, prefix)) =~= file_set(
            first,
            prefix,
        ));
        assert(skipped_keys(first, prefix) + skipped_keys(second, prefix) =~= skipped_keys(
            first,
            prefix,
        ));
    } else {
        let rest = second.drop_last();
        let e = second.last();
        lemma_two_pages(first, rest, prefix);
        assert(first + second =~= (first + rest).push(e));
        assert(second =~= rest.push(e));
        lemma_one_more(first + rest, e, prefix);
        lemma_one_more(rest, e, prefix);
        assert(dir_set(first + second, prefix) =~= dir_set(first, prefix).union(
            dir_set(second, prefix),
        ));
        assert(file_set(first + second, prefix) =~= file_set(first, prefix).union(
            file_set(second, prefix),
        ));
        assert(skipped_keys(first + second, prefix) =~= skipped_keys(first, prefix) + skipped_keys(
            second,
            prefix,
        ));
    }
}

/// The pages of a listing, one after the other, as one listing.
pub open spec fn together(pages: Seq<Seq<FileView>>) -> Seq<FileView>
    decreases pages.len(),
{
    if pages.len() == 0 {
        Seq::empty()
    } else {
        together(pages.drop_last()) + pages.last()
    }
}

/// However a listing is cut into pages, the pages show between them what
/// the whole listing shows, no more and no less: a directory or a file is
/// shown by the whole exactly when one of the pages shows it.
pub proof fn lemma_all_pages(pages: Seq<Seq<FileView>>, prefix: Option<Seq<char>>)
    ensures
        forall|d: Seq<char>|
            dir_set(together(pages), prefix).contains(d) <==> exists|k: int|
                0 <= k < pages.len() && #[trigger] dir_set(pages[k], prefix).contains(d),
        forall|f: FileView|
            file_set(together(pages), prefix).contains(f) <==> exists|k: int|
                0 <= k < pages.len() && #[trigger] file_set(pages[k], prefix).contains(f),
    decreases pages.len(),
{
    if pages.len() == 0 {
        assert(dir_set(together(pages), prefix) =~= Set::<Seq<char>>::empty());
        assert(file_set(together(pages), prefix) =~= Set::<FileView>::empty());
    } else {
        let fewer = pages.drop_last();
        lemma_all_pages(fewer, prefix);
        lemma_two_pages(together(fewer), pages.last(), prefix);
        assert forall|d: Seq<char>|
            dir_set(together(pages), prefix).contains(d) <==> exists|k: int|
                0 <= k < pages.len() && #[trigger] dir_set(pages[k], prefix).contains(d) by {
            if dir_set(together(fewer), prefix).contains(d) {
                let k = choose|k: int|
                    0 <= k < fewer.len() && #[trigger] dir_set(fewer[k], prefix).contains(d);
                assert(dir_set(pages[k], prefix).contains(d));
            }
            if dir_set(pages.last(), prefix).contains(d) {
                assert(dir_set(pages[pages.len() - 1], prefix).contains(d));
            }
            if exists|k: int|
                0 <= k < pages.len() && #[trigger] dir_set(pages[k], prefix).contains(d) {
                let k = choose|k: int|
                    0 <= k < pages.len() && #[trigger] dir_set(pages[k], prefix).contains(d);
                if k < fewer.len() {
                    assert(dir_set(fewer[k], prefix).contains(d));
                }
            }
        }
        assert forall|f: FileView|
            file_set(together(pages), prefix).contains(f) <==> exists|k: int|
                0 <= k < pages.len() && #[trigger] file_set(pages[k], prefix).contains(f) by {
            if file_set(together(fewer), prefix).contains(f) {
                let k = choose|k: int|
                    0 <= k < fewer.len() && #[trigger] file_set(fewer[k], prefix).contains(f);
                assert(file_set(pages[k], prefix).contains(f));
            }
            if file_set(pages.last(), prefix).contains(f) {
                assert(file_set(pages[pages.len() - 1], prefix).contains(f));
            }
            if exists|k: int|
                0 <= k < pages.len() && #[trigger] file_set(pages[k], prefix).contains(f) {
                let k = choose|k: int|
                    0 <= k < pages.len() && #[trigger] file_set(pages[k], prefix).contains(f);
                if k < fewer.len() {
                    assert(file_set(fewer[k], prefix).contains(f));
                }
            }
        }
    }
}

} // verus!
