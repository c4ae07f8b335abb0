//! One object of the store: its key and when it was last modified.

use crate::calendar::{minute_text, parsed_instant, Timestamp};
use crate::errors::CliError;
use crate::text::{
    chars_of, directories, find_slash, first_segment, joined, lemma_first_segment,
    lemma_joined_prefix, lemma_lex_asymmetric, lemma_lex_total, lemma_segments, lemma_slash_index,
    lex_less, lex_lt, opt_view, segments, starts_with,
};
use vstd::prelude::*;

verus! {

/// What a `File` holds: the key, and the instant of the last change as
/// seconds since the start of 1970 and nanoseconds within the second.
pub struct FileView {
    pub key: Seq<char>,
    pub secs: i64,
    pub nanos: u32,
}

/// The prefix with a `/` at its end: unchanged where it ends in one, with one
/// more character where it does not.
pub open spec fn normalized(prefix: Seq<char>) -> Seq<char> {
    if prefix.len() > 0 && prefix.last() == '/' {
        prefix
    } else {
        prefix.push('/')
    }
}

/// Whether `key` lies under the directory `prefix`.
pub open spec fn under(prefix: Seq<char>, key: Seq<char>) -> bool {
    normalized(prefix).is_prefix_of(key)
}

/// The key as seen from the directory `prefix`: without the prefix and the
/// `/` after it.
pub open spec fn stripped(prefix: Seq<char>, key: Seq<char>) -> Seq<char> {
    key.skip(normalized(prefix).len() as int)
}

/// Whether `a` is shown before `b`: by key, then by the instant.
pub open spec fn file_lt(a: FileView, b: FileView) -> bool {
    ||| lex_lt(a.key, b.key)
    ||| a.key == b.key && a.secs < b.secs
    ||| a.key == b.key && a.secs == b.secs && a.nanos < b.nanos
}

/// An object of the store.
#[derive(Clone, Debug, PartialEq, Eq, PartialOrd, Ord, Hash)]
pub struct File {
    path: String,
    date: Timestamp,
}

impl View for File {
    type V = FileView;

    closed spec fn view(&self) -> FileView {
        FileView { key: self.path@, secs: self.date.secs(), nanos: self.date.nanos() }
    }
}

impl File {
    /// The file of `path`, last modified at `date`, a date in the relaxed
    /// RFC 3339 form.
    pub fn new(path: &str, date: &str) -> (f: File)
        requires
            Timestamp::readable(date@),
        ensures
            f@.key == path@,
            parsed_instant(date@) == Some((f@.secs, f@.nanos)),
    {
        let stamp = Timestamp::parse(date);
        File { path: path.to_owned(), date: stamp.unwrap() }
    }

    /// The file of `path`, last modified at `date`, where `date` is a date
    /// in the relaxed RFC 3339 form whose instant can be shown.
    pub fn try_new(path: &str, date: &str) -> (r: Option<File>)
        ensures
            r is Some <==> Timestamp::readable(date@),
            r matches Some(f) ==> f@.key == path@ && parsed_instant(date@) == Some(
                (f@.secs, f@.nanos),
            ),
    {
        match Timestamp::parse(date) {
            Some(_) => Some(File::new(path, date)),
            None => None,
        }
    }

    /// The file of `path`, last modified at `date`.
    pub fn from_parts(path: String, date: Timestamp) -> (f: File)
        ensures
            f@ == (FileView { key: path@, secs: date.secs(), nanos: date.nanos() }),
    {
        File { path, date }
    }

    /// A second file of the same key and instant.
    pub fn duplicate(&self) -> (f: File)
        ensures
            f@ == self@,
    {
        File { path: self.path.clone(), date: self.date }
    }

    /// The key.
    pub fn get_path(&self) -> (r: &str)
        ensures
            r@ == self@.key,
    {
        self.path.as_str()
    }

    /// When the file was last modified.
    pub fn timestamp(&self) -> (r: Timestamp)
        ensures
            r.secs() == self@.secs,
            r.nanos() == self@.nanos,
    {
        self.date
    }

    /// The minute of the last change in UTC, as year, month, day, hour and
    /// minute.
    pub fn date(&self) -> (r: String)
        ensures
            minute_text(self@.secs, self@.nanos) == Some(r@),
    {
        self.date.minute()
    }

    /// The file as seen from the directory `prefix`: its key loses the prefix
    /// and the `/` after it. A key that does not lie under the directory is
    /// refused.
    pub fn sub(self, prefix: &str) -> (r: Result<File, CliError>)
        ensures
            r is Ok <==> under(prefix@, self@.key),
            r matches Ok(f) ==> f@ == (FileView { key: stripped(prefix@, self@.key), ..self@ }),
            r matches Err(e) ==> e is Input,
    {
        let key = chars_of(self.path.as_str());
        let mut start = chars_of(prefix);
        if start.len() == 0 || start[start.len() - 1] != '/' {
            start.push('/');
        }
        assert(start@ == normalized(prefix@));
        if starts_with(&key, &start) {
            let rest = self.path.as_str().substring_char(start.len(), key.len());
            assert(rest@ == stripped(prefix@, self@.key));
            Ok(File { path: rest.to_owned(), date: self.date })
        } else {
            Err(CliError::Input("key outside the listed directory"))
        }
    }

    /// Whether the file lies in a directory: whether its key holds a `/`.
    pub fn in_dir(&self) -> (r: bool)
        ensures
            r == self@.key.contains('/'),
    {
        let key = chars_of(self.path.as_str());
        proof {
            lemma_slash_index(key@);
        }
        find_slash(&key) < key.len()
    }

    /// The directories that the file lies in, the outermost first: the
    /// segments of its key but the last.
    pub fn get_dirs(&self) -> (r: Vec<String>)
        ensures
            r.deep_view() == directories(self@.key),
    {
        let key = chars_of(self.path.as_str());
        let mut dirs: Vec<String> = Vec::new();
        let mut start: usize = 0;
        let mut i: usize = 0;
        assert(key@.take(0) =~= Seq::<char>::empty());
        assert(dirs.deep_view().push(key@.subrange(0, 0)) =~= segments(key@.take(0)));
        while i < key.len()
            invariant
                start <= i <= key.len(),
                key@ == self.path@,
                segments(key@.take(i as int)) == dirs.deep_view().push(
                    key@.subrange(start as int, i as int),
                ),
            decreases key.len() - i,
        {
            let ghost before = dirs.deep_view();
            proof {
                assert(key@.take(i + 1).drop_last() =~= key@.take(i as int));
                assert(key@.take(i + 1).last() == key@[i as int]);
            }
            if key[i] == '/' {
                let part = self.path.as_str().substring_char(start, i);
                dirs.push(part.to_owned());
                start = i + 1;
                proof {
                    assert(dirs.deep_view() =~= before.push(part@));
                    assert(key@.subrange(start as int, i + 1) =~= Seq::<char>::empty());
                }
            } else {
                proof {
                    let whole = before.push(key@.subrange(start as int, i as int));
                    assert(whole.drop_last() =~= before);
                    assert(key@.subrange(start as int, i + 1) =~= key@.subrange(
                        start as int,
                        i as int,
                    ).push(key@[i as int]));
                }
            }
            i = i + 1;
        }
        proof {
            assert(key@.take(key.len() as int) =~= key@);
            assert(segments(key@).drop_last() =~= dirs.deep_view());
        }
        dirs
    }

    /// The path of the directory `num` levels down that the file lies in, or
    /// of the innermost one where it lies less deep; nothing where the file
    /// lies in no directory.
    pub fn absolute_dir_nth(&self, num: usize) -> (r: Option<String>)
        ensures
            opt_view(r) == Self::dir_nth(self@.key, num as int),
    {
        let dirs = self.get_dirs();
        if dirs.len() == 0 {
            return None;
        }
        let n = if num > dirs.len() {
            dirs.len()
        } else {
            num
        };
        let mut dir = String::new();
        let mut i: usize = 0;
        proof {
            reveal_strlit("/");
            assert(dirs.deep_view().take(0) =~= Seq::<Seq<char>>::empty());
        }
        while i < n
            invariant
                i <= n <= dirs.len(),
                "/"@ == seq!['/'],
                dir@ == joined(dirs.deep_view().take(i as int)),
            decreases n - i,
        {
            proof {
                let taken = dirs.deep_view().take(i + 1);
                assert(taken.drop_last() =~= dirs.deep_view().take(i as int));
                assert(taken.last() == dirs[i as int]@);
            }
            if i == 0 {
                dir.append(dirs[i].as_str());
                assert(dir@ =~= dirs[0]@);
            } else {
                dir.append("/");
                dir.append(dirs[i].as_str());
            }
            i = i + 1;
        }
        proof {
            let all = dirs.deep_view();
            assert(all.take(all.len() as int) =~= all);
        }
        Some(dir)
    }

    /// What `absolute_dir_nth` gives for a key: the first `num` of its
    /// directories, or all where it has fewer, joined by `/`.
    pub open spec fn dir_nth(key: Seq<char>, num: int) -> Option<Seq<char>> {
        let dirs = directories(key);
        if dirs.len() == 0 {
            None
        } else if num > dirs.len() {
            Some(joined(dirs))
        } else {
            Some(joined(dirs.take(num)))
        }
    }

    /// Whether `self` is shown before `other`.
    pub fn precedes(&self, other: &File) -> (r: bool)
        ensures
            r == file_lt(self@, other@),
    {
        let a = chars_of(self.path.as_str());
        let b = chars_of(other.path.as_str());
        if lex_less(&a, &b) {
            true
        } else if lex_less(&b, &a) {
            proof {
                lemma_lex_asymmetric(a@, b@);
            }
            false
        } else {
            proof {
                lemma_lex_total(a@, b@);
            }
            self.date.earlier(&other.date)
        }
    }
}

/// What `absolute_dir_nth` gives is a directory on the way to the file: the
/// start of the key up to one of its `/`s, up to the first of them for the
/// directory one level down; and nothing for a key without a `/`.
pub proof fn lemma_dir_nth(key: Seq<char>, num: int)
    requires
        num >= 0,
    ensures
        File::dir_nth(key, num) is Some <==> key.contains('/'),
        File::dir_nth(key, num) matches Some(dir) ==> {
            &&& dir.is_prefix_of(key)
            &&& num >= 1 ==> dir.len() < key.len() && key[dir.len() as int] == '/'
            &&& num == 1 ==> dir == first_segment(key)
        },
{
    lemma_segments(key);
    let dirs = directories(key);
    if dirs.len() > 0 {
        let k = if num > dirs.len() {
            dirs.len() as int
        } else {
            num
        };
        assert(dirs.take(dirs.len() as int) =~= dirs);
        assert(dirs.take(k) =~= segments(key).take(k));
        if k >= 1 {
            lemma_joined_prefix(key, k);
            if num == 1 {
                lemma_first_segment(key);
                assert(dirs.take(1) =~= seq![segments(key)[0]]);
            }
        } else {
            assert(joined(dirs.take(0)) =~= key.subrange(0, 0));
        }
    }
}

} // verus!
