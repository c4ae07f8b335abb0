//! One page of a listing: what is asked of the store, and what is made of
//! its answer.

use crate::calendar::{parsed_instant, Timestamp};
use crate::classify::{classifies, classify, views, ClassifiedPage};
use crate::errors::CliError;
use crate::file::{File, FileView};
use crate::text::opt_view;
use aliyun_oss_client::types::ObjectQuery;
use vstd::prelude::*;

verus! {

/// `aliyun_oss_client::types::ObjectQuery`, held as it is: the parameters
/// of a request that lists objects.
#[verifier::external_type_specification]
#[verifier::external_body]
pub struct ExObjectQuery(aliyun_oss_client::types::ObjectQuery);

/// The parameters that a query holds, each name with its value.
pub uninterp spec fn query_entries(query: ObjectQuery) -> Map<Seq<char>, Seq<char>>;

/// No parameters at all.
pub open spec fn no_parameters() -> Map<Seq<char>, Seq<char>> {
    Map::empty()
}

/// Calls `ObjectQuery::new`: a query without parameters.
#[verifier::external_body]
fn query_new() -> (query: ObjectQuery)
    ensures
        query_entries(query) == no_parameters(),
{
    ObjectQuery::new()
}

/// Calls `ObjectQuery::insert`: the parameter `name` gets the value `value`,
/// in place of the one it had, and the others stay.
#[verifier::external_body]
fn query_insert(query: &mut ObjectQuery, name: &str, value: &str)
    ensures
        query_entries(*final(query)) == query_entries(*old(query)).insert(name@, value@),
{
    query.insert(name, value);
}

/// How many keys are asked for at once, as the store reads it.
pub open spec fn page_size() -> Seq<char> {
    "30"@
}

/// The parameters that ask for one page: the size of the page, the directory
/// where one is given, and the place to go on from where one is known.
pub open spec fn page_request(prefix: Option<Seq<char>>, token: Option<Seq<char>>) -> Map<
    Seq<char>,
    Seq<char>,
> {
    let sized = no_parameters().insert("max-keys"@, page_size());
    let scoped = match prefix {
        Some(p) => sized.insert("prefix"@, p),
        None => sized,
    };
    match token {
        Some(t) => scoped.insert("continuation-token"@, t),
        None => scoped,
    }
}

/// The query that asks the store for one page of the directory `prefix`,
/// going on from `token`. It depends on the two alone.
pub fn page_query(prefix: &Option<String>, token: &Option<String>) -> (query: ObjectQuery)
    ensures
        query_entries(query) == page_request(opt_view(*prefix), opt_view(*token)),
{
    let mut query = query_new();
    query_insert(&mut query, "max-keys", "30");
    match prefix {
        Some(p) => {
            query_insert(&mut query, "prefix", p.as_str());
        },
        None => {},
    }
    match token {
        Some(t) => {
            query_insert(&mut query, "continuation-token", t.as_str());
        },
        None => {},
    }
    query
}

/// An object as the store lists it: its key, and the date of its last
/// change as text.
#[derive(Debug)]
pub struct ListObject {
    pub path: String,
    pub date: String,
}

/// Where a listing stands after a page.
#[derive(Debug)]
pub struct PaginationState {
    /// Where the next page goes on, if there is one.
    pub next_token: Option<String>,
    /// Whether the store has no more pages.
    pub is_last_page: bool,
}

/// Whether the date of every listed object can be read and shown.
pub open spec fn all_readable(raw: Seq<ListObject>) -> bool {
    forall|i: int| 0 <= i < raw.len() ==> Timestamp::readable(#[trigger] raw[i].date@)
}

/// What a listed object holds once its date is read.
pub open spec fn listed_one(raw: ListObject) -> FileView {
    match parsed_instant(raw.date@) {
        Some((secs, nanos)) => FileView { key: raw.path@, secs, nanos },
        None => FileView { key: raw.path@, secs: 0, nanos: 0 },
    }
}

/// What the listed objects hold once their dates are read.
pub open spec fn listed(raw: Seq<ListObject>) -> Seq<FileView> {
    raw.map_values(|r: ListObject| listed_one(r))
}

/// Reads the dates of the listed objects. One date that cannot be read
/// makes the answer of the store unusable.
pub fn read_entries(raw: &Vec<ListObject>) -> (r: Result<Vec<File>, CliError>)
    ensures
        r is Ok <==> all_readable(raw@),
        r matches Ok(files) ==> views(files@) == listed(raw@),
        r matches Err(e) ==> e is OssError,
{
    let mut files: Vec<File> = Vec::new();
    let mut i: usize = 0;
    while i < raw.len()
        invariant
            i <= raw.len(),
            forall|j: int| 0 <= j < i ==> Timestamp::readable(#[trigger] raw[j].date@),
            views(files@) == listed(raw@).take(i as int),
        decreases raw.len() - i,
    {
        match File::try_new(raw[i].path.as_str(), raw[i].date.as_str()) {
            Some(file) => {
                let ghost before = views(files@);
                files.push(file);
                assert(views(files@) =~= before.push(listed_one(raw[i as int])));
                assert(listed(raw@).take(i + 1) =~= listed(raw@).take(i as int).push(
                    listed_one(raw[i as int]),
                ));
            },
            None => {
                return Err(CliError::OssError(String::from_str("unreadable date in the listing")));
            },
        }
        i = i + 1;
    }
    assert(listed(raw@).take(raw.len() as int) =~= listed(raw@));
    Ok(files)
}

/// What the store's answer to a page query shows from the directory
/// `prefix`, and where the listing stands after it: at its end exactly when
/// the answer names no place to go on from.
pub fn read_page(
    raw: &Vec<ListObject>,
    next: Option<String>,
    prefix: &Option<String>,
) -> (r: Result<(ClassifiedPage, PaginationState), CliError>)
    ensures
        r is Ok <==> all_readable(raw@),
        r matches Ok((page, state)) ==> {
            &&& classifies(page@, listed(raw@), opt_view(*prefix))
            &&& state.next_token == next
            &&& state.is_last_page == (next is None)
        },
        r matches Err(e) ==> e is OssError,
{
    match read_entries(raw) {
        Ok(files) => {
            let page = classify(&files, prefix);
            let last = next.is_none();
            Ok((page, PaginationState { next_token: next, is_last_page: last }))
        },
        Err(e) => Err(e),
    }
}

} // verus!
