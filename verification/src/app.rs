//! The paged list as a viewer shows it: a page on the screen, one key to
//! go on to the next page and one to leave.
//!
//! The viewer decides here and acts elsewhere. It starts out waiting for the
//! first page. Whoever drives it fetches the page that it waits for and hands
//! the store's answer to `list`, shows what `get_list_content` and `hint`
//! give, and passes each key to `list_page`, which says what to do next.

use crate::classify::{classifies, PageView};
use crate::errors::CliError;
use crate::grid::grid_text;
use crate::paging::{all_readable, listed, read_page, ListObject};
use crate::render::{render, table_cells, COLUMNS, COLUMN_GAP};
use crate::text::opt_view;
use vstd::prelude::*;

verus! {

/// Where the viewer stands.
#[derive(Clone, Copy, Debug, PartialEq, Eq, Structural)]
pub enum Phase {
    /// A page has been asked for and is not there yet.
    Fetching,
    /// A page is on the screen.
    Displaying,
    /// The viewer has been left.
    Exiting,
}

/// A key as the viewer reads it.
#[derive(Clone, Copy, Debug, PartialEq, Eq, Structural)]
pub enum Key {
    /// The key that goes on to the next page.
    Advance,
    /// The key that leaves the viewer.
    Quit,
    /// Any other key.
    Other,
}

/// What the viewer asks for after a key.
#[derive(Debug)]
pub enum Action {
    /// Fetch the page that goes on from this place.
    Fetch(Option<String>),
    /// Nothing: the screen stays as it is.
    Stay,
    /// Give the terminal back and end.
    Leave,
}

/// The line under the page.
#[derive(Clone, Copy, Debug, PartialEq, Eq, Structural)]
pub enum Hint {
    /// There is a next page.
    NextPage,
    /// The list ends here.
    EndOfList,
}

impl Hint {
    /// The words of the line.
    pub open spec fn words(self) -> Seq<char> {
        match self {
            Hint::NextPage => "按 s 查询下一页，按 q 退出"@,
            Hint::EndOfList => "已经是最后一页了，按 q 退出"@,
        }
    }

    /// The words of the line.
    pub fn text(&self) -> (r: &'static str)
        ensures
            r@ == self.words(),
    {
        match self {
            Hint::NextPage => "按 s 查询下一页，按 q 退出",
            Hint::EndOfList => "已经是最后一页了，按 q 退出",
        }
    }
}

/// What the viewer holds.
pub struct AppView {
    pub phase: Phase,
    pub next_token: Option<Seq<char>>,
    pub list_content: Option<Seq<char>>,
    pub is_last: bool,
}

/// What the viewer asks for, as plain values.
pub enum ActionView {
    Fetch(Option<Seq<char>>),
    Stay,
    Leave,
}

impl View for Action {
    type V = ActionView;

    open spec fn view(&self) -> ActionView {
        match *self {
            Action::Fetch(token) => ActionView::Fetch(opt_view(token)),
            Action::Stay => ActionView::Stay,
            Action::Leave => ActionView::Leave,
        }
    }
}

/// The key that `c` stands for: `s` goes on, `q` leaves.
pub open spec fn key_of(c: char) -> Key {
    if c == 's' {
        Key::Advance
    } else if c == 'q' {
        Key::Quit
    } else {
        Key::Other
    }
}

/// Where the viewer stands after `key`. While a page is on the screen, the
/// key to go on asks for the next page unless the list has ended, and the key
/// to leave ends the viewer. Everything else changes nothing.
pub open spec fn after_key(state: AppView, key: Key) -> AppView {
    match (state.phase, key) {
        (Phase::Displaying, Key::Advance) => if state.is_last {
            state
        } else {
            AppView { phase: Phase::Fetching, ..state }
        },
        (Phase::Displaying, Key::Quit) => AppView { phase: Phase::Exiting, ..state },
        _ => state,
    }
}

/// What the viewer asks for after `key`.
pub open spec fn asked_after(state: AppView, key: Key) -> ActionView {
    match (state.phase, key) {
        (Phase::Displaying, Key::Advance) => if state.is_last {
            ActionView::Stay
        } else {
            ActionView::Fetch(state.next_token)
        },
        (Phase::Displaying, Key::Quit) => ActionView::Leave,
        (Phase::Exiting, _) => ActionView::Leave,
        _ => ActionView::Stay,
    }
}

/// Where the viewer stands once the page `page` has come, with `next` as the
/// place to go on from: the page is on the screen, and the list has ended
/// exactly when there is no such place.
pub open spec fn after_page(page: PageView, next: Option<Seq<char>>) -> AppView {
    AppView {
        phase: Phase::Displaying,
        next_token: next,
        list_content: Some(grid_text(table_cells(page), COLUMN_GAP, COLUMNS)),
        is_last: next is None,
    }
}

/// The viewer of a paged list.
#[derive(Debug)]
pub struct App {
    phase: Phase,
    next_token: Option<String>,
    list_content: Option<String>,
    is_last: bool,
}

impl View for App {
    type V = AppView;

    closed spec fn view(&self) -> AppView {
        AppView {
            phase: self.phase,
            next_token: opt_view(self.next_token),
            list_content: opt_view(self.list_content),
            is_last: self.is_last,
        }
    }
}

impl App {
    /// A page is on the screen while one is shown; the list has not ended
    /// while a page is waited for, and has no place to go on once it has.
    #[verifier::type_invariant]
    spec fn sound(self) -> bool {
        &&& self.phase is Fetching ==> !self.is_last
        &&& self.phase is Displaying ==> self.list_content is Some
        &&& self.is_last ==> self.next_token is None
    }

    /// A viewer that waits for the first page.
    pub fn new() -> (app: App)
        ensures
            app@ == (AppView {
                phase: Phase::Fetching,
                next_token: None,
                list_content: None,
                is_last: false,
            }),
    {
        App { phase: Phase::Fetching, next_token: None, list_content: None, is_last: false }
    }

    /// Where the viewer stands.
    pub fn phase(&self) -> (r: Phase)
        ensures
            r == self@.phase,
            r is Fetching ==> !self@.is_last,
            r is Displaying ==> self@.list_content is Some,
    {
        proof {
            use_type_invariant(self);
        }
        self.phase
    }

    /// Whether the page on the screen is the last one.
    pub fn is_last(&self) -> (r: bool)
        ensures
            r == self@.is_last,
            r ==> self@.next_token is None && !(self@.phase is Fetching),
    {
        proof {
            use_type_invariant(self);
        }
        self.is_last
    }

    /// Where the next page goes on.
    pub fn next_token(&self) -> (r: Option<String>)
        ensures
            opt_view(r) == self@.next_token,
    {
        self.next_token.clone()
    }

    /// The page on the screen, as text.
    pub fn get_list_content(&self) -> (r: Option<String>)
        ensures
            opt_view(r) == self@.list_content,
    {
        self.list_content.clone()
    }

    /// The line to show under the page.
    pub fn hint(&self) -> (r: Hint)
        ensures
            r == (if self@.is_last {
                Hint::EndOfList
            } else {
                Hint::NextPage
            }),
    {
        if self.is_last {
            Hint::EndOfList
        } else {
            Hint::NextPage
        }
    }

    /// Takes the store's answer to the page that the viewer waits for: the
    /// objects it lists and the place to go on from. The page that they show
    /// from the directory `in_dir` goes on the screen, and the listed keys
    /// that lie outside the directory are handed back as a warning. Where
    /// the viewer waits for no page, or the answer cannot be read, nothing
    /// changes.
    pub fn list(
        &mut self,
        in_dir: &Option<String>,
        raw: &Vec<ListObject>,
        next: Option<String>,
    ) -> (r: Result<Vec<String>, CliError>)
        ensures
            r is Ok <==> old(self)@.phase is Fetching && all_readable(raw@),
            r matches Ok(left_out) ==> exists|page: PageView|
                classifies(page, listed(raw@), opt_view(*in_dir)) && final(self)@ == after_page(
                    page,
                    opt_view(next),
                ) && left_out.deep_view() == page.skipped,
            r is Err ==> final(self)@ == old(self)@,
            r matches Err(e) ==> (e is Input <==> !(old(self)@.phase is Fetching)),
    {
        match self.phase {
            Phase::Fetching => {},
            _ => {
                return Err(CliError::Input("no page was asked for"));
            },
        }
        match read_page(raw, next, in_dir) {
            Ok((page, state)) => {
                let text = render(&page);
                *self = App {
                    phase: Phase::Displaying,
                    next_token: state.next_token,
                    list_content: Some(text),
                    is_last: state.is_last_page,
                };
                let left_out = page.into_skipped();
                assert(classifies(page@, listed(raw@), opt_view(*in_dir)) && self@ == after_page(
                    page@,
                    opt_view(next),
                ) && left_out.deep_view() == page@.skipped);
                Ok(left_out)
            },
            Err(e) => Err(e),
        }
    }

    /// Takes one key and says what to do next.
    pub fn list_page(&mut self, key: Key) -> (action: Action)
        ensures
            final(self)@ == after_key(old(self)@, key),
            action@ == asked_after(old(self)@, key),
    {
        proof {
            use_type_invariant(&*self);
        }
        match self.phase {
            Phase::Displaying => match key {
                Key::Advance => {
                    if self.is_last {
                        Action::Stay
                    } else {
                        self.phase = Phase::Fetching;
                        Action::Fetch(self.next_token.clone())
                    }
                },
                Key::Quit => {
                    self.phase = Phase::Exiting;
                    Action::Leave
                },
                Key::Other => Action::Stay,
            },
            Phase::Exiting => Action::Leave,
            Phase::Fetching => Action::Stay,
        }
    }
}

/// The key that `c` stands for.
pub fn read_key(c: char) -> (key: Key)
    ensures
        key == key_of(c),
{
    if c == 's' {
        Key::Advance
    } else if c == 'q' {
        Key::Quit
    } else {
        Key::Other
    }
}

/// The end of the list is final: once the last page is on the screen, no
/// key asks for another page, and the viewer never waits for one again.
pub proof fn lemma_last_page_is_final(state: AppView, key: Key)
    requires
        state.is_last,
        !(state.phase is Fetching),
    ensures
        !(asked_after(state, key) is Fetch),
        !(after_key(state, key).phase is Fetching),
        after_key(state, key).is_last,
{
}

/// Only the two keys do anything, and only while a page is on the screen:
/// any other key, and any key at another time, leaves the viewer as it is.
/// Once left, the viewer stays left.
pub proof fn lemma_keys(state: AppView, key: Key)
    ensures
        key is Other || !(state.phase is Displaying) ==> after_key(state, key) == state,
        state.phase is Exiting ==> after_key(state, key).phase is Exiting && asked_after(state, key)
            is Leave,
        asked_after(state, key) is Fetch <==> after_key(state, key).phase is Fetching && state.phase
            is Displaying,
{
}

} // verus!
