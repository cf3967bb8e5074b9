//! Walking the pages of an event feed, newest first, until a page holds
//! nothing of the user's from the window or later.
//!
//! The library decides; its caller fetches. The caller starts with
//! `Fetch::new`, asks the feed for the page that `Fetch::page` names, and
//! hands what came back to `Fetch::absorb`, which says how to go on.

use crate::error::DigestError;
use crate::event::Event;
use crate::seqs::lemma_filter_step;
use crate::text::same_text;
use crate::time::Timestamp;
use vstd::prelude::*;

verus! {

/// The highest page number after which a further page is asked for.
pub const PAGE_LIMIT: u32 = 5;

/// `e` is the user's, and not earlier than `start`.
pub open spec fn qualifies(e: Event, user: Seq<char>, start: Timestamp) -> bool {
    e.actor.login@ == user && !e.created_at.lt(start)
}

/// `qualifies`, as a predicate on events.
pub open spec fn qualifier(user: Seq<char>, start: Timestamp) -> spec_fn(Event) -> bool {
    |e: Event| qualifies(e, user, start)
}

/// The events of `page` that qualify, in their order.
pub open spec fn qualifying(page: Seq<Event>, user: Seq<char>, start: Timestamp) -> Seq<Event> {
    page.filter(qualifier(user, start))
}

/// Whether `e` is the user's, and not earlier than `start`.
pub fn is_qualifying(e: &Event, user: &str, start: &Timestamp) -> (r: bool)
    ensures
        r == qualifies(*e, user@, *start),
{
    same_text(e.actor.login.as_str(), user) && !e.created_at.is_before(start)
}

/// The cutoff: of the user's events, one at the very instant `start`
/// qualifies, and so does every later one; an earlier one does not.
pub proof fn lemma_cutoff(e: Event, user: Seq<char>, start: Timestamp)
    requires
        e.actor.login@ == user,
    ensures
        e.created_at == start ==> qualifies(e, user, start),
        start.lt(e.created_at) ==> qualifies(e, user, start),
        e.created_at.lt(start) ==> !qualifies(e, user, start),
{
}

/// A fetch under way: the page to ask for next, and the events kept so far.
#[derive(Debug)]
pub struct Fetch {
    pub page: u32,
    pub events: Vec<Event>,
}

/// How a fetch goes on after a page.
#[derive(Debug)]
pub enum Step {
    /// Ask for the next page.
    Next(Fetch),
    /// The page held nothing that qualifies: these are the events.
    Done(Vec<Event>),
    /// The page held something that qualifies, and its number is over the
    /// limit: the fetch has failed.
    Failed(DigestError),
}

/// A `Fetch` with its events as a sequence.
pub struct FetchView {
    pub page: u32,
    pub events: Seq<Event>,
}

/// A `Step` with its events as a sequence.
pub enum StepView {
    Next(FetchView),
    Done(Seq<Event>),
    Failed(DigestError),
}

impl View for Fetch {
    type V = FetchView;

    open spec fn view(&self) -> FetchView {
        FetchView { page: self.page, events: self.events@ }
    }
}

impl View for Step {
    type V = StepView;

    open spec fn view(&self) -> StepView {
        match *self {
            Step::Next(fetch) => StepView::Next(fetch@),
            Step::Done(events) => StepView::Done(events@),
            Step::Failed(error) => StepView::Failed(error),
        }
    }
}

/// The step after the page `events`: with nothing on it that qualifies the
/// fetch is done; else it fails where the page's number is over the limit,
/// and else goes on to the next page with what qualifies added to what it
/// has.
pub open spec fn step(fetch: FetchView, events: Seq<Event>, user: Seq<char>, start: Timestamp) -> StepView {
    let found = qualifying(events, user, start);
    if found.len() == 0 {
        StepView::Done(fetch.events)
    } else if fetch.page > PAGE_LIMIT {
        StepView::Failed(DigestError::PaginationExhausted { limit: PAGE_LIMIT })
    } else {
        StepView::Next(FetchView { page: (fetch.page + 1) as u32, events: fetch.events + found })
    }
}

impl Fetch {
    /// A fetch that starts at `first_page`, with no event kept.
    pub fn new(first_page: u32) -> (fetch: Fetch)
        ensures
            fetch@ == (FetchView { page: first_page, events: Seq::empty() }),
    {
        Fetch { page: first_page, events: Vec::new() }
    }

    /// The number of the page to ask for.
    pub fn page(&self) -> (page: u32)
        ensures
            page == self.page,
    {
        self.page
    }

    /// Takes in the events of page `self.page`: keeps those that qualify,
    /// and decides how to go on.
    pub fn absorb(self, events: Vec<Event>, user: &str, start: &Timestamp) -> (next: Step)
        ensures
            next@ == step(self@, events@, user@, *start),
    {
        let ghost page = events@;
        let ghost before = self.events@;
        let Fetch { page: number, events: mut kept } = self;
        let mut found = false;
        for e in it: events
            invariant
                it.seq() == page,
                kept@ == before + qualifying(page.take(it.index() as int), user@, *start),
                found == (qualifying(page.take(it.index() as int), user@, *start).len() > 0),
        {
            proof {
                lemma_filter_step(page, qualifier(user@, *start), it.index() as int);
            }
            if is_qualifying(&e, user, start) {
                found = true;
                kept.push(e);
            }
        }
        assert(page.take(page.len() as int) == page);
        if !found {
            Step::Done(kept)
        } else if number > PAGE_LIMIT {
            Step::Failed(DigestError::PaginationExhausted { limit: PAGE_LIMIT })
        } else {
            Step::Next(Fetch { page: number + 1, events: kept })
        }
    }
}

/// What qualifies on page `page` of a feed whose page number `n` is
/// `feed(n)`.
pub open spec fn found_on(feed: spec_fn(u32) -> Seq<Event>, page: u32, user: Seq<char>, start: Timestamp) -> Seq<
    Event,
> {
    qualifying(feed(page), user, start)
}

/// How a whole fetch ends, and how many pages it has asked for by then.
pub enum Walk {
    Done { events: Seq<Event>, requests: nat },
    Failed { requests: nat },
}

/// The fetch that a caller of `absorb` runs over a feed whose page number
/// `n` is `feed(n)`, from the state `fetch` on, which it has reached after
/// `asked` pages: step by step until one is the last.
pub open spec fn walk(
    feed: spec_fn(u32) -> Seq<Event>,
    fetch: FetchView,
    asked: nat,
    user: Seq<char>,
    start: Timestamp,
) -> Walk
    decreases PAGE_LIMIT + 1 - fetch.page,
{
    match step(fetch, feed(fetch.page), user, start) {
        StepView::Next(next) => walk(feed, next, asked + 1, user, start),
        StepView::Done(events) => Walk::Done { events, requests: asked + 1 },
        StepView::Failed(_) => Walk::Failed { requests: asked + 1 },
    }
}

/// What qualifies on the `count` pages from `page` on, in the order of the
/// feed.
pub open spec fn gleaned(
    feed: spec_fn(u32) -> Seq<Event>,
    page: u32,
    count: nat,
    user: Seq<char>,
    start: Timestamp,
) -> Seq<Event>
    decreases count,
{
    if count == 0 {
        Seq::empty()
    } else {
        found_on(feed, page, user, start) + gleaned(feed, (page + 1) as u32, (count - 1) as nat, user, start)
    }
}

/// A fetch ends at the first page that holds nothing that qualifies: where
/// each of `count` pages from `page` on holds something that qualifies, the
/// last of them has a number within the limit, and the page after them holds
/// nothing that qualifies, the fetch asks for those pages and that one, and
/// ends with what was in hand and what qualifies on those pages.
pub proof fn lemma_walk_ends(
    feed: spec_fn(u32) -> Seq<Event>,
    fetch: FetchView,
    asked: nat,
    user: Seq<char>,
    start: Timestamp,
    count: nat,
)
    requires
        fetch.page + count <= PAGE_LIMIT + 1,
        forall|n: u32|
            fetch.page <= n < fetch.page + count ==> (#[trigger] found_on(feed, n, user, start)).len() > 0,
        found_on(feed, (fetch.page + count) as u32, user, start).len() == 0,
    ensures
        walk(feed, fetch, asked, user, start) == (Walk::Done {
            events: fetch.events + gleaned(feed, fetch.page, count, user, start),
            requests: asked + count + 1,
        }),
    decreases count,
{
    let found = found_on(feed, fetch.page, user, start);
    if count == 0 {
        assert(fetch.events + gleaned(feed, fetch.page, count, user, start) =~= fetch.events);
    } else {
        assert(found.len() > 0);
        let next = FetchView { page: (fetch.page + 1) as u32, events: fetch.events + found };
        lemma_walk_ends(feed, next, asked + 1, user, start, (count - 1) as nat);
        assert(next.events + gleaned(feed, next.page, (count - 1) as nat, user, start) =~= fetch.events
            + gleaned(feed, fetch.page, count, user, start));
    }
}

/// A fetch does not go on for ever: where every page from `page` up to the
/// one after the limit holds something that qualifies, the fetch fails after
/// that page; one that starts over the limit fails after its first page.
pub proof fn lemma_walk_fails(
    feed: spec_fn(u32) -> Seq<Event>,
    fetch: FetchView,
    asked: nat,
    user: Seq<char>,
    start: Timestamp,
)
    requires
        forall|n: u32| fetch.page <= n <= PAGE_LIMIT + 1 ==> (#[trigger] found_on(feed, n, user, start)).len() > 0,
        found_on(feed, fetch.page, user, start).len() > 0,
    ensures
        walk(feed, fetch, asked, user, start) == (Walk::Failed {
            requests: if fetch.page > PAGE_LIMIT {
                asked + 1
            } else {
                (asked + PAGE_LIMIT + 2 - fetch.page) as nat
            },
        }),
    decreases PAGE_LIMIT + 1 - fetch.page,
{
    let found = found_on(feed, fetch.page, user, start);
    if fetch.page <= PAGE_LIMIT {
        let next = FetchView { page: (fetch.page + 1) as u32, events: fetch.events + found };
        assert(found_on(feed, next.page, user, start).len() > 0);
        lemma_walk_fails(feed, next, asked + 1, user, start);
    }
}

/// Every fetch ends, at the latest with the page after the limit or with
/// its first page.
pub proof fn lemma_walk_bounded(
    feed: spec_fn(u32) -> Seq<Event>,
    fetch: FetchView,
    asked: nat,
    user: Seq<char>,
    start: Timestamp,
)
    ensures
        ({
            let most: int = if fetch.page > PAGE_LIMIT {
                (asked + 1) as int
            } else {
                asked + PAGE_LIMIT + 2 - fetch.page
            };
            match walk(feed, fetch, asked, user, start) {
                Walk::Done { requests, .. } => asked < requests <= most,
                Walk::Failed { requests } => requests == most,
            }
        }),
    decreases PAGE_LIMIT + 1 - fetch.page,
{
    let found = found_on(feed, fetch.page, user, start);
    if found.len() > 0 && fetch.page <= PAGE_LIMIT {
        let next = FetchView { page: (fetch.page + 1) as u32, events: fetch.events + found };
        lemma_walk_bounded(feed, next, asked + 1, user, start);
    }
}

} // verus!
