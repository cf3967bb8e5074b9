use activity_digest::fetch::is_qualifying;
use activity_digest::{Actor, DigestError, Event, Fetch, Payload, Repo, Step, Timestamp, PAGE_LIMIT};

fn at(secs: i64) -> Timestamp {
    Timestamp { secs, nanos: 0 }
}

fn event(login: &str, id: &str, secs: i64) -> Event {
    Event {
        id: String::from(id),
        typ: String::from("PushEvent"),
        actor: Actor { id: 7, login: String::from(login) },
        repo: Repo { id: 9, name: String::from("o/r"), url: String::from("https://api.example/repo") },
        payload: Payload {
            action: None,
            review: None,
            pull_request: None,
            issue: None,
            comment: None,
            git_ref: None,
        },
        created_at: at(secs),
    }
}

/// Walks a source that holds its pages in memory, the first under the number `first_page`, and
/// that answers a page number past its end with an empty page. Gives the outcome and the number
/// of pages asked for.
fn walk(pages: &Vec<Vec<Event>>, first_page: u32, user: &str, start: &Timestamp) -> (Result<Vec<Event>, DigestError>, usize) {
    let mut fetch = Fetch::new(first_page);
    let mut requests = 0;
    loop {
        let at = (fetch.page() - first_page) as usize;
        let page = if at < pages.len() { pages[at].clone() } else { Vec::new() };
        requests += 1;
        match fetch.absorb(page, user, start) {
            Step::Next(next) => fetch = next,
            Step::Done(events) => return (Ok(events), requests),
            Step::Failed(error) => return (Err(error), requests),
        }
    }
}

fn ids(events: &Vec<Event>) -> Vec<String> {
    events.iter().map(|e| e.id.clone()).collect()
}

#[test]
fn event_at_the_start_qualifies() {
    assert!(is_qualifying(&event("ferris", "a", 1_000), "ferris", &at(1_000)));
    assert!(is_qualifying(&event("ferris", "a", 1_001), "ferris", &at(1_000)));
}

#[test]
fn event_before_the_start_does_not_qualify() {
    assert!(!is_qualifying(&event("ferris", "a", 999), "ferris", &at(1_000)));
    let mut e = event("ferris", "a", 1_000);
    e.created_at.nanos = 4;
    assert!(!is_qualifying(&e, "ferris", &Timestamp { secs: 1_000, nanos: 5 }));
    assert!(is_qualifying(&e, "ferris", &Timestamp { secs: 1_000, nanos: 4 }));
}

#[test]
fn event_of_another_user_does_not_qualify() {
    assert!(!is_qualifying(&event("corro", "a", 2_000), "ferris", &at(1_000)));
    assert!(!is_qualifying(&event("Ferris", "a", 2_000), "ferris", &at(1_000)));
}

#[test]
fn fetch_stops_at_the_first_page_without_the_users_events() {
    let pages = vec![
        vec![event("ferris", "a", 1_900), event("corro", "b", 1_800)],
        vec![event("corro", "c", 1_700), event("ferris", "d", 1_600), event("ferris", "e", 1_500)],
        vec![event("corro", "f", 1_400)],
        vec![event("ferris", "g", 1_300)],
    ];
    let (outcome, requests) = walk(&pages, 1, "ferris", &at(1_000));
    assert_eq!(requests, 3);
    assert_eq!(ids(&outcome.unwrap()), vec!["a", "d", "e"]);
}

#[test]
fn fetch_stops_at_the_first_page_that_is_too_old() {
    let pages = vec![
        vec![event("ferris", "a", 1_900), event("ferris", "b", 1_000)],
        vec![event("ferris", "c", 999), event("ferris", "d", 998)],
        vec![event("ferris", "e", 2_000)],
    ];
    let (outcome, requests) = walk(&pages, 0, "ferris", &at(1_000));
    assert_eq!(requests, 2);
    assert_eq!(ids(&outcome.unwrap()), vec!["a", "b"]);
}

#[test]
fn page_with_some_events_too_old_does_not_stop_the_fetch() {
    let pages = vec![
        vec![event("ferris", "a", 999), event("ferris", "b", 1_900), event("ferris", "c", 3)],
        vec![event("ferris", "d", 1_500)],
    ];
    let (outcome, requests) = walk(&pages, 0, "ferris", &at(1_000));
    assert_eq!(requests, 3);
    assert_eq!(ids(&outcome.unwrap()), vec!["b", "d"]);
}

#[test]
fn empty_first_page_ends_the_fetch_at_once() {
    let (outcome, requests) = walk(&Vec::new(), 0, "ferris", &at(1_000));
    assert_eq!(requests, 1);
    assert!(outcome.unwrap().is_empty());
}

#[test]
fn fetch_fails_when_every_page_qualifies() {
    let pages: Vec<Vec<Event>> = (0..50).map(|i| vec![event("ferris", "a", 5_000 - i)]).collect();
    let (outcome, requests) = walk(&pages, 0, "ferris", &at(1_000));
    assert_eq!(outcome.unwrap_err(), DigestError::PaginationExhausted { limit: 5 });
    assert_eq!(requests, 7);
    let (outcome, requests) = walk(&pages, 1, "ferris", &at(1_000));
    assert_eq!(outcome.unwrap_err(), DigestError::PaginationExhausted { limit: PAGE_LIMIT });
    assert_eq!(requests, 6);
}

#[test]
fn fetch_ends_well_on_the_last_page_allowed() {
    let mut pages: Vec<Vec<Event>> = (0..6).map(|i| vec![event("ferris", "a", 5_000 - i)]).collect();
    pages.push(vec![event("ferris", "old", 10)]);
    let (outcome, requests) = walk(&pages, 0, "ferris", &at(1_000));
    assert_eq!(requests, 7);
    assert_eq!(outcome.unwrap().len(), 6);
}

#[test]
fn page_over_the_limit_with_qualifying_events_fails() {
    let fetch = Fetch::new(6);
    assert!(matches!(
        fetch.absorb(vec![event("ferris", "a", 2_000)], "ferris", &at(1_000)),
        Step::Failed(DigestError::PaginationExhausted { limit: 5 })
    ));
    let fetch = Fetch::new(u32::MAX);
    assert!(matches!(
        fetch.absorb(vec![event("ferris", "a", 2_000)], "ferris", &at(1_000)),
        Step::Failed(DigestError::PaginationExhausted { limit: 5 })
    ));
    let fetch = Fetch::new(u32::MAX);
    assert!(matches!(fetch.absorb(vec![event("corro", "a", 2_000)], "ferris", &at(1_000)), Step::Done(_)));
}

#[test]
fn absorb_moves_to_the_next_page_and_keeps_the_order() {
    let fetch = Fetch::new(5);
    let page = vec![event("ferris", "a", 2_000), event("corro", "b", 2_000), event("ferris", "c", 1_000)];
    match fetch.absorb(page, "ferris", &at(1_000)) {
        Step::Next(next) => {
            assert_eq!(next.page(), 6);
            assert_eq!(ids(&next.events), vec!["a", "c"]);
        },
        _ => panic!("the fetch did not go on"),
    }
}
