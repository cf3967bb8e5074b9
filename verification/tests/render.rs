use activity_digest::render::push_repo;
use activity_digest::{
    link, parse_events, render_events, Actor, Event, Issue, Payload, PullRequest, Repo, RepoActivity, Review,
    Timestamp, Window,
};

fn at(secs: i64) -> Timestamp {
    Timestamp { secs, nanos: 0 }
}

fn window() -> Window {
    Window { start: at(1_000), end: Some(at(2_000)) }
}

fn bare(typ: &str, repo: &str, secs: i64) -> Event {
    Event {
        id: String::from("1"),
        typ: String::from(typ),
        actor: Actor { id: 7, login: String::from("ferris") },
        repo: Repo { id: 9, name: String::from(repo), url: String::from("https://api.example/repo") },
        payload: Payload {
            action: None,
            review: None,
            pull_request: None,
            issue: None,
            comment: None,
            git_ref: None,
        },
        created_at: at(secs),
    }
}

fn pull_request(url: &str, title: &str) -> PullRequest {
    PullRequest { url: String::from("https://api.example/pr"), html_url: String::from(url), title: String::from(title) }
}

fn opened(repo: &str, url: &str, title: &str) -> Event {
    let mut e = bare("PullRequestEvent", repo, 1_500);
    e.payload.action = Some(String::from("opened"));
    e.payload.pull_request = Some(pull_request(url, title));
    e
}

fn reviewed(repo: &str, url: &str, title: &str, state: &str) -> Event {
    let mut e = bare("PullRequestReviewEvent", repo, 1_500);
    e.payload.review = Some(Review {
        pull_request_url: String::from("https://api.example/pr"),
        submitted_at: at(1_500),
        state: String::from(state),
    });
    e.payload.pull_request = Some(pull_request(url, title));
    e
}

fn commented(repo: &str, url: &str, title: &str) -> Event {
    let mut e = bare("IssueCommentEvent", repo, 1_500);
    e.payload.issue = Some(Issue {
        url: String::from("https://api.example/issue"),
        title: String::from(title),
        html_url: String::from(url),
    });
    e
}

#[test]
fn link_is_title_then_address() {
    assert_eq!(link("https://example.org/a", "A title"), "[A title](https://example.org/a)");
}

#[test]
fn link_trims_both_parts() {
    assert_eq!(link("  https://example.org/a\n", "\t A title \r\n"), "[A title](https://example.org/a)");
    assert_eq!(link("\u{a0}x\u{3000}", "\u{2003}inner  space\u{2028}"), "[inner  space](x)");
    assert_eq!(link(" \n ", ""), "[]()");
}

#[test]
fn link_keeps_what_is_no_white_space() {
    assert_eq!(link("\u{200b}a\u{200b}", "_t_"), "[_t_](\u{200b}a\u{200b})");
}

#[test]
fn empty_report_is_its_header() {
    let report = parse_events(&Vec::new(), &window()).unwrap();
    assert_eq!(render_events(&report), "<!-- before: 0 after: 0 -->\n");
}

#[test]
fn header_counts_what_was_left_out() {
    let mut events: Vec<Event> = (0..12).map(|_| bare("PushEvent", "o/r", 1)).collect();
    events.push(bare("PushEvent", "o/r", 2_001));
    let report = parse_events(&events, &window()).unwrap();
    assert_eq!(render_events(&report), "<!-- before: 12 after: 1 -->\n");
}

#[test]
fn repository_without_activity_has_its_heading_and_no_section() {
    let events = vec![bare("WatchEvent", "o/r", 1_500)];
    let report = parse_events(&events, &window()).unwrap();
    assert_eq!(report.repos.get("o/r").unwrap().push_count, 0);
    assert_eq!(render_events(&report), "<!-- before: 0 after: 0 -->\n### [o/r](https://github.com/o/r)\n");
}

#[test]
fn idle_repository_text_names_no_section() {
    let mut out = String::from("> ");
    push_repo(&mut out, "o/r", &RepoActivity::new());
    assert_eq!(out, "> ### [o/r](https://github.com/o/r)\n");
    for word in ["Pull Requests", "Reviewed", "Commented", "Pushed"] {
        assert!(!out.contains(word));
    }
}

#[test]
fn pushes_alone() {
    let events = vec![bare("PushEvent", "o/r", 1_500), bare("PushEvent", "o/r", 1_400)];
    let report = parse_events(&events, &window()).unwrap();
    assert_eq!(
        render_events(&report),
        "<!-- before: 0 after: 0 -->\n### [o/r](https://github.com/o/r)\nPushed 2 times\n\n"
    );
}

#[test]
fn full_report() {
    let events = vec![
        bare("PushEvent", "zed/z", 1_500),
        commented("abc/a", "https://example.org/abc/a/issues/9", " An issue "),
        reviewed("abc/a", "https://example.org/abc/a/pull/3", "Third", "commented"),
        reviewed("abc/a", "https://example.org/abc/a/pull/2", "Second", "approved"),
        opened("abc/a", "https://example.org/abc/a/pull/5", "Fifth"),
        opened("abc/a", "https://example.org/abc/a/pull/4", "Fourth"),
        commented("abc/a", "https://example.org/abc/a/pull/4", "Fourth, discussed"),
        bare("PushEvent", "abc/a", 1_500),
        bare("PushEvent", "abc/a", 1_500),
        bare("PushEvent", "abc/a", 1_500),
        bare("PushEvent", "abc/a", 3_000),
    ];
    let report = parse_events(&events, &window()).unwrap();
    let expected = "<!-- before: 0 after: 1 -->\n\
### [abc/a](https://github.com/abc/a)\n\
Pull Requests: \n\
\x20 - \u{1F195} [Fourth](https://example.org/abc/a/pull/4)\n\
\x20 - \u{1F195} [Fifth](https://example.org/abc/a/pull/5)\n\
\n\
Reviewed: \n\
\x20 - \u{2714} [Second](https://example.org/abc/a/pull/2)\n\
\x20 - \u{1F4CB} [Third](https://example.org/abc/a/pull/3)\n\
\n\
Commented: \n\
\x20 - \u{1F4DD} [An issue](https://example.org/abc/a/issues/9)\n\
\n\
Pushed 3 times\n\
\n\
### [zed/z](https://github.com/zed/z)\n\
Pushed 1 times\n\
\n";
    assert_eq!(render_events(&report), expected);
}

#[test]
fn sections_follow_in_their_order_and_empty_ones_are_left_out() {
    let events = vec![
        commented("o/r", "https://example.org/o/r/issues/1", "Issue"),
        opened("o/r", "https://example.org/o/r/pull/2", "Pull"),
    ];
    let report = parse_events(&events, &window()).unwrap();
    let text = render_events(&report);
    assert_eq!(
        text,
        "<!-- before: 0 after: 0 -->\n### [o/r](https://github.com/o/r)\nPull Requests: \n  - \u{1F195} [Pull](https://example.org/o/r/pull/2)\n\nCommented: \n  - \u{1F4DD} [Issue](https://example.org/o/r/issues/1)\n\n"
    );
    assert!(!text.contains("Reviewed"));
    assert!(!text.contains("Pushed"));
}

#[test]
fn rendering_twice_gives_the_same_text() {
    let events = vec![bare("PushEvent", "b/b", 1_500), bare("PushEvent", "a/a", 1_500)];
    let forth = parse_events(&events, &window()).unwrap();
    let back = parse_events(&vec![events[1].clone(), events[0].clone()], &window()).unwrap();
    assert_eq!(render_events(&forth), render_events(&forth));
    assert_eq!(render_events(&forth), render_events(&back));
}

#[test]
fn url_without_a_title_gets_an_empty_one() {
    let mut activity = RepoActivity::new();
    activity.pr_opened.insert_new("https://example.org/o/r/pull/1", ());
    activity.reviewed.insert_new("https://example.org/o/r/pull/2", activity_digest::ReviewReaction::Approved);
    activity.commented_issues.insert_new("https://example.org/o/r/issues/3", ());
    let mut out = String::new();
    push_repo(&mut out, "o/r", &activity);
    assert_eq!(
        out,
        "### [o/r](https://github.com/o/r)\n\
Pull Requests: \n\
\x20 - \u{1F195} [](https://example.org/o/r/pull/1)\n\
\n\
Reviewed: \n\
\x20 - \u{2714} [](https://example.org/o/r/pull/2)\n\
\n\
Commented: \n\
\x20 - \u{1F4DD} [](https://example.org/o/r/issues/3)\n\
\n"
    );
}
