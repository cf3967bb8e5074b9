use activity_digest::{
    classify, parse_events, Activity, Actor, DigestError, Event, Issue, Payload, PayloadField, PullRequest,
    Repo, RepoActivity, Review, ReviewReaction, Timestamp, Window,
};

fn at(secs: i64) -> Timestamp {
    Timestamp { secs, nanos: 0 }
}

fn window() -> Window {
    Window { start: at(1_000), end: Some(at(2_000)) }
}

fn bare(typ: &str, repo: &str, secs: i64) -> Event {
    Event {
        id: String::from("1"),
        typ: String::from(typ),
        actor: Actor { id: 7, login: String::from("ferris") },
        repo: Repo { id: 9, name: String::from(repo), url: String::from("https://api.example/repo") },
        payload: Payload {
            action: None,
            review: None,
            pull_request: None,
            issue: None,
            comment: None,
            git_ref: None,
        },
        created_at: at(secs),
    }
}

fn pull_request(url: &str, title: &str) -> PullRequest {
    PullRequest { url: String::from("https://api.example/pr"), html_url: String::from(url), title: String::from(title) }
}

fn push(repo: &str, secs: i64) -> Event {
    bare("PushEvent", repo, secs)
}

fn opened(repo: &str, url: &str, title: &str, secs: i64) -> Event {
    let mut e = bare("PullRequestEvent", repo, secs);
    e.payload.action = Some(String::from("opened"));
    e.payload.pull_request = Some(pull_request(url, title));
    e
}

fn closed(repo: &str, url: &str, title: &str, secs: i64) -> Event {
    let mut e = opened(repo, url, title, secs);
    e.payload.action = Some(String::from("closed"));
    e
}

fn reviewed(repo: &str, url: &str, title: &str, state: &str, secs: i64) -> Event {
    let mut e = bare("PullRequestReviewEvent", repo, secs);
    e.payload.review = Some(Review {
        pull_request_url: String::from("https://api.example/pr"),
        submitted_at: at(secs),
        state: String::from(state),
    });
    e.payload.pull_request = Some(pull_request(url, title));
    e
}

fn commented(repo: &str, url: &str, title: &str, secs: i64) -> Event {
    let mut e = bare("IssueCommentEvent", repo, secs);
    e.payload.issue = Some(Issue {
        url: String::from("https://api.example/issue"),
        title: String::from(title),
        html_url: String::from(url),
    });
    e
}

const URL: &str = "https://example.org/o/r/pull/1";

/// Where `url` stands in the report on `events`: (opened, reviewed, commented).
fn places(events: &Vec<Event>, repo: &str, url: &str) -> (bool, bool, bool) {
    let report = parse_events(events, &window()).unwrap();
    let activity = report.repos.get(repo).unwrap();
    (
        activity.pr_opened.contains_key(url),
        activity.reviewed.contains_key(url),
        activity.commented_issues.contains_key(url),
    )
}

#[test]
fn opened_wins_over_review_and_comment_in_every_order() {
    let o = opened("o/r", URL, "t", 1_500);
    let r = reviewed("o/r", URL, "t", "approved", 1_400);
    let c = commented("o/r", URL, "t", 1_300);
    let orders = vec![
        vec![o.clone(), r.clone(), c.clone()],
        vec![o.clone(), c.clone(), r.clone()],
        vec![r.clone(), o.clone(), c.clone()],
        vec![r.clone(), c.clone(), o.clone()],
        vec![c.clone(), o.clone(), r.clone()],
        vec![c.clone(), r.clone(), o.clone()],
    ];
    for events in orders.iter() {
        assert_eq!(places(events, "o/r", URL), (true, false, false));
    }
}

#[test]
fn review_wins_over_comment_in_either_order() {
    let r = reviewed("o/r", URL, "t", "commented", 1_400);
    let c = commented("o/r", URL, "t", 1_300);
    assert_eq!(places(&vec![r.clone(), c.clone()], "o/r", URL), (false, true, false));
    assert_eq!(places(&vec![c, r], "o/r", URL), (false, true, false));
}

#[test]
fn comment_alone_is_commented() {
    let c = commented("o/r", URL, "t", 1_300);
    assert_eq!(places(&vec![c], "o/r", URL), (false, false, true));
}

#[test]
fn later_opened_event_takes_an_earlier_comment_back() {
    let events = vec![
        commented("o/r", URL, "first", 1_900),
        commented("o/r", "https://example.org/o/r/issues/2", "other", 1_800),
        opened("o/r", URL, "second", 1_100),
    ];
    let report = parse_events(&events, &window()).unwrap();
    let activity = report.repos.get("o/r").unwrap();
    assert_eq!(activity.pr_opened.len(), 1);
    assert_eq!(activity.commented_issues.len(), 1);
    assert!(activity.commented_issues.contains_key("https://example.org/o/r/issues/2"));
    assert_eq!(activity.reviewed.len(), 0);
}

#[test]
fn precedence_is_per_repository() {
    let events = vec![opened("o/a", URL, "t", 1_500), commented("o/b", URL, "t", 1_400)];
    assert_eq!(places(&events, "o/a", URL), (true, false, false));
    assert_eq!(places(&events, "o/b", URL), (false, false, true));
}

#[test]
fn first_seen_title_stays() {
    let events = vec![
        commented("o/r", URL, "newest title", 1_900),
        reviewed("o/r", URL, "older title", "approved", 1_500),
        opened("o/r", URL, "oldest title", 1_100),
    ];
    let report = parse_events(&events, &window()).unwrap();
    let activity = report.repos.get("o/r").unwrap();
    assert_eq!(activity.titles.get(URL).unwrap().as_str(), "newest title");
    assert_eq!(activity.titles.len(), 1);
}

#[test]
fn title_of_a_closed_pull_request_is_not_kept() {
    let events = vec![closed("o/r", URL, "closed title", 1_900), opened("o/r", URL, "opened title", 1_100)];
    let report = parse_events(&events, &window()).unwrap();
    let activity = report.repos.get("o/r").unwrap();
    assert_eq!(activity.titles.get(URL).unwrap().as_str(), "opened title");
}

#[test]
fn first_seen_reaction_stays() {
    let events = vec![
        reviewed("o/r", URL, "t", "changes_requested", 1_900),
        reviewed("o/r", URL, "t", "approved", 1_500),
    ];
    let report = parse_events(&events, &window()).unwrap();
    let activity = report.repos.get("o/r").unwrap();
    assert_eq!(activity.reviewed.get(URL), Some(&ReviewReaction::Other));

    let events = vec![
        reviewed("o/r", URL, "t", "approved", 1_900),
        reviewed("o/r", URL, "t", "changes_requested", 1_500),
    ];
    let report = parse_events(&events, &window()).unwrap();
    let activity = report.repos.get("o/r").unwrap();
    assert_eq!(activity.reviewed.get(URL), Some(&ReviewReaction::Approved));
}

#[test]
fn event_after_the_end_only_counts() {
    let events = vec![opened("o/r", URL, "t", 2_001), push("o/r", 1_500)];
    let report = parse_events(&events, &window()).unwrap();
    assert_eq!(report.excluded_after, 1);
    assert_eq!(report.excluded_before, 0);
    let activity = report.repos.get("o/r").unwrap();
    assert_eq!(activity.pr_opened.len(), 0);
    assert_eq!(activity.titles.len(), 0);
    assert_eq!(activity.push_count, 1);

    let only = vec![opened("o/r", URL, "t", 2_001)];
    let report = parse_events(&only, &window()).unwrap();
    assert_eq!(report.excluded_after, 1);
    assert_eq!(report.repos.len(), 0);
}

#[test]
fn event_before_the_start_only_counts() {
    let events = vec![push("o/r", 999), push("o/r", 998), commented("o/q", URL, "t", 1)];
    let report = parse_events(&events, &window()).unwrap();
    assert_eq!(report.excluded_before, 3);
    assert_eq!(report.excluded_after, 0);
    assert_eq!(report.repos.len(), 0);
}

#[test]
fn both_bounds_belong_to_the_window() {
    let events = vec![push("o/r", 2_000), push("o/r", 1_000)];
    let report = parse_events(&events, &window()).unwrap();
    assert_eq!(report.excluded_before, 0);
    assert_eq!(report.excluded_after, 0);
    assert_eq!(report.repos.get("o/r").unwrap().push_count, 2);
}

#[test]
fn nanoseconds_decide_among_equal_seconds() {
    let w = Window { start: Timestamp { secs: 1_000, nanos: 500 }, end: Some(Timestamp { secs: 2_000, nanos: 500 }) };
    let mut early = push("o/r", 1_000);
    early.created_at.nanos = 499;
    let mut first = push("o/r", 1_000);
    first.created_at.nanos = 500;
    let mut last = push("o/r", 2_000);
    last.created_at.nanos = 500;
    let mut late = push("o/r", 2_000);
    late.created_at.nanos = 501;
    let report = parse_events(&vec![late, last, first, early], &w).unwrap();
    assert_eq!(report.excluded_after, 1);
    assert_eq!(report.excluded_before, 1);
    assert_eq!(report.repos.get("o/r").unwrap().push_count, 2);
}

#[test]
fn window_without_end_excludes_nothing_after() {
    let w = Window { start: at(1_000), end: None };
    let events = vec![push("o/r", i64::MAX), push("o/r", 1_000), push("o/r", 999)];
    let report = parse_events(&events, &w).unwrap();
    assert_eq!(report.excluded_after, 0);
    assert_eq!(report.excluded_before, 1);
    assert_eq!(report.repos.get("o/r").unwrap().push_count, 2);
}

#[test]
fn pushes_count_and_name_nothing() {
    for n in [1usize, 2, 7, 40] {
        let events: Vec<Event> = (0..n).map(|i| push("o/r", 1_000 + i as i64)).collect();
        let report = parse_events(&events, &window()).unwrap();
        assert_eq!(report.repos.len(), 1);
        let activity = report.repos.get("o/r").unwrap();
        assert_eq!(activity.push_count, n);
        assert_eq!(activity.pr_opened.len(), 0);
        assert_eq!(activity.reviewed.len(), 0);
        assert_eq!(activity.commented_issues.len(), 0);
        assert_eq!(activity.titles.len(), 0);
    }
}

#[test]
fn no_events_give_an_empty_report() {
    let report = parse_events(&Vec::new(), &window()).unwrap();
    assert_eq!(report.repos.len(), 0);
    assert!(report.repos.is_empty());
    assert_eq!(report.excluded_before, 0);
    assert_eq!(report.excluded_after, 0);
}

#[test]
fn other_event_types_bring_the_repository_and_nothing_else() {
    let events = vec![bare("WatchEvent", "o/r", 1_500), closed("o/q", URL, "t", 1_400)];
    let report = parse_events(&events, &window()).unwrap();
    assert_eq!(report.repos.len(), 2);
    for name in ["o/r", "o/q"] {
        let activity = report.repos.get(name).unwrap();
        assert_eq!(activity.push_count, 0);
        assert!(activity.pr_opened.is_empty());
        assert!(activity.reviewed.is_empty());
        assert!(activity.commented_issues.is_empty());
        assert!(activity.titles.is_empty());
    }
}

#[test]
fn repositories_stand_in_the_order_of_their_names() {
    let events = vec![push("zeta/z", 1_500), push("alpha/a", 1_400), push("Zeta/z", 1_300), push("alpha/a", 1_200)];
    let report = parse_events(&events, &window()).unwrap();
    assert_eq!(report.repos.len(), 3);
    assert_eq!(report.repos.key_at(0), "Zeta/z");
    assert_eq!(report.repos.key_at(1), "alpha/a");
    assert_eq!(report.repos.key_at(2), "zeta/z");
    assert_eq!(report.repos.value_at(1).push_count, 2);
}

fn malformed_error(e: Event) -> DigestError {
    let events = vec![push("o/r", 1_500), e, bare("PullRequestEvent", "o/r", 1_200)];
    match parse_events(&events, &window()) {
        Ok(_) => panic!("a malformed event went through"),
        Err(error) => error,
    }
}

#[test]
fn pull_request_event_without_pull_request_fails() {
    let mut e = bare("PullRequestEvent", "o/r", 1_400);
    e.payload.action = Some(String::from("closed"));
    assert_eq!(malformed_error(e), DigestError::MalformedPayload { index: 1, missing: PayloadField::PullRequest });
}

#[test]
fn pull_request_event_without_action_fails() {
    let mut e = bare("PullRequestEvent", "o/r", 1_400);
    e.payload.pull_request = Some(pull_request(URL, "t"));
    assert_eq!(malformed_error(e), DigestError::MalformedPayload { index: 1, missing: PayloadField::Action });
}

#[test]
fn review_event_without_review_fails() {
    let mut e = bare("PullRequestReviewEvent", "o/r", 1_400);
    e.payload.pull_request = Some(pull_request(URL, "t"));
    assert_eq!(malformed_error(e), DigestError::MalformedPayload { index: 1, missing: PayloadField::Review });
}

#[test]
fn review_event_without_pull_request_fails() {
    let mut e = reviewed("o/r", URL, "t", "approved", 1_400);
    e.payload.pull_request = None;
    assert_eq!(malformed_error(e), DigestError::MalformedPayload { index: 1, missing: PayloadField::PullRequest });
}

#[test]
fn comment_event_without_issue_fails() {
    let e = bare("IssueCommentEvent", "o/r", 1_400);
    assert_eq!(malformed_error(e), DigestError::MalformedPayload { index: 1, missing: PayloadField::Issue });
}

#[test]
fn malformed_event_outside_the_window_is_only_counted() {
    let events = vec![bare("IssueCommentEvent", "o/r", 2_500), bare("PullRequestEvent", "o/r", 500)];
    let report = parse_events(&events, &window()).unwrap();
    assert_eq!(report.excluded_after, 1);
    assert_eq!(report.excluded_before, 1);
    assert_eq!(report.repos.len(), 0);
}

#[test]
fn error_messages() {
    assert_eq!(DigestError::PaginationExhausted { limit: 5 }.message(), "Would exceed pagelimit 5");
    assert_eq!(
        DigestError::MalformedPayload { index: 120, missing: PayloadField::PullRequest }.message(),
        "Event 120 has no payload.pull_request"
    );
    assert_eq!(
        DigestError::MalformedPayload { index: 0, missing: PayloadField::Action }.message(),
        "Event 0 has no payload.action"
    );
    assert_eq!(
        DigestError::MalformedPayload { index: 9, missing: PayloadField::Review }.message(),
        "Event 9 has no payload.review"
    );
    assert_eq!(
        DigestError::MalformedPayload { index: 10, missing: PayloadField::Issue }.message(),
        "Event 10 has no payload.issue"
    );
}

#[test]
fn classify_reads_each_type() {
    assert!(matches!(classify(&push("o/r", 1)), Ok(Activity::Push)));
    assert!(matches!(
        classify(&opened("o/r", URL, "t", 1)),
        Ok(Activity::PullRequestOpened { url: URL, title: "t" })
    ));
    assert!(matches!(classify(&closed("o/r", URL, "t", 1)), Ok(Activity::PullRequestOther)));
    assert!(matches!(
        classify(&reviewed("o/r", URL, "t", "approved", 1)),
        Ok(Activity::Review { url: URL, title: "t", reaction: ReviewReaction::Approved })
    ));
    assert!(matches!(
        classify(&reviewed("o/r", URL, "t", "Approved", 1)),
        Ok(Activity::Review { url: URL, title: "t", reaction: ReviewReaction::Other })
    ));
    assert!(matches!(
        classify(&commented("o/r", URL, "t", 1)),
        Ok(Activity::IssueComment { url: URL, title: "t" })
    ));
    assert!(matches!(classify(&bare("IssuesEvent", "o/r", 1)), Ok(Activity::Other)));
    assert!(matches!(classify(&bare("pushevent", "o/r", 1)), Ok(Activity::Other)));
    assert!(matches!(classify(&bare("PullRequestEvent", "o/r", 1)), Err(PayloadField::PullRequest)));
}

#[test]
fn record_keeps_what_came_first() {
    let mut activity = RepoActivity::new();
    activity.record(Activity::Review { url: "u", title: "first", reaction: ReviewReaction::Other });
    activity.record(Activity::Review { url: "u", title: "second", reaction: ReviewReaction::Approved });
    activity.record(Activity::IssueComment { url: "v", title: "issue" });
    activity.record(Activity::Push);
    activity.record(Activity::Other);
    activity.record(Activity::PullRequestOther);
    assert_eq!(activity.reviewed.get("u"), Some(&ReviewReaction::Other));
    assert_eq!(activity.titles.get("u").unwrap().as_str(), "first");
    assert_eq!(activity.titles.get("v").unwrap().as_str(), "issue");
    assert_eq!(activity.push_count, 1);
    assert!(activity.commented_issues.contains_key("v"));
}

#[test]
fn settle_leaves_each_url_in_one_place() {
    let mut activity = RepoActivity::new();
    activity.record(Activity::IssueComment { url: "a", title: "a" });
    activity.record(Activity::IssueComment { url: "b", title: "b" });
    activity.record(Activity::IssueComment { url: "c", title: "c" });
    activity.record(Activity::Review { url: "a", title: "a", reaction: ReviewReaction::Approved });
    activity.record(Activity::Review { url: "b", title: "b", reaction: ReviewReaction::Approved });
    activity.record(Activity::PullRequestOpened { url: "a", title: "a" });
    activity.settle();
    assert_eq!(activity.pr_opened.len(), 1);
    assert!(activity.pr_opened.contains_key("a"));
    assert_eq!(activity.reviewed.len(), 1);
    assert!(activity.reviewed.contains_key("b"));
    assert_eq!(activity.commented_issues.len(), 1);
    assert!(activity.commented_issues.contains_key("c"));
    assert_eq!(activity.titles.len(), 3);
}
