//! The digest of a sequence of events: what a report holds, stated over the
//! events, and the pass that computes it.

use crate::activity::{RepoActivity, RepoModel};
use crate::error::DigestError;
use crate::event::{classify, decode, ActivityView, Event, PayloadField, ReviewReaction};
use crate::seqs::{
    any, first, first_place, is_first, lemma_any_push, lemma_first_at, lemma_first_push, lemma_none_filtered,
};
use crate::strmap::StrMap;
use crate::time::{Placement, Window};
use vstd::prelude::*;

verus! {

/// `e` lies in the window and belongs to `repo`.
pub open spec fn in_repo(e: Event, w: Window, repo: Seq<char>) -> bool {
    w.holds(e.created_at) && e.repo.name@ == repo
}

/// `e` lies in the window, belongs to `repo` and opens the pull request at
/// `url`.
pub open spec fn opens(e: Event, w: Window, repo: Seq<char>, url: Seq<char>) -> bool {
    &&& in_repo(e, w, repo)
    &&& decode(e) matches Ok(ActivityView::PullRequestOpened { url: u, .. })
    &&& u == url
}

/// `e` lies in the window, belongs to `repo` and reviews the pull request
/// at `url`.
pub open spec fn reviews(e: Event, w: Window, repo: Seq<char>, url: Seq<char>) -> bool {
    &&& in_repo(e, w, repo)
    &&& decode(e) matches Ok(ActivityView::Review { url: u, .. })
    &&& u == url
}

/// `e` lies in the window, belongs to `repo` and comments on the issue at
/// `url`.
pub open spec fn comments(e: Event, w: Window, repo: Seq<char>, url: Seq<char>) -> bool {
    &&& in_repo(e, w, repo)
    &&& decode(e) matches Ok(ActivityView::IssueComment { url: u, .. })
    &&& u == url
}

/// `e` does one of the three: it opens, reviews or comments on what is at
/// `url`.
pub open spec fn names(e: Event, w: Window, repo: Seq<char>, url: Seq<char>) -> bool {
    opens(e, w, repo, url) || reviews(e, w, repo, url) || comments(e, w, repo, url)
}

/// `e` lies in the window, belongs to `repo` and is a push.
pub open spec fn pushes(e: Event, w: Window, repo: Seq<char>) -> bool {
    in_repo(e, w, repo) && decode(e) == Ok::<ActivityView, PayloadField>(ActivityView::Push)
}

/// `e` lies in the window and lacks a part of its payload.
pub open spec fn malformed(e: Event, w: Window) -> bool {
    w.holds(e.created_at) && decode(e) is Err
}

/// `in_repo`, as a predicate on events.
pub open spec fn belonging(w: Window, repo: Seq<char>) -> spec_fn(Event) -> bool {
    |e: Event| in_repo(e, w, repo)
}

/// `opens`, as a predicate on events.
pub open spec fn opening(w: Window, repo: Seq<char>, url: Seq<char>) -> spec_fn(Event) -> bool {
    |e: Event| opens(e, w, repo, url)
}

/// `reviews`, as a predicate on events.
pub open spec fn reviewing(w: Window, repo: Seq<char>, url: Seq<char>) -> spec_fn(Event) -> bool {
    |e: Event| reviews(e, w, repo, url)
}

/// `comments`, as a predicate on events.
pub open spec fn commenting(w: Window, repo: Seq<char>, url: Seq<char>) -> spec_fn(Event) -> bool {
    |e: Event| comments(e, w, repo, url)
}

/// `names`, as a predicate on events.
pub open spec fn naming(w: Window, repo: Seq<char>, url: Seq<char>) -> spec_fn(Event) -> bool {
    |e: Event| names(e, w, repo, url)
}

/// `pushes`, as a predicate on events.
pub open spec fn pushing(w: Window, repo: Seq<char>) -> spec_fn(Event) -> bool {
    |e: Event| pushes(e, w, repo)
}

/// The events that lie at `placement` with respect to the window.
pub open spec fn placed(w: Window, placement: Placement) -> spec_fn(Event) -> bool {
    |e: Event| w.place(e.created_at) == placement
}

/// `malformed`, as a predicate on events.
pub open spec fn failing(w: Window) -> spec_fn(Event) -> bool {
    |e: Event| malformed(e, w)
}

/// The reaction of the review that `e` is.
pub open spec fn reaction_in(e: Event) -> ReviewReaction {
    match decode(e) {
        Ok(ActivityView::Review { reaction, .. }) => reaction,
        _ => ReviewReaction::Other,
    }
}

/// The title that `e` gives to what it names.
pub open spec fn title_in(e: Event) -> Seq<char> {
    match decode(e) {
        Ok(activity) => match activity.target() {
            Some((_, title)) => title,
            None => Seq::empty(),
        },
        Err(_) => Seq::empty(),
    }
}

/// What the events say of `repo`, before each URL is left in one place
/// only: a URL is opened, reviewed or commented where some event of the
/// window does that to it, with the reaction of the first review and the
/// title of the first event that names it.
pub open spec fn gathered_repo(events: Seq<Event>, w: Window, repo: Seq<char>) -> RepoModel {
    RepoModel {
        pr_opened: Set::new(|url: Seq<char>| any(events, opening(w, repo, url))),
        reviewed: Map::new(
            |url: Seq<char>| any(events, reviewing(w, repo, url)),
            |url: Seq<char>| reaction_in(first(events, reviewing(w, repo, url))),
        ),
        commented_issues: Set::new(|url: Seq<char>| any(events, commenting(w, repo, url))),
        push_count: events.filter(pushing(w, repo)).len(),
        titles: Map::new(
            |url: Seq<char>| any(events, naming(w, repo, url)),
            |url: Seq<char>| title_in(first(events, naming(w, repo, url))),
        ),
    }
}

/// What the events say of each repository that an event of the window
/// belongs to.
pub open spec fn gathered(events: Seq<Event>, w: Window) -> Map<Seq<char>, RepoModel> {
    Map::new(
        |repo: Seq<char>| any(events, belonging(w, repo)),
        |repo: Seq<char>| gathered_repo(events, w, repo),
    )
}

/// The events say nothing of a repository that none of them belongs to.
pub proof fn lemma_gathered_untouched(events: Seq<Event>, w: Window, repo: Seq<char>)
    requires
        !any(events, belonging(w, repo)),
    ensures
        gathered_repo(events, w, repo) == RepoModel::empty(),
{
    let g = gathered_repo(events, w, repo);
    assert forall|i: int| 0 <= i < events.len() implies !in_repo(#[trigger] events[i], w, repo) by {
        assert(belonging(w, repo)(events[i]) == in_repo(events[i], w, repo));
    }
    assert forall|url: Seq<char>| !any(events, naming(w, repo, url)) && !any(events, opening(w, repo, url))
        && !any(events, reviewing(w, repo, url)) && !any(events, commenting(w, repo, url)) by {
        if any(events, naming(w, repo, url)) {
            let i = choose|i: int| 0 <= i < events.len() && naming(w, repo, url)(#[trigger] events[i]);
            assert(in_repo(events[i], w, repo));
        }
        if any(events, opening(w, repo, url)) {
            let i = choose|i: int| 0 <= i < events.len() && opening(w, repo, url)(#[trigger] events[i]);
            assert(in_repo(events[i], w, repo));
        }
        if any(events, reviewing(w, repo, url)) {
            let i = choose|i: int| 0 <= i < events.len() && reviewing(w, repo, url)(#[trigger] events[i]);
            assert(in_repo(events[i], w, repo));
        }
        if any(events, commenting(w, repo, url)) {
            let i = choose|i: int| 0 <= i < events.len() && commenting(w, repo, url)(#[trigger] events[i]);
            assert(in_repo(events[i], w, repo));
        }
    }
    assert(g.pr_opened =~= Set::empty());
    assert(g.reviewed =~= Map::empty());
    assert(g.commented_issues =~= Set::empty());
    assert(g.titles =~= Map::empty());
    lemma_none_filtered(events, pushing(w, repo));
}

/// What one more event adds to what the events say of `repo`: nothing
/// where it lies outside the window, belongs elsewhere or is malformed, and
/// else what `recorded` says.
pub proof fn lemma_gathered_push(events: Seq<Event>, e: Event, w: Window, repo: Seq<char>)
    ensures
        gathered_repo(events.push(e), w, repo) == if in_repo(e, w, repo) && decode(e) is Ok {
            gathered_repo(events, w, repo).recorded(decode(e)->Ok_0)
        } else {
            gathered_repo(events, w, repo)
        },
{
    let old = gathered_repo(events, w, repo);
    let new = gathered_repo(events.push(e), w, repo);
    let goal = if in_repo(e, w, repo) && decode(e) is Ok {
        old.recorded(decode(e)->Ok_0)
    } else {
        old
    };
    assert forall|url: Seq<char>|
        (#[trigger] new.pr_opened.contains(url)) == goal.pr_opened.contains(url) by {
        lemma_any_push(events, opening(w, repo, url), e);
    }
    assert forall|url: Seq<char>|
        (#[trigger] new.commented_issues.contains(url)) == goal.commented_issues.contains(url) by {
        lemma_any_push(events, commenting(w, repo, url), e);
    }
    assert forall|url: Seq<char>|
        (#[trigger] new.reviewed.dom().contains(url)) == goal.reviewed.dom().contains(url) by {
        lemma_any_push(events, reviewing(w, repo, url), e);
    }
    assert forall|url: Seq<char>| #[trigger] new.reviewed.dom().contains(url) implies new.reviewed[url]
        == goal.reviewed[url] by {
        lemma_any_push(events, reviewing(w, repo, url), e);
        lemma_first_push(events, reviewing(w, repo, url), e);
    }
    assert forall|url: Seq<char>|
        (#[trigger] new.titles.dom().contains(url)) == goal.titles.dom().contains(url) by {
        lemma_any_push(events, naming(w, repo, url), e);
    }
    assert forall|url: Seq<char>| #[trigger] new.titles.dom().contains(url) implies new.titles[url]
        == goal.titles[url] by {
        lemma_any_push(events, naming(w, repo, url), e);
        lemma_first_push(events, naming(w, repo, url), e);
    }
    assert(new.pr_opened =~= goal.pr_opened);
    assert(new.commented_issues =~= goal.commented_issues);
    assert(new.reviewed =~= goal.reviewed);
    assert(new.titles =~= goal.titles);
    assert(new.push_count == goal.push_count) by {
        events.lemma_filter_len_push(pushing(w, repo), e);
    }
}

/// What one more event adds to what the events say of all repositories.
pub proof fn lemma_gathered_all_push(events: Seq<Event>, e: Event, w: Window)
    requires
        !malformed(e, w),
    ensures
        gathered(events.push(e), w) == if w.holds(e.created_at) {
            let repo = e.repo.name@;
            let so_far = if gathered(events, w).contains_key(repo) {
                gathered(events, w)[repo]
            } else {
                RepoModel::empty()
            };
            gathered(events, w).insert(repo, so_far.recorded(decode(e)->Ok_0))
        } else {
            gathered(events, w)
        },
{
    let old = gathered(events, w);
    let new = gathered(events.push(e), w);
    let goal = if w.holds(e.created_at) {
        let repo = e.repo.name@;
        let so_far = if old.contains_key(repo) {
            old[repo]
        } else {
            RepoModel::empty()
        };
        old.insert(repo, so_far.recorded(decode(e)->Ok_0))
    } else {
        old
    };
    assert forall|repo: Seq<char>| (#[trigger] new.dom().contains(repo)) == goal.dom().contains(repo) by {
        lemma_any_push(events, belonging(w, repo), e);
    }
    assert forall|repo: Seq<char>| #[trigger] new.dom().contains(repo) implies new[repo] == goal[repo] by {
        lemma_any_push(events, belonging(w, repo), e);
        lemma_gathered_push(events, e, w, repo);
        if !any(events, belonging(w, repo)) {
            lemma_gathered_untouched(events, w, repo);
        }
    }
    assert(new =~= goal);
}

/// The report on a sequence of events, for one window.
#[derive(Debug)]
pub struct AggregateReport {
    /// The activity in each repository that an event of the window belongs
    /// to.
    pub repos: StrMap<RepoActivity>,
    /// How many events lie before the window.
    pub excluded_before: usize,
    /// How many events lie after the window.
    pub excluded_after: usize,
}

/// An `AggregateReport` as a map of repository models.
pub struct ReportModel {
    pub repos: Map<Seq<char>, RepoModel>,
    pub excluded_before: nat,
    pub excluded_after: nat,
}

/// The model of each activity.
pub open spec fn models(repos: Map<Seq<char>, RepoActivity>) -> Map<Seq<char>, RepoModel> {
    repos.map_values(|activity: RepoActivity| activity@)
}

/// Each model with each URL left in one place only.
pub open spec fn all_settled(repos: Map<Seq<char>, RepoModel>) -> Map<Seq<char>, RepoModel> {
    repos.map_values(|model: RepoModel| model.settled())
}

impl View for AggregateReport {
    type V = ReportModel;

    open spec fn view(&self) -> ReportModel {
        ReportModel {
            repos: models(self.repos@),
            excluded_before: self.excluded_before as nat,
            excluded_after: self.excluded_after as nat,
        }
    }
}

/// The digest of `events` for the window `w`: for each repository that an
/// event of the window belongs to, what the events of the window say of it,
/// with each URL left in one place only; and how many events lie before and
/// after the window.
pub open spec fn digest(events: Seq<Event>, w: Window) -> ReportModel {
    ReportModel {
        repos: all_settled(gathered(events, w)),
        excluded_before: events.filter(placed(w, Placement::Before)).len(),
        excluded_after: events.filter(placed(w, Placement::After)).len(),
    }
}

/// The error for the first event of the window that lacks a part of its
/// payload.
pub open spec fn first_failure(events: Seq<Event>, w: Window) -> DigestError {
    DigestError::MalformedPayload {
        index: first_place(events, failing(w)) as usize,
        missing: decode(first(events, failing(w)))->Err_0,
    }
}

/// Folds the events into a report: the digest of the events, or, where an
/// event of the window lacks a part of its payload, the error for the first
/// such event.
pub fn parse_events(events: &Vec<Event>, window: &Window) -> (r: Result<AggregateReport, DigestError>)
    ensures
        match r {
            Ok(report) => !any(events@, failing(*window)) && report@ == digest(events@, *window),
            Err(error) => any(events@, failing(*window)) && error == first_failure(events@, *window),
        },
{
    let mut repos: StrMap<RepoActivity> = StrMap::new();
    let mut before: usize = 0;
    let mut after: usize = 0;
    let mut i: usize = 0;
    assert(models(repos@) =~= gathered(events@.take(0), *window));
    while i < events.len()
        invariant
            i <= events.len(),
            !any(events@.take(i as int), failing(*window)),
            models(repos@) == gathered(events@.take(i as int), *window),
            before == events@.take(i as int).filter(placed(*window, Placement::Before)).len(),
            after == events@.take(i as int).filter(placed(*window, Placement::After)).len(),
        decreases events.len() - i,
    {
        let e = &events[i];
        let ghost seen = events@.take(i as int);
        proof {
            events@.lemma_take_succ_push(i as int);
            seen.lemma_filter_len_push(placed(*window, Placement::Before), *e);
            seen.lemma_filter_len_push(placed(*window, Placement::After), *e);
            seen.lemma_filter_len(placed(*window, Placement::Before));
            seen.lemma_filter_len(placed(*window, Placement::After));
            lemma_any_push(seen, failing(*window), *e);
        }
        match window.placement(&e.created_at) {
            Placement::After => {
                after = after + 1;
                proof {
                    lemma_gathered_all_push(seen, *e, *window);
                }
            },
            Placement::Before => {
                before = before + 1;
                proof {
                    lemma_gathered_all_push(seen, *e, *window);
                }
            },
            Placement::Inside => {
                match classify(e) {
                    Err(missing) => {
                        proof {
                            assert(is_first(events@, failing(*window), i as int)) by {
                                assert forall|j: int| 0 <= j < i implies !failing(*window)(#[trigger] events@[j]) by {
                                    assert(seen[j] == events@[j]);
                                }
                            }
                            lemma_first_at(events@, failing(*window), i as int);
                        }
                        return Err(DigestError::MalformedPayload { index: i, missing });
                    },
                    Ok(activity) => {
                        let name = e.repo.name.as_str();
                        let ghost so_far = if repos@.contains_key(name@) {
                            repos@[name@]@
                        } else {
                            RepoModel::empty()
                        };
                        proof {
                            assert(models(repos@).contains_key(name@) == repos@.contains_key(name@));
                            if repos@.contains_key(name@) {
                                assert(models(repos@)[name@] == so_far);
                            }
                        }
                        let slot = match repos.search(name) {
                            Ok(slot) => slot,
                            Err(slot) => {
                                repos.insert_at(slot, name.to_owned(), RepoActivity::new());
                                slot
                            },
                        };
                        let ghost held = repos@;
                        proof {
                            use_type_invariant(&repos);
                            repos.lemma_wf();
                            assert(held[name@]@ == so_far);
                            seen.lemma_filter_len(pushing(*window, name@));
                        }
                        let repo = repos.value_mut(slot);
                        repo.record(activity);
                        proof {
                            lemma_gathered_all_push(seen, *e, *window);
                            assert(models(repos@) =~= gathered(seen.push(*e), *window));
                        }
                    },
                }
            },
        }
        i += 1;
    }
    assert(events@.take(i as int) == events@);
    let ghost raw = repos@;
    let ghost keys = repos.keys();
    let ghost values = repos.values();
    proof {
        use_type_invariant(&repos);
        repos.lemma_wf();
    }
    let n = repos.len();
    let mut k: usize = 0;
    while k < n
        invariant
            k <= n,
            n == keys.len(),
            n == values.len(),
            repos.keys() == keys,
            repos.values().len() == n,
            forall|j: int| 0 <= j < k ==> (#[trigger] repos.values()[j])@ == values[j]@.settled(),
            forall|j: int| k <= j < n ==> #[trigger] repos.values()[j] == values[j],
        decreases n - k,
    {
        let repo = repos.value_mut(k);
        repo.settle();
        k += 1;
    }
    proof {
        use_type_invariant(&repos);
        repos.lemma_wf();
        let done = models(repos@);
        let goal = all_settled(models(raw));
        assert forall|repo: Seq<char>| #[trigger] done.dom().contains(repo) implies done[repo] == goal[repo] by {
            let j = keys.index_of(repo);
            assert(keys[j] == repo);
            assert(repos@[keys[j]] == repos.values()[j]);
            assert(raw[keys[j]] == values[j]);
        }
        assert(done =~= goal);
    }
    Ok(AggregateReport { repos, excluded_before: before, excluded_after: after })
}

} // verus!
