//! What holds of every digest.

use crate::activity::RepoModel;
use crate::digest::{
    belonging, commenting, digest, gathered, gathered_repo, naming, opening, placed, pushes, pushing,
    reaction_in, reviewing, title_in,
};
use crate::event::Event;
use crate::seqs::{
    any, is_first, lemma_all_filtered, lemma_any_rearranged, lemma_any_remove, lemma_filter_remove,
    lemma_first_at, lemma_first_remove,
};
use crate::time::{Placement, Window};
use vstd::prelude::*;

verus! {

/// The report holds a repository where an event of the window belongs to
/// it, and says of it what the events of the window say, with each URL left
/// in one place only.
pub proof fn lemma_digest_repo(events: Seq<Event>, w: Window, repo: Seq<char>)
    ensures
        digest(events, w).repos.contains_key(repo) == any(events, belonging(w, repo)),
        digest(events, w).repos.contains_key(repo) ==> digest(events, w).repos[repo] == gathered_repo(
            events,
            w,
            repo,
        ).settled(),
{
    assert(gathered(events, w).contains_key(repo) == any(events, belonging(w, repo)));
}

/// An event that does anything to a URL in a repository belongs to that
/// repository.
proof fn lemma_named_belongs(events: Seq<Event>, w: Window, repo: Seq<char>, url: Seq<char>)
    requires
        any(events, naming(w, repo, url)),
    ensures
        any(events, belonging(w, repo)),
{
    let i = choose|i: int| 0 <= i < events.len() && naming(w, repo, url)(#[trigger] events[i]);
    assert(belonging(w, repo)(events[i]));
}

/// `naming` is the three kinds together.
proof fn lemma_naming_kinds(events: Seq<Event>, w: Window, repo: Seq<char>, url: Seq<char>)
    ensures
        any(events, naming(w, repo, url)) == (any(events, opening(w, repo, url)) || any(
            events,
            reviewing(w, repo, url),
        ) || any(events, commenting(w, repo, url))),
{
    if any(events, naming(w, repo, url)) {
        let i = choose|i: int| 0 <= i < events.len() && naming(w, repo, url)(#[trigger] events[i]);
        assert(opening(w, repo, url)(events[i]) || reviewing(w, repo, url)(events[i]) || commenting(
            w,
            repo,
            url,
        )(events[i]));
    }
    if any(events, opening(w, repo, url)) {
        let i = choose|i: int| 0 <= i < events.len() && opening(w, repo, url)(#[trigger] events[i]);
        assert(naming(w, repo, url)(events[i]));
    }
    if any(events, reviewing(w, repo, url)) {
        let i = choose|i: int| 0 <= i < events.len() && reviewing(w, repo, url)(#[trigger] events[i]);
        assert(naming(w, repo, url)(events[i]));
    }
    if any(events, commenting(w, repo, url)) {
        let i = choose|i: int| 0 <= i < events.len() && commenting(w, repo, url)(#[trigger] events[i]);
        assert(naming(w, repo, url)(events[i]));
    }
}

/// Precedence. A URL that events of the window open, review or comment on
/// stands in one place of the report, and in one only: among the opened pull
/// requests where some event opens it; else among the reviewed where some
/// event reviews it; else among the commented. Nothing here depends on the
/// order of the events. A URL that no event of the window names stands
/// nowhere.
pub proof fn lemma_precedence(events: Seq<Event>, w: Window, repo: Seq<char>, url: Seq<char>)
    requires
        any(events, naming(w, repo, url)),
    ensures
        digest(events, w).repos.contains_key(repo),
        ({
            let found = digest(events, w).repos[repo];
            let opened = any(events, opening(w, repo, url));
            let reviewed = any(events, reviewing(w, repo, url));
            &&& found.pr_opened.contains(url) == opened
            &&& found.reviewed.contains_key(url) == (!opened && reviewed)
            &&& found.commented_issues.contains(url) == (!opened && !reviewed)
        }),
{
    lemma_named_belongs(events, w, repo, url);
    lemma_digest_repo(events, w, repo);
    lemma_naming_kinds(events, w, repo, url);
}

/// Every repository of a report has each URL in one place at most, and
/// names no URL that no event of the window names.
pub proof fn lemma_digest_settled(events: Seq<Event>, w: Window, repo: Seq<char>)
    requires
        digest(events, w).repos.contains_key(repo),
    ensures
        digest(events, w).repos[repo].is_settled(),
        forall|url: Seq<char>|
            {
                let found = digest(events, w).repos[repo];
                found.pr_opened.contains(url) || found.reviewed.contains_key(url)
                    || found.commented_issues.contains(url)
            } ==> any(events, naming(w, repo, url)),
{
    lemma_digest_repo(events, w, repo);
    let found = digest(events, w).repos[repo];
    assert forall|url: Seq<char>|
        found.pr_opened.contains(url) || found.reviewed.contains_key(url) || found.commented_issues.contains(
            url,
        ) implies any(events, naming(w, repo, url)) by {
        lemma_naming_kinds(events, w, repo, url);
    }
}

/// The places in which the URLs stand do not depend on the order of the
/// events: two sequences of the same events give reports with the same
/// repositories, and in each the same opened, reviewed and commented URLs.
pub proof fn lemma_order_free(a: Seq<Event>, b: Seq<Event>, w: Window, repo: Seq<char>)
    requires
        a.to_multiset() == b.to_multiset(),
    ensures
        digest(a, w).repos.contains_key(repo) == digest(b, w).repos.contains_key(repo),
        digest(a, w).repos.contains_key(repo) ==> {
            let x = digest(a, w).repos[repo];
            let y = digest(b, w).repos[repo];
            &&& x.pr_opened == y.pr_opened
            &&& x.reviewed.dom() == y.reviewed.dom()
            &&& x.commented_issues == y.commented_issues
        },
{
    lemma_digest_repo(a, w, repo);
    lemma_digest_repo(b, w, repo);
    if any(a, belonging(w, repo)) {
        lemma_any_rearranged(a, b, belonging(w, repo));
    }
    if any(b, belonging(w, repo)) {
        lemma_any_rearranged(b, a, belonging(w, repo));
    }
    if digest(a, w).repos.contains_key(repo) {
        let x = digest(a, w).repos[repo];
        let y = digest(b, w).repos[repo];
        assert forall|url: Seq<char>|
            any(a, opening(w, repo, url)) == any(b, opening(w, repo, url)) && any(a, reviewing(w, repo, url))
                == any(b, reviewing(w, repo, url)) && any(a, commenting(w, repo, url)) == any(
                b,
                commenting(w, repo, url),
            ) by {
            if any(a, opening(w, repo, url)) {
                lemma_any_rearranged(a, b, opening(w, repo, url));
            }
            if any(b, opening(w, repo, url)) {
                lemma_any_rearranged(b, a, opening(w, repo, url));
            }
            if any(a, reviewing(w, repo, url)) {
                lemma_any_rearranged(a, b, reviewing(w, repo, url));
            }
            if any(b, reviewing(w, repo, url)) {
                lemma_any_rearranged(b, a, reviewing(w, repo, url));
            }
            if any(a, commenting(w, repo, url)) {
                lemma_any_rearranged(a, b, commenting(w, repo, url));
            }
            if any(b, commenting(w, repo, url)) {
                lemma_any_rearranged(b, a, commenting(w, repo, url));
            }
        }
        assert(x.pr_opened =~= y.pr_opened);
        assert(x.reviewed.dom() =~= y.reviewed.dom());
        assert(x.commented_issues =~= y.commented_issues);
    }
}

/// The first event decides the title: where the event at place `k` is the
/// first of the window that names `url` in `repo`, the report holds for the
/// URL the title that this event gives, whatever titles later events give.
pub proof fn lemma_first_title(events: Seq<Event>, w: Window, repo: Seq<char>, url: Seq<char>, k: int)
    requires
        is_first(events, naming(w, repo, url), k),
    ensures
        digest(events, w).repos.contains_key(repo),
        digest(events, w).repos[repo].titles.contains_key(url),
        digest(events, w).repos[repo].titles[url] == title_in(events[k]),
{
    assert(naming(w, repo, url)(events[k]));
    lemma_named_belongs(events, w, repo, url);
    lemma_digest_repo(events, w, repo);
    lemma_first_at(events, naming(w, repo, url), k);
}

/// The first review decides the reaction: where no event of the window
/// opens `url` and the event at place `k` is the first that reviews it, the
/// report holds for the URL the reaction of that review.
pub proof fn lemma_first_reaction(events: Seq<Event>, w: Window, repo: Seq<char>, url: Seq<char>, k: int)
    requires
        is_first(events, reviewing(w, repo, url), k),
        !any(events, opening(w, repo, url)),
    ensures
        digest(events, w).repos.contains_key(repo),
        digest(events, w).repos[repo].reviewed.contains_key(url),
        digest(events, w).repos[repo].reviewed[url] == reaction_in(events[k]),
{
    assert(reviewing(w, repo, url)(events[k]));
    assert(naming(w, repo, url)(events[k]));
    lemma_named_belongs(events, w, repo, url);
    lemma_digest_repo(events, w, repo);
    lemma_first_at(events, reviewing(w, repo, url), k);
}

/// Pushes count, and do nothing else: where every event is a push of the
/// window to `repo`, the report says of `repo` that there were as many
/// pushes as events, and names no URL there. (With no event at all the
/// report does not hold the repository.)
pub proof fn lemma_pushes_only(events: Seq<Event>, w: Window, repo: Seq<char>)
    requires
        forall|i: int| 0 <= i < events.len() ==> pushes(#[trigger] events[i], w, repo),
    ensures
        digest(events, w).repos.contains_key(repo) == (events.len() > 0),
        events.len() > 0 ==> digest(events, w).repos[repo] == (RepoModel {
            push_count: events.len(),
            ..RepoModel::empty()
        }),
{
    lemma_digest_repo(events, w, repo);
    if events.len() == 0 {
        assert(!any(events, belonging(w, repo)));
    } else {
        assert(belonging(w, repo)(events[0]));
        let found = digest(events, w).repos[repo];
        assert forall|i: int| 0 <= i < events.len() implies pushing(w, repo)(#[trigger] events[i]) by {
            assert(pushes(events[i], w, repo));
        }
        lemma_all_filtered(events, pushing(w, repo));
        assert forall|url: Seq<char>| !any(events, naming(w, repo, url)) by {
            if any(events, naming(w, repo, url)) {
                let i = choose|i: int| 0 <= i < events.len() && naming(w, repo, url)(#[trigger] events[i]);
                assert(pushes(events[i], w, repo));
            }
        }
        assert forall|url: Seq<char>|
            !found.pr_opened.contains(url) && !found.reviewed.contains_key(url)
                && !found.commented_issues.contains(url) && !found.titles.contains_key(url) by {
            lemma_naming_kinds(events, w, repo, url);
        }
        assert(found.pr_opened =~= Set::empty());
        assert(found.reviewed =~= Map::empty());
        assert(found.commented_issues =~= Set::empty());
        assert(found.titles =~= Map::empty());
    }
}

/// An event outside the window counts, and does nothing else: with it the
/// report is what it is without it, but for one more event excluded, after
/// the window where the event is later than its end, before it otherwise.
pub proof fn lemma_outside_only_counts(events: Seq<Event>, w: Window, i: int)
    requires
        0 <= i < events.len(),
        !w.holds(events[i].created_at),
    ensures
        ({
            let with = digest(events, w);
            let without = digest(events.remove(i), w);
            let place = w.place(events[i].created_at);
            &&& with.repos == without.repos
            &&& with.excluded_after == without.excluded_after + if place == Placement::After {
                1nat
            } else {
                0nat
            }
            &&& with.excluded_before == without.excluded_before + if place == Placement::Before {
                1nat
            } else {
                0nat
            }
        }),
{
    let rest = events.remove(i);
    lemma_filter_remove(events, placed(w, Placement::After), i);
    lemma_filter_remove(events, placed(w, Placement::Before), i);
    assert forall|repo: Seq<char>|
        (#[trigger] gathered(events, w).dom().contains(repo)) == gathered(rest, w).dom().contains(repo) by {
        lemma_any_remove(events, belonging(w, repo), i);
    }
    assert forall|repo: Seq<char>| #[trigger] gathered(events, w).dom().contains(repo) implies gathered(
        events,
        w,
    )[repo] == gathered(rest, w)[repo] by {
        let x = gathered_repo(events, w, repo);
        let y = gathered_repo(rest, w, repo);
        assert forall|url: Seq<char>| (#[trigger] x.pr_opened.contains(url)) == y.pr_opened.contains(url) by {
            lemma_any_remove(events, opening(w, repo, url), i);
        }
        assert forall|url: Seq<char>|
            (#[trigger] x.commented_issues.contains(url)) == y.commented_issues.contains(url) by {
            lemma_any_remove(events, commenting(w, repo, url), i);
        }
        assert forall|url: Seq<char>| (#[trigger] x.reviewed.dom().contains(url)) == y.reviewed.dom().contains(
            url,
        ) by {
            lemma_any_remove(events, reviewing(w, repo, url), i);
        }
        assert forall|url: Seq<char>| #[trigger] x.reviewed.dom().contains(url) implies x.reviewed[url]
            == y.reviewed[url] by {
            lemma_any_remove(events, reviewing(w, repo, url), i);
            lemma_first_remove(events, reviewing(w, repo, url), i);
        }
        assert forall|url: Seq<char>| (#[trigger] x.titles.dom().contains(url)) == y.titles.dom().contains(
            url,
        ) by {
            lemma_any_remove(events, naming(w, repo, url), i);
        }
        assert forall|url: Seq<char>| #[trigger] x.titles.dom().contains(url) implies x.titles[url]
            == y.titles[url] by {
            lemma_any_remove(events, naming(w, repo, url), i);
            lemma_first_remove(events, naming(w, repo, url), i);
        }
        assert(x.pr_opened =~= y.pr_opened);
        assert(x.commented_issues =~= y.commented_issues);
        assert(x.reviewed =~= y.reviewed);
        assert(x.titles =~= y.titles);
        lemma_filter_remove(events, pushing(w, repo), i);
    }
    assert(gathered(events, w) =~= gathered(rest, w));
}

} // verus!
