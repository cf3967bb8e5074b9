//! What one repository has seen of the user: the pull requests opened, the
//! reviews, the issue comments and the pushes.

use crate::event::{Activity, ActivityView, ReviewReaction};
use crate::strmap::StrMap;
use vstd::prelude::*;

verus! {

/// The activity in one repository. The keys of `pr_opened`, `reviewed` and
/// `commented_issues` are the URLs of the pull requests and issues.
#[derive(Debug)]
pub struct RepoActivity {
    pub pr_opened: StrMap<()>,
    pub reviewed: StrMap<ReviewReaction>,
    pub commented_issues: StrMap<()>,
    pub push_count: usize,
    /// The title under which each URL was first seen.
    pub titles: StrMap<String>,
}

/// A `RepoActivity` as sets and maps of texts.
pub struct RepoModel {
    pub pr_opened: Set<Seq<char>>,
    pub reviewed: Map<Seq<char>, ReviewReaction>,
    pub commented_issues: Set<Seq<char>>,
    pub push_count: nat,
    pub titles: Map<Seq<char>, Seq<char>>,
}

impl View for RepoActivity {
    type V = RepoModel;

    open spec fn view(&self) -> RepoModel {
        RepoModel {
            pr_opened: self.pr_opened@.dom(),
            reviewed: self.reviewed@,
            commented_issues: self.commented_issues@.dom(),
            push_count: self.push_count as nat,
            titles: self.titles@.map_values(|title: String| title@),
        }
    }
}

/// `map` with `value` for `key`, unless it holds the key already.
pub open spec fn keep_first<V>(map: Map<Seq<char>, V>, key: Seq<char>, value: V) -> Map<Seq<char>, V> {
    if map.contains_key(key) {
        map
    } else {
        map.insert(key, value)
    }
}

impl RepoModel {
    /// No activity at all.
    pub open spec fn empty() -> RepoModel {
        RepoModel {
            pr_opened: Set::empty(),
            reviewed: Map::empty(),
            commented_issues: Set::empty(),
            push_count: 0,
            titles: Map::empty(),
        }
    }

    /// The activity with one more event taken in. An entry that is there
    /// stays as it is: the first event that names a URL decides.
    pub open spec fn recorded(self, activity: ActivityView) -> RepoModel {
        match activity {
            ActivityView::Push => RepoModel { push_count: self.push_count + 1, ..self },
            ActivityView::PullRequestOpened { url, title } => RepoModel {
                pr_opened: self.pr_opened.insert(url),
                titles: keep_first(self.titles, url, title),
                ..self
            },
            ActivityView::Review { url, title, reaction } => RepoModel {
                reviewed: keep_first(self.reviewed, url, reaction),
                titles: keep_first(self.titles, url, title),
                ..self
            },
            ActivityView::IssueComment { url, title } => RepoModel {
                commented_issues: self.commented_issues.insert(url),
                titles: keep_first(self.titles, url, title),
                ..self
            },
            ActivityView::PullRequestOther => self,
            ActivityView::Other => self,
        }
    }

    /// The activity with each URL in one place only: an opened pull request
    /// is neither reviewed nor commented, and what is still reviewed is not
    /// commented.
    pub open spec fn settled(self) -> RepoModel {
        let reviewed = self.reviewed.remove_keys(self.pr_opened);
        RepoModel {
            reviewed,
            commented_issues: self.commented_issues.difference(self.pr_opened).difference(reviewed.dom()),
            ..self
        }
    }

    /// Each URL is in one place at most.
    pub open spec fn is_settled(self) -> bool {
        &&& self.pr_opened.disjoint(self.reviewed.dom())
        &&& self.pr_opened.disjoint(self.commented_issues)
        &&& self.reviewed.dom().disjoint(self.commented_issues)
    }
}

impl RepoActivity {
    /// No activity at all.
    pub fn new() -> (activity: RepoActivity)
        ensures
            activity@ == RepoModel::empty(),
    {
        let activity = RepoActivity {
            pr_opened: StrMap::new(),
            reviewed: StrMap::new(),
            commented_issues: StrMap::new(),
            push_count: 0,
            titles: StrMap::new(),
        };
        assert(activity@.pr_opened =~= Set::empty());
        assert(activity@.commented_issues =~= Set::empty());
        assert(activity@.titles =~= Map::empty());
        activity
    }

    /// Keeps `title` for `url`, unless the URL has a title already.
    fn note_title(&mut self, url: &str, title: &str)
        ensures
            final(self)@ == (RepoModel { titles: keep_first(old(self)@.titles, url@, title@), ..old(self)@ }),
    {
        match self.titles.search(url) {
            Ok(_) => {},
            Err(pos) => {
                self.titles.insert_at(pos, url.to_owned(), title.to_owned());
                assert(self@.titles =~= old(self)@.titles.insert(url@, title@));
            },
        }
    }

    /// Takes in one event of this repository.
    pub fn record(&mut self, activity: Activity<'_>)
        requires
            old(self).push_count < usize::MAX,
        ensures
            final(self)@ == old(self)@.recorded(activity@),
    {
        match activity {
            Activity::Push => {
                self.push_count = self.push_count + 1;
            },
            Activity::PullRequestOpened { url, title } => {
                self.pr_opened.insert_new(url, ());
                assert(self@.pr_opened =~= old(self)@.pr_opened.insert(url@));
                self.note_title(url, title);
            },
            Activity::Review { url, title, reaction } => {
                self.reviewed.insert_new(url, reaction);
                self.note_title(url, title);
            },
            Activity::IssueComment { url, title } => {
                self.commented_issues.insert_new(url, ());
                assert(self@.commented_issues =~= old(self)@.commented_issues.insert(url@));
                self.note_title(url, title);
            },
            Activity::PullRequestOther => {},
            Activity::Other => {},
        }
    }

    /// Leaves each URL in one place only: what was opened is taken out of
    /// the reviews and the comments, and what is then still reviewed out of
    /// the comments.
    pub fn settle(&mut self)
        ensures
            final(self)@ == old(self)@.settled(),
            final(self)@.is_settled(),
    {
        let ghost before = self@;
        let mut i: usize = 0;
        while i < self.pr_opened.len()
            invariant
                i <= self.pr_opened.keys().len(),
                self.pr_opened == old(self).pr_opened,
                self.push_count == old(self).push_count,
                self.titles == old(self).titles,
                self.reviewed@ == before.reviewed.remove_keys(self.pr_opened.keys().take(i as int).to_set()),
                self.commented_issues@.dom() == before.commented_issues.difference(
                    self.pr_opened.keys().take(i as int).to_set(),
                ),
            decreases self.pr_opened.keys().len() - i,
        {
            let ghost done = self.pr_opened.keys().take(i as int).to_set();
            let url = self.pr_opened.key_at(i);
            self.commented_issues.remove(url);
            self.reviewed.remove(url);
            proof {
                let next = self.pr_opened.keys().take(i + 1).to_set();
                assert(self.pr_opened.keys().take(i + 1) == self.pr_opened.keys().take(i as int).push(url@));
                self.pr_opened.keys().take(i as int).lemma_push_to_set_commute(url@);
                assert(self.reviewed@ =~= before.reviewed.remove_keys(next));
                assert(self.commented_issues@.dom() =~= before.commented_issues.difference(next));
            }
            i += 1;
        }
        proof {
            use_type_invariant(&self.pr_opened);
            self.pr_opened.lemma_wf();
            assert(self.pr_opened.keys().take(i as int) == self.pr_opened.keys());
        }
        let ghost opened = before.pr_opened;
        let ghost reviewed = before.reviewed.remove_keys(opened);
        let mut j: usize = 0;
        while j < self.reviewed.len()
            invariant
                j <= self.reviewed.keys().len(),
                self.pr_opened == old(self).pr_opened,
                self.push_count == old(self).push_count,
                self.titles == old(self).titles,
                self.reviewed@ == reviewed,
                self.commented_issues@.dom() == before.commented_issues.difference(opened).difference(
                    self.reviewed.keys().take(j as int).to_set(),
                ),
            decreases self.reviewed.keys().len() - j,
        {
            let ghost done = self.reviewed.keys().take(j as int).to_set();
            let url = self.reviewed.key_at(j);
            self.commented_issues.remove(url);
            proof {
                let next = self.reviewed.keys().take(j + 1).to_set();
                assert(self.reviewed.keys().take(j + 1) == self.reviewed.keys().take(j as int).push(url@));
                self.reviewed.keys().take(j as int).lemma_push_to_set_commute(url@);
                assert(self.commented_issues@.dom() =~= before.commented_issues.difference(opened).difference(
                    next,
                ));
            }
            j += 1;
        }
        proof {
            use_type_invariant(&self.reviewed);
            self.reviewed.lemma_wf();
            assert(self.reviewed.keys().take(j as int) == self.reviewed.keys());
        }
    }
}

} // verus!
