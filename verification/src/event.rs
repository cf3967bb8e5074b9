//! Activity events as the platform's feed gives them, and what each of them
//! stands for.

use crate::text::same_text;
use crate::time::Timestamp;
use vstd::prelude::*;

verus! {

/// Who did it.
#[derive(Debug, Clone)]
pub struct Actor {
    pub id: u64,
    pub login: String,
}

/// A review of a pull request.
#[derive(Debug, Clone)]
pub struct Review {
    pub pull_request_url: String,
    pub submitted_at: Timestamp,
    pub state: String,
}

/// The pull request that an event is about. `html_url` is the address of its
/// page, and the key under which a report holds it.
#[derive(Debug, Clone)]
pub struct PullRequest {
    pub url: String,
    pub html_url: String,
    pub title: String,
}

/// A comment on an issue or on a pull request.
#[derive(Debug, Clone)]
pub struct Comment {
    pub url: String,
    pub html_url: String,
    pub issue_url: Option<String>,
}

/// The issue that a comment belongs to. `html_url` is the address of its
/// page, and the key under which a report holds it.
#[derive(Debug, Clone)]
pub struct Issue {
    pub url: String,
    pub title: String,
    pub html_url: String,
}

/// What an event carries; which parts are there depends on its type.
#[derive(Debug, Clone)]
pub struct Payload {
    pub action: Option<String>,
    pub review: Option<Review>,
    pub pull_request: Option<PullRequest>,
    pub issue: Option<Issue>,
    pub comment: Option<Comment>,
    pub git_ref: Option<String>,
}

/// The repository in which it happened; `name` is owner and name, as in
/// `rust-lang/rust`.
#[derive(Debug, Clone)]
pub struct Repo {
    pub id: u64,
    pub name: String,
    pub url: String,
}

/// One event of the feed. `typ` is its type as the platform names it, such as
/// `PushEvent`.
#[derive(Debug, Clone)]
pub struct Event {
    pub id: String,
    pub typ: String,
    pub actor: Actor,
    pub repo: Repo,
    pub payload: Payload,
    pub created_at: Timestamp,
}

/// How a review ended.
#[derive(Clone, Copy, Debug, PartialEq, Eq, Structural)]
pub enum ReviewReaction {
    Approved,
    Other,
}

/// A part of the payload that an event of some type must carry.
#[derive(Clone, Copy, Debug, PartialEq, Eq, Structural)]
pub enum PayloadField {
    PullRequest,
    Action,
    Review,
    Issue,
}

/// What an event stands for, with the target that it names.
#[derive(Clone, Copy, Debug)]
pub enum Activity<'a> {
    Push,
    PullRequestOpened { url: &'a str, title: &'a str },
    /// A pull request event with an action other than "opened".
    PullRequestOther,
    Review { url: &'a str, title: &'a str, reaction: ReviewReaction },
    IssueComment { url: &'a str, title: &'a str },
    /// An event of a type that the digest leaves aside.
    Other,
}

/// An `Activity` with the text of its strings.
pub enum ActivityView {
    Push,
    PullRequestOpened { url: Seq<char>, title: Seq<char> },
    PullRequestOther,
    Review { url: Seq<char>, title: Seq<char>, reaction: ReviewReaction },
    IssueComment { url: Seq<char>, title: Seq<char> },
    Other,
}

impl<'a> View for Activity<'a> {
    type V = ActivityView;

    open spec fn view(&self) -> ActivityView {
        match *self {
            Activity::Push => ActivityView::Push,
            Activity::PullRequestOpened { url, title } => ActivityView::PullRequestOpened {
                url: url@,
                title: title@,
            },
            Activity::PullRequestOther => ActivityView::PullRequestOther,
            Activity::Review { url, title, reaction } => ActivityView::Review {
                url: url@,
                title: title@,
                reaction,
            },
            Activity::IssueComment { url, title } => ActivityView::IssueComment {
                url: url@,
                title: title@,
            },
            Activity::Other => ActivityView::Other,
        }
    }
}

impl ActivityView {
    /// The URL of the pull request or issue that the activity is about, and
    /// its title.
    pub open spec fn target(self) -> Option<(Seq<char>, Seq<char>)> {
        match self {
            ActivityView::PullRequestOpened { url, title } => Some((url, title)),
            ActivityView::Review { url, title, .. } => Some((url, title)),
            ActivityView::IssueComment { url, title } => Some((url, title)),
            _ => None,
        }
    }
}

/// The reaction that a review's state stands for.
pub open spec fn reaction_of(state: Seq<char>) -> ReviewReaction {
    if state == "approved"@ {
        ReviewReaction::Approved
    } else {
        ReviewReaction::Other
    }
}

/// What `e` stands for, by its type: or the part of the payload that an
/// event of its type must carry and `e` lacks.
pub open spec fn decode(e: Event) -> Result<ActivityView, PayloadField> {
    if e.typ@ == "PushEvent"@ {
        Ok(ActivityView::Push)
    } else if e.typ@ == "PullRequestEvent"@ {
        match (e.payload.pull_request, e.payload.action) {
            (None, _) => Err(PayloadField::PullRequest),
            (Some(_), None) => Err(PayloadField::Action),
            (Some(pr), Some(action)) => if action@ == "opened"@ {
                Ok(ActivityView::PullRequestOpened { url: pr.html_url@, title: pr.title@ })
            } else {
                Ok(ActivityView::PullRequestOther)
            },
        }
    } else if e.typ@ == "PullRequestReviewEvent"@ {
        match (e.payload.review, e.payload.pull_request) {
            (None, _) => Err(PayloadField::Review),
            (Some(_), None) => Err(PayloadField::PullRequest),
            (Some(review), Some(pr)) => Ok(
                ActivityView::Review {
                    url: pr.html_url@,
                    title: pr.title@,
                    reaction: reaction_of(review.state@),
                },
            ),
        }
    } else if e.typ@ == "IssueCommentEvent"@ {
        match e.payload.issue {
            None => Err(PayloadField::Issue),
            Some(issue) => Ok(ActivityView::IssueComment { url: issue.html_url@, title: issue.title@ }),
        }
    } else {
        Ok(ActivityView::Other)
    }
}

/// Reads an event: what it stands for, or which part of its payload is
/// missing.
pub fn classify<'a>(e: &'a Event) -> (r: Result<Activity<'a>, PayloadField>)
    ensures
        match r {
            Ok(activity) => decode(*e) == Ok::<ActivityView, PayloadField>(activity@),
            Err(field) => decode(*e) == Err::<ActivityView, PayloadField>(field),
        },
{
    let typ = e.typ.as_str();
    if same_text(typ, "PushEvent") {
        Ok(Activity::Push)
    } else if same_text(typ, "PullRequestEvent") {
        match &e.payload.pull_request {
            None => Err(PayloadField::PullRequest),
            Some(pr) => match &e.payload.action {
                None => Err(PayloadField::Action),
                Some(action) => if same_text(action.as_str(), "opened") {
                    Ok(Activity::PullRequestOpened { url: pr.html_url.as_str(), title: pr.title.as_str() })
                } else {
                    Ok(Activity::PullRequestOther)
                },
            },
        }
    } else if same_text(typ, "PullRequestReviewEvent") {
        match &e.payload.review {
            None => Err(PayloadField::Review),
            Some(review) => match &e.payload.pull_request {
                None => Err(PayloadField::PullRequest),
                Some(pr) => {
                    let reaction = if same_text(review.state.as_str(), "approved") {
                        ReviewReaction::Approved
                    } else {
                        ReviewReaction::Other
                    };
                    Ok(Activity::Review { url: pr.html_url.as_str(), title: pr.title.as_str(), reaction })
                },
            },
        }
    } else if same_text(typ, "IssueCommentEvent") {
        match &e.payload.issue {
            None => Err(PayloadField::Issue),
            Some(issue) => Ok(
                Activity::IssueComment { url: issue.html_url.as_str(), title: issue.title.as_str() },
            ),
        }
    } else {
        Ok(Activity::Other)
    }
}

} // verus!
