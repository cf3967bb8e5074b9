//! A digest of one user's public activity on a code-hosting platform: the
//! events of a time window, folded into one summary per repository.
//!
//! `fetch` decides how far to walk the pages of the event feed, `digest`
//! folds the events into a report, `laws` states what holds of every report,
//! and `render` turns a report into text.

pub mod activity;
pub mod digest;
pub mod error;
pub mod event;
pub mod fetch;
pub mod laws;
pub mod render;
pub mod seqs;
pub mod strmap;
pub mod text;
pub mod time;

pub use activity::RepoActivity;
pub use digest::{parse_events, AggregateReport};
pub use error::DigestError;
pub use event::{
    classify, Activity, Actor, Comment, Event, Issue, Payload, PayloadField, PullRequest, Repo, Review,
    ReviewReaction,
};
pub use fetch::{Fetch, Step, PAGE_LIMIT};
pub use render::{link, render_events};
pub use strmap::StrMap;
pub use time::{report_days, Placement, ReportDays, Timestamp, Window};
