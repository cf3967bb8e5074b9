//! What ends a run early.

use crate::event::PayloadField;
use crate::text::{decimal, push_decimal};
use vstd::prelude::*;
use vstd::string::*;

verus! {

#[derive(Clone, Copy, Debug, PartialEq, Eq, Structural)]
pub enum DigestError {
    /// A page with a number over `limit` still held events that qualify.
    PaginationExhausted { limit: u32 },
    /// The event at place `index` lies in the window and lacks the part
    /// `missing` of its payload.
    MalformedPayload { index: usize, missing: PayloadField },
}

/// The name of a part of the payload.
pub open spec fn field_name(field: PayloadField) -> Seq<char> {
    match field {
        PayloadField::PullRequest => "pull_request"@,
        PayloadField::Action => "action"@,
        PayloadField::Review => "review"@,
        PayloadField::Issue => "issue"@,
    }
}

impl DigestError {
    /// The error in words.
    pub open spec fn text(self) -> Seq<char> {
        match self {
            DigestError::PaginationExhausted { limit } => "Would exceed pagelimit "@ + decimal(limit as nat),
            DigestError::MalformedPayload { index, missing } => "Event "@ + decimal(index as nat)
                + " has no payload."@ + field_name(missing),
        }
    }

    /// The error in words.
    pub fn message(&self) -> (r: String)
        ensures
            r@ == self.text(),
    {
        match self {
            DigestError::PaginationExhausted { limit } => {
                let mut r = String::from_str("Would exceed pagelimit ");
                push_decimal(&mut r, *limit as usize);
                r
            },
            DigestError::MalformedPayload { index, missing } => {
                let mut r = String::from_str("Event ");
                push_decimal(&mut r, *index);
                r.append(" has no payload.");
                r.append(
                    match missing {
                        PayloadField::PullRequest => "pull_request",
                        PayloadField::Action => "action",
                        PayloadField::Review => "review",
                        PayloadField::Issue => "issue",
                    },
                );
                r
            },
        }
    }
}

} // verus!
