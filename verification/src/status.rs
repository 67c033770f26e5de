//! The verdict of a blocklist lookup.

use vstd::prelude::*;

verus! {

/// Whether a candidate is listed, and the reason the list gives if it gives one.
#[derive(Debug, PartialEq, Eq)]
pub enum BlockStatus {
    /// The candidate is listed. `message` is the list's explanation, absent
    /// where the list gave none.
    Blocked { message: Option<String> },
    /// The candidate is not listed.
    NotBlocked,
}

/// The mathematical value of a [`BlockStatus`]: the message as a sequence of
/// characters.
pub enum Verdict {
    Blocked { message: Option<Seq<char>> },
    NotBlocked,
}

impl View for BlockStatus {
    type V = Verdict;

    open spec fn view(&self) -> Verdict {
        match self {
            BlockStatus::Blocked { message: Some(text) } => Verdict::Blocked {
                message: Some(text@),
            },
            BlockStatus::Blocked { message: None } => Verdict::Blocked { message: None },
            BlockStatus::NotBlocked => Verdict::NotBlocked,
        }
    }
}

impl Clone for BlockStatus {
    fn clone(&self) -> (copy: Self)
        ensures
            copy@ == self@,
    {
        match self {
            BlockStatus::Blocked { message: Some(text) } => BlockStatus::Blocked {
                message: Some(text.clone()),
            },
            BlockStatus::Blocked { message: None } => BlockStatus::Blocked { message: None },
            BlockStatus::NotBlocked => BlockStatus::NotBlocked,
        }
    }
}

} // verus!
