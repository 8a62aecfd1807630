//! What all applications of a plan have in common.

use vstd::prelude::*;

use crate::domain::{ErrorView, ManagementError};

verus! {

/// How long after the deadline the result may still be read back, in milliseconds.
pub const RESULT_STATE_REFRESH_BUDGET: u64 = 90_000;

/// What came back from Discord.
pub enum Reply<T> {
    /// An answer came in time.
    Answered(T),
    /// The request was refused.
    Refused(ManagementError),
    /// No answer came in time.
    TimedOut,
}

/// What a reply holds.
pub enum ReplyView<V> {
    Answered(V),
    Refused(ErrorView),
    TimedOut,
}

impl<T: DeepView> DeepView for Reply<T> {
    type V = ReplyView<T::V>;

    open spec fn deep_view(&self) -> ReplyView<T::V> {
        match self {
            Reply::Answered(value) => ReplyView::Answered(value.deep_view()),
            Reply::Refused(error) => ReplyView::Refused(error.deep_view()),
            Reply::TimedOut => ReplyView::TimedOut,
        }
    }
}

/// How an application of a plan ended.
pub enum ApplyStatusView {
    Complete,
    GuildBusy,
    ReplanRequired,
    DeadlineExceeded,
    DeletionPermissionRequired,
    DeletionPermissionDenied(Seq<char>),
    CreationResponseUnknown,
    DeletionResponseUnknown,
    Failed(Seq<char>),
    ResponseUnknown,
}

/// Until when a result may be read back.
pub open spec fn refresh_until(deadline: u64) -> u64 {
    if deadline + RESULT_STATE_REFRESH_BUDGET > u64::MAX {
        u64::MAX
    } else {
        (deadline + RESULT_STATE_REFRESH_BUDGET) as u64
    }
}

/// Until when a result may be read back.
pub fn refresh_deadline(deadline: u64) -> (until: u64)
    ensures
        until == refresh_until(deadline),
{
    if deadline > u64::MAX - RESULT_STATE_REFRESH_BUDGET {
        u64::MAX
    } else {
        deadline + RESULT_STATE_REFRESH_BUDGET
    }
}

} // verus!
