//! What a failed request to Discord means.

use vstd::prelude::*;

use crate::domain::{ErrorView, ManagementError};
use crate::port::{ChannelCreateOutcome, ChannelCreateOutcomeView, ChannelDeleteOutcome, ChannelUpdateOutcome};
use crate::value::seen;

verus! {

/// How a request failed.
#[derive(Debug)]
pub enum RequestFailure {
    /// It may have been carried out: the connection broke before an answer came.
    Lost(String),
    /// It was forbidden, with what is said of it.
    Forbidden(String),
    /// Something else, with what is said of it.
    Other(String),
}

/// How a request failed.
pub enum FailureView {
    Lost(Seq<char>),
    Forbidden(Seq<char>),
    Other(Seq<char>),
}

impl DeepView for RequestFailure {
    type V = FailureView;

    open spec fn deep_view(&self) -> FailureView {
        match self {
            RequestFailure::Lost(text) => FailureView::Lost(text@),
            RequestFailure::Forbidden(text) => FailureView::Forbidden(text@),
            RequestFailure::Other(text) => FailureView::Other(text@),
        }
    }
}

/// What a change of a channel came to, or why it was refused, given what it comes to
/// where it may have been made.
pub open spec fn channel_failure<W>(failure: FailureView, unknown: W) -> Result<W, ErrorView> {
    match failure {
        FailureView::Lost(_) => Ok(unknown),
        FailureView::Forbidden(text) => Err(ErrorView::ChannelPermissionDenied(text)),
        FailureView::Other(text) => Err(ErrorView::ChannelSource(text)),
    }
}

/// Why the channels of a guild could not be read.
pub fn map_channel_catalog_error(failure: RequestFailure) -> (error: ManagementError)
    ensures
        error.deep_view() == match failure.deep_view() {
            FailureView::Lost(text) => ErrorView::ChannelSource(text),
            FailureView::Forbidden(text) => ErrorView::ChannelCatalogPermissionDenied(text),
            FailureView::Other(text) => ErrorView::ChannelSource(text),
        },
{
    match failure {
        RequestFailure::Lost(text) => ManagementError::ChannelSource(text),
        RequestFailure::Forbidden(text) => ManagementError::ChannelCatalogPermissionDenied(text),
        RequestFailure::Other(text) => ManagementError::ChannelSource(text),
    }
}

/// What a failed update of a channel means.
pub fn map_channel_update_error(failure: RequestFailure) -> (result: Result<ChannelUpdateOutcome, ManagementError>)
    ensures
        seen(result) == channel_failure(failure.deep_view(), ChannelUpdateOutcome::ResponseUnknown),
{
    match failure {
        RequestFailure::Lost(_) => Ok(ChannelUpdateOutcome::ResponseUnknown),
        RequestFailure::Forbidden(text) => Err(ManagementError::ChannelPermissionDenied(text)),
        RequestFailure::Other(text) => Err(ManagementError::ChannelSource(text)),
    }
}

/// What a failed creation of a channel means.
pub fn map_channel_create_error(failure: RequestFailure) -> (result: Result<ChannelCreateOutcome, ManagementError>)
    ensures
        seen(result) == channel_failure(failure.deep_view(), ChannelCreateOutcomeView::ResponseUnknown),
{
    match failure {
        RequestFailure::Lost(_) => Ok(ChannelCreateOutcome::ResponseUnknown),
        RequestFailure::Forbidden(text) => Err(ManagementError::ChannelPermissionDenied(text)),
        RequestFailure::Other(text) => Err(ManagementError::ChannelSource(text)),
    }
}

/// What a failed deletion of a channel means.
pub fn map_channel_delete_error(failure: RequestFailure) -> (result: Result<ChannelDeleteOutcome, ManagementError>)
    ensures
        seen(result) == channel_failure(failure.deep_view(), ChannelDeleteOutcome::ResponseUnknown),
{
    match failure {
        RequestFailure::Lost(_) => Ok(ChannelDeleteOutcome::ResponseUnknown),
        RequestFailure::Forbidden(text) => Err(ManagementError::ChannelPermissionDenied(text)),
        RequestFailure::Other(text) => Err(ManagementError::ChannelSource(text)),
    }
}

/// A request that was lost may have been carried out, so it is never told as refused. Every
/// other failure is an error with what was said of it, and one that was forbidden is told from
/// all others.
pub proof fn failures_are_told_apart<W>(failure: FailureView, unknown: W)
    ensures
        channel_failure(failure, unknown) is Ok <==> failure is Lost,
        failure is Lost ==> channel_failure(failure, unknown)->Ok_0 == unknown,
        failure is Forbidden ==> channel_failure(failure, unknown)->Err_0 == ErrorView::ChannelPermissionDenied(
            failure->Forbidden_0,
        ),
        failure is Other ==> channel_failure(failure, unknown)->Err_0 == ErrorView::ChannelSource(failure->Other_0),
{
}

} // verus!
