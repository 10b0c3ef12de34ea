//! The decisions a workflow takes around the work it hands to the workflow
//! engine: what a resolved activity or child workflow yields, whether a
//! start request succeeded, and what to do next while waiting for a
//! workflow to finish.

use vstd::prelude::*;

use crate::tasks::UiWorkflowStatusCode;

verus! {

/// How the engine resolved an activity.
#[derive(Debug, Clone, PartialEq, Eq)]
pub enum ActivityStatus {
    /// Completed, with its result payload where it has one.
    Completed(Option<Vec<u8>>),
    /// Failed.
    Failed,
    /// Cancelled.
    Cancelled,
    /// Waiting before another attempt.
    Backoff,
}

/// Why an activity yields no result.
#[derive(Debug, Clone, Copy, PartialEq, Eq)]
pub enum ActivityError {
    /// Reported successful, but with a status other than completed.
    FailedStatus,
    /// Did not complete with a result payload.
    NotCompleted,
}

/// The result payload of an activity, from whether the engine reported it
/// successful and the status it gave: the payload of a successful
/// completion that carries one; a successful report with another status is
/// a failure; anything else did not complete.
pub fn activity_result_payload(completed_ok: bool, status: Option<ActivityStatus>) -> (r: Result<Vec<u8>, ActivityError>)
    ensures
        !completed_ok ==> r == Err::<Vec<u8>, ActivityError>(ActivityError::NotCompleted),
        completed_ok ==> match status {
            Some(ActivityStatus::Completed(Some(p))) => r == Ok::<Vec<u8>, ActivityError>(p),
            Some(ActivityStatus::Completed(None)) => r == Err::<Vec<u8>, ActivityError>(ActivityError::NotCompleted),
            _ => r == Err::<Vec<u8>, ActivityError>(ActivityError::FailedStatus),
        },
{
    if !completed_ok {
        return Err(ActivityError::NotCompleted);
    }
    match status {
        Some(ActivityStatus::Completed(Some(p))) => Ok(p),
        Some(ActivityStatus::Completed(None)) => Err(ActivityError::NotCompleted),
        _ => Err(ActivityError::FailedStatus),
    }
}

/// Why the engine refused to start a child workflow.
#[derive(Debug, Clone, Copy, PartialEq, Eq)]
pub enum ChildStartFailure {
    /// A workflow with the same id exists already.
    WorkflowAlreadyExists,
    /// Any other cause.
    Unspecified,
}

/// How the engine resolved the start of a child workflow.
#[derive(Debug, Clone, Copy, PartialEq, Eq)]
pub enum ChildStartStatus {
    /// Started.
    Succeeded,
    /// Refused, for the given cause.
    Failed(ChildStartFailure),
    /// Cancelled before it started.
    Cancelled,
}

/// A child workflow after its start: running under this workflow, or run
/// before (its result is then looked up by its workflow id).
#[derive(Debug, Clone, Copy, PartialEq, Eq)]
pub enum ChildWorkflowState {
    /// Started now; its result comes from the engine when it ends.
    Running,
    /// A workflow with the same id ran already.
    AlreadyCompleted,
}

/// Why a child workflow could not be started.
#[derive(Debug, Clone, Copy, PartialEq, Eq)]
pub enum ChildStartError {
    /// Refused for a cause other than an existing workflow.
    Refused,
    /// Cancelled.
    Cancelled,
}

/// What becomes of a child workflow whose start the engine resolved as
/// `status`: a started child runs, one refused because its id exists was
/// run before (workflow ids are derived from the arguments, so it did the
/// same work), and any other outcome is an error.
pub fn child_start_state(status: ChildStartStatus) -> (r: Result<ChildWorkflowState, ChildStartError>)
    ensures
        r == match status {
            ChildStartStatus::Succeeded => Ok::<ChildWorkflowState, ChildStartError>(ChildWorkflowState::Running),
            ChildStartStatus::Failed(ChildStartFailure::WorkflowAlreadyExists) => Ok(ChildWorkflowState::AlreadyCompleted),
            ChildStartStatus::Failed(ChildStartFailure::Unspecified) => Err(ChildStartError::Refused),
            ChildStartStatus::Cancelled => Err(ChildStartError::Cancelled),
        },
{
    match status {
        ChildStartStatus::Succeeded => Ok(ChildWorkflowState::Running),
        ChildStartStatus::Failed(ChildStartFailure::WorkflowAlreadyExists) => Ok(ChildWorkflowState::AlreadyCompleted),
        ChildStartStatus::Failed(ChildStartFailure::Unspecified) => Err(ChildStartError::Refused),
        ChildStartStatus::Cancelled => Err(ChildStartError::Cancelled),
    }
}

/// How a running child workflow ended.
#[derive(Debug, Clone, PartialEq, Eq)]
pub enum ChildResultStatus {
    /// Completed, with its result payload where it has one.
    Completed(Option<Vec<u8>>),
    /// Failed.
    Failed,
    /// Cancelled.
    Cancelled,
}

/// Why a child workflow yields no result.
#[derive(Debug, Clone, Copy, PartialEq, Eq)]
pub enum ChildResultError {
    /// The engine gave no status.
    NoStatus,
    /// Completed without a result payload.
    NoPayload,
    /// Failed or was cancelled.
    ChildFailed,
}

/// The result payload of a child workflow that ran under this workflow,
/// from the status the engine gave when it ended.
pub fn child_result_payload(status: Option<ChildResultStatus>) -> (r: Result<Vec<u8>, ChildResultError>)
    ensures
        r == match status {
            None => Err::<Vec<u8>, ChildResultError>(ChildResultError::NoStatus),
            Some(ChildResultStatus::Completed(Some(p))) => Ok(p),
            Some(ChildResultStatus::Completed(None)) => Err(ChildResultError::NoPayload),
            Some(_) => Err(ChildResultError::ChildFailed),
        },
{
    match status {
        None => Err(ChildResultError::NoStatus),
        Some(ChildResultStatus::Completed(Some(p))) => Ok(p),
        Some(ChildResultStatus::Completed(None)) => Err(ChildResultError::NoPayload),
        Some(_) => Err(ChildResultError::ChildFailed),
    }
}

/// The engine's answer to a client's request to start a workflow.
#[derive(Debug, Clone, Copy, PartialEq, Eq)]
pub enum StartReply {
    /// Started.
    Started,
    /// Refused: a workflow with the same id exists already.
    AlreadyExists,
    /// Refused for another reason.
    Refused,
}

/// The engine refused to start a workflow.
#[derive(Debug, Clone, Copy, PartialEq, Eq)]
pub struct StartRefused;

/// Whether a client's start of a workflow succeeded: a workflow that
/// exists already counts as started, since its id stands for the same
/// arguments.
pub fn client_start_outcome(reply: StartReply) -> (r: Result<(), StartRefused>)
    ensures
        r is Ok <==> !(reply is Refused),
{
    match reply {
        StartReply::Refused => Err(StartRefused),
        _ => Ok(()),
    }
}

/// The next step while a client waits for a workflow to finish.
#[derive(Debug, Clone, Copy, PartialEq, Eq)]
pub enum WaitStep {
    /// Still running: wait, then ask for its status again.
    PollAgain,
    /// Completed: fetch its result.
    FetchResult,
    /// Ended otherwise: the wait fails with this status.
    Fail(UiWorkflowStatusCode),
}

/// What a client waiting for a workflow does on learning its status.
pub fn wait_step(status: UiWorkflowStatusCode) -> (r: WaitStep)
    ensures
        r == match status {
            UiWorkflowStatusCode::Running => WaitStep::PollAgain,
            UiWorkflowStatusCode::Completed => WaitStep::FetchResult,
            _ => WaitStep::Fail(status),
        },
{
    match status {
        UiWorkflowStatusCode::Running => WaitStep::PollAgain,
        UiWorkflowStatusCode::Completed => WaitStep::FetchResult,
        _ => WaitStep::Fail(status),
    }
}

} // verus!
