use hoover3::tasks::UiWorkflowStatusCode;
use hoover3::workflow_steps::{
    activity_result_payload, child_result_payload, child_start_state, client_start_outcome, wait_step, ActivityError,
    ActivityStatus, ChildResultError, ChildResultStatus, ChildStartError, ChildStartFailure, ChildStartStatus,
    ChildWorkflowState, StartRefused, StartReply, WaitStep,
};

#[test]
fn activity_payload_only_from_successful_completion() {
    let done = Some(ActivityStatus::Completed(Some(b"{}".to_vec())));
    assert_eq!(activity_result_payload(true, done.clone()), Ok(b"{}".to_vec()));
    assert_eq!(activity_result_payload(false, done), Err(ActivityError::NotCompleted));
    assert_eq!(activity_result_payload(true, Some(ActivityStatus::Completed(None))), Err(ActivityError::NotCompleted));
    assert_eq!(activity_result_payload(true, Some(ActivityStatus::Failed)), Err(ActivityError::FailedStatus));
    assert_eq!(activity_result_payload(true, None), Err(ActivityError::FailedStatus));
    assert_eq!(activity_result_payload(false, Some(ActivityStatus::Backoff)), Err(ActivityError::NotCompleted));
}

#[test]
fn child_start_outcomes() {
    assert_eq!(child_start_state(ChildStartStatus::Succeeded), Ok(ChildWorkflowState::Running));
    assert_eq!(
        child_start_state(ChildStartStatus::Failed(ChildStartFailure::WorkflowAlreadyExists)),
        Ok(ChildWorkflowState::AlreadyCompleted)
    );
    assert_eq!(child_start_state(ChildStartStatus::Failed(ChildStartFailure::Unspecified)), Err(ChildStartError::Refused));
    assert_eq!(child_start_state(ChildStartStatus::Cancelled), Err(ChildStartError::Cancelled));
}

#[test]
fn child_result_outcomes() {
    assert_eq!(child_result_payload(Some(ChildResultStatus::Completed(Some(vec![1, 2])))), Ok(vec![1, 2]));
    assert_eq!(child_result_payload(Some(ChildResultStatus::Completed(None))), Err(ChildResultError::NoPayload));
    assert_eq!(child_result_payload(Some(ChildResultStatus::Failed)), Err(ChildResultError::ChildFailed));
    assert_eq!(child_result_payload(Some(ChildResultStatus::Cancelled)), Err(ChildResultError::ChildFailed));
    assert_eq!(child_result_payload(None), Err(ChildResultError::NoStatus));
}

#[test]
fn starting_an_existing_workflow_succeeds() {
    assert_eq!(client_start_outcome(StartReply::Started), Ok(()));
    assert_eq!(client_start_outcome(StartReply::AlreadyExists), Ok(()));
    assert_eq!(client_start_outcome(StartReply::Refused), Err(StartRefused));
}

#[test]
fn waiting_polls_until_the_workflow_ends() {
    assert_eq!(wait_step(UiWorkflowStatusCode::Running), WaitStep::PollAgain);
    assert_eq!(wait_step(UiWorkflowStatusCode::Completed), WaitStep::FetchResult);
    assert_eq!(wait_step(UiWorkflowStatusCode::Failed), WaitStep::Fail(UiWorkflowStatusCode::Failed));
    assert_eq!(wait_step(UiWorkflowStatusCode::TimedOut), WaitStep::Fail(UiWorkflowStatusCode::TimedOut));
}
