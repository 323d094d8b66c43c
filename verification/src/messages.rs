//! The events that users and their supervisors report to the test.

use vstd::prelude::*;

use crate::results::EndpointTypeName;
use crate::user::EventsUserInfo;

verus! {

/// The name of an executed task.
#[derive(Debug, Clone, Copy)]
pub struct EventsTaskInfo {
    pub name: &'static str,
}

/// Everything the test receives while it runs.
#[derive(Debug)]
pub enum MainMessage {
    ResultMessage(ResultMessage),
    UserSpawned(UserSpawnedMessage),
    UserSelfStopped(UserSelfStoppedMessage),
    UserFinished(UserFinishedMessage),
    UserPanicked(UserPanickedMessage),
    UserUnknownStatus(UserUnknownStatusMessage),
    TaskExecuted(TaskExecutedMessage),
}

/// The event of a request to the endpoint (`endpoint_type`, `name`) that
/// succeeded after `response_time` microseconds.
pub open spec fn spec_success(user_info: EventsUserInfo, endpoint_type: String, name: String, response_time: u64) -> MainMessage {
    MainMessage::ResultMessage(
        ResultMessage::Success(
            SuccessResultMessage {
                user_info,
                endpoint_type_name: EndpointTypeName { endpoint_type, name },
                response_time,
            },
        ),
    )
}

/// The event of a failed request to the endpoint (`endpoint_type`, `name`).
pub open spec fn spec_failure(user_info: EventsUserInfo, endpoint_type: String, name: String) -> MainMessage {
    MainMessage::ResultMessage(
        ResultMessage::Failure(
            FailureResultMessage { user_info, endpoint_type_name: EndpointTypeName { endpoint_type, name } },
        ),
    )
}

/// The event of an error on the endpoint (`endpoint_type`, `name`).
pub open spec fn spec_error(user_info: EventsUserInfo, endpoint_type: String, name: String, error: String) -> MainMessage {
    MainMessage::ResultMessage(
        ResultMessage::Error(
            ErrorResultMessage { user_info, endpoint_type_name: EndpointTypeName { endpoint_type, name }, error },
        ),
    )
}

impl MainMessage {
    /// The event of a request to the endpoint (`endpoint_type`, `name`) that
    /// succeeded after `response_time` microseconds.
    pub fn success(user_info: EventsUserInfo, endpoint_type: String, name: String, response_time: u64) -> (res:
        Self)
        ensures
            res == spec_success(user_info, endpoint_type, name, response_time),
    {
        let endpoint_type_name = EndpointTypeName { endpoint_type, name };
        MainMessage::ResultMessage(ResultMessage::Success(SuccessResultMessage { user_info, endpoint_type_name, response_time }))
    }

    /// The event of a failed request to the endpoint (`endpoint_type`, `name`).
    pub fn failure(user_info: EventsUserInfo, endpoint_type: String, name: String) -> (res: Self)
        ensures
            res == spec_failure(user_info, endpoint_type, name),
    {
        let endpoint_type_name = EndpointTypeName { endpoint_type, name };
        MainMessage::ResultMessage(ResultMessage::Failure(FailureResultMessage { user_info, endpoint_type_name }))
    }

    /// The event of an error on the endpoint (`endpoint_type`, `name`).
    pub fn error(user_info: EventsUserInfo, endpoint_type: String, name: String, error: String) -> (res: Self)
        ensures
            res == spec_error(user_info, endpoint_type, name, error),
    {
        let endpoint_type_name = EndpointTypeName { endpoint_type, name };
        MainMessage::ResultMessage(ResultMessage::Error(ErrorResultMessage { user_info, endpoint_type_name, error }))
    }

    /// The event of a user that was spawned.
    pub fn user_spawned(user_info: EventsUserInfo) -> (res: Self)
        ensures
            res == MainMessage::UserSpawned(UserSpawnedMessage { user_info }),
    {
        MainMessage::UserSpawned(UserSpawnedMessage { user_info })
    }

    /// The event of a task that a user executed.
    pub fn task_executed(user_info: EventsUserInfo, task_info: EventsTaskInfo) -> (res: Self)
        ensures
            res == MainMessage::TaskExecuted(TaskExecutedMessage { user_info, task_info }),
    {
        MainMessage::TaskExecuted(TaskExecutedMessage { user_info, task_info })
    }

    /// The event of a user that stopped itself.
    pub fn user_self_stopped(user_info: EventsUserInfo) -> (res: Self)
        ensures
            res == MainMessage::UserSelfStopped(UserSelfStoppedMessage { user_info }),
    {
        MainMessage::UserSelfStopped(UserSelfStoppedMessage { user_info })
    }

    /// The event of a user that finished because the test stopped or it had
    /// no task.
    pub fn user_finished(user_info: EventsUserInfo) -> (res: Self)
        ensures
            res == MainMessage::UserFinished(UserFinishedMessage { user_info }),
    {
        MainMessage::UserFinished(UserFinishedMessage { user_info })
    }

    /// The event of a user that panicked with the message `error`.
    pub fn user_panicked(user_info: EventsUserInfo, error: String) -> (res: Self)
        ensures
            res == MainMessage::UserPanicked(UserPanickedMessage { user_info, _error: error }),
    {
        MainMessage::UserPanicked(UserPanickedMessage { user_info, _error: error })
    }

    /// The event of a user whose task ended in an unknown way.
    pub fn user_unknown_status(user_info: EventsUserInfo) -> (res: Self)
        ensures
            res == MainMessage::UserUnknownStatus(UserUnknownStatusMessage { user_info }),
    {
        MainMessage::UserUnknownStatus(UserUnknownStatusMessage { user_info })
    }
}

#[derive(Debug)]
pub struct UserSelfStoppedMessage {
    pub user_info: EventsUserInfo,
}

#[derive(Debug)]
pub struct UserFinishedMessage {
    pub user_info: EventsUserInfo,
}

#[derive(Debug)]
pub struct UserPanickedMessage {
    pub user_info: EventsUserInfo,
    pub _error: String,
}

#[derive(Debug)]
pub struct UserUnknownStatusMessage {
    pub user_info: EventsUserInfo,
}

#[derive(Debug)]
pub struct TaskExecutedMessage {
    pub user_info: EventsUserInfo,
    pub task_info: EventsTaskInfo,
}

#[derive(Debug)]
pub struct UserSpawnedMessage {
    pub user_info: EventsUserInfo,
}

/// The outcome of one request.
#[derive(Debug)]
pub enum ResultMessage {
    Success(SuccessResultMessage),
    Failure(FailureResultMessage),
    Error(ErrorResultMessage),
}

/// A request that succeeded after `response_time` microseconds.
#[derive(Debug)]
pub struct SuccessResultMessage {
    pub user_info: EventsUserInfo,
    pub endpoint_type_name: EndpointTypeName,
    pub response_time: u64,
}

#[derive(Debug)]
pub struct FailureResultMessage {
    pub user_info: EventsUserInfo,
    pub endpoint_type_name: EndpointTypeName,
}

#[derive(Debug)]
pub struct ErrorResultMessage {
    pub user_info: EventsUserInfo,
    pub endpoint_type_name: EndpointTypeName,
    pub error: String,
}

} // verus!
