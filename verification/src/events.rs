//! The handle through which a user reports its events to the test.

use vstd::prelude::*;

use tokio::sync::mpsc::UnboundedSender;

use crate::messages::{
    spec_error, spec_failure, spec_success, EventsTaskInfo, MainMessage, TaskExecutedMessage,
    UserFinishedMessage, UserPanickedMessage, UserSelfStoppedMessage, UserSpawnedMessage,
    UserUnknownStatusMessage,
};
use crate::runtime::send_unbounded;
use crate::user::{EventsUserInfo, UserStatus};

verus! {

/// How the task running a user ended.
#[derive(Debug)]
pub enum UserOutcome {
    /// The user's loop returned this status.
    Returned(UserStatus),
    /// The user panicked, with this message.
    Panicked(String),
    /// The task could not be joined for another reason.
    Failed,
}

/// The event that reports how a user ended: a user that finished or stopped
/// itself, one that panicked, or one whose task failed otherwise. A user loop
/// only ever returns `Finished` or `Cancelled`; other statuses report nothing.
pub open spec fn spec_end_message(user_info: EventsUserInfo, outcome: UserOutcome) -> Option<MainMessage> {
    match outcome {
        UserOutcome::Returned(UserStatus::Finished) => Some(
            MainMessage::UserFinished(UserFinishedMessage { user_info }),
        ),
        UserOutcome::Returned(UserStatus::Cancelled) => Some(
            MainMessage::UserSelfStopped(UserSelfStoppedMessage { user_info }),
        ),
        UserOutcome::Returned(_) => None,
        UserOutcome::Panicked(error) => Some(
            MainMessage::UserPanicked(UserPanickedMessage { user_info, _error: error }),
        ),
        UserOutcome::Failed => Some(MainMessage::UserUnknownStatus(UserUnknownStatusMessage { user_info })),
    }
}

/// The event that reports how a user ended.
pub fn end_message(user_info: EventsUserInfo, outcome: UserOutcome) -> (res: Option<MainMessage>)
    ensures
        res == spec_end_message(user_info, outcome),
{
    match outcome {
        UserOutcome::Returned(UserStatus::Finished) => Some(MainMessage::user_finished(user_info)),
        UserOutcome::Returned(UserStatus::Cancelled) => Some(MainMessage::user_self_stopped(user_info)),
        UserOutcome::Returned(_) => None,
        UserOutcome::Panicked(error) => Some(MainMessage::user_panicked(user_info, error)),
        UserOutcome::Failed => Some(MainMessage::user_unknown_status(user_info)),
    }
}

/// Sends the events of one user, tagged with that user's identity.
#[derive(Debug, Clone)]
pub struct EventsHandler {
    user_info: EventsUserInfo,
    sender: UnboundedSender<MainMessage>,
}

impl View for EventsHandler {
    type V = EventsUserInfo;

    /// The user whose events this handler sends.
    closed spec fn view(&self) -> EventsUserInfo {
        self.user_info
    }
}

impl EventsHandler {
    pub fn new(user_info: EventsUserInfo, sender: UnboundedSender<MainMessage>) -> (res: Self)
        ensures
            res@ == user_info,
    {
        EventsHandler { user_info, sender }
    }

    /// Hands `message` to the test; returns the message handed over.
    fn send(&self, message: MainMessage) -> (sent: Ghost<MainMessage>)
        ensures
            sent@ == message,
    {
        send_unbounded(&self.sender, message)
    }

    /// Reports a request to the endpoint (`endpoint_type`, `name`) that
    /// succeeded after `response_time` microseconds. Returns the event that
    /// was handed over.
    pub fn add_success(&self, endpoint_type: String, name: String, response_time: u64) -> (sent: Ghost<
        MainMessage,
    >)
        ensures
            sent@ == spec_success(self@, endpoint_type, name, response_time),
    {
        self.send(MainMessage::success(self.user_info, endpoint_type, name, response_time))
    }

    /// Reports a failed request to the endpoint (`endpoint_type`, `name`).
    /// Returns the event that was handed over.
    pub fn add_failure(&self, endpoint_type: String, name: String) -> (sent: Ghost<MainMessage>)
        ensures
            sent@ == spec_failure(self@, endpoint_type, name),
    {
        self.send(MainMessage::failure(self.user_info, endpoint_type, name))
    }

    /// Reports an error on the endpoint (`endpoint_type`, `name`). Returns the
    /// event that was handed over.
    pub fn add_error(&self, endpoint_type: String, name: String, error: String) -> (sent: Ghost<MainMessage>)
        ensures
            sent@ == spec_error(self@, endpoint_type, name, error),
    {
        self.send(MainMessage::error(self.user_info, endpoint_type, name, error))
    }

    /// Reports that the user was spawned. Returns the event handed over.
    pub fn add_user_spawned(&self) -> (sent: Ghost<MainMessage>)
        ensures
            sent@ == MainMessage::UserSpawned(UserSpawnedMessage { user_info: self@ }),
    {
        self.send(MainMessage::user_spawned(self.user_info))
    }

    /// Reports a task that the user executed. Returns the event handed over.
    pub fn add_task_executed(&self, task_info: EventsTaskInfo) -> (sent: Ghost<MainMessage>)
        ensures
            sent@ == MainMessage::TaskExecuted(TaskExecutedMessage { user_info: self@, task_info }),
    {
        self.send(MainMessage::task_executed(self.user_info, task_info))
    }

    /// Reports that the user stopped itself. Returns the event handed over.
    pub fn add_user_self_stopped(&self) -> (sent: Ghost<MainMessage>)
        ensures
            sent@ == MainMessage::UserSelfStopped(UserSelfStoppedMessage { user_info: self@ }),
    {
        self.send(MainMessage::user_self_stopped(self.user_info))
    }

    /// Reports that the user finished. Returns the event handed over.
    pub fn add_user_finished(&self) -> (sent: Ghost<MainMessage>)
        ensures
            sent@ == MainMessage::UserFinished(UserFinishedMessage { user_info: self@ }),
    {
        self.send(MainMessage::user_finished(self.user_info))
    }

    /// Reports that the user panicked with the message `error`. Returns the
    /// event handed over.
    pub fn add_user_panicked(&self, error: String) -> (sent: Ghost<MainMessage>)
        ensures
            sent@ == MainMessage::UserPanicked(UserPanickedMessage { user_info: self@, _error: error }),
    {
        self.send(MainMessage::user_panicked(self.user_info, error))
    }

    /// Reports that the user's task ended in an unknown way. Returns the event
    /// handed over.
    pub fn add_user_unknown_status(&self) -> (sent: Ghost<MainMessage>)
        ensures
            sent@ == MainMessage::UserUnknownStatus(UserUnknownStatusMessage { user_info: self@ }),
    {
        self.send(MainMessage::user_unknown_status(self.user_info))
    }

    /// Reports how the user ended, where that calls for an event. Returns the
    /// event handed over, if any.
    pub fn report_user_end(&self, outcome: UserOutcome) -> (sent: Ghost<Option<MainMessage>>)
        ensures
            sent@ == spec_end_message(self@, outcome),
    {
        match end_message(self.user_info, outcome) {
            Some(message) => {
                let sent = self.send(message);
                Ghost(Some(sent@))
            },
            None => Ghost(None),
        }
    }

    pub fn get_user_id(&self) -> (res: u64)
        ensures
            res == self@.id,
    {
        self.user_info.id
    }
}

} // verus!
