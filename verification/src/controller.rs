//! The controls handed to users: stopping the whole test, stopping oneself,
//! and reporting results.

use vstd::prelude::*;

use std::sync::Arc;
use tokio_util::sync::CancellationToken;

use crate::events::EventsHandler;
use crate::messages::{spec_error, spec_failure, spec_success, MainMessage};
use crate::runtime::cancel_token;
use crate::user::EventsUserInfo;

verus! {

/// Stops the whole test.
#[derive(Clone)]
pub struct TestController {
    token: CancellationToken,
}

impl TestController {
    /// The token that this controller cancels.
    pub closed spec fn spec_token(&self) -> CancellationToken {
        self.token
    }

    pub fn new(token: CancellationToken) -> (res: Self)
        ensures
            res.spec_token() == token,
    {
        TestController { token }
    }

    /// Cancels the test's token: every user, the timer, the server and the
    /// background tasks stop. Returns the token that was cancelled.
    pub fn stop(&self) -> (cancelled: Ghost<CancellationToken>)
        ensures
            cancelled@ == self.spec_token(),
    {
        cancel_token(&self.token)
    }

    /// The token that `stop` cancels.
    pub fn get_token(&self) -> (res: &CancellationToken)
        ensures
            *res == self.spec_token(),
    {
        &self.token
    }
}

/// Stops one user.
#[derive(Clone)]
pub struct UserController {
    token: Arc<CancellationToken>,
}

impl UserController {
    /// The token that this controller cancels.
    pub closed spec fn spec_token(&self) -> Arc<CancellationToken> {
        self.token
    }

    pub fn new(token: Arc<CancellationToken>) -> (res: Self)
        ensures
            res.spec_token() == token,
    {
        UserController { token }
    }

    /// Cancels the user's own token: the user stops after its current task.
    /// Returns the token that was cancelled.
    pub fn stop(&self) -> (cancelled: Ghost<CancellationToken>)
        ensures
            cancelled@ == *self.spec_token(),
    {
        cancel_token(&self.token)
    }
}

/// What each user receives: the test's controller (shared by all users), its
/// own events handler and its own controller.
pub struct Context {
    test_controller: Arc<TestController>,
    events_handler: EventsHandler,
    user_controller: UserController,
}

impl View for Context {
    type V = EventsUserInfo;

    /// The user this context belongs to.
    closed spec fn view(&self) -> EventsUserInfo {
        self.events_handler@
    }
}

impl Context {
    /// The controller of the whole test.
    pub closed spec fn spec_test_controller(&self) -> TestController {
        *self.test_controller
    }

    /// The user's own controller.
    pub closed spec fn spec_user_controller(&self) -> UserController {
        self.user_controller
    }

    /// The handler through which the user reports its events.
    pub closed spec fn spec_events_handler(&self) -> EventsHandler {
        self.events_handler
    }

    pub fn new(
        test_controller: Arc<TestController>,
        events_handler: EventsHandler,
        user_controller: UserController,
    ) -> (res: Self)
        ensures
            res@ == events_handler@,
            res.spec_test_controller() == *test_controller,
            res.spec_events_handler() == events_handler,
            res.spec_user_controller() == user_controller,
    {
        Context { test_controller, events_handler, user_controller }
    }

    /// Stops this user, and only this user: its own token is cancelled, the
    /// test goes on. Returns the token that was cancelled.
    pub fn stop(&self) -> (cancelled: Ghost<CancellationToken>)
        ensures
            cancelled@ == *self.spec_user_controller().spec_token(),
    {
        self.user_controller.stop()
    }

    /// Stops the whole test: the test's token is cancelled. Returns the token
    /// that was cancelled.
    pub fn stop_test(&self) -> (cancelled: Ghost<CancellationToken>)
        ensures
            cancelled@ == self.spec_test_controller().spec_token(),
    {
        self.test_controller.stop()
    }

    /// Reports a request that succeeded after `response_time` microseconds.
    /// Returns the event that was handed over.
    pub fn add_success(&self, endpoint_type: String, name: String, response_time: u64) -> (sent: Ghost<
        MainMessage,
    >)
        ensures
            sent@ == spec_success(self@, endpoint_type, name, response_time),
    {
        self.events_handler.add_success(endpoint_type, name, response_time)
    }

    /// Reports a failed request. Returns the event that was handed over.
    pub fn add_failure(&self, endpoint_type: String, name: String) -> (sent: Ghost<MainMessage>)
        ensures
            sent@ == spec_failure(self@, endpoint_type, name),
    {
        self.events_handler.add_failure(endpoint_type, name)
    }

    /// Reports an error. Returns the event that was handed over.
    pub fn add_error(&self, endpoint_type: String, name: String, error: String) -> (sent: Ghost<MainMessage>)
        ensures
            sent@ == spec_error(self@, endpoint_type, name, error),
    {
        self.events_handler.add_error(endpoint_type, name, error)
    }

    pub fn get_events_handler(&self) -> (res: &EventsHandler)
        ensures
            res@ == self@,
    {
        &self.events_handler
    }

    /// The id of this user.
    pub fn get_id(&self) -> (res: u64)
        ensures
            res == self@.id,
    {
        self.events_handler.get_user_id()
    }
}

} // verus!
