//! The channel and cancellation primitives of the async runtime that the
//! library hands its decisions to.

use vstd::prelude::*;

use tokio::sync::mpsc::UnboundedSender;
use tokio_util::sync::CancellationToken;

verus! {

#[verifier::external_type_specification]
#[verifier::external_body]
#[verifier::reject_recursive_types(T)]
pub struct ExUnboundedSender<T>(UnboundedSender<T>);

#[verifier::external_type_specification]
#[verifier::external_body]
pub struct ExCancellationToken(CancellationToken);

/// `UnboundedSender::clone` gives another sender to the same channel; that
/// sameness is not part of any value the contracts here describe, so
/// nothing is stated.
pub assume_specification<T>[ <UnboundedSender<T> as Clone>::clone ](sender: &UnboundedSender<T>) -> UnboundedSender<T>;

/// `CancellationToken::clone` gives another handle to the same token; that
/// sameness is not part of any value the contracts here describe, so
/// nothing is stated.
pub assume_specification[ <CancellationToken as Clone>::clone ](token: &CancellationToken) -> CancellationToken;

/// Calls `UnboundedSender::send`: queues `value` for the receiving side
/// without waiting. Whether it is delivered depends on whether the receiver
/// still exists, so that is not promised and the outcome is discarded; what
/// comes back is the value that was handed over.
#[verifier::external_body]
pub(crate) fn send_unbounded<T>(sender: &UnboundedSender<T>, value: T) -> (sent: Ghost<T>)
    ensures
        sent@ == value,
{
    let sent = Ghost(value);
    let _ = sender.send(value);
    sent
}

/// Calls `CancellationToken::cancel`, which cancels the token and every token
/// derived from it; what comes back is the token that was cancelled. Whether
/// a token is cancelled is not part of its value here, so that is not stated.
#[verifier::external_body]
pub(crate) fn cancel_token(token: &CancellationToken) -> (cancelled: Ghost<CancellationToken>)
    ensures
        cancelled@ == *token,
{
    token.cancel();
    Ghost(*token)
}

} // verus!
