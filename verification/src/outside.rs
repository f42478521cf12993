//! What is taken from outside crates without proof, and how it is called where a contract has to
//! say that values came from one call.

use tokio::sync::{mpsc, oneshot};
use vstd::prelude::*;

verus! {

/// `uuid::Uuid`, which is only carried: nothing is known of what is inside.
#[verifier::external_type_specification]
#[verifier::external_body]
pub struct ExUuid(uuid::Uuid);

/// `tokio::sync::mpsc::Sender`, which is only carried: nothing is known of what is inside.
#[verifier::external_type_specification]
#[verifier::external_body]
#[verifier::reject_recursive_types(T)]
pub struct ExMpscSender<T>(mpsc::Sender<T>);

/// `tokio::sync::mpsc::Receiver`, which is only carried: nothing is known of what is inside.
#[verifier::external_type_specification]
#[verifier::external_body]
#[verifier::reject_recursive_types(T)]
pub struct ExMpscReceiver<T>(mpsc::Receiver<T>);

/// `tokio::sync::oneshot::Sender`, which is only carried: nothing is known of what is inside.
#[verifier::external_type_specification]
#[verifier::external_body]
#[verifier::reject_recursive_types(T)]
pub struct ExOneshotSender<T>(oneshot::Sender<T>);

/// `tokio::sync::oneshot::Receiver`, which is only carried: nothing is known of what is inside.
#[verifier::external_type_specification]
#[verifier::external_body]
#[verifier::reject_recursive_types(T)]
pub struct ExOneshotReceiver<T>(oneshot::Receiver<T>);

/// `tokio::sync::oneshot::error::RecvError`, which is only carried: nothing is known of what is
/// inside.
#[verifier::external_type_specification]
#[verifier::external_body]
pub struct ExRecvError(oneshot::error::RecvError);

/// `tokio::sync::mpsc::Sender::clone` clones the `Arc` of the channel, so that the clone sends into
/// the same channel: as with `Arc`, it is the same value as the sender.
pub assume_specification<T>[ <mpsc::Sender<T> as Clone>::clone ](
    sender: &mpsc::Sender<T>,
) -> (cloned: mpsc::Sender<T>)
    ensures
        cloned == *sender,
;

/// `tokio::sync::oneshot::channel` makes a new channel for a single message, on every input. That
/// what is sent into the one end comes out of the other is left unsaid.
pub assume_specification<T>[ oneshot::channel::<T> ]() -> (ends: (
    oneshot::Sender<T>,
    oneshot::Receiver<T>,
));

/// `tokio::sync::mpsc::channel` makes a new channel for up to `buffer` waiting messages. It panics
/// if there is no room for a message, or for more than `tokio::sync::Semaphore::MAX_PERMITS`
/// messages, which is `usize::MAX >> 3`. That what is sent into the one end comes out of the other
/// is left unsaid.
pub assume_specification<T>[ mpsc::channel::<T> ](buffer: usize) -> (ends: (
    mpsc::Sender<T>,
    mpsc::Receiver<T>,
))
    requires
        0 < buffer <= usize::MAX / 8,
;

/// Calls `f`, and says that the result is that of one call of `f`.
pub(crate) fn result_of_call<R, F: FnOnce() -> R>(f: F) -> (result: R)
    requires
        call_requires(f, ()),
    ensures
        call_ensures(f, (), result),
{
    f()
}

/// Calls `f` with `arg`, and says that the result is that of one call of `f` with `arg`.
pub(crate) fn result_of_call_with<A, R, F: FnOnce(A) -> R>(f: F, arg: A) -> (result: R)
    requires
        call_requires(f, (arg,)),
    ensures
        call_ensures(f, (arg,), result),
{
    f(arg)
}

} // verus!
