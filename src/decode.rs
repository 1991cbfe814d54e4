//! One-shot hand-off of decoded values to whoever awaits them.
use vstd::prelude::*;

use crate::memory::Slice;

verus! {

/// Declares `futures::channel::oneshot::Sender`, carried opaquely in a [`DecodeOp`].
#[verifier::external_type_specification]
#[verifier::external_body]
#[verifier::reject_recursive_types(T)]
pub struct ExOneshotSender<T>(futures::channel::oneshot::Sender<T>);

/// Declares `futures::channel::oneshot::Receiver`, carried opaquely in a [`DecodeFuture`].
#[verifier::external_type_specification]
#[verifier::external_body]
#[verifier::reject_recursive_types(T)]
pub struct ExOneshotReceiver<T>(futures::channel::oneshot::Receiver<T>);

/// Declares `futures::channel::oneshot::Canceled`, the receiver's error.
#[verifier::external_type_specification]
#[verifier::external_body]
pub struct ExOneshotCanceled(futures::channel::oneshot::Canceled);

/// Relies on `futures::channel::oneshot::channel`: a connected sender and receiver.
#[verifier::external_body]
fn oneshot_channel<T>() -> (futures::channel::oneshot::Sender<T>, futures::channel::oneshot::Receiver<T>) {
    futures::channel::oneshot::channel()
}

/// Relies on `futures::channel::oneshot::Sender::send`: a dropped receiver is not an error here.
#[verifier::external_body]
fn oneshot_send<T>(chan: futures::channel::oneshot::Sender<T>, data: T) {
    let _ = chan.send(data);
}

/// Relies on `futures::channel::oneshot::Receiver::try_recv`: `Err` once the sender is gone unsent.
#[verifier::external_body]
fn oneshot_try_recv<T>(chan: &mut futures::channel::oneshot::Receiver<T>) -> (r: Result<Option<T>, DecodeError>) {
    match chan.try_recv() {
        Ok(v) => Ok(v),
        Err(_) => Err(DecodeError),
    }
}

/// The decode operation was dropped before it sent its value.
#[derive(Clone, Copy, Debug, PartialEq, Eq, Structural)]
pub struct DecodeError;

/// A pending decode of a slice, which sends the value to its [`DecodeFuture`] once.
#[verifier::reject_recursive_types(T)]
pub struct DecodeOp<T> {
    /// The slice to decode.
    pub slice: Slice,
    /// The channel to the waiter, until the value is sent.
    pub chan: Option<futures::channel::oneshot::Sender<T>>,
    /// The value handed to the channel, once sent.
    pub sent: Ghost<Option<T>>,
}

impl<T> DecodeOp<T> {
    /// Sends the value to the waiter; fails if it was already sent.
    pub fn send(&mut self, data: T) -> (r: Result<(), DecodeError>)
        ensures
            r.is_ok() == old(self).chan.is_some(),
            final(self).chan.is_none(),
            final(self).slice == old(self).slice,
            r.is_ok() ==> final(self).sent@ == Some(data),
            r.is_err() ==> final(self).sent == old(self).sent,
    {
        match self.chan.take() {
            Some(chan) => {
                let ghost g = Some(data);
                oneshot_send(chan, data);
                self.sent = Ghost(g);
                Ok(())
            },
            None => Err(DecodeError),
        }
    }
}

/// A value that resolves once its decode operation has been executed.
#[derive(Debug)]
#[verifier::reject_recursive_types(T)]
pub struct DecodeFuture<T> {
    chan: futures::channel::oneshot::Receiver<T>,
}

impl<T> DecodeFuture<T> {
    /// Creates a future and the operation that resolves it.
    pub fn new(slice: Slice) -> (r: (DecodeFuture<T>, DecodeOp<T>))
        ensures
            r.1.slice == slice,
            r.1.chan.is_some(),
            r.1.sent@.is_none(),
    {
        let (chan, recv) = oneshot_channel();
        (DecodeFuture { chan: recv }, DecodeOp { slice, chan: Some(chan), sent: Ghost(None) })
    }

    /// Returns the value if it has arrived, `None` if it has not yet.
    pub fn try_recv(&mut self) -> (r: Result<Option<T>, DecodeError>) {
        oneshot_try_recv(&mut self.chan)
    }
}

} // verus!
