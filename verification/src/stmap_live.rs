//! Handing frame jobs to the map worker over bounded queues that shed their
//! oldest entry rather than block.

use crossbeam_channel::{Receiver, Sender, TrySendError};
use vstd::prelude::*;

verus! {

/// The sending end of a channel of `crossbeam_channel`; opaque here.
#[verifier::external_type_specification]
#[verifier::external_body]
#[verifier::reject_recursive_types(T)]
pub struct ExSender<T>(Sender<T>);

/// The receiving end of a channel of `crossbeam_channel`; opaque here.
#[verifier::external_type_specification]
#[verifier::external_body]
#[verifier::reject_recursive_types(T)]
pub struct ExReceiver<T>(Receiver<T>);

/// Item submitted by the capture/render scheduler.
#[derive(Clone, Copy, Debug)]
pub struct LiveFrameJob {
    pub frame_index: usize,
    /// Time of the frame in milliseconds, as a binary64 bit pattern.
    pub frame_ts_ms: u64,
}

/// How an attempt to send without blocking ended.
#[derive(Debug)]
pub enum SendOutcome<T> {
    /// The message is in the channel.
    Sent,
    /// The channel was full; the message comes back.
    Full(T),
    /// Nobody receives any more; the message comes back.
    Disconnected(T),
}

/// What became of a message handed to a queue that sheds its oldest entry.
#[derive(Clone, Copy, Debug, PartialEq, Eq, Structural)]
pub enum Submitted {
    /// Queued at the first attempt.
    Queued,
    /// The queue was full: its oldest entry was taken off, and the message
    /// was queued at the second attempt.
    QueuedAfterDrop,
    /// The queue was full, but by the time its oldest entry was to be taken
    /// off the receiver had emptied it: nothing was dropped, and the message
    /// was queued at the second attempt.
    QueuedOnRetry,
    /// The queue was full and the second attempt failed as well: the message
    /// is gone.
    Lost,
    /// Nobody receives any more: the message is gone.
    Disconnected,
}

/// What follows the first attempt to send.
#[derive(Debug)]
pub enum AfterSend<T> {
    /// The outcome stands.
    Done(Submitted),
    /// Drop the oldest entry of the queue, then send this message again.
    Retry(T),
}

/// Calls `Sender::try_send` of `crossbeam_channel`, which never blocks. The
/// message it could not send comes back unchanged. Whether there was room
/// depends on what other threads did, so nothing is claimed about which
/// outcome occurs.
#[verifier::external_body]
pub(crate) fn try_send<T>(tx: &Sender<T>, msg: T) -> (r: SendOutcome<T>)
    ensures
        r matches SendOutcome::Full(m) ==> m == msg,
        r matches SendOutcome::Disconnected(m) ==> m == msg,
{
    match tx.try_send(msg) {
        Ok(()) => SendOutcome::Sent,
        Err(TrySendError::Full(m)) => SendOutcome::Full(m),
        Err(TrySendError::Disconnected(m)) => SendOutcome::Disconnected(m),
    }
}

/// Calls `Receiver::try_recv` of `crossbeam_channel`, which never blocks: the
/// oldest message of the channel, or nothing if the channel is empty or
/// disconnected. Nothing is claimed about the result.
#[verifier::external_body]
pub(crate) fn try_recv<T>(rx: &Receiver<T>) -> (r: Option<T>) {
    rx.try_recv().ok()
}

/// Decides what follows the first attempt to send: a full queue calls for a
/// second attempt with the same message, every other outcome stands.
pub fn after_first_send<T>(first: SendOutcome<T>) -> (r: AfterSend<T>)
    ensures
        r == match first {
            SendOutcome::Sent => AfterSend::<T>::Done(Submitted::Queued),
            SendOutcome::Full(m) => AfterSend::Retry(m),
            SendOutcome::Disconnected(_) => AfterSend::<T>::Done(Submitted::Disconnected),
        },
{
    match first {
        SendOutcome::Sent => AfterSend::Done(Submitted::Queued),
        SendOutcome::Full(m) => AfterSend::Retry(m),
        SendOutcome::Disconnected(_) => AfterSend::Done(Submitted::Disconnected),
    }
}

/// Decides what the second attempt to send amounts to, given whether an
/// entry was taken off the queue before it: the message is queued, after a
/// drop or without one, or it is lost; there is no third attempt.
pub fn after_retry<T>(dropped: bool, second: SendOutcome<T>) -> (r: Submitted)
    ensures
        r == match second {
            SendOutcome::Sent => if dropped {
                Submitted::QueuedAfterDrop
            } else {
                Submitted::QueuedOnRetry
            },
            SendOutcome::Full(_) => Submitted::Lost,
            SendOutcome::Disconnected(_) => Submitted::Lost,
        },
{
    match second {
        SendOutcome::Sent => {
            if dropped {
                Submitted::QueuedAfterDrop
            } else {
                Submitted::QueuedOnRetry
            }
        },
        _ => Submitted::Lost,
    }
}

/// Sends `msg` over `tx` without blocking. If the queue is full, the oldest
/// entry is taken off through `rx`, the receiving end of the same channel,
/// and the message is sent once more. The outcome depends on what the other
/// threads at the channel do; the two decisions on the way are those of
/// `after_first_send` and `after_retry`.
pub fn send_drop_oldest<T>(tx: &Sender<T>, rx: &Receiver<T>, msg: T) -> (r: Submitted) {
    match after_first_send(try_send(tx, msg)) {
        AfterSend::Done(outcome) => outcome,
        AfterSend::Retry(m) => {
            let dropped: bool = try_recv(rx).is_some();
            after_retry(dropped, try_send(tx, m))
        },
    }
}

/// Non-blocking: submit a frame job. If the queue is full, drop the oldest
/// job to keep latency bounded.
pub fn submit_frame(tx: &Sender<LiveFrameJob>, rx: &Receiver<LiveFrameJob>, job: LiveFrameJob) -> (r:
    Submitted) {
    send_drop_oldest(tx, rx, job)
}

/// A number that changes when the size of the frames or their rate does:
/// the three values folded into a fixed seed by exclusive or. `scaled_fps` is
/// the rate as a binary64 bit pattern.
pub fn fingerprint_params(width: u64, height: u64, scaled_fps: u64) -> (h: u64)
    ensures
        h == 0xcbf29ce484222325u64 ^ (width ^ height ^ scaled_fps),
{
    0xcbf29ce484222325u64 ^ (width ^ height ^ scaled_fps)
}

} // verus!
