//! The long-poll state of a reader connected over HTTP: at most one request
//! waits for a response, and a waiting request is answered with a ping once
//! it has waited long enough.
use std::collections::VecDeque;
use vstd::prelude::*;

verus! {

/// A waiting request is answered with a ping after this long, in microseconds.
pub const MIN_PING_TIMEOUT_MICROS: i64 = 3_000_000;

/// A request waiting for its response: when it arrived, and the handle that
/// completes it.
pub struct AwaitingResponse<T> {
    pub created: i64,
    task_completion: T,
}

impl<T> AwaitingResponse<T> {
    /// The handle that completes the request.
    pub closed spec fn task(&self) -> T {
        self.task_completion
    }
}

/// `T` completes a waiting request; `P` is a payload queued for delivery.
pub struct HttpConnectionDeliveryInfo<T, P> {
    awaiting_response: Option<AwaitingResponse<T>>,
    pub payload_to_deliver: VecDeque<P>,
}

/// A request that arrived at `created` is to be answered with a ping at `now`.
pub open spec fn ping_due(created: i64, now: i64) -> bool {
    now - created >= MIN_PING_TIMEOUT_MICROS
}

impl<T, P> HttpConnectionDeliveryInfo<T, P> {
    /// The waiting request, as the moment it arrived and its handle.
    pub closed spec fn waiting(&self) -> Option<(i64, T)> {
        match self.awaiting_response {
            Some(a) => Some((a.created, a.task_completion)),
            None => None,
        }
    }

    /// The payloads queued for delivery, first to last.
    pub closed spec fn payloads(&self) -> Seq<P> {
        self.payload_to_deliver@
    }

    pub fn new() -> (r: Self)
        ensures
            r.waiting() is None,
            r.payloads() == Seq::<P>::empty(),
    {
        Self { awaiting_response: None, payload_to_deliver: VecDeque::new() }
    }

    /// At `now`, gives the handle of a request that has waited at least
    /// `MIN_PING_TIMEOUT_MICROS`, to be answered with a ping; it stops
    /// waiting. Otherwise nothing changes.
    pub fn ping(&mut self, now: i64) -> (r: Option<T>)
        ensures
            final(self).payloads() == old(self).payloads(),
            match old(self).waiting() {
                Some((created, task)) => if ping_due(created, now) {
                    r == Some(task) && final(self).waiting() is None
                } else {
                    r is None && final(self).waiting() == old(self).waiting()
                },
                None => r is None && final(self).waiting() is None,
            },
    {
        let ping_me = match &self.awaiting_response {
            Some(item) => now as i128 - item.created as i128 >= MIN_PING_TIMEOUT_MICROS as i128,
            None => false,
        };
        if !ping_me {
            return None;
        }
        self.get_task_to_write_response()
    }

    /// The handle of the waiting request, if any; it stops waiting.
    pub fn get_task_to_write_response(&mut self) -> (r: Option<T>)
        ensures
            final(self).payloads() == old(self).payloads(),
            final(self).waiting() is None,
            match old(self).waiting() {
                Some((_, task)) => r == Some(task),
                None => r is None,
            },
    {
        let mut result = None;
        std::mem::swap(&mut self.awaiting_response, &mut result);
        match result {
            Some(awaiting) => Some(awaiting.task_completion),
            None => None,
        }
    }

    /// Whether a request is waiting for its response.
    pub fn is_waiting(&self) -> (r: bool)
        ensures
            r == (self.waiting() is Some),
    {
        self.awaiting_response.is_some()
    }

    /// Records a request that arrived at `now` and waits for its response
    /// through `task_completion`. Only one request can wait at a time.
    pub fn issue_task_completion(&mut self, task_completion: T, now: i64)
        requires
            old(self).waiting() is None,
        ensures
            final(self).waiting() == Some((now, task_completion)),
            final(self).payloads() == old(self).payloads(),
    {
        self.awaiting_response = Some(AwaitingResponse { created: now, task_completion });
    }
}

} // verus!
