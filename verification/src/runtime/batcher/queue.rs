//! FIFO queue of requests that admission delayed.

use std::collections::VecDeque;

use vstd::prelude::*;

use crate::runtime::types::{IncomingRequest, TokenSender};

verus! {

#[derive(Debug)]
pub struct QueueEntry {
    pub request: IncomingRequest,
    pub sender: TokenSender,
    pub ready_at_ms: u64,
}

#[derive(Debug)]
pub struct AdmissionQueue {
    pub entries: VecDeque<QueueEntry>,
}

impl View for AdmissionQueue {
    type V = Seq<QueueEntry>;

    open spec fn view(&self) -> Seq<QueueEntry> {
        self.entries@
    }
}

impl Default for AdmissionQueue {
    fn default() -> (res: Self)
        ensures
            res@.len() == 0,
    {
        AdmissionQueue { entries: VecDeque::new() }
    }
}

impl AdmissionQueue {
    pub fn new() -> (res: Self)
        ensures
            res@.len() == 0,
    {
        AdmissionQueue { entries: VecDeque::new() }
    }

    /// Adds a request at the end.
    pub fn push(&mut self, request: IncomingRequest, sender: TokenSender, ready_at_ms: u64)
        ensures
            final(self)@ == old(self)@.push(QueueEntry { request, sender, ready_at_ms }),
    {
        self.entries.push_back(QueueEntry { request, sender, ready_at_ms });
    }

    /// Takes the first request, if its time has come. The others wait behind it.
    pub fn pop_ready(&mut self, now_ms: u64) -> (res: Option<QueueEntry>)
        ensures
            if old(self)@.len() > 0 && old(self)@[0].ready_at_ms <= now_ms {
                &&& res == Some(old(self)@[0])
                &&& final(self)@ == old(self)@.drop_first()
            } else {
                &&& res is None
                &&& *final(self) == *old(self)
            },
    {
        if self.entries.len() > 0 && self.entries[0].ready_at_ms <= now_ms {
            let r = self.entries.pop_front();
            assert(self.entries@ =~= old(self)@.drop_first());
            r
        } else {
            None
        }
    }

    pub fn len(&self) -> (res: usize)
        ensures
            res == self@.len(),
    {
        self.entries.len()
    }

    pub fn is_empty(&self) -> (res: bool)
        ensures
            res == (self@.len() == 0),
    {
        self.entries.len() == 0
    }
}

} // verus!
