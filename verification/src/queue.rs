//! FIFO submission queue for debug-text requests.
//!
//! Any part of the host application can enqueue a request; once per frame
//! the whole queue is taken and applied to the registry in submission
//! order. The queue itself is plain data: the host wraps one instance in
//! whatever sharing mechanism it uses across threads.

use vstd::prelude::*;

verus! {

/// One pending debug-text submission: key, message, and whether the line
/// should persist without being refreshed.
pub struct DebugRequest {
    pub key: String,
    pub message: String,
    pub persistent: bool,
}

/// Pending submissions in the order they were enqueued.
pub struct DebugQueue {
    pub items: Vec<DebugRequest>,
}

impl DebugQueue {
    /// An empty queue.
    pub fn new() -> (r: Self)
        ensures
            r.items@ =~= Seq::<DebugRequest>::empty(),
    {
        DebugQueue { items: Vec::new() }
    }

    /// Append one request at the back; nothing already queued moves.
    pub fn enqueue(&mut self, req: DebugRequest)
        ensures
            final(self).items@ == old(self).items@.push(req),
    {
        self.items.push(req);
    }

    /// Take the whole queue: returns every pending request in submission
    /// order and leaves the queue empty.
    pub fn drain(&mut self) -> (r: Vec<DebugRequest>)
        ensures
            r@ == old(self).items@,
            final(self).items@ =~= Seq::<DebugRequest>::empty(),
    {
        let mut taken: Vec<DebugRequest> = Vec::new();
        core::mem::swap(&mut taken, &mut self.items);
        taken
    }

    /// How many requests are pending.
    pub fn len(&self) -> (r: usize)
        ensures
            r == self.items@.len(),
    {
        self.items.len()
    }
}

/// Enqueue an ephemeral debug-text request: the line must be refreshed to
/// stay visible.
pub fn debug_text(queue: &mut DebugQueue, key: String, message: String)
    ensures
        final(queue).items@ == old(queue).items@.push(
            (DebugRequest { key, message, persistent: false }),
        ),
{
    queue.enqueue(DebugRequest { key, message, persistent: false });
}

/// Enqueue a persistent debug-text request: once applied, the line stays
/// until the process ends.
pub fn debug_text_persistent(queue: &mut DebugQueue, key: String, message: String)
    ensures
        final(queue).items@ == old(queue).items@.push(
            (DebugRequest { key, message, persistent: true }),
        ),
{
    queue.enqueue(DebugRequest { key, message, persistent: true });
}

} // verus!
