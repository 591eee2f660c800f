//! The externally abortable body stream: the shutdown protocol that turns a
//! silently truncated response into a visible transport error.
//!
//! A streamed response body ends cleanly only if its writer said so first,
//! by firing the shutdown flag. When the underlying source is exhausted and
//! the flag was never fired, the stream reports an abrupt close instead of a
//! clean end. The flag moves from unfired to fired exactly once and is the
//! only state the reading and writing sides share; the asynchronous polling
//! around this decision lives with the embedder.

use vstd::prelude::*;

verus! {

/// The writer's side of the shutdown flag. Firing it marks the stream's
/// next exhaustion as a clean end of stream.
#[derive(Debug)]
pub struct ShutdownHandle {
    flag: std::sync::Arc<std::sync::atomic::AtomicBool>,
}

impl ShutdownHandle {
    /// Mark the stream as deliberately finished. Idempotent: the flag only
    /// moves from unfired to fired.
    pub fn shutdown(&self) {
        self.flag.store(true, std::sync::atomic::Ordering::SeqCst);
    }
}

/// One item the wrapped source produced when polled.
pub enum SourceItem {
    /// The source yielded a chunk of body bytes.
    Data(Vec<u8>),
    /// The source reported a transport failure.
    Failed,
    /// The source is exhausted.
    End,
}

/// What the stream hands to its consumer for one source item.
#[derive(Debug)]
pub enum PollOutcome {
    /// A chunk of body bytes, passed through unchanged.
    Data(Vec<u8>),
    /// The source's own transport failure, passed through.
    Failed,
    /// A clean end of stream: the source is exhausted after `shutdown()`.
    CleanEnd,
    /// The source ended without an explicit `shutdown()`: the response was
    /// cut off and must not be taken for complete.
    AbruptClose,
}

/// How one source item is reported, given whether the shutdown flag was
/// fired when the source was seen exhausted: chunks and failures pass
/// through; exhaustion is a clean end only after `shutdown()`, otherwise an
/// abrupt close.
pub fn decide_poll(item: SourceItem, done: bool) -> (r: PollOutcome)
    ensures
        item matches SourceItem::Data(d) ==> r matches PollOutcome::Data(o) && o@ == d@,
        item is Failed ==> r is Failed,
        item is End && done ==> r is CleanEnd,
        item is End && !done ==> r is AbruptClose,
{
    match item {
        SourceItem::Data(d) => PollOutcome::Data(d),
        SourceItem::Failed => PollOutcome::Failed,
        SourceItem::End => {
            if done {
                PollOutcome::CleanEnd
            } else {
                PollOutcome::AbruptClose
            }
        },
    }
}

/// The stream's side of the shutdown flag. The embedder polls the real
/// source and passes each item through `next_outcome`.
#[derive(Debug)]
pub struct ExternallyAbortableReaderStream {
    done: std::sync::Arc<std::sync::atomic::AtomicBool>,
}

impl ExternallyAbortableReaderStream {
    /// A fresh stream and the handle that can mark it finished. The two
    /// sides share one flag, initially unfired.
    pub fn new() -> (ExternallyAbortableReaderStream, ShutdownHandle) {
        let flag = std::sync::Arc::new(std::sync::atomic::AtomicBool::new(false));
        let stream = ExternallyAbortableReaderStream { done: flag.clone() };
        (stream, ShutdownHandle { flag })
    }

    /// Report one source item to the consumer, reading the shutdown flag at
    /// the moment of exhaustion. Chunks and failures always pass through;
    /// exhaustion becomes either a clean end or an abrupt close.
    pub fn next_outcome(&self, item: SourceItem) -> (r: PollOutcome)
        ensures
            item matches SourceItem::Data(d) ==> r matches PollOutcome::Data(o) && o@ == d@,
            item is Failed ==> r is Failed,
            item is End ==> r is CleanEnd || r is AbruptClose,
    {
        let done = self.done.load(std::sync::atomic::Ordering::SeqCst);
        decide_poll(item, done)
    }
}

} // verus!
