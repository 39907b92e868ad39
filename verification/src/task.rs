//! Handles of spawned futures.

use vstd::prelude::*;

verus! {

/// A spawned future.
///
/// The task keeps the join handle `H` of the future. A task that is dropped while it keeps its
/// handle gets canceled; one that has given it up, because it was detached or canceled, does not.
#[must_use]
#[derive(Debug)]
pub struct Task<H>(Option<H>);

impl<H> View for Task<H> {
    type V = Option<H>;

    /// The handle, as long as the task keeps it.
    closed spec fn view(&self) -> Option<H> {
        self.0
    }
}

impl<H> Task<H> {
    /// Creates a task that keeps `handle`.
    pub fn new(handle: H) -> (task: Task<H>)
        ensures
            task@ == Some(handle),
    {
        Task(Some(handle))
    }

    /// Detaches the task to let it keep running in the background.
    ///
    /// Returns the handle, which the caller drops without canceling.
    pub fn detach(&mut self) -> (handle: H)
        requires
            old(self)@ is Some,
        ensures
            old(self)@ == Some(handle),
            final(self)@ is None,
    {
        self.0.take().unwrap()
    }

    /// Cancels the task.
    ///
    /// Returns the handle, which the caller cancels and waits for.
    pub fn cancel(&mut self) -> (handle: H)
        requires
            old(self)@ is Some,
        ensures
            old(self)@ == Some(handle),
            final(self)@ is None,
    {
        self.0.take().unwrap()
    }

    /// Returns the handle that has to be canceled when the task is dropped.
    pub fn drop(&self) -> (handle: Option<&H>)
        ensures
            self@ matches Some(kept) ==> handle == Some(&kept),
            self@ is None ==> handle is None,
    {
        match &self.0 {
            Some(handle) => Some(handle),
            None => None,
        }
    }

    /// Returns the handle that has to be polled for the output of the future.
    pub fn poll(&mut self) -> (handle: &mut H)
        requires
            old(self)@ is Some,
        ensures
            old(self)@ == Some(*handle),
            final(self)@ == Some(*final(handle)),
    {
        self.0.as_mut().unwrap()
    }
}

} // verus!
