//! A history listener that records every new post through a storage
//! backend.

use crate::history::{HistoryEvent, HistoryListener};
use crate::post::Post;
use crate::storage::StorageBackend;
use vstd::prelude::*;

verus! {

/// A history listener that records all new posts using a
/// [`StorageBackend`].
///
/// A failure of the backend is contained here: it never propagates into
/// the history that sent the event, so the insertion and the other
/// listeners still complete. An evicted post is left alone: the durable
/// record is the log of everything ever added, not a mirror of the live
/// window.
pub struct HistoryRecorder<T: StorageBackend> {
    storage: T,
    events: Ghost<Seq<HistoryEvent>>,
}

impl<T: StorageBackend> HistoryRecorder<T> {
    /// Initializes the recorder with a storage backend.
    pub fn new(p_storage: T) -> (r: HistoryRecorder<T>)
        ensures
            r.log() == Seq::<HistoryEvent>::empty(),
            r.storage_spec() == p_storage,
    {
        HistoryRecorder { storage: p_storage, events: Ghost(Seq::empty()) }
    }

    /// The storage backend held by this recorder.
    pub closed spec fn storage_spec(&self) -> T {
        self.storage
    }

    /// Gives the storage backend, to look at what was saved.
    pub fn storage(&self) -> (r: &T)
        ensures
            *r == self.storage_spec(),
    {
        &self.storage
    }
}

impl<T: StorageBackend> HistoryListener for HistoryRecorder<T> {
    closed spec fn log(&self) -> Seq<HistoryEvent> {
        self.events@
    }

    /// Saves the post using the storage backend. A backend failure is
    /// swallowed: the post is simply not recorded durably.
    fn post_added(&mut self, p_post: &Post) {
        match self.storage.save_post(p_post) {
            Ok(_) => {},
            Err(_) => {},
        }
        self.events = Ghost(self.events@.push(HistoryEvent::Added(p_post@)));
    }

    /// Does nothing: eviction from the live window is not removal from
    /// durable storage.
    fn post_removed(&mut self, p_post: &Post) {
        self.events = Ghost(self.events@.push(HistoryEvent::Removed(p_post@)));
    }
}

} // verus!
