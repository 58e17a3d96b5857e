//! Request bookkeeping of an editor tab: the generations that let a late
//! answer of a superseded load, autosave or compare be recognized and
//! dropped, the pause of autosave, and the checks made when a load or a save
//! completes.
use vstd::prelude::*;

use crate::text::str_eq;

verus! {

/// The generation after `generation`: one more, staying at `u64::MAX` once there.
pub open spec fn next_generation_of(generation: u64) -> u64 {
    if generation < u64::MAX {
        (generation + 1) as u64
    } else {
        u64::MAX
    }
}

/// The size a loaded document is gated by: its size on disk when known,
/// else the length of its decoded text.
pub fn loaded_document_gate_size(disk_size: Option<u64>, decoded_len: usize) -> (size: u64)
    ensures
        size == match disk_size {
            Some(s) => s as int,
            None => decoded_len as int,
        },
{
    match disk_size {
        Some(size) => size,
        None => decoded_len as u64,
    }
}

/// Two optional texts are equal.
pub open spec fn same_text(a: Option<&str>, b: Option<&str>) -> bool {
    match (a, b) {
        (Some(x), Some(y)) => x@ == y@,
        (None, None) => true,
        _ => false,
    }
}

/// A save completes cleanly when nothing was edited since it started (same
/// dirty generation) and the document is still the same file (same URI).
pub fn save_completion_is_clean(
    current_dirty_generation: u64,
    start_dirty_generation: u64,
    current_uri: Option<&str>,
    start_uri: Option<&str>,
) -> (clean: bool)
    ensures
        clean == (current_dirty_generation == start_dirty_generation && same_text(current_uri, start_uri)),
{
    if current_dirty_generation != start_dirty_generation {
        return false;
    }
    match (current_uri, start_uri) {
        (Some(current), Some(start)) => str_eq(current, start),
        (None, None) => true,
        _ => false,
    }
}

/// The autosave state of a tab: the generation of the latest scheduled
/// autosave, and the message shown while autosave is paused.
#[derive(Debug, PartialEq, Eq)]
pub struct AutosaveState {
    pub generation: u64,
    pub paused_message: Option<String>,
}

impl Default for AutosaveState {
    fn default() -> (state: Self)
        ensures
            state.generation == 0,
            state.paused_message is None,
    {
        AutosaveState { generation: 0, paused_message: None }
    }
}

impl AutosaveState {
    /// Starts a new autosave generation and returns it (it stays at
    /// `u64::MAX` once there).
    pub fn next_generation(&mut self) -> (generation: u64)
        ensures
            generation == next_generation_of(old(self).generation),
            final(self).generation == generation,
            final(self).paused_message == old(self).paused_message,
    {
        self.generation = self.generation.saturating_add(1);
        self.generation
    }

    /// Pauses autosave with `message`.
    pub fn pause(&mut self, message: String)
        ensures
            final(self).paused_message == Some(message),
            final(self).generation == old(self).generation,
    {
        self.paused_message = Some(message);
    }

    /// Resumes autosave; tells whether it was paused.
    pub fn clear_pause(&mut self) -> (changed: bool)
        ensures
            changed == old(self).paused_message is Some,
            final(self).paused_message is None,
            final(self).generation == old(self).generation,
    {
        let changed = self.paused_message.is_some();
        self.paused_message = None;
        changed
    }
}

/// The generation of a tab's compare requests: each new request takes the
/// next one, so the answer of an older request can be told apart.
#[derive(Debug, Default, PartialEq, Eq)]
pub struct CompareAttachment {
    pub request_generation: u64,
}

impl CompareAttachment {
    /// Starts a new compare request and returns its generation (it stays at
    /// `u64::MAX` once there).
    pub fn next_generation(&mut self) -> (generation: u64)
        ensures
            generation == next_generation_of(old(self).request_generation),
            final(self).request_generation == generation,
    {
        self.request_generation = self.request_generation.saturating_add(1);
        self.request_generation
    }
}

/// The load and save requests of a tab: the generation of the latest
/// request, whether it is still in flight (and can be cancelled), and whether
/// the tab is loading or reloading an external change.
#[derive(Debug, Default, PartialEq, Eq)]
pub struct EditorIoState {
    pub generation: u64,
    pub request_in_flight: bool,
    pub loading: bool,
    pub external_reload_in_progress: bool,
}

impl EditorIoState {
    /// Starts a request: a new generation, in flight. Returns the generation
    /// and whether a request in flight before must be cancelled.
    pub fn start_request(&mut self) -> (started: (u64, bool))
        ensures
            started.0 == next_generation_of(old(self).generation),
            started.1 == old(self).request_in_flight,
            final(self).generation == started.0,
            final(self).request_in_flight,
            final(self).loading == old(self).loading,
            final(self).external_reload_in_progress == old(self).external_reload_in_progress,
    {
        let cancel_previous = self.request_in_flight;
        self.generation = self.generation.saturating_add(1);
        self.request_in_flight = true;
        (self.generation, cancel_previous)
    }

    /// Completes the request of `generation`: accepted only when it is the
    /// latest one, which is then no longer in flight.
    pub fn finish_request(&mut self, generation: u64) -> (accepted: bool)
        ensures
            accepted == (generation == old(self).generation),
            final(self).request_in_flight == if accepted {
                false
            } else {
                old(self).request_in_flight
            },
            final(self).generation == old(self).generation,
            final(self).loading == old(self).loading,
            final(self).external_reload_in_progress == old(self).external_reload_in_progress,
    {
        if self.generation != generation {
            return false;
        }
        self.request_in_flight = false;
        true
    }

    /// Cancels the latest request: a new generation, so its answer will be
    /// refused. Returns whether a request was in flight to cancel.
    pub fn cancel_request(&mut self) -> (cancelled: bool)
        ensures
            cancelled == old(self).request_in_flight,
            final(self).generation == next_generation_of(old(self).generation),
            !final(self).request_in_flight,
            final(self).loading == old(self).loading,
            final(self).external_reload_in_progress == old(self).external_reload_in_progress,
    {
        let cancelled = self.request_in_flight;
        self.generation = self.generation.saturating_add(1);
        self.request_in_flight = false;
        cancelled
    }
}

/// A request answers only while it is the latest: once another request has
/// started (or the latest was cancelled), which moves the generation on,
/// finishing any earlier generation is refused; short of `u64::MAX`
/// generations the new one is one more than the last.
pub proof fn lemma_superseded_requests_are_refused(current: u64, answered: u64)
    requires
        answered <= current,
        current < u64::MAX,
    ensures
        answered != next_generation_of(current),
        next_generation_of(current) == current + 1,
{
}

} // verus!
