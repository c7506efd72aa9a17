//! Debouncing of the change events of a watched file: what the worker of a watch does
//! with each event it receives.

use vstd::prelude::*;

verus! {

/// The debounce window in nanoseconds: 60 milliseconds.
pub const DEBOUNCE_WINDOW: u64 = 60_000_000;

/// What a watch hands to its worker.
#[derive(Clone, Copy, Debug, PartialEq, Eq, Structural)]
pub enum WatchEvent {
    /// The watched file was modified.
    Modify,
    /// The watched file was created.
    Create,
    /// Anything else that happened to the watched file.
    Other,
    /// The watch reported an error in place of an event.
    Failed,
}

/// What the worker does with an event.
#[derive(Clone, Copy, Debug, PartialEq, Eq, Structural)]
pub enum Reaction {
    /// Tell the observer that the image changed.
    Forward,
    /// Do nothing.
    Ignore,
    /// End the worker.
    Stop,
}

/// Whether an event reports a change of the file's content.
pub open spec fn is_change(event: WatchEvent) -> bool {
    event == WatchEvent::Modify || event == WatchEvent::Create
}

/// Whether a notification may be forwarded at time `now`, given when the last one was:
/// always if none was forwarded yet, else once the window has passed since then.
pub open spec fn window_open(last: Option<u64>, now: u64) -> bool {
    match last {
        None => true,
        Some(t) => now - t >= DEBOUNCE_WINDOW,
    }
}

/// The reaction to `event` at time `now`: an error ends the worker; a change is forwarded
/// while the window is open and dropped while it is closed; anything else is ignored.
pub open spec fn reaction_to(last: Option<u64>, event: WatchEvent, now: u64) -> Reaction {
    if event == WatchEvent::Failed {
        Reaction::Stop
    } else if is_change(event) && window_open(last, now) {
        Reaction::Forward
    } else {
        Reaction::Ignore
    }
}

/// The time of the last forwarded notification after the reaction to an event.
pub open spec fn last_after(last: Option<u64>, event: WatchEvent, now: u64) -> Option<u64> {
    if reaction_to(last, event, now) == Reaction::Forward {
        Some(now)
    } else {
        last
    }
}

/// Of two changes that reach a fresh debouncer, the first is forwarded, and the second is
/// forwarded exactly when the window has passed since the first.
pub proof fn lemma_debounce_pair(first: WatchEvent, t1: u64, second: WatchEvent, t2: u64)
    requires
        is_change(first),
        is_change(second),
    ensures
        reaction_to(None, first, t1) == Reaction::Forward,
        reaction_to(last_after(None, first, t1), second, t2) == Reaction::Forward <==> t2 - t1
            >= DEBOUNCE_WINDOW,
        reaction_to(last_after(None, first, t1), second, t2) != Reaction::Forward
            ==> reaction_to(last_after(None, first, t1), second, t2) == Reaction::Ignore,
{
}

/// Between two forwarded notifications lies the window at least.
pub proof fn lemma_forwards_are_spaced(last: Option<u64>, event: WatchEvent, now: u64)
    requires
        last is Some,
        reaction_to(last, event, now) == Reaction::Forward,
    ensures
        now - last.unwrap() >= DEBOUNCE_WINDOW,
{
}

/// The memory of a watch worker: when it last forwarded a notification. Times are
/// nanoseconds on a clock that does not run backwards.
pub struct Debouncer {
    last_forwarded: Option<u64>,
}

impl View for Debouncer {
    type V = Option<u64>;

    closed spec fn view(&self) -> Option<u64> {
        self.last_forwarded
    }
}

impl Debouncer {
    /// A debouncer that has forwarded nothing yet.
    pub fn new() -> (d: Debouncer)
        ensures
            d@ is None,
    {
        Debouncer { last_forwarded: None }
    }

    /// When the last notification was forwarded.
    pub fn last_forwarded(&self) -> (last: Option<u64>)
        ensures
            last == self@,
    {
        self.last_forwarded
    }

    /// Decides what to do with an event that arrived at time `now`, and remembers a
    /// forwarded notification.
    pub fn on_event(&mut self, event: WatchEvent, now: u64) -> (reaction: Reaction)
        ensures
            reaction == reaction_to(old(self)@, event, now),
            final(self)@ == last_after(old(self)@, event, now),
    {
        match event {
            WatchEvent::Failed => Reaction::Stop,
            WatchEvent::Other => Reaction::Ignore,
            WatchEvent::Modify | WatchEvent::Create => {
                let open = match self.last_forwarded {
                    None => true,
                    Some(t) => now >= t && now - t >= DEBOUNCE_WINDOW,
                };
                if open {
                    self.last_forwarded = Some(now);
                    Reaction::Forward
                } else {
                    Reaction::Ignore
                }
            },
        }
    }
}

} // verus!
