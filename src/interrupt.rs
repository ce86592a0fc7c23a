use vstd::prelude::*;
use std::sync::atomic::{AtomicU64, Ordering};

verus! {

/// The ways a cancellable operation can end early.
#[derive(Clone, Copy, Debug, PartialEq, Eq, Structural)]
pub enum Interrupted {
    /// Cancellation was signalled after the scope began.
    Interrupted,
}

/// A cancellation signal shared by every holder of a connection.
///
/// Each call to `interrupt` bumps a counter; a scope remembers the counter
/// when it begins and is interrupted once the counter has moved.
pub struct InterruptHandle {
    interrupt_counter: AtomicU64,
}

/// A cancellation checkpoint taken from one handle.
#[derive(Clone, Copy, Debug, PartialEq, Eq, Structural)]
pub struct InterruptScope {
    pub start_value: u64,
}

impl InterruptScope {
    /// A scope that began when the handle's counter read `start_value`.
    pub fn new(start_value: u64) -> (r: InterruptScope)
        ensures
            r.start_value == start_value,
    {
        InterruptScope { start_value }
    }

    /// Whether the counter, now reading `current`, has moved since the scope began.
    pub fn was_interrupted_at(&self, current: u64) -> (r: bool)
        ensures
            r == (current != self.start_value),
    {
        current != self.start_value
    }

    /// Fails with `Interrupted` exactly when the counter has moved.
    pub fn err_if_interrupted_at(&self, current: u64) -> (r: Result<(), Interrupted>)
        ensures
            r is Err <==> current != self.start_value,
    {
        if self.was_interrupted_at(current) {
            Err(Interrupted::Interrupted)
        } else {
            Ok(())
        }
    }

    /// Reads the handle's counter and fails if it has moved since the scope began.
    pub fn err_if_interrupted(&self, handle: &InterruptHandle) -> (r: Result<(), Interrupted>) {
        let current = handle.current_value();
        self.err_if_interrupted_at(current)
    }
}

impl InterruptHandle {
    /// A handle that has never been interrupted.
    pub fn new() -> (r: InterruptHandle) {
        InterruptHandle { interrupt_counter: AtomicU64::new(0) }
    }

    /// The counter as it reads now; other holders may move it at any time.
    pub fn current_value(&self) -> u64 {
        self.interrupt_counter.load(Ordering::SeqCst)
    }

    /// Opens a scope at the counter's current value.
    pub fn begin_interrupt_scope(&self) -> (r: InterruptScope) {
        InterruptScope::new(self.current_value())
    }

    /// Signals every scope opened from this handle so far.
    pub fn interrupt(&self) {
        self.interrupt_counter.fetch_add(1, Ordering::SeqCst);
    }
}

} // verus!
