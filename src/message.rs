use vstd::prelude::*;

verus! {

/// A route change, sent from the interaction side to the processing side.
#[derive(Clone, Copy, Debug, PartialEq, Eq, Structural)]
pub enum Message {
    /// Merge route `route` is to take its events from input `index`.
    Merge(usize, usize),
    /// Split route `route` is to send its events to output `index`.
    Split(usize, usize),
}

/// Why a switch was not applied.
#[derive(Clone, Copy, Debug, PartialEq, Eq, Structural)]
pub enum SwitchError {
    /// No route has that position.
    NoSuchRoute,
    /// The route has no port at that index.
    IndexOutOfRange,
}

} // verus!
