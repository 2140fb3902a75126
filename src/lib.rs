//! Keyboard-selected routing of MIDI event streams between port groups.
//!
//! A split route forwards one input to one of several outputs; a merge route
//! forwards one of several inputs to a single output. Switching a route never
//! leaves notes hanging: an all-notes-off burst is sent on the output that
//! stops receiving the old stream.

pub mod event;
pub mod message;
pub mod channel;
pub mod route;
pub mod router;
pub mod selection;
