//! The narrow interface the input-polling collaborator implements.

use vstd::prelude::*;

verus! {

/// What a round of event polling decided: the program was asked to quit,
/// or nothing of note happened.
#[derive(Clone, Copy, Debug, PartialEq, Eq, Structural)]
pub enum EventProcessingState {
    Quit,
    Void,
}

/// An input collaborator: owns a 16-key boolean snapshot, mutates it in
/// response to physical key transitions, and lets the caller poll events.
/// The core itself only ever reads a key state.
pub trait InputDriver {
    fn press_key(&mut self, key: usize);

    fn unpress_key(&mut self, key: usize);

    fn is_pressed(&self, key: usize) -> bool;

    fn process_events(&mut self) -> EventProcessingState;
}

} // verus!
