//! Every device can save its state and take it back.
use vstd::prelude::*;

verus! {

/// A device whose internal state can be saved to, and restored from, a snapshot.
///
/// Implementors pick a `State` type. The snapshot layer collects `State` from every
/// registered device and writes the state file.
pub trait Persist {
    type State;

    /// The device is in a state that can be saved.
    open spec fn can_save(&self) -> bool {
        true
    }

    /// Save device state.
    fn save(&self) -> Self::State
        requires
            self.can_save(),
    ;

    /// The device can take a state back.
    open spec fn can_restore(&self) -> bool {
        true
    }

    /// Restore device state. Called on a freshly-constructed device.
    fn restore(&mut self, state: Self::State)
        requires
            old(self).can_restore(),
    ;
}

/// Why a device could not save or restore its state.
#[derive(Debug, Clone, PartialEq, Eq)]
pub enum PersistError {
    /// The device cannot give its state; the text says why.
    Unavailable(String),
}

} // verus!
