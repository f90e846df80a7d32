//! The keys of the keyboard, as far as the engine tells them apart.

use vstd::prelude::*;

verus! {

/// The keys that the engine acts on.
#[derive(Clone, Copy, Debug, PartialEq, Eq)]
pub enum Key {
    /// A character key.
    Char(char),
    Left,
    Right,
    Up,
    Down,
    Enter,
    /// Any other key.
    Other,
}

} // verus!
