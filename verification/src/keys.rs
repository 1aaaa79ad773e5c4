//! The key events the interface reacts to, freed from any terminal
//! backend: printable characters, Enter, Escape, and everything else.

use vstd::prelude::*;

verus! {

#[derive(Clone, Copy, Debug, PartialEq, Eq, Structural)]
pub enum Key {
    Char(char),
    Enter,
    Esc,
    Other,
}

} // verus!
