//! Which screen of the assistant a session is showing.

use vstd::prelude::*;

verus! {

#[derive(Clone, Copy, Debug, Eq, PartialEq, Structural)]
pub enum MenuStatus {
    Main,
    Settings,
    Update,
}

} // verus!
