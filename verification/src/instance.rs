use vstd::prelude::*;

verus! {

/// The language instance a request addresses.
#[derive(Clone, Copy, Debug, PartialEq, Eq, Structural)]
pub enum Instance {
    De,
    En,
    Es,
    Fr,
    Hi,
    Ta,
}

} // verus!
