use vstd::prelude::*;

use crate::instance::Instance;

verus! {

/// Input of the navigation query: which instance's tree to assemble.
#[derive(Clone, Copy, Debug)]
pub struct Payload {
    pub instance: Instance,
}

} // verus!
