use vstd::prelude::*;

verus! {

/// Input of the object query: which addressed object to resolve.
#[derive(Clone, Copy, Debug)]
pub struct Payload {
    pub id: i32,
}

} // verus!
