use vstd::prelude::*;

verus! {

/// Input of the archive mutation: which threads to move, for whom, and to
/// which archived state.
#[derive(Clone, Debug)]
pub struct Payload {
    pub ids: Vec<i32>,
    pub user_id: i32,
    pub archived: bool,
}

} // verus!
