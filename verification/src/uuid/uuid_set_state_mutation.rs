use vstd::prelude::*;

verus! {

/// Input of the trash/restore mutation over addressed objects.
#[derive(Clone, Debug)]
pub struct Payload {
    pub ids: Vec<i32>,
    pub user_id: i32,
    pub trashed: bool,
}

/// Its output: only that the batch went through.
#[derive(Clone, Copy, Debug)]
pub struct Output {
    pub success: bool,
}

} // verus!
