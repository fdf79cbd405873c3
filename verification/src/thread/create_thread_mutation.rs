use vstd::prelude::*;

verus! {

/// Input of the thread-opening mutation: on which object, with which title
/// and first comment, by whom, and whether the author subscribes.
#[derive(Clone, Debug)]
pub struct Payload {
    pub title: String,
    pub content: String,
    pub object_id: i32,
    pub user_id: i32,
    pub subscribe: bool,
    pub send_email: bool,
}

} // verus!
